use kettd::datetime::{Day, Wall};
use kettd::models::{PatchValue, Reminder, Repeat, SettingsPayload, TaskPayload};
use kettd::reminders::{delete, snooze, toggle};
use kettd::settings::{apply_with_hotkeys, HotkeyPort, HotkeySlot, RecordedHotkeys};
use kettd::tasks;
use kettd::store::{reminder_key, Store};

fn store_with(reminders: Vec<Reminder>) -> Store {
    let mut store = Store::new();
    store.data.reminders = reminders;
    store
}

fn reminder(id: &str, time: &str) -> Reminder {
    Reminder {
        id: id.to_string(),
        title: format!("提醒 {}", id),
        time: time.to_string(),
        category: "生活".to_string(),
        enabled: true,
        completed: false,
        repeat: Repeat::Never,
        last_fired: None,
        snoozed_until: None,
        legacy: false,
    }
}

fn nine_am() -> Wall {
    Wall { date: Day { year: 2026, month: 9, day: 6 }, hour: 9, minute: 0, second: 0 }
}

#[test]
fn toggle_keeps_enabled_and_completed_inverse() {
    let mut store = store_with(vec![reminder("r1", "09:00")]);
    let after = toggle(&mut store, "r1").unwrap();
    assert!(!after.enabled && after.completed, "停用 = completed 置位");
    let back = toggle(&mut store, "r1").unwrap();
    assert!(back.enabled && !back.completed, "重新启用 = 互逆复位");
}

#[test]
fn toggle_on_clears_pending_snooze() {
    let mut store = store_with(vec![reminder("r1", "09:00")]);
    snooze(&mut store, "r1", 10, &nine_am()).unwrap();
    toggle(&mut store, "r1").unwrap();
    let back = toggle(&mut store, "r1").unwrap();
    assert!(back.snoozed_until.is_none(), "重新启用必须清掉挂起的稍后提醒");
}

#[test]
fn snooze_rejects_out_of_range_minutes() {
    let mut store = store_with(vec![reminder("r1", "09:00")]);
    let now = nine_am();
    assert!(snooze(&mut store, "r1", 0, &now).is_err());
    assert!(snooze(&mut store, "r1", 721, &now).is_err());
    let updated = snooze(&mut store, "r1", 720, &now).unwrap();
    assert_eq!(updated.snoozed_until.as_deref(), Some("2026-09-06T21:00"));
    assert!(updated.enabled && !updated.completed, "snooze 拉回启用侧");
}

#[test]
fn delete_recycles_only_its_own_fired_keys() {
    let mut store = store_with(vec![reminder("r1", "09:00")]);
    store.runtime.fired = vec![
        reminder_key("r1", "2026-09-05T09:00"),
        reminder_key("r2", "2026-09-05T09:00"),
        "t|t9|2026-09-05T09:00".to_string(),
    ];
    delete(&mut store, "r1").unwrap();
    assert_eq!(
        store.runtime.fired,
        vec![reminder_key("r2", "2026-09-05T09:00"), "t|t9|2026-09-05T09:00".to_string()],
        "只回收被删提醒自己的键，任务与他人的键一个不能少"
    );
    assert!(delete(&mut store, "r1").is_err(), "重复删除要报错");
}

fn today() -> Day {
    Day { year: 2026, month: 9, day: 6 }
}

fn payload(title: &str, due_at: Option<&str>) -> TaskPayload {
    TaskPayload {
        title: Some(title.to_string()),
        due_at: due_at.map(|text| PatchValue::Text(text.to_string())),
        ..Default::default()
    }
}

#[test]
fn create_rejects_blank_title_without_touching_store() {
    let mut store = Store::new();
    assert!(tasks::add(&mut store, payload("   ", None), "stamp", today()).is_err());
    assert!(store.data.tasks.is_empty(), "失败创建不得留半成品");
}

#[test]
fn create_computes_carried_days_from_injected_today() {
    let mut store = Store::new();
    let task = tasks::add(&mut store, payload("作业", Some("2026-09-04T18:00")), "s", today()).unwrap();
    assert_eq!(task.carried_from, 2);
    let task = tasks::add(&mut store, payload("明天的事", Some("2026-09-07T09:00")), "s", today()).unwrap();
    assert_eq!(task.carried_from, 0);
    let mut args = payload("旧事", Some("2026-08-01T09:00"));
    args.done = Some(true);
    let task = tasks::add(&mut store, args, "s", today()).unwrap();
    assert_eq!(task.carried_from, 0);
}

#[test]
fn update_never_shrinks_carried_days() {
    let mut store = Store::new();
    let task = tasks::add(&mut store, payload("旧账", Some("2026-08-01T09:00")), "s", today()).unwrap();
    assert!(task.carried_from > 30);
    let next = tasks::update(&mut store, &task.id, payload("旧账", Some("2026-09-07T09:00")), "s2", today()).unwrap();
    assert_eq!(next.carried_from, task.carried_from, "拖留只增不减：改截止不清历史");
}

#[test]
fn update_keeps_carried_when_done_or_trashed() {
    let mut store = Store::new();
    let task = tasks::add(&mut store, payload("事项", Some("2026-08-01T09:00")), "s", today()).unwrap();
    let prev = task.carried_from;
    let next = tasks::update(&mut store, &task.id, TaskPayload { done: Some(true), ..Default::default() }, "s2", today())
        .unwrap();
    assert_eq!(next.carried_from, prev, "完成态不重算拖留");
}

/// Hotkeys that always bind, except to `fail_when`, and remember each call.
struct StubHotkeys {
    slots: [Option<String>; 4],
    fail_when: Option<String>,
    calls: Vec<(HotkeySlot, Option<String>)>,
}

impl StubHotkeys {
    fn new() -> Self {
        StubHotkeys { slots: [None, None, None, None], fail_when: None, calls: Vec::new() }
    }

    fn index(slot: HotkeySlot) -> usize {
        match slot {
            HotkeySlot::Capture => 0,
            HotkeySlot::Main => 1,
            HotkeySlot::Sticky => 2,
            HotkeySlot::TodoFloat => 3,
        }
    }
}

impl HotkeyPort for StubHotkeys {
    fn bind(&mut self, slot: HotkeySlot, combo: Option<&str>) -> Result<(), String> {
        self.calls.push((slot, combo.map(str::to_string)));
        let target = combo.map(str::trim).filter(|value| !value.is_empty());
        if let (Some(fail), Some(value)) = (&self.fail_when, target) {
            if fail == value {
                return Err("快捷键被占用，请用备用入口".to_string());
            }
        }
        self.slots[Self::index(slot)] = target.map(str::to_string);
        Ok(())
    }

    fn bound(&self, slot: HotkeySlot) -> Option<String> {
        self.slots[Self::index(slot)].clone()
    }
}

fn mem_store() -> Store {
    let mut store = Store::new();
    store.data.settings.capture_hotkey = "Alt+Shift+A".to_string();
    store.data.settings.theme = "纸白".to_string();
    store
}

fn patch_theme(theme: &str) -> SettingsPayload {
    SettingsPayload { theme: Some(theme.to_string()), ..Default::default() }
}

#[test]
fn theme_only_patch_never_touches_hotkey_slots() {
    let mut store = mem_store();
    let mut hotkeys = RecordedHotkeys::new(StubHotkeys::new());
    apply_with_hotkeys(&mut store, &patch_theme("石墨"), &mut hotkeys).unwrap();
    assert_eq!(store.data.settings.theme, "石墨");
    assert!(hotkeys.port.calls.is_empty(), "热键没变就不得触碰 OS 绑定");
}

#[test]
fn capture_conflict_rolls_back_every_field() {
    let mut store = mem_store();
    let mut hotkeys = RecordedHotkeys::new(StubHotkeys::new());
    hotkeys.port.fail_when = Some("Ctrl+Shift+C".to_string());
    let patch = SettingsPayload {
        theme: Some("石墨".to_string()),
        capture_hotkey: Some("Ctrl+Shift+C".to_string()),
        ..Default::default()
    };
    let error = apply_with_hotkeys(&mut store, &patch, &mut hotkeys).unwrap_err();
    assert!(error.contains("占用"), "失败要给可展示的中文短句：{error}");
    let settings = &store.data.settings;
    assert_eq!(settings.theme, "纸白", "主题回滚");
    assert_eq!(settings.capture_hotkey, "Alt+Shift+A", "捕获键回滚");
}

#[test]
fn main_conflict_rolls_back_and_restores_previous_capture_binding() {
    let mut store = mem_store();
    store.data.settings.main_hotkey = Some("Alt+Shift+O".to_string());
    let mut hotkeys = RecordedHotkeys::new(StubHotkeys::new());
    hotkeys.port.fail_when = Some("Ctrl+Shift+O".to_string());
    let patch = SettingsPayload {
        capture_hotkey: Some("Alt+Shift+Q".to_string()),
        main_hotkey: Some("Ctrl+Shift+O".to_string()),
        ..Default::default()
    };
    assert!(apply_with_hotkeys(&mut store, &patch, &mut hotkeys).is_err());
    assert_eq!(
        hotkeys.port.calls,
        vec![
            (HotkeySlot::Capture, Some("Alt+Shift+Q".to_string())),
            (HotkeySlot::Main, Some("Ctrl+Shift+O".to_string())),
            (HotkeySlot::Capture, Some("Alt+Shift+A".to_string())),
        ],
        "捕获键先换新 → 主键失败 → 把捕获键还原回旧值（两槽位一个事务）"
    );
    assert_eq!(store.data.settings.capture_hotkey, "Alt+Shift+A");
    assert_eq!(store.data.settings.main_hotkey, Some("Alt+Shift+O".to_string()), "主键回滚到换绑前的值");
}

#[test]
fn invalid_patch_rejected_before_any_hotkey_call() {
    let mut store = mem_store();
    let mut hotkeys = RecordedHotkeys::new(StubHotkeys::new());
    let patch = SettingsPayload {
        theme: Some("  ".to_string()),
        capture_hotkey: Some("Ctrl+Shift+C".to_string()),
        ..Default::default()
    };
    assert!(apply_with_hotkeys(&mut store, &patch, &mut hotkeys).is_err());
    assert!(hotkeys.port.calls.is_empty(), "校验失败不碰 OS");
    assert_eq!(store.data.settings.capture_hotkey, "Alt+Shift+A");
}

#[test]
fn unbinding_main_hotkey_is_a_valid_operation() {
    let mut store = mem_store();
    store.data.settings.main_hotkey = Some("Alt+Shift+O".to_string());
    let mut hotkeys = RecordedHotkeys::new(StubHotkeys::new());
    let patch = SettingsPayload { main_hotkey: Some("".to_string()), ..Default::default() };
    apply_with_hotkeys(&mut store, &patch, &mut hotkeys).unwrap();
    assert_eq!(store.data.settings.main_hotkey, None);
    assert_eq!(hotkeys.bound(HotkeySlot::Main), None, "空串=解绑，槽位清空");
}

#[test]
fn sticky_conflict_rolls_back_all_preceding_slots() {
    let mut store = mem_store();
    store.data.settings.sticky_hotkey = Some("Alt+Shift+S".to_string());
    let mut hotkeys = RecordedHotkeys::new(StubHotkeys::new());
    hotkeys.port.fail_when = Some("Ctrl+Shift+S".to_string());
    let patch = SettingsPayload {
        capture_hotkey: Some("Alt+Shift+Q".to_string()),
        sticky_hotkey: Some("Ctrl+Shift+S".to_string()),
        ..Default::default()
    };
    assert!(apply_with_hotkeys(&mut store, &patch, &mut hotkeys).is_err());
    assert_eq!(
        hotkeys.port.calls,
        vec![
            (HotkeySlot::Capture, Some("Alt+Shift+Q".to_string())),
            (HotkeySlot::Sticky, Some("Ctrl+Shift+S".to_string())),
            (HotkeySlot::Capture, Some("Alt+Shift+A".to_string())),
        ],
        "捕获键先换新 → 便签键失败 → 把捕获键还原（三槽位一个事务）"
    );
    assert_eq!(store.data.settings.capture_hotkey, "Alt+Shift+A");
    assert_eq!(store.data.settings.sticky_hotkey, Some("Alt+Shift+S".to_string()), "便签键回滚到换绑前的值");
}

#[test]
fn unbinding_sticky_hotkey_is_a_valid_operation() {
    let mut store = mem_store();
    store.data.settings.sticky_hotkey = Some("Alt+Shift+S".to_string());
    let mut hotkeys = RecordedHotkeys::new(StubHotkeys::new());
    let patch = SettingsPayload { sticky_hotkey: Some("".to_string()), ..Default::default() };
    apply_with_hotkeys(&mut store, &patch, &mut hotkeys).unwrap();
    assert_eq!(store.data.settings.sticky_hotkey, None);
    assert_eq!(hotkeys.bound(HotkeySlot::Sticky), None, "空串=解绑");
}

#[test]
fn todo_conflict_rolls_back_all_preceding_slots() {
    let mut store = mem_store();
    store.data.settings.todo_hotkey = Some("Alt+Shift+T".to_string());
    let mut hotkeys = RecordedHotkeys::new(StubHotkeys::new());
    hotkeys.port.fail_when = Some("Ctrl+Shift+T".to_string());
    let patch = SettingsPayload {
        capture_hotkey: Some("Alt+Shift+Q".to_string()),
        sticky_hotkey: Some("Ctrl+Shift+Z".to_string()),
        todo_hotkey: Some("Ctrl+Shift+T".to_string()),
        ..Default::default()
    };
    assert!(apply_with_hotkeys(&mut store, &patch, &mut hotkeys).is_err());
    assert_eq!(
        hotkeys.port.calls,
        vec![
            (HotkeySlot::Capture, Some("Alt+Shift+Q".to_string())),
            (HotkeySlot::Sticky, Some("Ctrl+Shift+Z".to_string())),
            (HotkeySlot::TodoFloat, Some("Ctrl+Shift+T".to_string())),
            (HotkeySlot::Capture, Some("Alt+Shift+A".to_string())),
            (HotkeySlot::Sticky, Some("Alt+Shift+S".to_string())),
        ],
        "捕获/便签先换新 → 待办键失败 → 把变更过的槽位按序还原"
    );
    assert_eq!(store.data.settings.capture_hotkey, "Alt+Shift+A");
    assert_eq!(store.data.settings.sticky_hotkey, Some("Alt+Shift+S".to_string()));
    assert_eq!(store.data.settings.todo_hotkey, Some("Alt+Shift+T".to_string()), "待办键回滚到换绑前的值");
}

#[test]
fn unbinding_todo_hotkey_is_a_valid_operation() {
    let mut store = mem_store();
    store.data.settings.todo_hotkey = Some("Alt+Shift+T".to_string());
    let mut hotkeys = RecordedHotkeys::new(StubHotkeys::new());
    let patch = SettingsPayload { todo_hotkey: Some("".to_string()), ..Default::default() };
    apply_with_hotkeys(&mut store, &patch, &mut hotkeys).unwrap();
    assert_eq!(store.data.settings.todo_hotkey, None);
    assert_eq!(hotkeys.bound(HotkeySlot::TodoFloat), None, "空串=解绑");
}

#[test]
fn a_dated_time_is_one_shot_and_clock_times_recur() {
    let mut r = Reminder::default();
    r.time = "2026-09-04T08:11".to_string();
    r.repeat = Repeat::Never;
    assert!(!kettd::models::is_recurring(&r));
    r.time = "10:00/14:00".to_string();
    assert!(kettd::models::is_recurring(&r));
    r.time = "2026-09-04T08:11".to_string();
    r.repeat = Repeat::Daily;
    assert!(kettd::models::is_recurring(&r));
}

#[test]
fn a_failed_rebinding_rolls_back_the_whole_settings_change() {
    let mut store = mem_store();
    let before = store.data.settings.clone();
    let mut hotkeys = RecordedHotkeys::new(StubHotkeys::new());
    hotkeys.port.fail_when = Some("Ctrl+Shift+C".to_string());
    let patch = SettingsPayload {
        remind_cap_per_hour: Some(10),
        onboarded: Some(true),
        capture_hotkey: Some("Ctrl+Shift+C".to_string()),
        ..Default::default()
    };
    assert!(apply_with_hotkeys(&mut store, &patch, &mut hotkeys).is_err());
    assert_eq!(store.data.settings, before);
    assert_eq!(hotkeys.port.calls, vec![(HotkeySlot::Capture, Some("Ctrl+Shift+C".to_string()))]);
}

#[test]
fn ids_made_in_one_burst_all_differ() {
    let ids: Vec<String> = (0..2000).map(|_| kettd::models::new_id("n")).collect();
    let mut sorted = ids.clone();
    sorted.sort();
    sorted.dedup();
    assert_eq!(sorted.len(), ids.len());
    assert!(ids.iter().all(|id| id.starts_with('n') && id.len() > 14));
}

#[test]
fn an_id_is_its_prefix_a_millisecond_time_and_thirty_two_hex_digits() {
    let id = kettd::models::new_id("t");
    let rest = &id[1..];
    assert!(id.starts_with('t'));
    let (time, hex) = rest.split_at(rest.len() - 32);
    assert!(time.parse::<i64>().is_ok(), "{}", id);
    assert!(hex.chars().all(|c| c.is_ascii_digit() || ('a'..='f').contains(&c)), "{}", id);
}
