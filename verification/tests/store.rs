use kettd::datetime::{Day, Wall};
use kettd::legacy::HistoryItem;
use kettd::models::{AppData, StickyNote, Task, TRASH_RETENTION_DAYS};
use kettd::service::{history_stats, task_stats_at};
use kettd::store::{reminder_key, task_key, Store};

fn mem_store() -> Store {
    let mut store = Store::new();
    store.data = AppData::default();
    store
}

#[test]
fn purge_expired_recycles_only_purged_task_keys_and_keeps_the_rest() {
    let mut store = mem_store();
    let mut old = Task::default();
    old.id = "t-old".to_string();
    old.deleted_at = Some("2026-07-05T09:00".to_string());
    store.data.tasks.push(old);
    let mut keep = Task::default();
    keep.id = "t-keep".to_string();
    keep.deleted_at = Some("2026-09-04T09:00".to_string());
    store.data.tasks.push(keep);
    store.runtime.fired = vec![
        task_key("t-old", "2026-09-01T09:00"),
        task_key("t-keep", "2026-09-01T09:00"),
        reminder_key("r-1", "2026-09-01T09:00"),
    ];
    let now = Wall { date: Day { year: 2026, month: 9, day: 5 }, hour: 9, minute: 0, second: 0 };
    let dropped = store.purge_expired(TRASH_RETENTION_DAYS, &now);
    assert_eq!(dropped, 1, "只应清掉过期的软删任务");
    assert_eq!(
        store.runtime.fired,
        vec![task_key("t-keep", "2026-09-01T09:00"), reminder_key("r-1", "2026-09-01T09:00")],
        "只回收被清任务自己的键；在世任务与提醒的键一个不能少，否则会重复补发提醒"
    );
}

#[test]
fn purge_task_recycles_its_own_fired_keys() {
    let mut store = mem_store();
    let mut gone = Task::default();
    gone.id = "t-gone".to_string();
    gone.deleted_at = Some("2026-09-01T10:00".to_string());
    store.data.tasks.push(gone);
    store.runtime.fired = vec![task_key("t-gone", "2026-09-01T09:00"), reminder_key("r-1", "2026-09-01T09:00")];
    let removed = store.purge_task("t-gone").expect("回收站里的任务应可彻底清除");
    assert_eq!(removed.id, "t-gone");
    assert_eq!(store.runtime.fired, vec![reminder_key("r-1", "2026-09-01T09:00")], "彻底清除后该任务的 fired 键必须回收");
}

#[test]
fn sticky_window_finds_its_note() {
    let mut store = mem_store();
    let mut note = StickyNote::default();
    note.id = "n1".to_string();
    note.content = "草稿".to_string();
    note.mini = true;
    store.data.stickies.push(note);
    let me = store.sticky_self("note:n1").unwrap();
    assert_eq!((me.id.as_str(), me.content.as_str(), me.mini), ("n1", "草稿", true));
    assert_eq!(store.sticky_self("main").err(), Some("不是便签窗口".to_string()));
    assert_eq!(store.sticky_self("note:n9").err(), Some("找不到这张便签".to_string()));
}

fn history(action: &str, target: &str) -> HistoryItem {
    HistoryItem {
        id: String::new(),
        action: action.to_string(),
        target_type: target.to_string(),
        target_id: String::new(),
        target_title: String::new(),
        detail: String::new(),
        timestamp: String::new(),
    }
}

fn count(stats: &[(String, usize)], key: &str) -> Option<usize> {
    stats.iter().find(|(k, _)| k == key).map(|(_, v)| *v)
}

#[test]
fn history_stats_count_actions_targets_and_total() {
    let h = vec![history("add", "task"), history("delete", "task"), history("add", "reminder")];
    let stats = history_stats(&h);
    assert_eq!(count(&stats, "add"), Some(2));
    assert_eq!(count(&stats, "task"), Some(2));
    assert_eq!(count(&stats, "reminder"), Some(1));
    assert_eq!(count(&stats, "total"), Some(3));
    assert_eq!(count(&stats, "update"), None);
}

fn legacy_task(category: &str, priority: &str, due: &str, completed: bool) -> kettd::legacy::Task {
    kettd::legacy::Task {
        id: String::new(),
        title: "t".to_string(),
        description: String::new(),
        category: category.to_string(),
        priority: priority.to_string(),
        due_date: due.to_string(),
        completed,
        subtasks: Vec::new(),
        notes: Vec::new(),
        created_at: String::new(),
        updated_at: String::new(),
    }
}

#[test]
fn task_stats_count_overdue_and_due_today() {
    let tasks = vec![
        legacy_task("work", "high", "2026-09-01 10:00", false),
        legacy_task("work", "low", "2026-09-06", false),
        legacy_task("life", "high", "2026-09-01", true),
        legacy_task("life", "medium", "明天", false),
    ];
    let s = task_stats_at(&tasks, "2026-09-06");
    assert_eq!((s.total, s.completed, s.pending, s.overdue, s.today), (4, 1, 3, 1, 1));
    assert_eq!(count(&s.by_category, "work"), Some(2));
    assert_eq!(count(&s.by_priority, "high"), Some(2));
    assert_eq!(count(&s.by_priority, "medium"), Some(1));
}

#[test]
fn delete_then_undo_gives_the_task_back() {
    let mut store = mem_store();
    let mut task = Task::default();
    task.id = "t-1".to_string();
    task.title = "写周报".to_string();
    task.updated_at = "2026-09-01T08:00".to_string();
    store.data.tasks.push(task.clone());
    let trashed = store.soft_delete_task("t-1", "2026-09-02T09:00").unwrap();
    assert_eq!(trashed.deleted_at.as_deref(), Some("2026-09-02T09:00"));
    let back = store.undo_last("2026-09-02T09:01").unwrap().unwrap();
    assert_eq!(back.deleted_at, None);
    assert_eq!(back.title, "写周报");
    assert_eq!(back.updated_at, "2026-09-02T09:01");
    assert_eq!(store.data.tasks.len(), 1);
    assert_eq!(store.data.tasks[0].deleted_at, None);
    assert_eq!(store.data.tasks[0].title, task.title);
    assert!(store.undo.is_empty());
}

#[test]
fn coerce_repairs_unusable_settings_and_a_second_pass_changes_nothing() {
    let mut settings = kettd::models::Settings::default();
    settings.theme = "  ".to_string();
    settings.capture_hotkey = String::new();
    settings.sticky_paper = "gold".to_string();
    settings.sticky_pattern = "stripes".to_string();
    settings.sticky_fade_opacity = 5;
    settings.main_hotkey = Some(" ".to_string());
    settings.remind_cap_per_hour = 0;
    settings.dnd.from = "25:99".to_string();
    settings.coerce();
    assert_eq!(settings.theme, "float");
    assert_eq!(settings.capture_hotkey, "Alt+Shift+A");
    assert_eq!(settings.sticky_paper, "warm");
    assert_eq!(settings.sticky_pattern, "none");
    assert_eq!(settings.sticky_fade_opacity, 38);
    assert_eq!(settings.main_hotkey, None);
    assert_eq!(settings.remind_cap_per_hour, 3);
    assert_eq!(settings.dnd.from, "23:00");
    let once = settings.clone();
    settings.coerce();
    assert_eq!(settings, once);
}

#[test]
fn file_stems_are_clean_and_cleaning_twice_changes_nothing() {
    let once = kettd::store::safe_file_stem("--周汇总: 2026/W36 ** 草稿--");
    assert_eq!(once, "周汇总-2026-W36-草稿");
    assert_eq!(kettd::store::safe_file_stem(&once), once);
    assert_eq!(kettd::store::safe_file_stem("///"), "week-export");
}

#[test]
fn fired_keys_start_with_their_record_prefix() {
    assert_eq!(task_key("t1", "2026-09-01T09:00"), format!("{}{}", task_key("t1", ""), "2026-09-01T09:00"));
    assert_eq!(reminder_key("r1", "09:00"), "r|r1|09:00");
    assert_ne!(task_key("x", "s"), reminder_key("x", "s"));
}

#[test]
fn a_record_prefix_matches_its_own_keys_only() {
    let prefix = task_key("t1", "");
    assert!(task_key("t1", "2026-09-01T09:00").starts_with(&prefix));
    assert!(!task_key("t10", "2026-09-01T09:00").starts_with(&prefix));
    assert!(!reminder_key("t1", "2026-09-01T09:00").starts_with(&prefix));
    assert!(!task_key("t1", "x").starts_with(&reminder_key("t1", "")));
}
