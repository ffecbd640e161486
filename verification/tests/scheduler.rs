use kettd::datetime::{Day, Wall};
use kettd::models::{Reminder, Repeat, StoreEvent, Task};
use kettd::scheduler::{apply, body_of, collect, finish_delivery, plan_tick, Due, NightState, Outcome, Plan};
use kettd::store::{Store, HEALTH_CORRUPT};

fn wall(y: i32, mo: u32, d: u32, h: u32, mi: u32) -> Wall {
    Wall { date: Day { year: y, month: mo, day: d }, hour: h, minute: mi, second: 0 }
}

fn stamp(w: &Wall) -> String {
    format!("{:04}-{:02}-{:02}T{:02}:{:02}", w.date.year, w.date.month, w.date.day, w.hour, w.minute)
}

fn reminder(id: &str, time: &str) -> Reminder {
    Reminder {
        id: id.to_string(),
        title: format!("提醒 {}", id),
        time: time.to_string(),
        category: "生活".to_string(),
        enabled: true,
        completed: false,
        repeat: Repeat::Never,
        last_fired: None,
        snoozed_until: None,
        legacy: false,
    }
}

fn store_with(reminders: Vec<Reminder>, fired: Vec<String>) -> Store {
    let mut store = Store::new();
    store.data.reminders = reminders;
    store.runtime.fired = fired;
    store
}

fn keys(dues: &[Due]) -> Vec<String> {
    dues.iter().map(|d| d.key.clone()).collect()
}

fn tick_clock() -> Wall {
    wall(2026, 9, 5, 9, 0)
}

/// Shows every notification and remembers what it showed.
struct RecordingNotifier {
    bodies: Vec<String>,
}

fn deliver(notifier: &mut RecordingNotifier, plan: Plan) -> Outcome {
    for body in plan.batches.iter() {
        notifier.bodies.push(body.clone());
    }
    let mut shown = 0usize;
    for due in plan.fires.iter() {
        notifier.bodies.push(body_of(due));
        shown += 1;
    }
    finish_delivery(plan, shown)
}

fn apply_at(store: &mut Store, state: &mut NightState, outcome: Outcome, now: &Wall) -> Vec<StoreEvent> {
    apply(store, state, outcome, now, &stamp(now))
}

#[test]
fn one_shot_key_is_stable_across_days() {
    let store = store_with(vec![reminder("r1", "2026-09-04T08:11")], vec![]);
    let mut day1 = Vec::new();
    let mut day2 = Vec::new();
    collect(&store, &wall(2026, 9, 4, 9, 0), &mut day1);
    collect(&store, &wall(2026, 9, 5, 9, 0), &mut day2);
    assert_eq!(keys(&day1), vec!["r|r1|2026-09-04T08:11".to_string()]);
    assert_eq!(keys(&day1), keys(&day2), "同一条单次提醒在不同日子必须同一键，否则明天会重响");
    assert!(day1[0].one_shot_reminder, "必须走单次分支，否则触发后不会被置 completed");
}

#[test]
fn one_shot_in_the_future_produces_nothing() {
    let store = store_with(vec![reminder("r1", "2026-09-05T20:00")], vec![]);
    let mut dues = Vec::new();
    collect(&store, &wall(2026, 9, 5, 9, 0), &mut dues);
    assert!(dues.is_empty(), "未到点的单次提醒不该产出：{:?}", keys(&dues));
}

#[test]
fn recurring_clock_key_uses_today() {
    let store = store_with(vec![reminder("r2", "09:00")], vec![]);
    let mut dues = Vec::new();
    collect(&store, &wall(2026, 9, 5, 10, 0), &mut dues);
    assert_eq!(keys(&dues), vec!["r|r2|2026-09-05T09:00".to_string()]);
    assert!(!dues[0].one_shot_reminder);
}

#[test]
fn daily_task_key_uses_injected_day() {
    let mut store = store_with(vec![], vec![]);
    let mut t = Task::default();
    t.id = "t1".to_string();
    t.title = "每日站会".to_string();
    t.remind_at = Some("09:30".to_string());
    store.data.tasks.push(t);
    let mut dues = Vec::new();
    collect(&store, &wall(2026, 9, 5, 10, 0), &mut dues);
    assert_eq!(keys(&dues), vec!["t|t1|2026-09-05T09:30".to_string()]);
    assert!(!dues[0].one_shot_task, "HH:MM 是循环语义，不得走单次分支");
}

#[test]
fn multi_clock_recurring_produces_one_due_per_passed_clock() {
    let store = store_with(vec![reminder("r3", "09:00/14:00/20:00")], vec![]);
    let mut dues = Vec::new();
    collect(&store, &wall(2026, 9, 5, 15, 0), &mut dues);
    assert_eq!(
        keys(&dues),
        vec!["r|r3|2026-09-05T09:00".to_string(), "r|r3|2026-09-05T14:00".to_string()],
        "只应产出已过的时刻，20:00 还没到"
    );
}

#[test]
fn disabled_reminder_is_not_collected() {
    let mut r = reminder("r4", "09:00");
    r.enabled = false;
    let store = store_with(vec![r], vec![]);
    let mut dues = Vec::new();
    collect(&store, &wall(2026, 9, 5, 10, 0), &mut dues);
    assert!(dues.is_empty());
}

#[test]
fn already_fired_one_shot_never_enters_the_plan() {
    let store = store_with(vec![reminder("r1", "2026-09-04T08:11")], vec!["r|r1|2026-09-04T08:11".to_string()]);
    let mut state = NightState::new();
    state.warmed_up = true;
    let plan = plan_tick(&store, &mut state, &tick_clock()).expect("非 corrupt 应返回计划");
    assert!(plan.fires.is_empty(), "已 fired 的键不该再进通知队列");
    assert!(plan.settles.is_empty(), "已 fired 的键不该再落库");
    assert!(!plan.dirty);
}

#[test]
fn corrupt_store_skips_the_whole_tick() {
    let mut store = store_with(vec![reminder("r1", "09:00")], vec![]);
    store.health = HEALTH_CORRUPT.to_string();
    let mut state = NightState::new();
    assert!(plan_tick(&store, &mut state, &tick_clock()).is_none(), "corrupt 时不发通知也不写库");
}

#[test]
fn hourly_cap_never_over_admits() {
    let mut store = store_with(vec![reminder("r5", "01:00/02:00/03:00")], vec![]);
    store.data.settings.remind_cap_per_hour = 2;
    let mut state = NightState::new();
    state.warmed_up = true;
    let plan = plan_tick(&store, &mut state, &tick_clock()).unwrap();
    assert_eq!(plan.fires.len(), 2, "上限 2 就只放行 2 条，宁少不超");
    assert_eq!(state.queue.len(), 1, "第 3 条应留在队列里等下个 tick");
}

#[test]
fn apply_is_idempotent_when_key_got_fired_in_the_meantime() {
    let mut store = store_with(vec![reminder("r6", "2026-09-04T08:11")], vec!["r|r6|2026-09-04T08:11".to_string()]);
    let mut state = NightState::new();
    let due = Due {
        key: "r|r6|2026-09-04T08:11".to_string(),
        id: "r6".to_string(),
        title: "提醒 r6".to_string(),
        at: wall(2026, 9, 4, 8, 11),
        snoozed: false,
        one_shot_task: false,
        one_shot_reminder: true,
    };
    let outcome = Outcome { settles: vec![(due, false)], shown: 0, dirty: true };
    let events = apply_at(&mut store, &mut state, outcome, &tick_clock());
    assert!(events.is_empty(), "已 fired 的键不该重复产生事件");
    assert_eq!(state.sent.len(), 0);
}

#[test]
fn first_tick_merges_missed_into_one_batch_notification() {
    let mut store = store_with(vec![reminder("r1", "2026-09-04T10:00"), reminder("r2", "2026-09-04T12:00")], vec![]);
    let mut state = NightState::new();
    let clock = wall(2026, 9, 5, 9, 0);
    let mut notifier = RecordingNotifier { bodies: Vec::new() };
    let plan = plan_tick(&store, &mut state, &clock).unwrap();
    assert!(plan.fires.is_empty(), "启动补发合并成一条，不逐条轰炸");
    assert_eq!(plan.batches, vec!["错过 2 条提醒".to_string()]);
    let outcome = deliver(&mut notifier, plan);
    assert_eq!(notifier.bodies, vec!["错过 2 条提醒".to_string()]);
    let events = apply_at(&mut store, &mut state, outcome, &clock);
    assert_eq!(events.len(), 2);
    assert!(events.iter().all(|event| event.kind == "missed"));
    assert!(store.data.reminders.iter().all(|item| item.completed), "单次提醒补发后必须置 completed，否则永远重响");
    assert_eq!(store.runtime.fired.len(), 2, "补发也记 fired 键");
}

#[test]
fn dnd_silences_then_merges_after_window_ends() {
    let mut store = store_with(vec![reminder("r1", "23:10")], vec![]);
    let mut state = NightState::new();
    let mut notifier = RecordingNotifier { bodies: Vec::new() };
    let clock = wall(2026, 9, 5, 10, 0);
    let warm = plan_tick(&store, &mut state, &clock).unwrap();
    let outcome = deliver(&mut notifier, warm);
    apply_at(&mut store, &mut state, outcome, &clock);
    assert!(notifier.bodies.is_empty());

    let clock = wall(2026, 9, 5, 23, 30);
    let plan = plan_tick(&store, &mut state, &clock).unwrap();
    assert!(plan.fires.is_empty(), "免打扰期间不得逐条发");
    let outcome = deliver(&mut notifier, plan);
    apply_at(&mut store, &mut state, outcome, &clock);
    assert!(notifier.bodies.is_empty(), "免打扰期间零通知");
    assert_eq!(state.quiet, 1, "应静默入账 1 条");
    assert!(store.has_fired("r|r1|2026-09-05T23:10"), "入账也记 fired");

    let clock = wall(2026, 9, 6, 7, 31);
    let plan = plan_tick(&store, &mut state, &clock).unwrap();
    assert_eq!(plan.batches, vec!["免打扰期间有 1 条提醒".to_string()]);
    deliver(&mut notifier, plan);
    assert_eq!(notifier.bodies, vec!["免打扰期间有 1 条提醒".to_string()], "跨午夜出窗后只补一条汇总");
}

#[test]
fn hourly_cap_queues_beyond_budget_and_releases_next_window() {
    let mut store = store_with(vec![reminder("r1", "09:01"), reminder("r2", "09:02")], vec![]);
    store.data.settings.remind_cap_per_hour = 1;
    let mut state = NightState::new();
    state.warmed_up = true;
    let mut notifier = RecordingNotifier { bodies: Vec::new() };

    let clock = wall(2026, 9, 5, 9, 5);
    let plan = plan_tick(&store, &mut state, &clock).unwrap();
    assert_eq!(plan.fires.len(), 1, "上限 1 就只放行 1 条，宁少不超");
    assert_eq!(state.queue.len(), 1, "第 2 条留在队列里");
    let outcome = deliver(&mut notifier, plan);
    apply_at(&mut store, &mut state, outcome, &clock);
    assert_eq!(notifier.bodies.len(), 1);

    let clock = wall(2026, 9, 5, 10, 0);
    let plan = plan_tick(&store, &mut state, &clock).unwrap();
    assert!(plan.fires.is_empty(), "一小时内不得突破上限");
    let outcome = deliver(&mut notifier, plan);
    apply_at(&mut store, &mut state, outcome, &clock);

    let clock = wall(2026, 9, 5, 10, 6);
    let plan = plan_tick(&store, &mut state, &clock).unwrap();
    assert_eq!(plan.fires.len(), 1, "窗口放开后补发排队的那条");
    assert_eq!(plan.fires[0].id, "r2");
    let outcome = deliver(&mut notifier, plan);
    apply_at(&mut store, &mut state, outcome, &clock);
    assert_eq!(notifier.bodies.len(), 2);
}

#[test]
fn missed_beyond_24h_settles_quiet_without_notification() {
    let mut store = store_with(vec![reminder("r1", "2026-09-03T08:00")], vec![]);
    let mut state = NightState::new();
    state.warmed_up = true;
    let clock = wall(2026, 9, 6, 9, 0);
    let mut notifier = RecordingNotifier { bodies: Vec::new() };
    let plan = plan_tick(&store, &mut state, &clock).unwrap();
    assert!(plan.fires.is_empty() && plan.batches.is_empty(), "过期不再打扰");
    assert_eq!(plan.settles.len(), 1);
    let outcome = deliver(&mut notifier, plan);
    let events = apply_at(&mut store, &mut state, outcome, &clock);
    assert!(notifier.bodies.is_empty(), "过期提醒零通知");
    assert_eq!(events.len(), 1);
    assert_eq!(events[0].kind, "missed", "以 missed 语义告知前端");
    assert!(store.has_fired("r|r1|2026-09-03T08:00"), "清账记 fired，不再重响");
}
