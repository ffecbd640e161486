use kettd::datetime::{clocks_of, fmt_day, Day};
use kettd::json::{Json, Number};
use kettd::load::{doc_kind, load_step, prepare, DocKind, LoadAction, LoadEvent};
use kettd::migration::{migrate_v1, migrate_v1_at};
use kettd::models::{today, AppData, MigrationIssue, MigrationReport, RuntimeState};
use kettd::schema::{is_legacy_schema, looks_like_v1, normalize_stickies_v3, split_schema};
use kettd::store::{Store, ARCHIVE_FILE};

fn to_json(v: &serde_json::Value) -> Json {
    match v {
        serde_json::Value::Null => Json::Null,
        serde_json::Value::Bool(b) => Json::Bool(*b),
        serde_json::Value::Number(n) => {
            if let Some(u) = n.as_u64() {
                Json::Number(Number::PosInt(u))
            } else if let Some(i) = n.as_i64() {
                Json::Number(Number::NegInt(i))
            } else {
                Json::Number(Number::Float(n.to_string()))
            }
        }
        serde_json::Value::String(s) => Json::Str(s.clone()),
        serde_json::Value::Array(items) => Json::Array(items.iter().map(to_json).collect()),
        serde_json::Value::Object(map) => Json::Object(map.iter().map(|(k, x)| (k.clone(), to_json(x))).collect()),
    }
}

fn to_value(v: &Json) -> serde_json::Value {
    match v {
        Json::Null => serde_json::Value::Null,
        Json::Bool(b) => serde_json::Value::Bool(*b),
        Json::Number(Number::PosInt(u)) => serde_json::Value::from(*u),
        Json::Number(Number::NegInt(i)) => serde_json::Value::from(*i),
        Json::Number(Number::Float(t)) => serde_json::Value::Number(t.parse().unwrap()),
        Json::Str(s) => serde_json::Value::String(s.clone()),
        Json::Array(items) => serde_json::Value::Array(items.iter().map(to_value).collect()),
        Json::Object(fields) => serde_json::Value::Object(fields.iter().map(|(k, x)| (k.clone(), to_value(x))).collect()),
    }
}

fn dup(v: &Json) -> Json {
    to_json(&to_value(v))
}

fn doc(text: &str) -> Json {
    to_json(&serde_json::from_str(text).unwrap())
}

fn v1_doc(tasks: &str, reminders: &str) -> Json {
    doc(&format!(r#"{{ "tasks": {}, "reminders": {}, "theme": "纸白" }}"#, tasks, reminders))
}

fn migrate(tasks: &str, reminders: &str) -> (AppData, MigrationReport) {
    migrate_v1(&v1_doc(tasks, reminders), None).expect("fixture 迁移不应失败")
}

fn issue_for<'a>(report: &'a MigrationReport, field: &str) -> Option<&'a MigrationIssue> {
    report.issues.iter().find(|item| item.field == field)
}

fn at<'a>(v: &'a Json, key: &str) -> &'a Json {
    v.get(key).unwrap_or(&Json::Null)
}

fn item(v: &Json, i: usize) -> &Json {
    match v {
        Json::Array(items) => &items[i],
        _ => &Json::Null,
    }
}

fn text(v: &Json) -> Option<&str> {
    match v {
        Json::Str(s) => Some(s.as_str()),
        _ => None,
    }
}

fn days_ago(n: i64) -> String {
    (chrono::Local::now().date_naive() - chrono::Duration::days(n)).format("%Y-%m-%d").to_string()
}

#[test]
fn rule0_detects_v1_by_absent_settings_object() {
    assert!(looks_like_v1(&v1_doc("[]", "[]")));
    assert!(!looks_like_v1(&doc(r#"{ "settings": { "theme": "float" }, "tasks": [] }"#)));
    assert!(looks_like_v1(&doc(r#"{ "tasks": [] }"#)));
}

#[test]
fn rule3_maps_snake_case_fields_to_camel_case() {
    let (data, _report) = migrate(
        r#"[{
            "id": "t1",
            "title": "取快递",
            "description": "柜机 B 栋",
            "due_date": "2026-08-29 18:00",
            "created_at": "2026-08-01T09:00",
            "completed": false,
            "subtasks": [{ "id": "s1", "title": "带小票", "completed": true }],
            "notes": [{ "id": "n1", "author": "我", "content": "备注一", "created_at": "2026-08-02T10:00" }]
        }]"#,
        "[]",
    );
    let task = &data.tasks[0];
    assert_eq!(task.note.as_str(), "柜机 B 栋", "description → note");
    assert_eq!(task.due_at.as_deref(), Some("2026-08-29T18:00"), "due_date → dueAt 且空格制式转 T 制式");
    assert_eq!(task.created_at.as_str(), "2026-08-01T09:00", "created_at → createdAt");
    assert_eq!(task.subtasks.len(), 1);
    assert!(task.subtasks[0].done, "subtasks[].completed → done");
    assert_eq!(task.notes[0].created_at.as_str(), "2026-08-02T10:00");
}

#[test]
fn rule4_nulls_unparsable_time_and_counts_it() {
    let (data, report) = migrate(r#"[{ "id": "t1", "title": "坏时间", "due_date": "昨天下午", "completed": false }]"#, "[]");
    assert_eq!(data.tasks[0].due_at, None, "解析失败必须置 null，不许猜");
    assert_eq!(report.invalid_dates, 1);
    let issue = issue_for(&report, "dueAt").expect("必须留痕");
    assert!(issue.action.contains("无法解析"), "留痕要说明处置：{}", issue.action);
    assert_eq!(issue.raw, "昨天下午");
}

#[test]
fn rule5_completed_without_done_at_is_marked_legacy_not_faked() {
    let (data, report) = migrate(r#"[{ "id": "t1", "title": "老完成项", "completed": true }]"#, "[]");
    let task = &data.tasks[0];
    assert!(task.done, "v1 completed → done");
    assert_eq!(task.done_at, None, "绝不伪造完成时刻");
    assert!(task.legacy, "缺完成时刻要标 legacy");
    assert_eq!(report.legacy_done, 1);
}

#[test]
fn rule6_remaps_personal_category_and_medium_priority_with_trail() {
    let (data, report) = migrate(
        r#"[{ "id": "t1", "title": "枚举归一", "category": "个人", "priority": "medium", "completed": false }]"#,
        "[]",
    );
    assert_eq!(data.tasks[0].category, "生活");
    assert_eq!(data.tasks[0].priority, "med");
    assert!(issue_for(&report, "category").unwrap().action.contains("生活"));
    assert!(issue_for(&report, "priority").unwrap().action.contains("med"));
}

#[test]
fn rule6_falls_back_unknown_category_without_losing_task() {
    let (data, report) = migrate(r#"[{ "id": "t1", "title": "怪分类", "category": "宇宙", "completed": false }]"#, "[]");
    assert_eq!(data.tasks[0].category, "生活");
    assert!(issue_for(&report, "category").unwrap().action.contains("回落"));
}

#[test]
fn rule7_carries_overdue_open_task_to_today_once() {
    let past = days_ago(3);
    let (data, _report) = migrate(
        &format!(r#"[{{ "id": "t1", "title": "拖了三天", "due_date": "{}", "completed": false }}]"#, past),
        "[]",
    );
    let task = &data.tasks[0];
    assert_eq!(task.planned_date.as_deref(), Some(fmt_day(&today()).as_str()), "逾期未完成要一次性粘到今天");
    assert_eq!(task.carried_from, 3, "拖留天数一次算清，后续不再自算第二套口径");
}

#[test]
fn rule7_does_not_touch_done_or_trashed_tasks() {
    let past = days_ago(5);
    let (data, _report) = migrate(
        &format!(
            r#"[
                {{ "id": "t1", "title": "已完成", "due_date": "{p}", "completed": true, "done_at": "2026-01-01T10:00" }},
                {{ "id": "t2", "title": "在回收站", "due_date": "{p}", "completed": false, "deleted_at": "2026-01-02T10:00" }}
            ]"#,
            p = past
        ),
        "[]",
    );
    assert_eq!(data.tasks[0].planned_date, None, "已完成的不该被塞进今天");
    assert_eq!(data.tasks[1].planned_date, None, "回收站里的不该被塞进今天");
}

#[test]
fn rule8_keeps_recurring_and_multi_clock_times_verbatim() {
    let (data, report) = migrate(
        "[]",
        r#"[
            { "id": "r1", "title": "单次", "time": "2026-09-05 08:30", "completed": false },
            { "id": "r2", "title": "每天", "time": "09:00", "completed": false },
            { "id": "r3", "title": "多时刻", "time": "10:00/14:00/16:00", "completed": true }
        ]"#,
    );
    assert_eq!(data.reminders[0].time, "2026-09-05T08:30", "空格制式仍要归一为 T 制式");
    assert_eq!(data.reminders[1].time, "09:00");
    assert_eq!(data.reminders[2].time, "10:00/14:00/16:00", "v1 多时刻必须原样保留 —— 降级为单时刻等于改用户数据");
    assert_eq!(clocks_of(&data.reminders[2].time).len(), 3);
    assert!(!data.reminders[2].enabled, "completed → enabled 取反");
    assert!(!data.reminders[2].completed, "v1 的 completed 不映射为 v2 completed");
    assert!(data.reminders[2].legacy, "迁移来的提醒一律标 legacy");
    assert_eq!(report.reminder_count, 3);
}

#[test]
fn rule9_v1_theme_string_falls_back_to_float_with_trail() {
    let (data, report) = migrate("[]", "[]");
    assert_eq!(data.settings.theme, "float");
    let issue = issue_for(&report, "theme").expect("主题语义变更必须留痕");
    assert_eq!(issue.raw, "纸白");
}

#[test]
fn rule9_carries_over_v1_hotkey_and_clamps_cap() {
    let raw = doc(
        r#"{ "tasks": [], "reminders": [], "theme": "纸白",
             "captureHotkey": "  Ctrl+Alt+K  ", "remindCapPerHour": 999, "onboarded": true }"#,
    );
    let (data, _report) = migrate_v1(&raw, None).unwrap();
    assert_eq!(data.settings.capture_hotkey, "Ctrl+Alt+K", "两端空格要清掉");
    assert_eq!(data.settings.remind_cap_per_hour, 60, "超上限要夹住而不是写花库");
    assert!(data.settings.onboarded);
}

#[test]
fn sticky_separation_drops_todo_notes_and_lifts_hidden_to_mini() {
    let mut raw = doc(
        r#"{
          "stickies": [
            { "id": "n1", "kind": "todo", "content": "", "pinned": true, "hidden": false,
              "createdAt": "2026-09-01T10:00:00", "updatedAt": "2026-09-01T10:00:00" },
            { "id": "n2", "kind": "free", "content": "草稿", "pinned": true, "hidden": true,
              "createdAt": "2026-09-01T10:00:00", "updatedAt": "2026-09-01T10:00:00" },
            { "id": "n3", "kind": "free", "content": "常驻", "pinned": false, "hidden": false,
              "createdAt": "2026-09-01T10:00:00", "updatedAt": "2026-09-01T10:00:00" },
            { "id": "n4", "content": "已是新形态", "mini": true,
              "createdAt": "2026-09-01T10:00:00", "updatedAt": "2026-09-01T10:00:00" }
          ]
        }"#,
    );
    assert!(normalize_stickies_v3(&mut raw), "旧形态必须判定为有变化");
    let list = match at(&raw, "stickies") {
        Json::Array(items) => items.iter().map(dup).collect::<Vec<Json>>(),
        _ => panic!("stickies 必须还是数组"),
    };
    assert_eq!(list.len(), 3, "todo 镜像便签必须丢弃（内容活在 tasks，零损失）");
    assert_eq!(text(at(&list[0], "id")), Some("n2"));
    assert_eq!(at(&list[0], "mini"), &Json::Bool(true), "hidden=true（收起）升格为 mini=true（缩小悬浮条）");
    assert!(
        list[0].get("hidden").is_none() && list[0].get("pinned").is_none() && list[0].get("kind").is_none(),
        "退役字段必须清干净，避免下次加载再次判定变化"
    );
    assert_eq!(text(at(&list[0], "content")), Some("草稿"), "正文零损失");
    assert_eq!(text(at(&list[1], "id")), Some("n3"));
    assert!(list[1].get("mini").is_none(), "展开态不引入 mini 字段（skip 序列化语义）");
    assert_eq!(text(at(&list[2], "id")), Some("n4"), "新形态便签原样保留");
    assert!(!normalize_stickies_v3(&mut raw), "迁移必须幂等（重复加载不再变化）");
}

#[test]
fn rule10_non_list_tasks_must_error_not_silently_empty() {
    let err = migrate_v1(&doc(r#"{ "tasks": { "not": "a list" }, "theme": "纸白" }"#), None)
        .expect_err("结构不可还原必须走 Err → corrupt 通道");
    assert!(err.contains("不是列表"), "错误要能直接显示给用户：{}", err);
    let err2 = migrate_v1(&doc(r#"{ "reminders": 42, "theme": "纸白" }"#), None).expect_err("reminders 非列表同样要报错");
    assert!(err2.contains("不是列表"));
}

#[test]
fn zero_loss_dropped_entries_leave_a_trail() {
    let (data, report) = migrate(
        r#"["我是脏数据",
            { "id": "t1", "title": "好任务1", "completed": false },
            { "id": "t2", "title": "好任务2", "completed": false }]"#,
        "[]",
    );
    assert_eq!(data.tasks.len(), 2);
    assert_eq!(report.task_count, 2);
    assert!(report.issues.iter().any(|item| item.field == "tasks"), "丢弃的每一条都要留痕，否则「零丢失」不可核对");
}

#[test]
fn empty_v1_document_migrates_cleanly_without_panicking() {
    let (data, report) = migrate("[]", "[]");
    assert!(data.tasks.is_empty());
    assert!(data.reminders.is_empty());
    assert_eq!(report.task_count, 0);
    assert_eq!(report.invalid_dates, 0);
}

#[test]
fn report_points_at_the_immutable_v1_archive_name() {
    let (_data, report) = migrate("[]", "[]");
    assert_eq!(report.archived_to, ARCHIVE_FILE);
    assert_eq!(ARCHIVE_FILE, "data.v1.json", "原件留档名是对用户的承诺");
}

#[test]
fn dropped_entries_keep_their_json_text() {
    let (_data, report) = migrate(r#"[42, "脏", {"id": "t1", "title": "好", "subtasks": [true]}]"#, "[]");
    let raws: Vec<&str> = report.issues.iter().map(|i| i.raw.as_str()).collect();
    assert_eq!(raws[..3].to_vec(), vec!["42", "\"脏\"", "true"]);
    assert_eq!(report.issues[2].collection, "subtask");
}

#[test]
fn migrated_task_reads_lenient_fields() {
    let day = Day { year: 2026, month: 9, day: 6 };
    let raw = v1_doc(
        r#"[{ "title": "  读数  ", "priority": " 高 ", "done": "1", "carried_from": 4, "source": "capture",
              "notes": [{ "content": "无时刻" }] }]"#,
        "[]",
    );
    let (data, report) = migrate_v1_at(&raw, None, &day).unwrap();
    let t = &data.tasks[0];
    assert!(t.id.starts_with('t') && t.id.len() > 1);
    assert_eq!(t.title, "读数");
    assert_eq!(t.priority, "high");
    assert!(t.done && t.legacy);
    assert_eq!(t.carried_from, 4);
    assert_eq!(t.created_at, "2026-09-06T00:00");
    assert_eq!(t.updated_at, t.created_at);
    assert_eq!(t.notes[0].author, "我");
    assert_eq!(t.notes[0].created_at, "2026-09-06T00:00");
    assert_eq!(t.source, kettd::models::Source::Capture);
    assert_eq!(report.legacy_done, 1);
    assert_eq!(issue_for(&report, "priority").unwrap().action, "归一为 high");
}

fn legacy_doc() -> Json {
    doc(
        r#"{
          "tasks": [{ "id": "t1", "title": "示例", "done": false }],
          "reminders": [],
          "fired": ["r|r9|2026-09-01T09:00"],
          "migration": { "taskCount": 1, "reminderCount": 0, "invalidDates": 0, "legacyDone": 0, "issues": [], "archivedTo": "data.v1.json" },
          "settings": { "theme": "float", "capturePos": [12, 34] }
        }"#,
    )
}

#[test]
fn split_moves_runtime_fields_out_of_data() {
    let (data, runtime) = split_schema(legacy_doc(), None);
    assert!(data.get("fired").is_none(), "fired 必须搬出 data.json");
    assert!(data.get("migration").is_none(), "迁移报告必须搬出 data.json");
    assert!(at(&data, "settings").get("capturePos").is_none(), "capturePos 必须搬出 settings");
    assert_eq!(text(at(item(at(&data, "tasks"), 0), "id")), Some("t1"), "用户数据原样保留");
    assert_eq!(text(item(at(&runtime, "fired"), 0)), Some("r|r9|2026-09-01T09:00"));
    assert_eq!(item(at(&runtime, "capturePos"), 0), &Json::Number(Number::PosInt(12)));
    assert!(at(&runtime, "migration").is_object(), "迁移报告进 runtime");
}

#[test]
fn split_is_idempotent_on_already_split_document() {
    let (data, runtime) = split_schema(legacy_doc(), None);
    let (data2, runtime2) = split_schema(dup(&data), Some(dup(&runtime)));
    assert_eq!(to_value(&data), to_value(&data2), "拆分幂等：再跑一次 data 不变");
    assert_eq!(at(&runtime2, "fired"), at(&runtime, "fired"), "fired 并集不重复");
}

#[test]
fn split_merges_fired_with_existing_runtime_as_union() {
    let existing = doc(r#"{ "fired": ["r|r9|2026-09-01T09:00", "r|r8|2026-09-02T09:00"] }"#);
    let (_, runtime) = split_schema(legacy_doc(), Some(existing));
    let fired = match at(&runtime, "fired") {
        Json::Array(items) => items.iter().map(dup).collect::<Vec<Json>>(),
        _ => panic!("fired 必须是数组"),
    };
    assert_eq!(fired.len(), 2, "交集去重、并集保留");
    assert!(fired.contains(&Json::Str("r|r8|2026-09-02T09:00".to_string())));
}

#[test]
fn split_keeps_existing_runtime_migration_over_data_side() {
    let mut raw = legacy_doc();
    if let Json::Object(fields) = &mut raw {
        for (k, v) in fields.iter_mut() {
            if k == "migration" {
                *v = doc(r#"{ "taskCount": 9 }"#);
            }
        }
    }
    let already_there = doc(r#"{ "fired": [], "migration": null }"#);
    let (_, runtime) = split_schema(raw, Some(already_there));
    assert!(
        runtime.get("migration").map(|value| *value == Json::Null).unwrap_or(false),
        "runtime 已有 migration 键时不被 data 侧覆盖"
    );
}

#[test]
fn split_keeps_settings_other_keys_intact() {
    let (data, _) = split_schema(legacy_doc(), None);
    assert_eq!(text(at(at(&data, "settings"), "theme")), Some("float"), "只摘 capturePos，其余不动");
}

#[test]
fn legacy_schema_is_told_apart() {
    assert!(is_legacy_schema(&legacy_doc()));
    assert!(!is_legacy_schema(&doc(r#"{ "settings": { "theme": "float" }, "tasks": [] }"#)));
    assert_eq!(doc_kind(&legacy_doc()), DocKind::LegacySchema);
    assert_eq!(doc_kind(&v1_doc("[]", "[]")), DocKind::V1);
    assert_eq!(doc_kind(&doc(r#"{ "settings": {}, "tasks": [] }"#)), DocKind::Current);
}

#[test]
fn prepare_splits_then_cleans_stickies() {
    let raw = doc(
        r#"{ "settings": { "theme": "float", "capturePos": [1, 2] }, "fired": ["k1"],
             "stickies": [{ "id": "a", "kind": "todo" }, { "id": "b", "hidden": true }] }"#,
    );
    let p = prepare(raw, None);
    assert!(p.split && p.stickies_changed);
    assert!(p.data.get("fired").is_none());
    assert_eq!(text(item(at(&p.runtime, "fired"), 0)), Some("k1"));
    let b = item(at(&p.data, "stickies"), 0);
    assert_eq!(text(at(b, "id")), Some("b"));
    assert_eq!(at(b, "mini"), &Json::Bool(true));
}

#[test]
fn fired_keys_survive_migration_as_opaque_strings() {
    let raw = doc(
        r#"{ "tasks": [], "reminders": [], "theme": "纸白",
             "fired": ["t|t1|2026-09-03T09:00", 42, "r|r1|2026-09-03T10:00"] }"#,
    );
    let (data, report) = migrate_v1(&raw, None).unwrap();
    let mut store = Store::new();
    store.adopt_v1(data, report, &raw);
    assert_eq!(
        store.runtime.fired,
        vec!["t|t1|2026-09-03T09:00".to_string(), "r|r1|2026-09-03T10:00".to_string()],
        "非字符串键丢弃可以，但合法键一个不能少（跨重启不重复响）；键归运行态"
    );
    assert!(store.runtime.migration.is_some(), "迁移报告随运行态");
}

#[test]
fn loading_carries_overdue_open_tasks_and_reports_sticky_cleanup() {
    let day = Day { year: 2026, month: 9, day: 6 };
    let mut data = AppData::default();
    let mut t = kettd::models::Task::default();
    t.id = "t1".to_string();
    t.due_at = Some("2026-09-01T09:00".to_string());
    t.carried_from = 2;
    data.tasks.push(t);
    let mut store = Store::new();
    let save = store.adopt_loaded(data, None, true, &day);
    assert!(save);
    assert_eq!(store.data.tasks[0].carried_from, 5);
    let m = store.runtime.migration.as_ref().unwrap();
    assert_eq!(m.issues[0].collection, "stickies");
    let mut rt = RuntimeState::default();
    rt.fired.push("k".to_string());
    let save2 = store.adopt_loaded(AppData::default(), Some(rt), false, &day);
    assert!(!save2);
    assert_eq!(store.runtime.fired, vec!["k".to_string()]);
    assert!(store.runtime.migration.is_none());
}

#[test]
fn unreadable_data_is_set_aside_and_writing_stops() {
    let mut store = kettd::store::Store::new();
    let before = store.data.clone();
    let a = load_step(&mut store, LoadEvent::DataRead(Ok(Some("{\"tasks\": [".to_string()))));
    assert!(matches!(a, LoadAction::Quarantine));
    assert!(store.is_corrupt());
    assert_eq!(store.last_error.as_deref(), Some("数据文件被截断或格式不对，已停止写入"));
    assert_eq!(store.data, before, "内存里的数据不动，更不会被当成空库写回");
    assert!(store.ensure_writable().is_err());
    let a = load_step(&mut store, LoadEvent::Quarantined(Some("data.corrupt.x".to_string())));
    assert!(matches!(a, LoadAction::Stop));
    assert_eq!(store.corrupt_file.as_deref(), Some("data.corrupt.x"));
    assert!(store.is_corrupt());
}

#[test]
fn readable_documents_go_on_to_migration_or_preparation() {
    let mut store = kettd::store::Store::new();
    let v1 = r#"{"tasks": [], "theme": "dark"}"#.to_string();
    match load_step(&mut store, LoadEvent::DataRead(Ok(Some(v1)))) {
        LoadAction::MigrateV1 { from_archive, .. } => assert!(!from_archive),
        _ => panic!("v1 文档应走迁移"),
    }
    let current = r#"{"tasks": [], "reminders": [], "settings": {"theme": "float"}}"#.to_string();
    assert!(matches!(load_step(&mut store, LoadEvent::DataRead(Ok(Some(current)))), LoadAction::Prepare(_)));
    assert!(!store.is_corrupt());
    assert!(kettd::json::parse_document("{截断的垃圾").is_err(), "损坏的运行态读不出，按缺失重建");
    let a = load_step(&mut store, LoadEvent::DecodeFailed("missing field `tasks`".to_string()));
    assert!(matches!(a, LoadAction::Quarantine));
    assert_eq!(store.last_error.as_deref(), Some("数据文件格式不对，已停止写入：missing field `tasks`"));
}

#[test]
fn a_backup_text_is_read_as_a_value_or_gives_the_parsers_own_words() {
    let value = kettd::json::parse_value(r#"{"tasks": [{"id": "a"}, {"id": "b"}], "n": -3}"#).unwrap();
    match &value {
        Json::Object(fields) => {
            assert_eq!(fields.len(), 2);
            let tasks = fields.iter().find(|(k, _)| k == "tasks").map(|(_, v)| v);
            let n = fields.iter().find(|(k, _)| k == "n").map(|(_, v)| v);
            assert!(matches!(tasks, Some(Json::Array(items)) if items.len() == 2));
            assert!(matches!(n, Some(Json::Number(Number::NegInt(-3)))));
        }
        _ => panic!("an object was expected"),
    }
    let error = kettd::json::parse_value("{\"tasks\": [").unwrap_err();
    assert!(error.contains("EOF"), "{}", error);
}

fn legacy_text() -> String {
    to_value(&legacy_doc()).to_string()
}

fn fired_of(runtime: &Json) -> Vec<String> {
    match runtime.get("fired") {
        Some(Json::Array(items)) => items.iter().filter_map(|x| text(x).map(|s| s.to_string())).collect(),
        _ => Vec::new(),
    }
}

fn tasks_in(data: &Json) -> usize {
    match data.get("tasks") {
        Some(Json::Array(items)) => items.len(),
        _ => 0,
    }
}

/// The typed documents the app's reader makes of prepared ones (tasks by
/// id only; the fired keys as they are).
fn read_back(prepared: &kettd::load::Prepared) -> (AppData, RuntimeState) {
    let mut data = AppData::default();
    if let Some(Json::Array(items)) = prepared.data.get("tasks") {
        for x in items.iter() {
            let mut t = kettd::models::Task::default();
            t.id = x.get("id").and_then(text).unwrap_or("").to_string();
            data.tasks.push(t);
        }
    }
    let mut runtime = RuntimeState::default();
    runtime.fired = fired_of(&prepared.runtime);
    (data, runtime)
}

fn loaded_document(store: &mut Store, text: String) -> Json {
    match load_step(store, LoadEvent::DataRead(Ok(Some(text)))) {
        LoadAction::Prepare(raw) => raw,
        _ => panic!("a current document goes on to preparation"),
    }
}

#[test]
fn load_legacy_data_runs_the_split_end_to_end() {
    let mut store = Store::new();
    let raw = loaded_document(&mut store, legacy_text());
    let prepared = prepare(raw, kettd::load::existing_runtime(Ok(None)));
    assert!(prepared.split);
    assert_eq!(tasks_in(&prepared.data), 1);
    let (data, runtime) = read_back(&prepared);
    store.adopt_loaded(data, Some(runtime), prepared.stickies_changed, &Day { year: 2026, month: 9, day: 6 });
    assert!(store.runtime.fired.contains(&"r|r9|2026-09-01T09:00".to_string()));
    assert_eq!(store.data.tasks.len(), 1, "用户数据完整");
    assert!(store.last_error.is_none(), "拆分成功不报错");
}

#[test]
fn split_failure_keeps_originals_and_session_continues() {
    let mut store = Store::new();
    let raw = loaded_document(&mut store, legacy_text());
    let prepared = prepare(raw, kettd::load::existing_runtime(Ok(None)));
    assert!(prepared.split);
    // writing the split documents failed
    store.record_split_failure("disk full");
    let (data, runtime) = read_back(&prepared);
    store.adopt_loaded(data, Some(runtime), prepared.stickies_changed, &Day { year: 2026, month: 9, day: 6 });
    assert_eq!(store.health, kettd::store::HEALTH_OK, "拆分失败不进 corrupt、不冻结");
    assert!(store.last_error.as_deref().unwrap_or("").contains("拆分"), "失败要可解释");
    assert_eq!(store.data.tasks.len(), 1, "本会话按拆分结果在内存中继续，用户可看");
}

#[test]
fn load_tolerates_corrupt_runtime_json_by_rebuilding() {
    let mut store = Store::new();
    let raw = loaded_document(&mut store, r#"{"tasks": [], "reminders": [], "settings": {"theme": "float"}}"#.to_string());
    let existing = kettd::load::existing_runtime(Ok(Some("{截断的垃圾".to_string())));
    assert!(existing.is_none());
    let prepared = prepare(raw, existing);
    assert!(!prepared.split);
    assert!(fired_of(&prepared.runtime).is_empty());
    store.adopt_loaded(AppData::default(), None, prepared.stickies_changed, &Day { year: 2026, month: 9, day: 6 });
    assert_eq!(store.health, kettd::store::HEALTH_OK, "运行态损坏绝不传染用户数据");
    assert!(store.runtime.fired.is_empty(), "静默重建为空");
}

#[test]
fn an_unreadable_runtime_file_counts_as_missing() {
    assert!(kettd::load::existing_runtime(Err("denied".to_string())).is_none());
    assert!(kettd::load::existing_runtime(Ok(None)).is_none());
    assert!(kettd::load::existing_runtime(Ok(Some("{\"fired\": []}".to_string()))).is_some());
}
