use kettd::datetime::Day;
use kettd::export::{bucket, export_dir, export_name, resolve_week_at, tasks_export_safe, weekly_file_at};
use kettd::models::{Source, Subtask, Task};

fn task(id: &str, title: &str) -> Task {
    Task {
        id: id.to_string(),
        title: title.to_string(),
        note: String::new(),
        category: "生活".to_string(),
        priority: "med".to_string(),
        due_at: None,
        remind_at: None,
        planned_date: None,
        carried_from: 0,
        done: false,
        done_at: None,
        deleted_at: None,
        legacy: false,
        kb_refs: Vec::new(),
        sort_order: None,
        subtasks: Vec::new(),
        notes: Vec::new(),
        source: Source::Manual,
        created_at: "2026-08-20T09:00".to_string(),
        updated_at: "2026-08-20T09:00".to_string(),
    }
}

fn sample() -> Vec<Task> {
    let mut done = task("t1", "写周报");
    done.category = "工作".to_string();
    done.done = true;
    done.done_at = Some("2026-09-01T10:00".to_string());
    let mut late = task("t2", "交电费");
    late.priority = "high".to_string();
    late.carried_from = 5;
    late.due_at = Some("2026-08-25T09:00".to_string());
    late.created_at = "2026-09-02T08:00".to_string();
    let mut slow = task("t3", "整理照片");
    slow.priority = "low".to_string();
    slow.carried_from = 3;
    slow.subtasks = vec![
        Subtask { id: "s1".to_string(), title: "挑选".to_string(), done: true },
        Subtask { id: "s2".to_string(), title: "上传".to_string(), done: false },
    ];
    let mut gone = task("t4", "已删");
    gone.deleted_at = Some("2026-09-01T09:00".to_string());
    gone.done = true;
    gone.done_at = Some("2026-09-01T09:00".to_string());
    vec![done, late, slow, gone]
}

fn day(y: i32, m: u32, d: u32) -> Day {
    Day { year: y, month: m, day: d }
}

#[test]
fn resolve_week_reads_labels_and_keywords() {
    let today = day(2026, 9, 3);
    assert_eq!(resolve_week_at("2026-W36", &today), Ok((day(2026, 8, 31), day(2026, 9, 6))));
    assert_eq!(resolve_week_at("  CURRENT ", &today), Ok((day(2026, 8, 31), day(2026, 9, 6))));
    assert_eq!(resolve_week_at("", &today), Ok((day(2026, 8, 31), day(2026, 9, 6))));
    assert_eq!(resolve_week_at("本周", &today), Ok((day(2026, 8, 31), day(2026, 9, 6))));
    assert_eq!(resolve_week_at("last", &today), Ok((day(2026, 8, 24), day(2026, 8, 30))));
    assert_eq!(resolve_week_at("上周", &today), Ok((day(2026, 8, 24), day(2026, 8, 30))));
    assert_eq!(
        resolve_week_at("下周", &today),
        Err("周次格式不对，请用 2026-W36 这种写法".to_string())
    );
}

#[test]
fn bucket_sorts_tasks_into_the_week() {
    let tasks = sample();
    let b = bucket(&tasks, &day(2026, 8, 31), &day(2026, 9, 6));
    let ids = |v: &Vec<Task>| v.iter().map(|t| t.id.clone()).collect::<Vec<String>>();
    assert_eq!(ids(&b.week_done), vec!["t1"]);
    assert_eq!(ids(&b.created), vec!["t2"]);
    assert_eq!(ids(&b.undone), vec!["t2", "t3"]);
    assert_eq!(ids(&b.overdue), vec!["t2"]);
    assert_eq!(ids(&b.carry), vec!["t2", "t3"]);
    assert_eq!(ids(&b.candidates), vec!["t2", "t3"]);
}

#[test]
fn candidates_rank_by_days_then_priority_and_keep_five() {
    let mut tasks = Vec::new();
    for (i, (days, prio)) in [(3, "low"), (4, "med"), (3, "high"), (9, "low"), (3, "med"), (4, "high"), (3, "high")]
        .iter()
        .enumerate()
    {
        let mut t = task(&format!("c{}", i), "候选");
        t.carried_from = *days;
        t.priority = prio.to_string();
        tasks.push(t);
    }
    let b = bucket(&tasks, &day(2026, 8, 31), &day(2026, 9, 6));
    let ids: Vec<String> = b.candidates.iter().map(|t| t.id.clone()).collect();
    assert_eq!(ids, vec!["c3", "c5", "c1", "c2", "c6"]);
}

#[test]
fn markdown_summary_lists_buckets_and_days() {
    let tasks = sample();
    let file = weekly_file_at(&tasks, Some("2026-W36".to_string()), None, &day(2026, 9, 3)).unwrap();
    assert_eq!(file.label, "2026-W36");
    assert_eq!(file.ext, "md");
    assert_eq!(file.stem, "周汇总-2026-W36");
    let text = String::from_utf8(file.bytes).unwrap();
    assert!(text.starts_with("# 本周汇总 · 2026-W36\n\n区间：2026-08-31（周一）～ 2026-09-06（周日）\n\n"));
    assert!(text.contains("- 本周完成：1 条\n- 顺延未完成：2 条\n- 已逾期：1 条\n- 新建：1 条\n\n"));
    assert!(text.contains("分类分布（完成口径）：共 1 条：工作 1 条 · 学习 0 条 · 生活 0 条\n\n"));
    assert!(text.contains("- [ ] 交电费（生活 · high）\n- [ ] 整理照片（生活 · low）\n\n"));
    assert!(text.contains("### 2026-08-31 周一\n\n- 无记录\n\n"));
    assert!(text.contains("### 2026-09-01 周二\n\n- ✅ 完成 写周报 · 时刻 2026-09-01 10:00\n\n"));
    assert!(text.contains("### 2026-09-02 周三\n\n- ✚ 记下 交电费\n\n"));
    assert!(text.contains("## 本周完成明细\n\n- 写周报 · 工作 · 2026-09-01 10:00\n"));
    assert!(text.ends_with("\n> 由「待办列表」本地导出，不含任何网络上报。\n"));
    assert!(!text.contains("已删"));
}

#[test]
fn csv_table_has_a_bom_header_and_escaped_cells() {
    let mut tasks = sample();
    tasks[0].title = "带,逗号和\"引号\"".to_string();
    let file = weekly_file_at(&tasks, Some("2026-W36".to_string()), Some(" CSV ".to_string()), &day(2026, 9, 3))
        .unwrap();
    assert_eq!(file.ext, "csv");
    assert_eq!(&file.bytes[..3], &[0xEF, 0xBB, 0xBF]);
    let text = String::from_utf8(file.bytes[3..].to_vec()).unwrap();
    let lines: Vec<&str> = text.lines().collect();
    assert_eq!(lines.len(), 4, "表头 + 三条在世任务");
    assert_eq!(
        lines[0],
        "ISO周,标题,分类,优先级,截止,提醒,计划日,拖留天数,状态,完成时刻,子任务,进度,备注数,旧数据,来源,创建时间,更新时间"
    );
    assert!(lines[1].starts_with("2026-W36,\"带,逗号和\"\"引号\"\"\",工作,med,"));
    assert!(lines[3].contains(",√挑选 / 上传,1/2,0,否,manual,"));
}

#[test]
fn unknown_format_is_refused() {
    let tasks = sample();
    let r = weekly_file_at(&tasks, None, Some("pdf".to_string()), &day(2026, 9, 3));
    assert_eq!(r.err(), Some("只支持 md 和 csv 两种格式".to_string()));
}

#[test]
fn export_names_never_overwrite() {
    assert_eq!(export_name("周汇总-2026-W36", "md", 0), Ok("周汇总-2026-W36.md".to_string()));
    assert_eq!(export_name("周汇总-2026-W36", "md", 1), Ok("周汇总-2026-W36-2.md".to_string()));
    assert_eq!(export_name("周汇总-2026-W36", "csv", 97), Ok("周汇总-2026-W36-98.csv".to_string()));
    assert_eq!(export_name("周汇总-2026-W36", "csv", 98), Err("同名导出文件太多，先清理一下".to_string()));
}

#[test]
fn export_dir_prefers_the_given_folder() {
    assert_eq!(export_dir(&Some(" D:/out ".to_string()), &Some("E:/cfg".to_string())), Some("D:/out".to_string()));
    assert_eq!(export_dir(&Some("  ".to_string()), &Some(" E:/cfg".to_string())), Some("E:/cfg".to_string()));
    assert_eq!(export_dir(&None, &None), None);
}

#[test]
fn stamps_cut_inside_a_character_are_reported() {
    let mut tasks = sample();
    assert!(tasks_export_safe(&tasks));
    tasks[1].due_at = Some("2026-08-2一T09:00".to_string());
    assert!(!tasks_export_safe(&tasks));
}
