use kettd::legacy::{Note, Reminder, Subtask, Task};
use kettd::service::{
    generate_id, note_removed, reminder_found, reminder_toggled, subtask_removed, subtask_toggled, task_found,
    task_toggled, toggle_detail,
};

fn task() -> Task {
    Task {
        id: "t1".to_string(),
        title: "买菜".to_string(),
        description: String::new(),
        category: "生活".to_string(),
        priority: "med".to_string(),
        due_date: "2026-09-05".to_string(),
        completed: false,
        subtasks: vec![
            Subtask { id: "s1".to_string(), title: "葱".to_string(), completed: false },
            Subtask { id: "s2".to_string(), title: "姜".to_string(), completed: true },
        ],
        notes: vec![Note {
            id: "n1".to_string(),
            author: "me".to_string(),
            content: "早点去".to_string(),
            created_at: "2026-09-01".to_string(),
        }],
        created_at: "2026-09-01".to_string(),
        updated_at: "2026-09-01".to_string(),
    }
}

#[test]
fn generated_ids_are_hyphenated_v4_uuids() {
    let a = generate_id();
    let b = generate_id();
    assert_eq!(a.chars().count(), 36);
    let cs: Vec<char> = a.chars().collect();
    for i in [8, 13, 18, 23] {
        assert_eq!(cs[i], '-');
    }
    assert_eq!(cs[14], '4');
    assert!(matches!(cs[19], '8' | '9' | 'a' | 'b'));
    assert_ne!(a, b);
}

#[test]
fn missing_records_give_the_services_messages() {
    assert_eq!(task_found(None).unwrap_err(), "任务不存在");
    assert_eq!(task_found(Some(task())).unwrap().id, "t1");
    assert_eq!(reminder_found(None).unwrap_err(), "提醒不存在");
}

#[test]
fn toggling_a_task_flips_it_and_stamps_it() {
    let t = task_toggled(task(), "2026-09-06".to_string());
    assert!(t.completed);
    assert_eq!(t.updated_at, "2026-09-06");
    assert_eq!(t.subtasks.len(), 2);
    assert_eq!(toggle_detail(true), "状态: 未完成 → 已完成");
    assert_eq!(toggle_detail(false), "状态: 已完成 → 未完成");
    let r = Reminder {
        id: "r1".to_string(),
        title: "喝水".to_string(),
        time: "09:00".to_string(),
        category: "生活".to_string(),
        completed: false,
    };
    assert!(reminder_toggled(r).completed);
}

#[test]
fn subtask_and_note_changes_find_their_target_or_refuse() {
    let t = subtask_toggled(task(), "s1", "2026-09-06".to_string()).unwrap();
    assert!(t.subtasks[0].completed);
    assert!(t.subtasks[1].completed);
    assert_eq!(t.updated_at, "2026-09-06");
    assert_eq!(subtask_toggled(task(), "s9", "x".to_string()).unwrap_err(), "子任务不存在");
    let t = subtask_removed(task(), "s2", "2026-09-06".to_string()).unwrap();
    assert_eq!(t.subtasks.len(), 1);
    assert_eq!(t.subtasks[0].id, "s1");
    assert_eq!(subtask_removed(task(), "s9", "x".to_string()).unwrap_err(), "子任务不存在");
    let t = note_removed(task(), "n1", "2026-09-06".to_string()).unwrap();
    assert!(t.notes.is_empty());
    assert_eq!(note_removed(task(), "n9", "x".to_string()).unwrap_err(), "备注不存在");
}
