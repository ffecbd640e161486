//! Checks on first-generation tasks and reminders before they are stored.
use vstd::prelude::*;
use vstd::string::*;
use crate::text::{blank, byte_len, byte_len_capped, is_blank, owned, same_text};
use crate::legacy::{Reminder, Task};

verus! {

broadcast use vstd::string::group_string_axioms;

pub open spec fn legacy_category(s: Seq<char>) -> bool {
    s == "工作"@ || s == "个人"@ || s == "学习"@
}

pub open spec fn legacy_priority(s: Seq<char>) -> bool {
    s == "high"@ || s == "medium"@ || s == "low"@
}

/// The first rule a task breaks (lengths in bytes), or none.
pub open spec fn task_problem(t: Task) -> Option<Seq<char>> {
    if blank(t.title@) {
        Some("任务标题不能为空"@)
    } else if byte_len(t.title@) > 200 {
        Some("任务标题长度不能超过200个字符"@)
    } else if byte_len(t.description@) > 2000 {
        Some("任务描述长度不能超过2000个字符"@)
    } else if !legacy_category(t.category@) {
        Some("无效的任务分类"@)
    } else if !legacy_priority(t.priority@) {
        Some("无效的优先级"@)
    } else {
        None
    }
}

/// The first rule a reminder breaks, or none.
pub open spec fn reminder_problem(r: Reminder) -> Option<Seq<char>> {
    if blank(r.title@) {
        Some("提醒标题不能为空"@)
    } else if byte_len(r.title@) > 200 {
        Some("提醒标题长度不能超过200个字符"@)
    } else if !legacy_category(r.category@) {
        Some("无效的提醒分类"@)
    } else {
        None
    }
}

fn is_legacy_category(s: &str) -> (b: bool)
    ensures
        b == legacy_category(s@),
{
    same_text(s, "工作") || same_text(s, "个人") || same_text(s, "学习")
}

/// Title present and at most 200 bytes, description at most 2000 bytes,
/// category 工作 / 个人 / 学习, priority high / medium / low.
pub fn validate_task(task: &Task) -> (r: Result<(), String>)
    ensures
        match r {
            Ok(()) => task_problem(*task) is None,
            Err(e) => task_problem(*task) == Some(e@),
        },
{
    proof {
        reveal_strlit("任务标题不能为空");
        reveal_strlit("任务标题长度不能超过200个字符");
        reveal_strlit("任务描述长度不能超过2000个字符");
        reveal_strlit("无效的任务分类");
        reveal_strlit("无效的优先级");
    }
    if is_blank(task.title.as_str()) {
        return Err(owned("任务标题不能为空"));
    }
    if byte_len_capped(task.title.as_str(), 201) > 200 {
        return Err(owned("任务标题长度不能超过200个字符"));
    }
    if byte_len_capped(task.description.as_str(), 2001) > 2000 {
        return Err(owned("任务描述长度不能超过2000个字符"));
    }
    if !is_legacy_category(task.category.as_str()) {
        return Err(owned("无效的任务分类"));
    }
    let p = task.priority.as_str();
    if !(same_text(p, "high") || same_text(p, "medium") || same_text(p, "low")) {
        return Err(owned("无效的优先级"));
    }
    Ok(())
}

/// Title present and at most 200 bytes, category 工作 / 个人 / 学习.
pub fn validate_reminder(reminder: &Reminder) -> (r: Result<(), String>)
    ensures
        match r {
            Ok(()) => reminder_problem(*reminder) is None,
            Err(e) => reminder_problem(*reminder) == Some(e@),
        },
{
    proof {
        reveal_strlit("提醒标题不能为空");
        reveal_strlit("提醒标题长度不能超过200个字符");
        reveal_strlit("无效的提醒分类");
    }
    if is_blank(reminder.title.as_str()) {
        return Err(owned("提醒标题不能为空"));
    }
    if byte_len_capped(reminder.title.as_str(), 201) > 200 {
        return Err(owned("提醒标题长度不能超过200个字符"));
    }
    if !is_legacy_category(reminder.category.as_str()) {
        return Err(owned("无效的提醒分类"));
    }
    Ok(())
}

} // verus!
