//! Creating and updating tasks: the carried-over days of a task only grow.
use vstd::prelude::*;
use vstd::string::*;
use crate::text::{blank, is_blank, owned, same_text};
use crate::datetime::{Day, Wall, carry_days_from, carry_days_spec, fmt_wall, plus_minutes, wall_text};
use crate::models::{
    Reminder, ReminderPayload, ReminderView, Settings, SettingsPayload, Source, Task, TaskPayload, TaskView,
    new_id, opt_view, coerced,
};
use crate::store::{
    Store, first_reminder_at, first_task_at, lemma_reminder_pos, lemma_task_pos, no_reminder_with, no_task_with,
    reminder_key, reminder_key_spec, reminder_pos, retain_without_prefix, task_pos, without_prefix,
};
use crate::patch::{
    reminder_patch_error, reminder_patch_upto, settings_patch_between, settings_patch_error, task_patch_error,
    task_patch_upto,
};
use crate::text::trim_seq;

verus! {

broadcast use vstd::string::group_string_axioms;
// ---------------------------------------------------------------- tasks

/// Carried-over days of a new task: none when done, else its overdue days.
pub fn carried_on_create(done: bool, due_at: &Option<String>, today: Day) -> (r: u32)
    requires
        today.valid(),
    ensures
        r == if done { 0 } else { carry_days_spec(opt_view(*due_at), today) },
{
    if done {
        0
    } else {
        let r = carry_days_from(due_at, today);
        assert(opt_view(*due_at) == match due_at {
            Some(s) => Some(s@),
            None => None,
        });
        r
    }
}

/// Carried-over days after an update: kept when done or trashed, otherwise
/// the larger of the old count and the overdue days; it never shrinks.
pub fn carried_on_update(previous: u32, done: bool, in_trash: bool, due_at: &Option<String>, today: Day) -> (r: u32)
    requires
        today.valid(),
    ensures
        r == if done || in_trash {
            previous
        } else if previous >= carry_days_spec(opt_view(*due_at), today) {
            previous
        } else {
            carry_days_spec(opt_view(*due_at), today)
        },
        r >= previous,
{
    if done || in_trash {
        previous
    } else {
        let d = carry_days_from(due_at, today);
        assert(opt_view(*due_at) == match due_at {
            Some(s) => Some(s@),
            None => None,
        });
        if previous >= d { previous } else { d }
    }
}

pub const MSG_TITLE_BLANK: &'static str = "标题不能为空";

/// Create a task from a payload: the title must not be blank; a fresh `t…`
/// id, both stamps and the source (manual unless given) are set, the payload
/// merged, and the carried-over days computed for `today`.
pub fn add(store: &mut Store, args: TaskPayload, stamp: &str, today: Day) -> (r: Result<Task, String>)
    requires
        today.valid(),
    ensures
        final(store).data.reminders == old(store).data.reminders,
        final(store).data.settings == old(store).data.settings,
        final(store).runtime == old(store).runtime,
        match r {
            Ok(t) => {
                &&& args.title matches Some(v) && !blank(v@)
                &&& task_patch_error(args) is None
                &&& final(store).tasks_v() == old(store).tasks_v().push(t@)
                &&& t@.created_at == (if args.created_at is Some && crate::datetime::normalize_spec(args.created_at->0@) is Some {
                    crate::datetime::normalize_spec(args.created_at->0@)->0
                } else {
                    stamp@
                })
                &&& t@.carried_from == (if t@.done { 0 } else { carry_days_spec(t@.due_at, today) })
                &&& t@.title == crate::text::trim_seq(args.title->0@)
                &&& t@.source == (if args.source is Some { args.source->0 } else { Source::Manual })
            },
            Err(e) => {
                &&& final(store).tasks_v() == old(store).tasks_v()
                &&& if args.title is None || blank(args.title->0@) {
                    e@ == "标题不能为空"@
                } else {
                    task_patch_error(args) matches Some((k, m)) && e@ == m
                }
            },
        },
{
    let title_blank = match &args.title {
        Some(t) => is_blank(t.as_str()),
        None => true,
    };
    if title_blank {
        return Err(owned(MSG_TITLE_BLANK));
    }
    let mut task = Task::default();
    task.id = new_id("t");
    task.created_at = owned(stamp);
    task.updated_at = owned(stamp);
    task.source = match args.source {
        Some(s) => s,
        None => Source::Manual,
    };
    match Store::apply_task_patch(&mut task, &args) {
        Ok(()) => {},
        Err(e) => return Err(e),
    }
    task.carried_from = carried_on_create(task.done, &task.due_at, today);
    let ghost before = store.tasks_v();
    store.data.tasks.push(task.duplicate());
    assert(store.tasks_v() =~= before.push(task@));
    Ok(task)
}

/// `t` is `prev` with a patch merged in (see `Store::apply_task_patch`) and
/// stamped: the completion, subtasks, notes and carried-over days aside,
/// every field is the patched one.
pub open spec fn task_updated(prev: TaskView, patch: TaskPayload, stamp: Seq<char>, t: TaskView) -> bool {
    t == (TaskView {
        subtasks: t.subtasks,
        notes: t.notes,
        done: t.done,
        done_at: t.done_at,
        legacy: t.legacy,
        carried_from: t.carried_from,
        updated_at: stamp,
        ..task_patch_upto(prev, patch, 100)
    })
}

/// Editing a task sets the fields the patch carries and keeps the others:
/// a given title or note replaces the old one trimmed, a given category or
/// priority replaces the old one as it is; the id and (without a new one in
/// the patch) the creation stamp stay; the update stamp is the edit's.
pub proof fn law_update_applies_patch(prev: TaskView, patch: TaskPayload, stamp: Seq<char>, t: TaskView)
    requires
        task_updated(prev, patch, stamp, t),
    ensures
        t.id == prev.id,
        t.title == (match patch.title {
            Some(v) => trim_seq(v@),
            None => prev.title,
        }),
        t.note == (match patch.note {
            Some(v) => trim_seq(v@),
            None => prev.note,
        }),
        t.category == (match patch.category {
            Some(v) => v@,
            None => prev.category,
        }),
        t.priority == (match patch.priority {
            Some(v) => v@,
            None => prev.priority,
        }),
        patch.created_at is None ==> t.created_at == prev.created_at,
        t.updated_at == stamp,
{
}

/// Update a task with a payload and stamp it; the carried-over days never
/// shrink (see `carried_on_update`).
pub fn update(store: &mut Store, id: &str, patch: TaskPayload, stamp: &str, today: Day) -> (r: Result<Task, String>)
    requires
        today.valid(),
    ensures
        final(store).data.reminders == old(store).data.reminders,
        final(store).data.settings == old(store).data.settings,
        final(store).runtime == old(store).runtime,
        match r {
            Ok(t) => {
                let i = task_pos(old(store).tasks_v(), id@);
                let prev = old(store).tasks_v()[i];
                &&& first_task_at(old(store).tasks_v(), id@, i)
                &&& task_patch_error(patch) is None
                &&& final(store).tasks_v() == old(store).tasks_v().update(i, t@)
                &&& t@.id == prev.id
                &&& t@.updated_at == stamp@
                &&& task_updated(prev, patch, stamp@, t@)
                &&& t@.carried_from >= (if patch.carried_from is Some {
                    if patch.carried_from->0 > 9999 { 9999 } else { patch.carried_from->0 }
                } else {
                    prev.carried_from
                })
            },
            Err(e) => {
                &&& final(store).tasks_v() == old(store).tasks_v()
                &&& if no_task_with(old(store).tasks_v(), id@) {
                    e@ == "找不到这条待办，可能已经被删除"@
                } else {
                    task_patch_error(patch) matches Some((k, m)) && e@ == m
                }
            },
        },
{
    let index = match store.find_index(id) {
        Some(i) => i,
        None => return Err(owned(crate::store::MSG_TASK_GONE)),
    };
    proof {
        lemma_task_pos(old(store).tasks_v(), id@, index as int);
    }
    let mut next = store.data.tasks[index].duplicate();
    match Store::apply_task_patch(&mut next, &patch) {
        Ok(()) => {},
        Err(e) => return Err(e),
    }
    next.updated_at = owned(stamp);
    let in_trash = next.in_trash();
    next.carried_from = carried_on_update(next.carried_from, next.done, in_trash, &next.due_at, today);
    let ghost before = store.tasks_v();
    store.data.tasks.set(index, next.duplicate());
    assert(store.tasks_v() =~= before.update(index as int, next@));
    Ok(next)
}

} // verus!
