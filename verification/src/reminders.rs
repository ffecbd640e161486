//! Editing, switching, snoozing and deleting reminders.
use vstd::prelude::*;
use vstd::string::*;
use crate::text::{blank, is_blank, owned, same_text};
use crate::datetime::{Day, Wall, carry_days_from, carry_days_spec, fmt_wall, plus_minutes, wall_text};
use crate::models::{
    Reminder, ReminderPayload, ReminderView, Settings, SettingsPayload, Source, Task, TaskPayload, TaskView,
    new_id, opt_view, coerced,
};
use crate::store::{
    Store, first_reminder_at, first_task_at, lemma_reminder_pos, lemma_task_pos, no_reminder_with, no_task_with,
    reminder_key, reminder_key_spec, reminder_pos, retain_without_prefix, task_pos, without_prefix,
};
use crate::patch::{
    reminder_patch_error, reminder_patch_upto, settings_patch_between, settings_patch_error, task_patch_error,
};

verus! {

broadcast use vstd::string::group_string_axioms;
// ---------------------------------------------------------------- reminders

pub const SNOOZE_MIN_MINUTES: u32 = 1;
pub const SNOOZE_MAX_MINUTES: u32 = 720;
pub const MSG_REMINDER_GONE: &'static str = "找不到这条提醒，可能已经被删除";

/// Merge a patch into a reminder; switching it on reopens it.
pub fn apply_patch(store: &mut Store, id: &str, patch: &ReminderPayload) -> (r: Result<Reminder, String>)
    ensures
        final(store).data.tasks == old(store).data.tasks,
        final(store).runtime == old(store).runtime,
        match r {
            Ok(x) => {
                let i = reminder_pos(old(store).reminders_v(), id@);
                let merged = reminder_patch_upto(old(store).reminders_v()[i], *patch, 100);
                &&& first_reminder_at(old(store).reminders_v(), id@, i)
                &&& reminder_patch_error(*patch) is None
                &&& x@ == (if patch.enabled == Some(true) { ReminderView { completed: false, ..merged } } else { merged })
                &&& final(store).reminders_v() == old(store).reminders_v().update(i, x@)
            },
            Err(e) => {
                &&& final(store).reminders_v() == old(store).reminders_v()
                &&& if no_reminder_with(old(store).reminders_v(), id@) {
                    e@ == "找不到这条提醒，可能已经被删除"@
                } else {
                    reminder_patch_error(*patch) matches Some((k, m)) && e@ == m
                }
            },
        },
{
    let index = match store.find_reminder_index(id) {
        Some(i) => i,
        None => return Err(owned(MSG_REMINDER_GONE)),
    };
    proof {
        lemma_reminder_pos(old(store).reminders_v(), id@, index as int);
    }
    let mut next = store.data.reminders[index].duplicate();
    match Store::apply_reminder_patch(&mut next, patch) {
        Ok(()) => {},
        Err(e) => return Err(e),
    }
    if patch.enabled == Some(true) {
        next.completed = false;
    }
    let ghost before = store.reminders_v();
    store.data.reminders.set(index, next.duplicate());
    assert(store.reminders_v() =~= before.update(index as int, next@));
    Ok(next)
}

/// A reminder switched: completed and enabled swap to their opposites (they
/// stay each other's inverse); switching on drops a pending snooze.
pub open spec fn toggled_reminder(r: ReminderView) -> ReminderView {
    ReminderView {
        completed: !r.completed,
        enabled: r.completed,
        snoozed_until: if r.completed { None } else { r.snoozed_until },
        ..r
    }
}

pub fn toggle(store: &mut Store, id: &str) -> (r: Result<Reminder, String>)
    ensures
        final(store).data.tasks == old(store).data.tasks,
        final(store).runtime == old(store).runtime,
        match r {
            Ok(x) => {
                let i = reminder_pos(old(store).reminders_v(), id@);
                &&& first_reminder_at(old(store).reminders_v(), id@, i)
                &&& x@ == toggled_reminder(old(store).reminders_v()[i])
                &&& final(store).reminders_v() == old(store).reminders_v().update(i, x@)
            },
            Err(e) => final(store).reminders_v() == old(store).reminders_v()
                && no_reminder_with(old(store).reminders_v(), id@) && e@ == "找不到这条提醒，可能已经被删除"@,
        },
{
    let index = match store.find_reminder_index(id) {
        Some(i) => i,
        None => return Err(owned(MSG_REMINDER_GONE)),
    };
    proof {
        lemma_reminder_pos(old(store).reminders_v(), id@, index as int);
    }
    let ghost before = store.reminders_v();
    let completed = store.data.reminders[index].completed;
    store.data.reminders[index].completed = !completed;
    store.data.reminders[index].enabled = completed;
    if completed {
        store.data.reminders[index].snoozed_until = None;
    }
    assert(store.reminders_v() =~= before.update(index as int, toggled_reminder(before[index as int])));
    Ok(store.data.reminders[index].duplicate())
}

/// Switching a reminder keeps `enabled` the inverse of `completed`, and
/// switching it twice gives back both flags.
pub proof fn law_toggle_inverse(r: ReminderView)
    ensures
        toggled_reminder(r).enabled == !toggled_reminder(r).completed,
        toggled_reminder(toggled_reminder(r)).completed == r.completed,
        toggled_reminder(toggled_reminder(r)).enabled == !r.completed,
{
}

/// Snooze a reminder for 1 to 720 minutes from `now`: it comes back then,
/// reopened and switched on.
pub fn snooze(store: &mut Store, id: &str, minutes: u32, now: &Wall) -> (r: Result<Reminder, String>)
    requires
        now.valid(),
        now.date.year < 262000,
    ensures
        final(store).data.tasks == old(store).data.tasks,
        final(store).runtime == old(store).runtime,
        match r {
            Ok(x) => {
                let i = reminder_pos(old(store).reminders_v(), id@);
                let target = crate::datetime::chrono_plus_minutes(*now, minutes as int)->0;
                &&& 1 <= minutes <= 720
                &&& first_reminder_at(old(store).reminders_v(), id@, i)
                &&& x@ == (ReminderView {
                    snoozed_until: Some(wall_text(target)),
                    completed: false,
                    enabled: true,
                    ..old(store).reminders_v()[i]
                })
                &&& final(store).reminders_v() == old(store).reminders_v().update(i, x@)
            },
            Err(e) => {
                &&& final(store).reminders_v() == old(store).reminders_v()
                &&& if !(1 <= minutes <= 720) {
                    e@ == "稍后提醒只能设 1 到 720 分钟"@
                } else {
                    no_reminder_with(old(store).reminders_v(), id@) && e@ == "找不到这条提醒，可能已经被删除"@
                }
            },
        },
{
    if !(SNOOZE_MIN_MINUTES <= minutes && minutes <= SNOOZE_MAX_MINUTES) {
        return Err(owned("稍后提醒只能设 1 到 720 分钟"));
    }
    let index = match store.find_reminder_index(id) {
        Some(i) => i,
        None => return Err(owned(MSG_REMINDER_GONE)),
    };
    proof {
        lemma_reminder_pos(old(store).reminders_v(), id@, index as int);
    }
    let target = match plus_minutes(now, minutes) {
        Some(t) => t,
        None => return Err(owned("稍后提醒只能设 1 到 720 分钟")),
    };
    let text = fmt_wall(&target);
    let ghost before = store.reminders_v();
    store.data.reminders[index].snoozed_until = Some(text);
    store.data.reminders[index].completed = false;
    store.data.reminders[index].enabled = true;
    assert(store.reminders_v() =~= before.update(index as int, ReminderView {
        snoozed_until: Some(wall_text(target)),
        completed: false,
        enabled: true,
        ..before[index as int]
    }));
    Ok(store.data.reminders[index].duplicate())
}

/// Delete a reminder and forget its own fired keys (those of `r|id|…`).
pub fn delete(store: &mut Store, id: &str) -> (r: Result<(), String>)
    ensures
        final(store).data.tasks == old(store).data.tasks,
        final(store).data.settings == old(store).data.settings,
        match r {
            Ok(()) => {
                let i = reminder_pos(old(store).reminders_v(), id@);
                &&& first_reminder_at(old(store).reminders_v(), id@, i)
                &&& final(store).reminders_v() == old(store).reminders_v().remove(i)
                &&& final(store).fired_v() == without_prefix(old(store).fired_v(), reminder_key_spec(id@, Seq::empty()))
            },
            Err(e) => final(store).reminders_v() == old(store).reminders_v()
                && final(store).runtime == old(store).runtime
                && no_reminder_with(old(store).reminders_v(), id@) && e@ == "找不到这条提醒，可能已经被删除"@,
        },
{
    let index = match store.find_reminder_index(id) {
        Some(i) => i,
        None => return Err(owned(MSG_REMINDER_GONE)),
    };
    proof {
        lemma_reminder_pos(old(store).reminders_v(), id@, index as int);
    }
    let ghost before = store.reminders_v();
    store.data.reminders.remove(index);
    assert(store.reminders_v() =~= before.remove(index as int));
    let prefix = reminder_key(id, "");
    proof {
        reveal_strlit("");
    }
    assert(prefix@ =~= reminder_key_spec(id@, Seq::empty()));
    let kept = retain_without_prefix(&store.runtime.fired, prefix.as_str());
    store.runtime.fired = kept;
    Ok(())
}

} // verus!
