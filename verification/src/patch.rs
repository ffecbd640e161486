//! Merging partial updates ("patches") into tasks, reminders and settings.
//! Fields are handled in a fixed order; the first field that fails its check
//! ends the merge with that field's message, and fields handled before it keep
//! their new values (callers merge into a copy).
use vstd::prelude::*;
use vstd::string::*;
use crate::text::{blank, is_blank, owned, same_text, trim, trim_seq};
use crate::datetime::{normalize_datetime, normalize_spec, normalize_date_text, date_text_spec};
use crate::datetime::{clocks_of, clocks_spec, parse_clock, parse_clock_spec};
use crate::models::{
    Note, NoteView, PatchValue, Subtask, SubtaskView, Task, TaskPayload, TaskView, dup_texts,
    Reminder, ReminderPayload, ReminderView, Settings, SettingsPayload, SettingsView, coerced, is_sticky_paper,
    is_sticky_paper_text, is_sticky_pattern, is_sticky_pattern_text, DEFAULT_HOTKEY, opt_view,
    is_category, is_category_text, is_priority, is_priority_text, new_id, now_text, patch_datetime,
    patch_datetime_spec, patch_text, patch_text_spec, texts_view, minute_stamp_shape,
};
use crate::store::Store;

verus! {

broadcast use vstd::string::group_string_axioms;

// ---------------------------------------------------------------- task patches

/// The planned day a patch value asks for: null clears it, other values are
/// read as text and cut to their date.
pub open spec fn planned_spec(v: PatchValue) -> Option<Seq<char>> {
    match v {
        PatchValue::Null => None,
        _ => match patch_text_spec(v) {
            None => None,
            Some(t) => date_text_spec(t),
        },
    }
}

/// The first field of a task patch that fails its check: its position in the
/// merge order and the message.
pub open spec fn task_patch_error(p: TaskPayload) -> Option<(int, Seq<char>)> {
    if p.title matches Some(v) && blank(v@) {
        Some((1, "标题不能为空"@))
    } else if p.category matches Some(v) && !is_category(v@) {
        Some((3, "分类只能是 工作 / 学习 / 生活"@))
    } else if p.priority matches Some(v) && !is_priority(v@) {
        Some((5, "优先级只能是 high / med / low"@))
    } else if p.due_at matches Some(v) && v is Text && patch_datetime_spec(v) is None {
        Some((6, "截止日期格式不对，请用 YYYY-MM-DD"@))
    } else if p.remind_at matches Some(v) && v is Text && patch_datetime_spec(v) is None {
        Some((7, "提醒时间格式不对，请用 YYYY-MM-DDTHH:mm"@))
    } else if p.planned_date matches Some(v) && v is Text && planned_spec(v) is None
        && patch_text_spec(v) is Some {
        Some((8, "计划日期格式不对，请用 YYYY-MM-DD"@))
    } else if p.done_at matches Some(v) && v is Text && patch_datetime_spec(v) is None {
        Some((10, "完成时刻格式不对，请用 YYYY-MM-DDTHH:mm"@))
    } else {
        None
    }
}

/// Position in the merge order at which a task patch stops (past the end when
/// every check passes).
pub open spec fn task_patch_stop(p: TaskPayload) -> int {
    match task_patch_error(p) {
        Some((k, _)) => k,
        None => 100,
    }
}

/// A task with the fields of `p` at merge positions from `lo` up to (not
/// including) `hi` merged in; subtasks, notes and the completion flag excepted.
pub open spec fn task_patch_between(t: TaskView, p: TaskPayload, lo: int, hi: int) -> TaskView {
    TaskView {
        title: if lo <= 1 < hi && p.title is Some { trim_seq(p.title->0@) } else { t.title },
        note: if lo <= 2 < hi && p.note is Some { trim_seq(p.note->0@) } else { t.note },
        category: if lo <= 3 < hi && p.category is Some { p.category->0@ } else { t.category },
        kb_refs: if lo <= 4 < hi && p.kb_refs is Some { texts_view(p.kb_refs->0@) } else { t.kb_refs },
        priority: if lo <= 5 < hi && p.priority is Some { p.priority->0@ } else { t.priority },
        due_at: if lo <= 6 < hi && p.due_at is Some { patch_datetime_spec(p.due_at->0) } else { t.due_at },
        remind_at: if lo <= 7 < hi && p.remind_at is Some {
            patch_datetime_spec(p.remind_at->0)
        } else {
            t.remind_at
        },
        planned_date: if lo <= 8 < hi && p.planned_date is Some {
            planned_spec(p.planned_date->0)
        } else {
            t.planned_date
        },
        carried_from: if lo <= 9 < hi && p.carried_from is Some {
            if p.carried_from->0 > 9999 { 9999 } else { p.carried_from->0 }
        } else {
            t.carried_from
        },
        done_at: if lo <= 10 < hi && p.done_at is Some { patch_datetime_spec(p.done_at->0) } else { t.done_at },
        deleted_at: if lo <= 11 < hi && p.deleted_at is Some {
            patch_datetime_spec(p.deleted_at->0)
        } else {
            t.deleted_at
        },
        legacy: if lo <= 12 < hi && p.legacy is Some { p.legacy->0 } else { t.legacy },
        source: if lo <= 15 < hi && p.source is Some { p.source->0 } else { t.source },
        created_at: if lo <= 16 < hi && p.created_at is Some && normalize_spec(p.created_at->0@) is Some {
            normalize_spec(p.created_at->0@)->0
        } else {
            t.created_at
        },
        ..t
    }
}

/// A task with the fields of `p` that come before position `stop` merged in.
pub open spec fn task_patch_upto(t: TaskView, p: TaskPayload, stop: int) -> TaskView {
    task_patch_between(t, p, 0, stop)
}

/// `id` is a fresh id: the prefix and something after it.
pub open spec fn fresh_id(id: Seq<char>, prefix: Seq<char>) -> bool {
    id.len() > prefix.len() && id.subrange(0, prefix.len() as int) == prefix
}

/// Subtasks of a patch that are kept: those with a title.
pub open spec fn kept_subtasks(items: Seq<Subtask>) -> Seq<Subtask> {
    items.filter(|s: Subtask| !blank(s.title@))
}

/// `out` is the cleaned list of `items`: titled entries only, titles trimmed,
/// a fresh `s…` id where the id is blank.
pub open spec fn subtasks_cleaned(items: Seq<Subtask>, out: Seq<SubtaskView>) -> bool {
    let kept = kept_subtasks(items);
    &&& out.len() == kept.len()
    &&& forall|i: int| 0 <= i < out.len() ==> {
        &&& (#[trigger] out[i]).title == trim_seq(kept[i].title@)
        &&& out[i].done == kept[i].done
        &&& if blank(kept[i].id@) { fresh_id(out[i].id, "s"@) } else { out[i].id == kept[i].id@ }
    }
}

/// Notes of a patch that are kept: those with a content or an author.
pub open spec fn kept_notes(items: Seq<Note>) -> Seq<Note> {
    items.filter(|n: Note| !(blank(n.content@) && blank(n.author@)))
}

/// `out` is the cleaned list of `items`: empty entries dropped, a fresh `n…`
/// id where the id is blank, the creation time normalised (a readable one is
/// kept; otherwise the time of the merge, not stated).
pub open spec fn notes_cleaned(items: Seq<Note>, out: Seq<NoteView>) -> bool {
    let kept = kept_notes(items);
    &&& out.len() == kept.len()
    &&& forall|i: int| 0 <= i < out.len() ==> {
        &&& (#[trigger] out[i]).author == kept[i].author@
        &&& out[i].content == kept[i].content@
        &&& if blank(kept[i].id@) { fresh_id(out[i].id, "n"@) } else { out[i].id == kept[i].id@ }
        &&& match normalize_spec(kept[i].created_at@) {
            Some(c) => out[i].created_at == c,
            None => minute_stamp_shape(out[i].created_at),
        }
    }
}

proof fn lemma_filter_step<A>(s: Seq<A>, pred: spec_fn(A) -> bool, k: int)
    requires
        0 <= k < s.len(),
    ensures
        s.take(k + 1).filter(pred) == if pred(s[k]) {
            s.take(k).filter(pred).push(s[k])
        } else {
            s.take(k).filter(pred)
        },
{
    assert(s.take(k + 1) =~= s.take(k).push(s[k]));
    crate::store::lemma_filter_push(s.take(k), pred, s[k]);
}

fn clean_subtasks(values: &Vec<Subtask>) -> (out: Vec<Subtask>)
    ensures
        subtasks_cleaned(values@, out@.map_values(|x: Subtask| x@)),
{
    let ghost pred = |s: Subtask| !blank(s.title@);
    let mut out: Vec<Subtask> = Vec::new();
    let mut k: usize = 0;
    while k < values.len()
        invariant
            k <= values@.len(),
            pred == (|s: Subtask| !blank(s.title@)),
            subtasks_cleaned(values@.take(k as int), out@.map_values(|x: Subtask| x@)),
        decreases values@.len() - k,
    {
        proof {
            lemma_filter_step(values@, pred, k as int);
            assert(kept_subtasks(values@.take(k as int)) == values@.take(k as int).filter(pred));
            assert(kept_subtasks(values@.take(k + 1)) == values@.take(k + 1).filter(pred));
        }
        let item = &values[k];
        if !is_blank(item.title.as_str()) {
            let id = if is_blank(item.id.as_str()) {
                new_id("s")
            } else {
                item.id.clone()
            };
            proof {
                reveal_strlit("s");
            }
            let ghost before = out@.map_values(|x: Subtask| x@);
            out.push(Subtask { id, title: trim(item.title.as_str()), done: item.done });
            assert(out@.map_values(|x: Subtask| x@) =~= before.push(out@.last()@));
        }
        k = k + 1;
    }
    assert(values@.take(values@.len() as int) =~= values@);
    out
}

fn clean_notes(values: &Vec<Note>) -> (out: Vec<Note>)
    ensures
        notes_cleaned(values@, out@.map_values(|x: Note| x@)),
{
    let ghost pred = |n: Note| !(blank(n.content@) && blank(n.author@));
    let mut out: Vec<Note> = Vec::new();
    let mut k: usize = 0;
    while k < values.len()
        invariant
            k <= values@.len(),
            pred == (|n: Note| !(blank(n.content@) && blank(n.author@))),
            notes_cleaned(values@.take(k as int), out@.map_values(|x: Note| x@)),
        decreases values@.len() - k,
    {
        proof {
            lemma_filter_step(values@, pred, k as int);
            assert(kept_notes(values@.take(k as int)) == values@.take(k as int).filter(pred));
            assert(kept_notes(values@.take(k + 1)) == values@.take(k + 1).filter(pred));
        }
        let item = &values[k];
        if !(is_blank(item.content.as_str()) && is_blank(item.author.as_str())) {
            let id = if is_blank(item.id.as_str()) {
                new_id("n")
            } else {
                item.id.clone()
            };
            proof {
                reveal_strlit("n");
            }
            let created_at = match normalize_datetime(item.created_at.as_str()) {
                Some(c) => c,
                None => now_text(),
            };
            let ghost before = out@.map_values(|x: Note| x@);
            out.push(Note {
                id,
                author: item.author.clone(),
                content: item.content.clone(),
                created_at,
            });
            assert(out@.map_values(|x: Note| x@) =~= before.push(out@.last()@));
        }
        k = k + 1;
    }
    assert(values@.take(values@.len() as int) =~= values@);
    out
}

#[verifier::rlimit(40)]
proof fn lemma_task_patch_compose(t: TaskView, p: TaskPayload, a: int, b: int, c: int)
    requires
        a <= b <= c,
    ensures
        task_patch_between(task_patch_between(t, p, a, b), p, b, c) == task_patch_between(t, p, a, c),
{
    let x = task_patch_between(task_patch_between(t, p, a, b), p, b, c);
    let y = task_patch_between(t, p, a, c);
    assert(x.title == y.title && x.note == y.note && x.category == y.category);
    assert(x.kb_refs == y.kb_refs && x.priority == y.priority && x.due_at == y.due_at);
    assert(x.remind_at == y.remind_at && x.planned_date == y.planned_date);
    assert(x.carried_from == y.carried_from && x.done_at == y.done_at);
    assert(x.deleted_at == y.deleted_at && x.legacy == y.legacy && x.source == y.source);
    assert(x.created_at == y.created_at);
}

/// Title, note, category, knowledge links, priority.
fn merge_task_head(task: &mut Task, patch: &TaskPayload) -> (r: Result<(), String>)
    ensures
        match r {
            Ok(()) => {
                &&& final(task)@ == task_patch_between(old(task)@, *patch, 0, 6)
                &&& task_patch_error(*patch) matches Some((k, _)) ==> k >= 6
            },
            Err(e) => task_patch_error(*patch) matches Some((k, m)) && e@ == m && k < 6
                && final(task)@ == task_patch_between(old(task)@, *patch, 0, k),
        },
{
    let ghost t0 = task@;
    let ghost p = *patch;
    if let Some(value) = &patch.title {
        if is_blank(value.as_str()) {
            assert(task@ =~= task_patch_between(t0, p, 0, 1));
            return Err(owned("标题不能为空"));
        }
        task.title = trim(value.as_str());
    }
    if let Some(value) = &patch.note {
        task.note = trim(value.as_str());
    }
    if let Some(value) = &patch.category {
        if !is_category_text(value.as_str()) {
            assert(task@ =~= task_patch_between(t0, p, 0, 3));
            return Err(owned("分类只能是 工作 / 学习 / 生活"));
        }
        task.category = value.clone();
    }
    if let Some(value) = &patch.kb_refs {
        task.kb_refs = dup_texts(value);
    }
    if let Some(value) = &patch.priority {
        if !is_priority_text(value.as_str()) {
            assert(task@ =~= task_patch_between(t0, p, 0, 5));
            return Err(owned("优先级只能是 high / med / low"));
        }
        task.priority = value.clone();
    }
    assert(task@ =~= task_patch_between(t0, p, 0, 6));
    Ok(())
}

/// Due, reminder, planned day, carried-over days, completion time.
fn merge_task_times(task: &mut Task, patch: &TaskPayload) -> (r: Result<(), String>)
    requires
        task_patch_error(*patch) matches Some((k, _)) ==> k >= 6,
    ensures
        match r {
            Ok(()) => {
                &&& final(task)@ == task_patch_between(old(task)@, *patch, 6, 11)
                &&& task_patch_error(*patch) is None
            },
            Err(e) => task_patch_error(*patch) matches Some((k, m)) && e@ == m && 6 <= k
                && final(task)@ == task_patch_between(old(task)@, *patch, 6, k),
        },
{
    let ghost t0 = task@;
    let ghost p = *patch;
    assert(task@ =~= task_patch_between(t0, p, 6, 6));
    if let Some(value) = &patch.due_at {
        let next = patch_datetime(value);
        if matches!(value, PatchValue::Text(_)) && next.is_none() {
            return Err(owned("截止日期格式不对，请用 YYYY-MM-DD"));
        }
        task.due_at = next;
    }
    assert(task@ =~= task_patch_between(t0, p, 6, 7));
    if let Some(value) = &patch.remind_at {
        let next = patch_datetime(value);
        if matches!(value, PatchValue::Text(_)) && next.is_none() {
            return Err(owned("提醒时间格式不对，请用 YYYY-MM-DDTHH:mm"));
        }
        task.remind_at = next;
    }
    assert(task@ =~= task_patch_between(t0, p, 6, 8));
    if let Some(value) = &patch.planned_date {
        let text = patch_text(value);
        let next = match value {
            PatchValue::Null => None,
            _ => match &text {
                None => None,
                Some(t) => normalize_date_text(t.as_str()),
            },
        };
        if matches!(value, PatchValue::Text(_)) && next.is_none() && text.is_some() {
            return Err(owned("计划日期格式不对，请用 YYYY-MM-DD"));
        }
        task.planned_date = next;
    }
    if let Some(value) = patch.carried_from {
        task.carried_from = if value > 9999 { 9999 } else { value };
    }
    assert(task@ =~= task_patch_between(t0, p, 6, 10));
    if let Some(value) = &patch.done_at {
        let next = patch_datetime(value);
        if matches!(value, PatchValue::Text(_)) && next.is_none() {
            return Err(owned("完成时刻格式不对，请用 YYYY-MM-DDTHH:mm"));
        }
        task.done_at = next;
    }
    assert(task@ =~= task_patch_between(t0, p, 6, 11));
    Ok(())
}

/// Trash stamp, legacy flag, subtasks, notes, source, creation time.
fn merge_task_tail(task: &mut Task, patch: &TaskPayload)
    ensures
        final(task)@ == (TaskView {
            subtasks: final(task)@.subtasks,
            notes: final(task)@.notes,
            ..task_patch_between(old(task)@, *patch, 11, 17)
        }),
        match patch.subtasks {
            Some(v) => subtasks_cleaned(v@, final(task)@.subtasks),
            None => final(task)@.subtasks == old(task)@.subtasks,
        },
        match patch.notes {
            Some(v) => notes_cleaned(v@, final(task)@.notes),
            None => final(task)@.notes == old(task)@.notes,
        },
{
    if let Some(value) = &patch.deleted_at {
        task.deleted_at = patch_datetime(value);
    }
    if let Some(value) = patch.legacy {
        task.legacy = value;
    }
    if let Some(values) = &patch.subtasks {
        task.subtasks = clean_subtasks(values);
    }
    if let Some(values) = &patch.notes {
        task.notes = clean_notes(values);
    }
    if let Some(value) = patch.source {
        task.source = value;
    }
    if let Some(value) = &patch.created_at {
        if let Some(normalized) = normalize_datetime(value.as_str()) {
            task.created_at = normalized;
        }
    }
}

/// The completion flag, merged last.
fn merge_task_done(task: &mut Task, done: Option<bool>)
    ensures
        final(task)@ == (TaskView {
            done: final(task)@.done,
            done_at: final(task)@.done_at,
            legacy: final(task)@.legacy,
            ..old(task)@
        }),
        match done {
            None => final(task)@ == old(task)@,
            Some(true) => {
                &&& final(task)@.done
                &&& !final(task)@.legacy
                &&& final(task)@.done_at is Some
                &&& (old(task)@.done_at is Some ==> final(task)@.done_at == old(task)@.done_at)
                &&& (old(task)@.done_at is None ==> minute_stamp_shape(final(task)@.done_at->0))
            },
            Some(false) => !final(task)@.done && final(task)@.done_at is None
                && final(task)@.legacy == old(task)@.legacy,
        },
{
    if let Some(done) = done {
        task.done = done;
        if done {
            if task.done_at.is_none() {
                task.done_at = Some(now_text());
            }
            task.legacy = false;
        } else {
            task.done_at = None;
        }
    }
}

impl Store {
    /// Merge a task patch into `task`.
    ///
    /// On success every field the patch carries is merged: texts trimmed,
    /// times normalised, the carried-over days capped at 9999, subtasks and
    /// notes cleaned, and a change of the completion flag applied last
    /// (completing stamps `done_at` when it is empty and clears `legacy`;
    /// reopening clears `done_at`). On failure the message of the first
    /// failing field comes back and only the fields before it are merged.
    pub fn apply_task_patch(task: &mut Task, patch: &TaskPayload) -> (r: Result<(), String>)
        ensures
            match r {
                Ok(()) => {
                    let base = task_patch_upto(old(task)@, *patch, 100);
                    let t = final(task)@;
                    &&& task_patch_error(*patch) is None
                    &&& t == (TaskView {
                        subtasks: t.subtasks,
                        notes: t.notes,
                        done: t.done,
                        done_at: t.done_at,
                        legacy: t.legacy,
                        ..base
                    })
                    &&& match patch.subtasks {
                        Some(v) => subtasks_cleaned(v@, t.subtasks),
                        None => t.subtasks == base.subtasks,
                    }
                    &&& match patch.notes {
                        Some(v) => notes_cleaned(v@, t.notes),
                        None => t.notes == base.notes,
                    }
                    &&& match patch.done {
                        None => t.done == base.done && t.done_at == base.done_at && t.legacy == base.legacy,
                        Some(true) => {
                            &&& t.done
                            &&& !t.legacy
                            &&& t.done_at is Some
                            &&& (base.done_at is Some ==> t.done_at == base.done_at)
                            &&& (base.done_at is None ==> minute_stamp_shape(t.done_at->0))
                        },
                        Some(false) => !t.done && t.done_at is None && t.legacy == base.legacy,
                    }
                },
                Err(e) => {
                    &&& task_patch_error(*patch) matches Some((k, m)) && e@ == m
                        && final(task)@ == task_patch_upto(old(task)@, *patch, k)
                },
            },
    {
        let ghost t0 = task@;
        let ghost p = *patch;
        match merge_task_head(task, patch) {
            Ok(()) => {},
            Err(e) => return Err(e),
        }
        let ghost t1 = task@;
        match merge_task_times(task, patch) {
            Ok(()) => {},
            Err(e) => {
                proof {
                    let k = (task_patch_error(p)->0).0;
                    lemma_task_patch_compose(t0, p, 0, 6, k);
                }
                return Err(e);
            },
        }
        proof {
            lemma_task_patch_compose(t0, p, 0, 6, 11);
        }
        let ghost t2 = task@;
        merge_task_tail(task, patch);
        proof {
            lemma_task_patch_compose(t0, p, 0, 11, 17);
            assert(task_patch_between(t0, p, 0, 17) == task_patch_between(t0, p, 0, 100));
        }
        let ghost t3 = task@;
        merge_task_done(task, patch.done);
        Ok(())
    }
}


// ---------------------------------------------------------------- reminder patches

/// The first field of a reminder patch that fails its check.
pub open spec fn reminder_patch_error(p: ReminderPayload) -> Option<(int, Seq<char>)> {
    if p.title matches Some(v) && blank(v@) {
        Some((1, "提醒名不能为空"@))
    } else if p.time matches Some(v) && !blank(v@) && normalize_spec(trim_seq(v@)) is None
        && clocks_spec(trim_seq(v@)).len() == 0 {
        Some((2, "提醒时间没设好，请重新选一次时间"@))
    } else if p.category matches Some(v) && !is_category(v@) {
        Some((3, "分类只能是 工作 / 学习 / 生活"@))
    } else {
        None
    }
}

/// A reminder with the fields of `p` before position `stop` merged in.
/// Marking it completed switches it off; reopening switches it on.
pub open spec fn reminder_patch_upto(r: ReminderView, p: ReminderPayload, stop: int) -> ReminderView {
    ReminderView {
        title: if 1 < stop && p.title is Some { trim_seq(p.title->0@) } else { r.title },
        time: if 2 < stop && p.time is Some { trim_seq(p.time->0@) } else { r.time },
        category: if 3 < stop && p.category is Some { p.category->0@ } else { r.category },
        enabled: if 5 < stop && p.completed is Some {
            !p.completed->0
        } else if 4 < stop && p.enabled is Some {
            p.enabled->0
        } else {
            r.enabled
        },
        completed: if 5 < stop && p.completed is Some { p.completed->0 } else { r.completed },
        repeat: if 6 < stop && p.repeat is Some { p.repeat->0 } else { r.repeat },
        snoozed_until: if 7 < stop && p.snoozed_until is Some {
            normalize_spec(p.snoozed_until->0@)
        } else {
            r.snoozed_until
        },
        ..r
    }
}

impl Store {
    /// Merge a reminder patch into `reminder`: the title and time trimmed (a
    /// time must be a date-time or clock times; blank clears it), the snooze
    /// normalised. On failure the message of the first failing field comes
    /// back and only the fields before it are merged.
    pub fn apply_reminder_patch(reminder: &mut Reminder, patch: &ReminderPayload) -> (r: Result<(), String>)
        ensures
            match r {
                Ok(()) => reminder_patch_error(*patch) is None
                    && final(reminder)@ == reminder_patch_upto(old(reminder)@, *patch, 100),
                Err(e) => reminder_patch_error(*patch) matches Some((k, m)) && e@ == m
                    && final(reminder)@ == reminder_patch_upto(old(reminder)@, *patch, k),
            },
    {
        let ghost r0 = reminder@;
        let ghost p = *patch;
        if let Some(value) = &patch.title {
            if is_blank(value.as_str()) {
                assert(reminder@ =~= reminder_patch_upto(r0, p, 1));
                return Err(owned("提醒名不能为空"));
            }
            reminder.title = trim(value.as_str());
        }
        if let Some(value) = &patch.time {
            let trimmed = trim(value.as_str());
            if is_blank(value.as_str()) {
                reminder.time = trimmed;
            } else if normalize_datetime(trimmed.as_str()).is_none() && clocks_of(trimmed.as_str()).len() == 0 {
                assert(reminder@ =~= reminder_patch_upto(r0, p, 2));
                return Err(owned("提醒时间没设好，请重新选一次时间"));
            } else {
                reminder.time = trimmed;
            }
        }
        if let Some(value) = &patch.category {
            if !is_category_text(value.as_str()) {
                assert(reminder@ =~= reminder_patch_upto(r0, p, 3));
                return Err(owned("分类只能是 工作 / 学习 / 生活"));
            }
            reminder.category = value.clone();
        }
        if let Some(value) = patch.enabled {
            reminder.enabled = value;
        }
        if let Some(value) = patch.completed {
            reminder.completed = value;
            reminder.enabled = !value;
        }
        if let Some(value) = patch.repeat {
            reminder.repeat = value;
        }
        if let Some(value) = &patch.snoozed_until {
            reminder.snoozed_until = normalize_datetime(value.as_str());
        }
        assert(reminder@ =~= reminder_patch_upto(r0, p, 100));
        Ok(())
    }
}


// ---------------------------------------------------------------- settings patches

/// The first field of a settings patch that fails its check.
pub open spec fn settings_patch_error(p: SettingsPayload) -> Option<(int, Seq<char>)> {
    if p.theme matches Some(v) && blank(v@) {
        Some((1, "主题名不能为空"@))
    } else if p.sticky_paper matches Some(v) && !is_sticky_paper(trim_seq(v@)) {
        Some((2, "便签纸色只能是 warm / kraft / cyan / ink"@))
    } else if p.sticky_fade_opacity matches Some(v) && !(10 <= v <= 100) {
        Some((4, "淡化透明度要在 10 到 100 之间"@))
    } else if p.sticky_pattern matches Some(v) && !is_sticky_pattern(trim_seq(v@)) {
        Some((5, "纸面花纹只能是 none / bamboo / mountain"@))
    } else if p.capture_hotkey matches Some(v) && blank(v@) {
        Some((7, "快捷键不能为空，已改回默认"@))
    } else if p.remind_cap_per_hour matches Some(v) && (v == 0 || v > 60) {
        Some((12, "每小时提醒上限要在 1 到 60 之间"@))
    } else if p.dnd matches Some(d) && d.from is Some && parse_clock_spec(d.from->0@) is None {
        Some((16, "免打扰开始时间格式不对，请用 HH:MM"@))
    } else if p.dnd matches Some(d) && d.to is Some && parse_clock_spec(d.to->0@) is None {
        Some((17, "免打扰结束时间格式不对，请用 HH:MM"@))
    } else {
        None
    }
}

/// An optional hotkey or folder as patched: blank unsets it, other text is trimmed.
pub open spec fn optional_text(v: Seq<char>) -> Option<Seq<char>> {
    if blank(v) { None } else { Some(trim_seq(v)) }
}

/// Settings with the fields of `p` at positions from `lo` up to (not
/// including) `hi` merged in, before any correction.
pub open spec fn settings_patch_between(s: SettingsView, p: SettingsPayload, lo: int, hi: int) -> SettingsView {
    SettingsView {
        theme: if lo <= 1 < hi && p.theme is Some { trim_seq(p.theme->0@) } else { s.theme },
        sticky_paper: if lo <= 2 < hi && p.sticky_paper is Some {
            trim_seq(p.sticky_paper->0@)
        } else {
            s.sticky_paper
        },
        sticky_fade: if lo <= 3 < hi && p.sticky_fade is Some { p.sticky_fade->0 } else { s.sticky_fade },
        sticky_fade_opacity: if lo <= 4 < hi && p.sticky_fade_opacity is Some {
            p.sticky_fade_opacity->0
        } else {
            s.sticky_fade_opacity
        },
        sticky_pattern: if lo <= 5 < hi && p.sticky_pattern is Some {
            trim_seq(p.sticky_pattern->0@)
        } else {
            s.sticky_pattern
        },
        telemetry_enabled: if lo <= 6 < hi && p.telemetry_enabled is Some {
            p.telemetry_enabled->0
        } else {
            s.telemetry_enabled
        },
        capture_hotkey: if lo <= 7 < hi && p.capture_hotkey is Some {
            trim_seq(p.capture_hotkey->0@)
        } else {
            s.capture_hotkey
        },
        main_hotkey: if lo <= 8 < hi && p.main_hotkey is Some {
            optional_text(p.main_hotkey->0@)
        } else {
            s.main_hotkey
        },
        sticky_hotkey: if lo <= 9 < hi && p.sticky_hotkey is Some {
            optional_text(p.sticky_hotkey->0@)
        } else {
            s.sticky_hotkey
        },
        todo_float_pinned: if lo <= 10 < hi && p.todo_float_pinned is Some {
            p.todo_float_pinned->0
        } else {
            s.todo_float_pinned
        },
        todo_hotkey: if lo <= 11 < hi && p.todo_hotkey is Some {
            optional_text(p.todo_hotkey->0@)
        } else {
            s.todo_hotkey
        },
        remind_cap_per_hour: if lo <= 12 < hi && p.remind_cap_per_hour is Some {
            p.remind_cap_per_hour->0
        } else {
            s.remind_cap_per_hour
        },
        onboarded: if lo <= 13 < hi && p.onboarded is Some { p.onboarded->0 } else { s.onboarded },
        export_dir: if lo <= 14 < hi && p.export_dir is Some {
            optional_text(p.export_dir->0@)
        } else {
            s.export_dir
        },
        dnd_enabled: if lo <= 15 < hi && p.dnd is Some && p.dnd->0.enabled is Some {
            p.dnd->0.enabled->0
        } else {
            s.dnd_enabled
        },
        dnd_from: if lo <= 16 < hi && p.dnd is Some && p.dnd->0.from is Some {
            trim_seq(p.dnd->0.from->0@)
        } else {
            s.dnd_from
        },
        dnd_to: if lo <= 17 < hi && p.dnd is Some && p.dnd->0.to is Some {
            trim_seq(p.dnd->0.to->0@)
        } else {
            s.dnd_to
        },
    }
}

fn optional_trimmed(value: &String) -> (r: Option<String>)
    ensures
        opt_view(r) == optional_text(value@),
{
    if is_blank(value.as_str()) {
        None
    } else {
        Some(trim(value.as_str()))
    }
}

/// Theme, sticky paper, fading.
fn merge_settings_look(s: &mut Settings, patch: &SettingsPayload) -> (r: Result<(), String>)
    requires
        settings_patch_error(*patch) matches Some((k, _)) ==> k >= 1,
    ensures
        match r {
            Ok(()) => final(s)@ == settings_patch_between(old(s)@, *patch, 1, 4)
                && (settings_patch_error(*patch) matches Some((k, _)) ==> k >= 4),
            Err(e) => settings_patch_error(*patch) matches Some((k, m)) && e@ == m && 1 <= k < 4
                && final(s)@ == settings_patch_between(old(s)@, *patch, 1, k),
        },
{
    let ghost s0 = *s;
    let ghost p = *patch;
    assert(s@ =~= settings_patch_between(s0@, p, 1, 1));
    if let Some(value) = &patch.theme {
        if is_blank(value.as_str()) {
            return Err(owned("主题名不能为空"));
        }
        s.theme = trim(value.as_str());
    }
    assert(s@ =~= settings_patch_between(s0@, p, 1, 2));
    if let Some(value) = &patch.sticky_paper {
        let trimmed = trim(value.as_str());
        if !is_sticky_paper_text(trimmed.as_str()) {
            return Err(owned("便签纸色只能是 warm / kraft / cyan / ink"));
        }
        s.sticky_paper = trimmed;
    }
    assert(s@ =~= settings_patch_between(s0@, p, 1, 3));
    if let Some(value) = patch.sticky_fade {
        s.sticky_fade = value;
    }
    assert(s@ =~= settings_patch_between(s0@, p, 1, 4));
    Ok(())
}

/// Fade opacity, pattern, telemetry, capture hotkey.
fn merge_settings_window(s: &mut Settings, patch: &SettingsPayload) -> (r: Result<(), String>)
    requires
        settings_patch_error(*patch) matches Some((k, _)) ==> k >= 4,
    ensures
        match r {
            Ok(()) => final(s)@ == settings_patch_between(old(s)@, *patch, 4, 8)
                && (settings_patch_error(*patch) matches Some((k, _)) ==> k >= 8),
            Err(e) => settings_patch_error(*patch) matches Some((k, m)) && e@ == m && 4 <= k < 8
                && final(s)@ == settings_patch_between(old(s)@, *patch, 4, k),
        },
{
    let ghost s0 = *s;
    let ghost p = *patch;
    assert(s@ =~= settings_patch_between(s0@, p, 4, 4));
    if let Some(value) = patch.sticky_fade_opacity {
        if !(10 <= value && value <= 100) {
            return Err(owned("淡化透明度要在 10 到 100 之间"));
        }
        s.sticky_fade_opacity = value;
    }
    assert(s@ =~= settings_patch_between(s0@, p, 4, 5));
    if let Some(value) = &patch.sticky_pattern {
        let trimmed = trim(value.as_str());
        if !is_sticky_pattern_text(trimmed.as_str()) {
            return Err(owned("纸面花纹只能是 none / bamboo / mountain"));
        }
        s.sticky_pattern = trimmed;
    }
    assert(s@ =~= settings_patch_between(s0@, p, 4, 6));
    if let Some(value) = patch.telemetry_enabled {
        s.telemetry_enabled = value;
    }
    assert(s@ =~= settings_patch_between(s0@, p, 4, 7));
    if let Some(value) = &patch.capture_hotkey {
        if is_blank(value.as_str()) {
            return Err(owned("快捷键不能为空，已改回默认"));
        }
        s.capture_hotkey = trim(value.as_str());
    }
    assert(s@ =~= settings_patch_between(s0@, p, 4, 8));
    Ok(())
}

/// Main, sticky and to-do hotkeys and the to-do pin.
fn merge_settings_hotkeys(s: &mut Settings, patch: &SettingsPayload) -> (r: Result<(), String>)
    requires
        settings_patch_error(*patch) matches Some((k, _)) ==> k >= 8,
    ensures
        match r {
            Ok(()) => final(s)@ == settings_patch_between(old(s)@, *patch, 8, 12)
                && (settings_patch_error(*patch) matches Some((k, _)) ==> k >= 12),
            Err(e) => settings_patch_error(*patch) matches Some((k, m)) && e@ == m && 8 <= k < 12
                && final(s)@ == settings_patch_between(old(s)@, *patch, 8, k),
        },
{
    let ghost s0 = *s;
    let ghost p = *patch;
    if let Some(value) = &patch.main_hotkey {
        s.main_hotkey = optional_trimmed(value);
    }
    if let Some(value) = &patch.sticky_hotkey {
        s.sticky_hotkey = optional_trimmed(value);
    }
    if let Some(value) = patch.todo_float_pinned {
        s.todo_float_pinned = value;
    }
    if let Some(value) = &patch.todo_hotkey {
        s.todo_hotkey = optional_trimmed(value);
    }
    assert(s@ =~= settings_patch_between(s0@, p, 8, 12));
    Ok(())
}

/// Reminder cap, onboarding, export folder.
fn merge_settings_misc(s: &mut Settings, patch: &SettingsPayload) -> (r: Result<(), String>)
    requires
        settings_patch_error(*patch) matches Some((k, _)) ==> k >= 12,
    ensures
        match r {
            Ok(()) => final(s)@ == settings_patch_between(old(s)@, *patch, 12, 15)
                && (settings_patch_error(*patch) matches Some((k, _)) ==> k >= 15),
            Err(e) => settings_patch_error(*patch) matches Some((k, m)) && e@ == m && 12 <= k < 15
                && final(s)@ == settings_patch_between(old(s)@, *patch, 12, k),
        },
{
    let ghost s0 = *s;
    let ghost p = *patch;
    assert(s@ =~= settings_patch_between(s0@, p, 12, 12));
    if let Some(value) = patch.remind_cap_per_hour {
        if value == 0 || value > 60 {
            return Err(owned("每小时提醒上限要在 1 到 60 之间"));
        }
        s.remind_cap_per_hour = value;
    }
    if let Some(value) = patch.onboarded {
        s.onboarded = value;
    }
    if let Some(value) = &patch.export_dir {
        s.export_dir = optional_trimmed(value);
    }
    assert(s@ =~= settings_patch_between(s0@, p, 12, 15));
    Ok(())
}

/// Quiet hours.
fn merge_settings_dnd(s: &mut Settings, patch: &SettingsPayload) -> (r: Result<(), String>)
    requires
        settings_patch_error(*patch) matches Some((k, _)) ==> k >= 15,
    ensures
        match r {
            Ok(()) => final(s)@ == settings_patch_between(old(s)@, *patch, 15, 100)
                && (settings_patch_error(*patch) matches Some((k, _)) ==> k >= 100),
            Err(e) => settings_patch_error(*patch) matches Some((k, m)) && e@ == m && 15 <= k < 100
                && final(s)@ == settings_patch_between(old(s)@, *patch, 15, k),
        },
{
    let ghost s0 = *s;
    let ghost p = *patch;
    assert(s@ =~= settings_patch_between(s0@, p, 15, 15));
    if let Some(dnd) = &patch.dnd {
        if let Some(value) = dnd.enabled {
            s.dnd.enabled = value;
        }
        assert(s@ =~= settings_patch_between(s0@, p, 15, 16));
        if let Some(value) = &dnd.from {
            if parse_clock(value.as_str()).is_none() {
                return Err(owned("免打扰开始时间格式不对，请用 HH:MM"));
            }
            s.dnd.from = trim(value.as_str());
        }
        assert(s@ =~= settings_patch_between(s0@, p, 15, 17));
        if let Some(value) = &dnd.to {
            if parse_clock(value.as_str()).is_none() {
                return Err(owned("免打扰结束时间格式不对，请用 HH:MM"));
            }
            s.dnd.to = trim(value.as_str());
        }
    }
    assert(s@ =~= settings_patch_between(s0@, p, 15, 100));
    Ok(())
}

#[verifier::rlimit(30)]
proof fn lemma_settings_patch_compose(s: SettingsView, p: SettingsPayload, a: int, b: int, c: int)
    requires
        a <= b <= c,
    ensures
        settings_patch_between(settings_patch_between(s, p, a, b), p, b, c) == settings_patch_between(s, p, a, c),
{
    let x = settings_patch_between(settings_patch_between(s, p, a, b), p, b, c);
    let y = settings_patch_between(s, p, a, c);
    assert(x.theme == y.theme && x.sticky_paper == y.sticky_paper && x.sticky_fade == y.sticky_fade);
    assert(x.sticky_fade_opacity == y.sticky_fade_opacity && x.sticky_pattern == y.sticky_pattern);
    assert(x.telemetry_enabled == y.telemetry_enabled && x.capture_hotkey == y.capture_hotkey);
    assert(x.main_hotkey == y.main_hotkey && x.sticky_hotkey == y.sticky_hotkey);
    assert(x.todo_float_pinned == y.todo_float_pinned && x.todo_hotkey == y.todo_hotkey);
    assert(x.remind_cap_per_hour == y.remind_cap_per_hour && x.onboarded == y.onboarded);
    assert(x.export_dir == y.export_dir && x.dnd_enabled == y.dnd_enabled);
    assert(x.dnd_from == y.dnd_from && x.dnd_to == y.dnd_to);
}

/// Merge every field of a settings patch, in order, stopping at the first
/// that fails its check.
fn merge_settings(s: &mut Settings, patch: &SettingsPayload) -> (r: Result<(), String>)
    ensures
        match r {
            Ok(()) => final(s)@ == settings_patch_between(old(s)@, *patch, 0, 100)
                && settings_patch_error(*patch) is None,
            Err(e) => settings_patch_error(*patch) matches Some((k, m)) && e@ == m
                && final(s)@ == settings_patch_between(old(s)@, *patch, 0, k),
        },
{
    let ghost s0 = *s;
    let ghost p = *patch;
    assert(s0@ == settings_patch_between(s0@, p, 0, 1));
    let r1 = merge_settings_look(s, patch);
    let ghost v1 = s@;
    proof {
        lemma_settings_patch_compose(s0@, p, 0, 1, 4);
        if r1 is Err {
            lemma_settings_patch_compose(s0@, p, 0, 1, (settings_patch_error(p)->0).0);
        }
    }
    if r1.is_err() {
        return r1;
    }
    let r2 = merge_settings_window(s, patch);
    proof {
        lemma_settings_patch_compose(s0@, p, 0, 4, 8);
        if r2 is Err {
            lemma_settings_patch_compose(s0@, p, 0, 4, (settings_patch_error(p)->0).0);
        }
    }
    if r2.is_err() {
        return r2;
    }
    let r3 = merge_settings_hotkeys(s, patch);
    proof {
        lemma_settings_patch_compose(s0@, p, 0, 8, 12);
    }
    if r3.is_err() {
        return r3;
    }
    let r4 = merge_settings_misc(s, patch);
    proof {
        lemma_settings_patch_compose(s0@, p, 0, 12, 15);
        if r4 is Err {
            lemma_settings_patch_compose(s0@, p, 0, 12, (settings_patch_error(p)->0).0);
        }
    }
    if r4.is_err() {
        return r4;
    }
    let r5 = merge_settings_dnd(s, patch);
    proof {
        lemma_settings_patch_compose(s0@, p, 0, 15, 100);
        if r5 is Err {
            lemma_settings_patch_compose(s0@, p, 0, 15, (settings_patch_error(p)->0).0);
        }
    }
    r5
}

impl Store {
    /// Merge a settings patch into the store's settings, then correct them
    /// (`Settings::coerce`). On failure the message of the first failing field
    /// comes back; the fields before it are merged and nothing is corrected.
    pub fn apply_settings_patch(&mut self, patch: &SettingsPayload) -> (r: Result<(), String>)
        ensures
            final(self).data.tasks == old(self).data.tasks,
            final(self).data.reminders == old(self).data.reminders,
            final(self).data.stickies == old(self).data.stickies,
            final(self).runtime == old(self).runtime,
            final(self).kb == old(self).kb,
            final(self).undo == old(self).undo,
            final(self).health == old(self).health,
            match r {
                Ok(()) => settings_patch_error(*patch) is None && exists|mid: Settings|
                    #[trigger] mid@ == settings_patch_between(old(self).data.settings@, *patch, 0, 100)
                        && coerced(mid, final(self).data.settings),
                Err(e) => settings_patch_error(*patch) matches Some((k, m)) && e@ == m
                    && final(self).data.settings@ == settings_patch_between(old(self).data.settings@, *patch, 0, k),
            },
    {
        let mut s = self.data.settings.duplicate();
        let ghost s0 = s;
        match merge_settings(&mut s, patch) {
            Ok(()) => {},
            Err(e) => {
                self.data.settings = s;
                return Err(e);
            },
        }
        let ghost mid = s;
        assert(mid@ == settings_patch_between(s0@, *patch, 0, 100));
        s.coerce();
        proof {
            reveal_strlit("Alt+Shift+A");
        }
        if !same_text(s.capture_hotkey.as_str(), DEFAULT_HOTKEY) && is_blank(s.capture_hotkey.as_str()) {
            s.capture_hotkey = owned(DEFAULT_HOTKEY);
        }
        self.data.settings = s;
        Ok(())
    }
}

} // verus!
