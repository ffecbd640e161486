//! More store operations: manual ordering, stickies, purging the trash,
//! backup slots and the write-health flags.
use vstd::prelude::*;
use vstd::string::*;
use crate::text::{all_digits, digits_value, is_ascii_digit, occurs_at, owned, same_text, starts_with, trim, trim_seq};
use crate::datetime::{Wall, parse_wall, parse_wall_spec, split_on, split_seq};
use crate::models::{
    AppData, StickyNote, StickyView, Task, TaskView, coerced, opt_view, sticky_views, task_views, texts_view,
};
use crate::store::{Store, first_task_at, no_task_with, task_pos, lemma_task_pos, lemma_filter_push};

verus! {

broadcast use vstd::string::group_string_axioms;

// ---------------------------------------------------------------- manual order

/// Tasks after ordering by the ids in `ids` (the `k`-th id's first task gets
/// position `k`, stamped); ids without a task are skipped.
pub open spec fn reordered(ts: Seq<TaskView>, ids: Seq<Seq<char>>, stamp: Seq<char>) -> Seq<TaskView>
    decreases ids.len(),
{
    if ids.len() == 0 {
        ts
    } else {
        let before = reordered(ts, ids.drop_last(), stamp);
        let id = ids.last();
        if no_task_with(before, id) {
            before
        } else {
            let i = task_pos(before, id);
            before.update(i, TaskView {
                sort_order: Some((ids.len() - 1) as i64),
                updated_at: stamp,
                ..before[i]
            })
        }
    }
}

/// How many of the ids found a task.
pub open spec fn reorder_hits(ts: Seq<TaskView>, ids: Seq<Seq<char>>) -> nat
    decreases ids.len(),
{
    if ids.len() == 0 {
        0
    } else {
        reorder_hits(ts, ids.drop_last()) + if no_task_with(ts, ids.last()) { 0nat } else { 1nat }
    }
}

proof fn lemma_reordered_ids(ts: Seq<TaskView>, ids: Seq<Seq<char>>, stamp: Seq<char>)
    ensures
        reordered(ts, ids, stamp).len() == ts.len(),
        forall|j: int| 0 <= j < ts.len() ==> (#[trigger] reordered(ts, ids, stamp)[j]).id == ts[j].id,
        reorder_hits(ts, ids) <= ids.len(),
    decreases ids.len(),
{
    if ids.len() > 0 {
        lemma_reordered_ids(ts, ids.drop_last(), stamp);
        let before = reordered(ts, ids.drop_last(), stamp);
        let id = ids.last();
        if !no_task_with(before, id) {
            let k = choose|k: int| 0 <= k < before.len() && before[k].id == id;
            crate::store::lemma_first_task_exists(before, id, k);
        }
    }
}

proof fn lemma_reorder_no_hits(ts: Seq<TaskView>, ids: Seq<Seq<char>>, stamp: Seq<char>)
    requires
        reorder_hits(ts, ids) == 0,
    ensures
        reordered(ts, ids, stamp) == ts,
    decreases ids.len(),
{
    if ids.len() > 0 {
        lemma_reorder_no_hits(ts, ids.drop_last(), stamp);
    }
}

pub const MSG_NOTHING_TO_SORT: &'static str = "没有要排序的条目";
pub const MSG_NOTHING_MATCHED: &'static str = "没有匹配到任何条目，可能已被删除";

// ---------------------------------------------------------------- trash purge

/// A trashed task whose deletion time, read on the wall clock, is at least
/// `days` days before `now`.
pub open spec fn expired(t: TaskView, now: Wall, days: int) -> bool {
    match t.deleted_at {
        None => false,
        Some(stamp) => match parse_wall_spec(stamp, now.date) {
            Some(w) => !(w.moment() > now.moment() - days * 86400),
            None => false,
        },
    }
}

/// The task id a fired key names (its second `|`-separated part).
pub open spec fn key_task_id(key: Seq<char>) -> Option<Seq<char>> {
    let parts = split_seq(key, '|');
    if parts.len() > 1 { Some(parts[1]) } else { None }
}

/// A fired key that names one of the purged tasks.
pub open spec fn key_of_purged(key: Seq<char>, purged: Seq<Seq<char>>) -> bool {
    match key_task_id(key) {
        Some(id) => purged.contains(id),
        None => false,
    }
}

// ---------------------------------------------------------------- backup slots

pub open spec fn slot_digits(slot: Seq<char>) -> Seq<char> {
    trim_seq(slot).filter(|c: char| is_ascii_digit(c))
}

/// The backup number a slot text names: its digits read as a number.
pub open spec fn backup_slot_spec(slot: Seq<char>) -> Result<usize, Seq<char>> {
    let d = slot_digits(slot);
    if d.len() == 0 || digits_value(d) > usize::MAX {
        Err("请指定 1 到 5 之间的备份编号"@)
    } else if digits_value(d) == 0 || digits_value(d) > 5 {
        Err("备份只有 1 到 5 号，请重新选择"@)
    } else {
        Ok(digits_value(d) as usize)
    }
}

/// The backup number named by `slot` (its ASCII digits, 1 to 5).
pub fn backup_slot(slot: &str) -> (r: Result<usize, String>)
    ensures
        match r {
            Ok(n) => backup_slot_spec(slot@) == Ok::<usize, Seq<char>>(n),
            Err(e) => backup_slot_spec(slot@) == Err::<usize, Seq<char>>(e@),
        },
{
    let t = trim(slot);
    let cs = crate::text::chars_of(t.as_str());
    let ghost pred = |c: char| is_ascii_digit(c);
    let mut value: usize = 0;
    let mut overflow = false;
    let mut count: usize = 0;
    let mut k: usize = 0;
    let ghost mut d: Seq<char> = Seq::empty();
    while k < cs.len()
        invariant
            k <= cs@.len(),
            cs@ == trim_seq(slot@),
            pred == (|c: char| is_ascii_digit(c)),
            d == cs@.take(k as int).filter(pred),
            count == d.len(),
            all_digits(d),
            overflow == (digits_value(d) > usize::MAX),
            !overflow ==> value == digits_value(d),
        decreases cs@.len() - k,
    {
        let c = cs[k];
        proof {
            assert(cs@.take(k + 1) =~= cs@.take(k as int).push(c));
            lemma_filter_push(cs@.take(k as int), pred, c);
        }
        if '0' <= c && c <= '9' {
            let digit = (c as u32 - 48) as usize;
            proof {
                let nd = d.push(c);
                assert(nd.drop_last() =~= d);
                assert(digits_value(nd) == digits_value(d) * 10 + digit);
                d = nd;
            }
            if !overflow {
                if value > (usize::MAX - digit) / 10 {
                    overflow = true;
                } else {
                    value = value * 10 + digit;
                }
            } else {
                assert(digits_value(d) >= digits_value(d.drop_last()) * 10) by (nonlinear_arith)
                    requires
                        digits_value(d) == digits_value(d.drop_last()) * 10 + digit,
                ;
                assert(digits_value(d) > usize::MAX) by (nonlinear_arith)
                    requires
                        digits_value(d) >= digits_value(d.drop_last()) * 10,
                        digits_value(d.drop_last()) > usize::MAX,
                ;
            }
            count = count + 1;
        }
        k = k + 1;
    }
    assert(cs@.take(cs@.len() as int) =~= cs@);
    proof {
        reveal_strlit("请指定 1 到 5 之间的备份编号");
        reveal_strlit("备份只有 1 到 5 号，请重新选择");
    }
    if count == 0 || overflow {
        return Err(owned("请指定 1 到 5 之间的备份编号"));
    }
    if value == 0 || value > crate::store::BACKUP_SLOTS {
        return Err(owned("备份只有 1 到 5 号，请重新选择"));
    }
    Ok(value)
}

impl Store {
    /// Give tasks the manual order of `ids` (position `k` for the `k`-th id,
    /// stamped); ids without a task are skipped. Returns how many matched.
    pub fn reorder_tasks(&mut self, ids_in_order: &[String], stamp: &str) -> (r: Result<usize, String>)
        requires
            ids_in_order@.len() <= i64::MAX,
        ensures
            final(self).same_but_tasks(old(self)),
            match r {
                Ok(n) => {
                    &&& n == reorder_hits(old(self).tasks_v(), texts_view(ids_in_order@)) && n > 0
                    &&& final(self).tasks_v() == reordered(old(self).tasks_v(), texts_view(ids_in_order@), stamp@)
                },
                Err(e) => {
                    &&& final(self).tasks_v() == old(self).tasks_v()
                    &&& if ids_in_order@.len() == 0 {
                        e@ == "没有要排序的条目"@
                    } else {
                        reorder_hits(old(self).tasks_v(), texts_view(ids_in_order@)) == 0
                            && e@ == "没有匹配到任何条目，可能已被删除"@
                    }
                },
            },
    {
        if ids_in_order.len() == 0 {
            return Err(owned(MSG_NOTHING_TO_SORT));
        }
        let ghost ts0 = self.tasks_v();
        let ghost ids = texts_view(ids_in_order@);
        let mut moved: usize = 0;
        let mut k: usize = 0;
        while k < ids_in_order.len()
            invariant
                k <= ids_in_order@.len(),
                ids_in_order@.len() <= i64::MAX,
                ids == texts_view(ids_in_order@),
                self.tasks_v() == reordered(ts0, ids.take(k as int), stamp@),
                moved == reorder_hits(ts0, ids.take(k as int)),
                moved <= k,
                self.same_but_tasks(old(self)),
                ts0 == old(self).tasks_v(),
            decreases ids_in_order@.len() - k,
        {
            proof {
                assert(ids.take(k + 1).drop_last() =~= ids.take(k as int));
                assert(ids.take(k + 1).last() == ids[k as int]);
                lemma_reordered_ids(ts0, ids.take(k as int), stamp@);
            }
            let ghost before = self.tasks_v();
            let id = ids_in_order[k].as_str();
            match self.find_index(id) {
                Some(index) => {
                    proof {
                        lemma_task_pos(before, id@, index as int);
                        assert(!no_task_with(ts0, id@)) by {
                            assert(before[index as int].id == ts0[index as int].id);
                        }
                    }
                    self.data.tasks[index].sort_order = Some(k as i64);
                    self.data.tasks[index].updated_at = owned(stamp);
                    assert(self.tasks_v() =~= before.update(index as int, TaskView {
                        sort_order: Some(k as i64),
                        updated_at: stamp@,
                        ..before[index as int]
                    }));
                    moved = moved + 1;
                },
                None => {
                    proof {
                        assert(no_task_with(ts0, id@)) by {
                            assert forall|j: int| 0 <= j < ts0.len() implies ts0[j].id != id@ by {
                                assert(before[j].id == ts0[j].id);
                            }
                        }
                    }
                },
            }
            k = k + 1;
        }
        assert(ids.take(ids.len() as int) =~= ids);
        if moved == 0 {
            proof {
                lemma_reorder_no_hits(ts0, ids, stamp@);
            }
            return Err(owned(MSG_NOTHING_MATCHED));
        }
        Ok(moved)
    }

    pub open spec fn stickies_v(&self) -> Seq<StickyView> {
        sticky_views(self.data.stickies@)
    }

    /// All stickies.
    pub fn stickies(&self) -> (r: Vec<StickyNote>)
        ensures
            r@ == self.data.stickies@,
    {
        let mut r: Vec<StickyNote> = Vec::new();
        let mut i: usize = 0;
        while i < self.data.stickies.len()
            invariant
                i <= self.data.stickies@.len(),
                r@ == self.data.stickies@.take(i as int),
            decreases self.data.stickies@.len() - i,
        {
            r.push(self.data.stickies[i].duplicate());
            i = i + 1;
            assert(r@ =~= self.data.stickies@.take(i as int));
        }
        assert(self.data.stickies@.take(i as int) =~= self.data.stickies@);
        r
    }

    /// The first sticky with this id.
    pub fn find_sticky(&self, id: &str) -> (r: Option<StickyNote>)
        ensures
            match r {
                Some(s) => exists|i: int| 0 <= i < self.data.stickies@.len() && self.data.stickies@[i] == s
                    && s.id@ == id@ && forall|j: int| 0 <= j < i ==> self.data.stickies@[j].id@ != id@,
                None => forall|i: int| 0 <= i < self.data.stickies@.len() ==> self.data.stickies@[i].id@ != id@,
            },
    {
        let mut i: usize = 0;
        while i < self.data.stickies.len()
            invariant
                i <= self.data.stickies@.len(),
                forall|j: int| 0 <= j < i ==> self.data.stickies@[j].id@ != id@,
            decreases self.data.stickies@.len() - i,
        {
            if same_text(self.data.stickies[i].id.as_str(), id) {
                return Some(self.data.stickies[i].duplicate());
            }
            i = i + 1;
        }
        None
    }

    /// Add a sticky stamped as created and updated now.
    pub fn add_sticky(&mut self, note: StickyNote, stamp: &str) -> (r: StickyNote)
        ensures
            r@ == (StickyView { created_at: stamp@, updated_at: stamp@, ..note@ }),
            final(self).stickies_v() == old(self).stickies_v().push(r@),
            final(self).data.tasks == old(self).data.tasks,
            final(self).data.reminders == old(self).data.reminders,
            final(self).data.settings == old(self).data.settings,
            final(self).runtime == old(self).runtime,
    {
        let mut note = note;
        note.created_at = owned(stamp);
        note.updated_at = owned(stamp);
        let ghost before = self.stickies_v();
        self.data.stickies.push(note.duplicate());
        assert(self.stickies_v() =~= before.push(note@));
        note
    }

    /// Remove every sticky with this id and forget its window position.
    pub fn delete_sticky(&mut self, id: &str) -> (r: Result<(), String>)
        ensures
            final(self).data.tasks == old(self).data.tasks,
            final(self).data.reminders == old(self).data.reminders,
            final(self).data.settings == old(self).data.settings,
            final(self).runtime.fired == old(self).runtime.fired,
            match r {
                Ok(()) => {
                    &&& exists|i: int| 0 <= i < old(self).data.stickies@.len() && old(self).data.stickies@[i].id@ == id@
                    &&& final(self).data.stickies@ == old(self).data.stickies@.filter(|s: StickyNote| s.id@ != id@)
                    &&& final(self).runtime.note_pos@ == old(self).runtime.note_pos@.filter(|p: (String, [i32; 2])| p.0@ != id@)
                },
                Err(e) => {
                    &&& final(self).data.stickies == old(self).data.stickies
                    &&& final(self).runtime == old(self).runtime
                    &&& forall|i: int| 0 <= i < old(self).data.stickies@.len() ==> old(self).data.stickies@[i].id@ != id@
                    &&& e@ == "找不到这张便签，可能已经被删除"@
                },
            },
    {
        let mut found = false;
        let mut i: usize = 0;
        while i < self.data.stickies.len() && !found
            invariant
                i <= self.data.stickies@.len(),
                found ==> i < self.data.stickies@.len() && self.data.stickies@[i as int].id@ == id@,
                forall|j: int| 0 <= j < i ==> self.data.stickies@[j].id@ != id@,
            decreases self.data.stickies@.len() - i + (if found { 0int } else { 1int }),
        {
            if same_text(self.data.stickies[i].id.as_str(), id) {
                found = true;
            } else {
                i = i + 1;
            }
        }
        if !found {
            return Err(owned("找不到这张便签，可能已经被删除"));
        }
        let mut stickies: Vec<StickyNote> = Vec::new();
        std::mem::swap(&mut stickies, &mut self.data.stickies);
        self.data.stickies = drop_stickies(stickies, id);
        let mut pos: Vec<(String, [i32; 2])> = Vec::new();
        std::mem::swap(&mut pos, &mut self.runtime.note_pos);
        self.runtime.note_pos = drop_positions(pos, id);
        Ok(())
    }

    /// Purge trashed tasks deleted at least `days` days before `now` (their
    /// subtasks and notes go with them) and forget the fired keys that name
    /// them. Returns how many were purged. The cut-off, `days` days before
    /// `now`, must fall on one of chrono's dates.
    pub fn purge_expired(&mut self, days: i64, now: &Wall) -> (n: usize)
        requires
            now.valid(),
            crate::datetime::chrono_instant(now.moment() - days * 86400),
        ensures
            final(self).data.tasks@ == old(self).data.tasks@.filter(|t: Task| !expired(t@, *now, days as int)),
            n == old(self).data.tasks@.filter(|t: Task| expired(t@, *now, days as int)).len(),
            final(self).fired_v() == old(self).fired_v().filter(|k: Seq<char>| !key_of_purged(
                k,
                task_views(old(self).data.tasks@.filter(|t: Task| expired(t@, *now, days as int))).map_values(|t: TaskView| t.id),
            )),
            final(self).data.reminders == old(self).data.reminders,
            final(self).data.settings == old(self).data.settings,
            final(self).data.stickies == old(self).data.stickies,
            final(self).runtime.note_pos == old(self).runtime.note_pos,
            final(self).runtime.migration == old(self).runtime.migration,
    {
        let ghost orig = self.data.tasks@;
        let ghost keep = |t: Task| !expired(t@, *now, days as int);
        let ghost gone = |t: Task| expired(t@, *now, days as int);
        let limit = now.seconds() - days * 86400;
        let mut rest: Vec<Task> = Vec::new();
        std::mem::swap(&mut rest, &mut self.data.tasks);
        assert(orig.len() == rest.len());
        let mut purged_ids: Vec<String> = Vec::new();
        let mut k: usize = 0;
        while rest.len() > 0
            invariant
                now.valid(),
                limit == now.moment() - days * 86400,
                k <= orig.len(),
                orig.len() <= usize::MAX,
                rest@ == orig.skip(k as int),
                keep == (|t: Task| !expired(t@, *now, days as int)),
                gone == (|t: Task| expired(t@, *now, days as int)),
                self.data.tasks@ == orig.take(k as int).filter(keep),
                texts_view(purged_ids@) == task_views(orig.take(k as int).filter(gone)).map_values(|t: TaskView| t.id),
                purged_ids@.len() == orig.take(k as int).filter(gone).len(),
                self.data.reminders == old(self).data.reminders,
                self.data.settings == old(self).data.settings,
                self.data.stickies == old(self).data.stickies,
                self.runtime == old(self).runtime,
            decreases rest@.len(),
        {
            let e = rest.remove(0);
            proof {
                assert(e == orig[k as int]);
                assert(orig.take(k + 1) =~= orig.take(k as int).push(orig[k as int]));
                lemma_filter_push(orig.take(k as int), keep, orig[k as int]);
                lemma_filter_push(orig.take(k as int), gone, orig[k as int]);
                assert(rest@ =~= orig.skip(k + 1));
            }
            let expired_now = match &e.deleted_at {
                None => false,
                Some(stamp) => match parse_wall(stamp.as_str(), now.date) {
                    Some(w) => !(w.seconds() > limit),
                    None => false,
                },
            };
            if expired_now {
                let ghost b = texts_view(purged_ids@);
                let ghost g0 = orig.take(k as int).filter(gone);
                purged_ids.push(e.id.clone());
                assert(texts_view(purged_ids@) =~= b.push(e.id@));
                assert(task_views(g0.push(e)).map_values(|t: TaskView| t.id)
                    =~= task_views(g0).map_values(|t: TaskView| t.id).push(e.id@));
            } else {
                self.data.tasks.push(e);
            }
            k = k + 1;
        }
        assert(orig.take(orig.len() as int) =~= orig);
        let n = purged_ids.len();
        let fired = drop_keys_of(&self.runtime.fired, &purged_ids);
        self.runtime.fired = fired;
        n
    }

    /// The health flags after a failed write.
    pub fn record_write_failure(&mut self, error: String)
        ensures
            final(self).health@ == "writeFailed"@,
            final(self).last_error == Some(error),
            final(self).data == old(self).data,
            final(self).runtime == old(self).runtime,
    {
        self.health = owned(crate::store::HEALTH_WRITE_FAILED);
        self.last_error = Some(error);
    }

    /// The health flags after a successful write.
    pub fn record_write_success(&mut self)
        ensures
            final(self).health@ == "ok"@,
            final(self).last_error is None,
            final(self).data == old(self).data,
            final(self).runtime == old(self).runtime,
    {
        self.health = owned(crate::store::HEALTH_OK);
        self.last_error = None;
    }

    /// Install data restored from a backup: settings corrected, undo history
    /// cleared. Returns how many tasks are not in the trash.
    pub fn install_restored(&mut self, restored: AppData) -> (n: usize)
        ensures
            final(self).data.tasks == restored.tasks,
            final(self).data.reminders == restored.reminders,
            final(self).data.stickies == restored.stickies,
            coerced(restored.settings, final(self).data.settings),
            final(self).undo@.len() == 0,
            final(self).runtime == old(self).runtime,
            n == task_views(restored.tasks@).filter(|t: TaskView| t.deleted_at is None).len(),
    {
        let mut restored = restored;
        restored.settings.coerce();
        self.data = restored;
        self.undo = Vec::new();
        let open = self.tasks(false);
        open.len()
    }
}

fn drop_stickies(v: Vec<StickyNote>, id: &str) -> (r: Vec<StickyNote>)
    ensures
        r@ == v@.filter(|s: StickyNote| s.id@ != id@),
{
    let ghost orig = v@;
    let ghost pred = |s: StickyNote| s.id@ != id@;
    let mut rest = v;
    assert(orig.len() == rest.len());
    let mut out: Vec<StickyNote> = Vec::new();
    let mut k: usize = 0;
    while rest.len() > 0
        invariant
            k <= orig.len(),
            orig.len() <= usize::MAX,
            rest@ == orig.skip(k as int),
            pred == (|s: StickyNote| s.id@ != id@),
            out@ == orig.take(k as int).filter(pred),
        decreases rest@.len(),
    {
        let e = rest.remove(0);
        proof {
            assert(e == orig[k as int]);
            assert(orig.take(k + 1) =~= orig.take(k as int).push(orig[k as int]));
            lemma_filter_push(orig.take(k as int), pred, orig[k as int]);
            assert(rest@ =~= orig.skip(k + 1));
        }
        if !same_text(e.id.as_str(), id) {
            out.push(e);
        }
        k = k + 1;
    }
    assert(orig.take(orig.len() as int) =~= orig);
    out
}

fn drop_positions(v: Vec<(String, [i32; 2])>, id: &str) -> (r: Vec<(String, [i32; 2])>)
    ensures
        r@ == v@.filter(|p: (String, [i32; 2])| p.0@ != id@),
{
    let ghost orig = v@;
    let ghost pred = |p: (String, [i32; 2])| p.0@ != id@;
    let mut rest = v;
    assert(orig.len() == rest.len());
    let mut out: Vec<(String, [i32; 2])> = Vec::new();
    let mut k: usize = 0;
    while rest.len() > 0
        invariant
            k <= orig.len(),
            orig.len() <= usize::MAX,
            rest@ == orig.skip(k as int),
            pred == (|p: (String, [i32; 2])| p.0@ != id@),
            out@ == orig.take(k as int).filter(pred),
        decreases rest@.len(),
    {
        let e = rest.remove(0);
        proof {
            assert(e == orig[k as int]);
            assert(orig.take(k + 1) =~= orig.take(k as int).push(orig[k as int]));
            lemma_filter_push(orig.take(k as int), pred, orig[k as int]);
            assert(rest@ =~= orig.skip(k + 1));
        }
        if !same_text(e.0.as_str(), id) {
            out.push(e);
        }
        k = k + 1;
    }
    assert(orig.take(orig.len() as int) =~= orig);
    out
}

fn names_one_of(key: &str, ids: &Vec<String>) -> (b: bool)
    ensures
        b == key_of_purged(key@, texts_view(ids@)),
{
    let parts = split_on(key, '|');
    if parts.len() <= 1 {
        return false;
    }
    let id = parts[1].as_str();
    assert(parts@[1]@ == split_seq(key@, '|')[1]);
    let mut i: usize = 0;
    while i < ids.len()
        invariant
            i <= ids@.len(),
            split_seq(key@, '|').len() > 1,
            id@ == split_seq(key@, '|')[1],
            forall|j: int| 0 <= j < i ==> (#[trigger] ids@[j])@ != id@,
        decreases ids@.len() - i,
    {
        if same_text(ids[i].as_str(), id) {
            assert(texts_view(ids@)[i as int] == id@);
            return true;
        }
        i = i + 1;
    }
    proof {
        if texts_view(ids@).contains(id@) {
            let j = choose|j: int| 0 <= j < texts_view(ids@).len() && texts_view(ids@)[j] == id@;
            assert(ids@[j]@ == id@);
        }
    }
    false
}

fn drop_keys_of(keys: &Vec<String>, ids: &Vec<String>) -> (r: Vec<String>)
    ensures
        texts_view(r@) == texts_view(keys@).filter(|k: Seq<char>| !key_of_purged(k, texts_view(ids@))),
{
    let ghost pred = |k: Seq<char>| !key_of_purged(k, texts_view(ids@));
    let ghost kv = texts_view(keys@);
    let mut out: Vec<String> = Vec::new();
    let mut i: usize = 0;
    while i < keys.len()
        invariant
            i <= keys@.len(),
            kv == texts_view(keys@),
            pred == (|k: Seq<char>| !key_of_purged(k, texts_view(ids@))),
            texts_view(out@) == kv.take(i as int).filter(pred),
        decreases keys@.len() - i,
    {
        proof {
            assert(kv.take(i + 1) =~= kv.take(i as int).push(kv[i as int]));
            lemma_filter_push(kv.take(i as int), pred, kv[i as int]);
        }
        if !names_one_of(keys[i].as_str(), ids) {
            let ghost b = texts_view(out@);
            out.push(keys[i].clone());
            assert(texts_view(out@) =~= b.push(kv[i as int]));
        }
        i = i + 1;
    }
    assert(kv.take(kv.len() as int) =~= kv);
    out
}


/// What a sticky window learns about itself: its note's id, content and shape.
#[derive(Debug, Clone, PartialEq)]
pub struct StickySelf {
    pub id: String,
    pub content: String,
    pub mini: bool,
}

/// The id of a sticky window's label (`note:<id>`).
pub open spec fn note_label_id(label: Seq<char>) -> Option<Seq<char>> {
    if occurs_at(label, "note:"@, 0) { Some(label.skip(5)) } else { None }
}

impl Store {
    /// The note a sticky window with `label` shows: an error when the label
    /// is not a sticky window's, or when no note has its id.
    pub fn sticky_self(&self, label: &str) -> (r: Result<StickySelf, String>)
        ensures
            match r {
                Ok(s) => note_label_id(label@) == Some(s.id@) && exists|i: int|
                    0 <= i < self.data.stickies@.len() && (#[trigger] self.data.stickies@[i]).id@ == s.id@
                        && self.data.stickies@[i].content@ == s.content@ && self.data.stickies@[i].mini == s.mini
                        && forall|j: int| 0 <= j < i ==> self.data.stickies@[j].id@ != s.id@,
                Err(e) => match note_label_id(label@) {
                    None => e@ == "不是便签窗口"@,
                    Some(id) => e@ == "找不到这张便签"@ && forall|i: int|
                        0 <= i < self.data.stickies@.len() ==> self.data.stickies@[i].id@ != id,
                },
            },
    {
        proof {
            reveal_strlit("note:");
        }
        if !starts_with(label, "note:") {
            return Err(owned("不是便签窗口"));
        }
        let cs = crate::text::chars_of(label);
        let id = crate::text::string_of_range(&cs, 5, cs.len());
        assert(id@ =~= label@.skip(5));
        match self.find_sticky(id.as_str()) {
            None => Err(owned("找不到这张便签")),
            Some(note) => Ok(StickySelf { id, content: note.content, mini: note.mini }),
        }
    }
}


/// The file name of backup `slot`.
pub open spec fn backup_name_spec(slot: nat) -> Seq<char> {
    "data.json.bak-"@ + crate::text::dec_seq(slot)
}

/// What the backup list shows of one backup file: its number and name, when
/// it was last written (`未知时间` when unknown), its size in KiB rounded up
/// (0 when unknown), and how many tasks its document holds, or why it does
/// not read.
pub fn backup_info(slot: u32, modified: Option<String>, size: Option<u64>, parsed: Result<&crate::json::Json, String>) -> (b: crate::models::BackupInfo)
    ensures
        b.slot@ == crate::text::dec_seq(slot as nat),
        b.name@ == backup_name_spec(slot as nat),
        b.created_at@ == (match modified {
            Some(m) => m@,
            None => "未知时间"@,
        }),
        b.size_kb == (match size {
            Some(n) => (n as int + 1023) / 1024,
            None => 0,
        }),
        match parsed {
            Ok(raw) => b.readable && b.error is None && b.task_count == (match raw.get_spec("tasks"@) {
                Some(crate::json::Json::Array(items)) => items@.len() as u32,
                _ => 0,
            }),
            Err(e) => !b.readable && b.error == Some(e) && b.task_count == 0,
        },
{
    let name = crate::text::concat("data.json.bak-", crate::text::decimal(slot as u64).as_str());
    let created_at = match modified {
        Some(m) => m,
        None => owned("未知时间"),
    };
    let size_kb: u64 = match size {
        Some(n) => n / 1024 + if n % 1024 == 0 { 0 } else { 1 },
        None => 0,
    };
    proof {
        if let Some(n) = size {
            assert((n as int + 1023) / 1024 == n / 1024 + (if n % 1024 == 0 { 0int } else { 1int })) by (nonlinear_arith);
        }
    }
    match parsed {
        Ok(raw) => {
            #[verifier::truncate]
            let task_count = match raw.get("tasks") {
                Some(crate::json::Json::Array(items)) => items.len() as u32,
                _ => 0,
            };
            crate::models::BackupInfo {
                slot: crate::text::decimal(slot as u64),
                name,
                created_at,
                size_kb,
                task_count,
                readable: true,
                error: None,
            }
        },
        Err(e) => crate::models::BackupInfo {
            slot: crate::text::decimal(slot as u64),
            name,
            created_at,
            size_kb,
            task_count: 0,
            readable: false,
            error: Some(e),
        },
    }
}

} // verus!
