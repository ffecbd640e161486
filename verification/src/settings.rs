//! Settings changes that rebind the global hotkeys as one transaction.
use vstd::prelude::*;
use vstd::string::*;
use crate::text::{blank, is_blank, owned, same_text};
use crate::datetime::{Day, Wall, carry_days_from, carry_days_spec, fmt_wall, plus_minutes, wall_text};
use crate::models::{
    Reminder, ReminderPayload, ReminderView, Settings, SettingsPayload, Source, Task, TaskPayload, TaskView,
    new_id, opt_view, coerced,
};
use crate::store::{
    Store, first_reminder_at, first_task_at, lemma_reminder_pos, lemma_task_pos, no_reminder_with, no_task_with,
    reminder_key, reminder_key_spec, reminder_pos, retain_without_prefix, task_pos, without_prefix,
};
use crate::patch::{
    reminder_patch_error, reminder_patch_upto, settings_patch_between, settings_patch_error, task_patch_error,
};

verus! {

broadcast use vstd::string::group_string_axioms;
// ---------------------------------------------------------------- hotkeys

/// A global hotkey slot.
#[derive(Debug, Clone, Copy, PartialEq, Eq, Structural)]
pub enum HotkeySlot {
    /// The quick-capture bar (default Alt+Shift+A).
    Capture,
    /// The main window.
    Main,
    /// A new sticky (default Alt+Shift+S).
    Sticky,
    /// The floating to-do window (default Alt+Shift+T).
    TodoFloat,
}

/// A combination as text, when there is one.
pub open spec fn combo_view(o: Option<&str>) -> Option<Seq<char>> {
    match o {
        Some(c) => Some(c@),
        None => None,
    }
}

/// Binding global hotkeys. An implementation that fails a rebinding keeps the
/// slot on its old combination, so the user never loses a hotkey.
pub trait HotkeyPort {
    /// Rebind a slot; `None` or a blank combination unbinds it. A failure
    /// comes back as a short message to show.
    fn bind(&mut self, slot: HotkeySlot, combo: Option<&str>) -> Result<(), String>;

    /// The combination a slot is bound to now.
    fn bound(&self, slot: HotkeySlot) -> Option<String>;
}

/// A hotkey port together with the record of the rebindings asked of it
/// through this handle (slot and combination), whether they succeeded or
/// not; which ones succeed is the port's.
pub struct RecordedHotkeys<H> {
    pub port: H,
    pub log: Ghost<Seq<(HotkeySlot, Option<Seq<char>>)>>,
    pub answers: Ghost<Seq<Option<String>>>,
}

/// The error a rebinding answered, if any.
pub open spec fn error_of(r: Result<(), String>) -> Option<String> {
    match r {
        Ok(_) => None,
        Err(e) => Some(e),
    }
}

/// `n` answers without an error.
pub open spec fn no_errors(n: nat) -> Seq<Option<String>> {
    Seq::new(n, |i: int| None::<String>)
}

impl<H: HotkeyPort> RecordedHotkeys<H> {
    /// The rebindings asked so far, in order.
    pub open spec fn binds(&self) -> Seq<(HotkeySlot, Option<Seq<char>>)> {
        self.log@
    }

    /// What the port answered to each rebinding: its error, if any.
    pub open spec fn errors(&self) -> Seq<Option<String>> {
        self.answers@
    }

    /// A handle on `port` with no rebinding recorded yet.
    pub fn new(port: H) -> (r: Self)
        ensures
            r.binds() == Seq::<(HotkeySlot, Option<Seq<char>>)>::empty(),
            r.errors() == Seq::<Option<String>>::empty(),
            r.port == port,
    {
        RecordedHotkeys { port, log: Ghost(Seq::empty()), answers: Ghost(Seq::empty()) }
    }

    /// Ask the port to rebind a slot, and record it with the port's answer.
    pub fn bind(&mut self, slot: HotkeySlot, combo: Option<&str>) -> (r: Result<(), String>)
        ensures
            final(self).binds() == old(self).binds().push((slot, combo_view(combo))),
            final(self).errors() == old(self).errors().push(error_of(r)),
    {
        let r = self.port.bind(slot, combo);
        proof {
            self.log@ = self.log@.push((slot, combo_view(combo)));
            self.answers@ = self.answers@.push(error_of(r));
        }
        r
    }

    /// The combination the port has a slot bound to now.
    pub fn bound(&self, slot: HotkeySlot) -> Option<String> {
        self.port.bound(slot)
    }
}

fn same_opt(a: &Option<String>, b: &Option<String>) -> (r: bool)
    ensures
        r == (opt_view(*a) == opt_view(*b)),
{
    match (a, b) {
        (Some(x), Some(y)) => same_text(x.as_str(), y.as_str()),
        (None, None) => true,
        _ => false,
    }
}

fn as_opt_str(o: &Option<String>) -> (r: Option<&str>)
    ensures
        match r {
            Some(s) => o matches Some(x) && s@ == x@,
            None => o is None,
        },
{
    match o {
        Some(s) => Some(s.as_str()),
        None => None,
    }
}

/// Put back the settings of `snapshot`, all of them (a failed rebinding
/// rolls the whole settings change back).
pub fn restore(store: &mut Store, snapshot: &Settings)
    ensures
        final(store).data.settings == *snapshot,
        final(store).data.tasks == old(store).data.tasks,
        final(store).data.reminders == old(store).data.reminders,
        final(store).data.stickies == old(store).data.stickies,
        final(store).runtime == old(store).runtime,
{
    store.data.settings = snapshot.duplicate();
}

/// One hotkey slot of a settings change: the slot, its new and its old
/// combination.
pub type SlotChange = (HotkeySlot, Option<Seq<char>>, Option<Seq<char>>);

/// The four slots of a change from `old` to `new`, in the order capture,
/// main, sticky, to-do.
pub open spec fn slot_changes(old: Settings, new: Settings) -> Seq<SlotChange> {
    seq![
        (HotkeySlot::Capture, Some(new.capture_hotkey@), Some(old.capture_hotkey@)),
        (HotkeySlot::Main, opt_view(new.main_hotkey), opt_view(old.main_hotkey)),
        (HotkeySlot::Sticky, opt_view(new.sticky_hotkey), opt_view(old.sticky_hotkey)),
        (HotkeySlot::TodoFloat, opt_view(new.todo_hotkey), opt_view(old.todo_hotkey)),
    ]
}

/// The slots among the first `k` whose combination changes.
pub open spec fn rebinds_upto(all: Seq<SlotChange>, k: nat) -> Seq<SlotChange>
    decreases k,
{
    if k == 0 || k > all.len() {
        Seq::empty()
    } else {
        let e = all[k - 1];
        let before = rebinds_upto(all, (k - 1) as nat);
        if e.1 != e.2 { before.push(e) } else { before }
    }
}

/// Each slot bound to its new combination.
pub open spec fn to_new(p: Seq<SlotChange>) -> Seq<(HotkeySlot, Option<Seq<char>>)> {
    p.map_values(|e: SlotChange| (e.0, e.1))
}

/// Each slot bound back to its old combination.
pub open spec fn to_old(p: Seq<SlotChange>) -> Seq<(HotkeySlot, Option<Seq<char>>)> {
    p.map_values(|e: SlotChange| (e.0, e.2))
}

/// What a settings change that passed its checks does: the changed slots are
/// rebound in order; either all rebindings are asked and the patched
/// settings stay, or the rebinding of the `k`-th slot fails, the changed
/// slots before it are bound back to their old combinations in order, and
/// the settings are as they were.
pub open spec fn hotkey_outcome(
    old_settings: Settings,
    patched: Settings,
    new_settings: Settings,
    before: Seq<(HotkeySlot, Option<Seq<char>>)>,
    after: Seq<(HotkeySlot, Option<Seq<char>>)>,
    eb: Seq<Option<String>>,
    ea: Seq<Option<String>>,
    r: Result<(), String>,
) -> bool {
    let all = slot_changes(old_settings, patched);
    ||| r is Ok && new_settings == patched && after == before + to_new(rebinds_upto(all, 4))
        && ea == eb + no_errors(rebinds_upto(all, 4).len())
    ||| r is Err && new_settings == old_settings && exists|k: int| 0 <= k < 4 && all[k].1 != all[k].2
        && after == (before + to_new(rebinds_upto(all, k as nat))).push((all[k].0, all[k].1))
            + to_old(rebinds_upto(all, k as nat))
        && ea.len() == eb.len() + 2 * rebinds_upto(all, k as nat).len() + 1
        && ea.subrange(0, (eb.len() + rebinds_upto(all, k as nat).len() + 1) as int)
            == (eb + no_errors(rebinds_upto(all, k as nat).len())).push(error_of(r))
}

/// Apply a settings patch and rebind the hotkeys whose combination changed,
/// in the order capture, main, sticky, to-do. When a rebinding fails, the
/// port's error comes back, the whole settings change is rolled back, and the
/// slots already rebound are bound to their old combinations again (slots
/// not touched stay as they are).
pub fn apply_with_hotkeys<H: HotkeyPort>(store: &mut Store, patch: &SettingsPayload, hotkeys: &mut RecordedHotkeys<H>) -> (r: Result<(), String>)
    ensures
        final(store).data.tasks == old(store).data.tasks,
        final(store).data.reminders == old(store).data.reminders,
        final(store).data.stickies == old(store).data.stickies,
        final(store).runtime == old(store).runtime,
        settings_patch_error(*patch) matches Some((k, m)) ==> (r matches Err(e) && e@ == m
            && final(store).data.settings@ == settings_patch_between(old(store).data.settings@, *patch, 0, k)
            && final(hotkeys).binds() == old(hotkeys).binds() && final(hotkeys).errors() == old(hotkeys).errors()),
        settings_patch_error(*patch) is None ==> exists|mid: Settings, patched: Settings|
            #[trigger] coerced(mid, patched) && mid@ == settings_patch_between(old(store).data.settings@, *patch, 0, 100)
                && hotkey_outcome(old(store).data.settings, patched, final(store).data.settings,
                    old(hotkeys).binds(), final(hotkeys).binds(), old(hotkeys).errors(), final(hotkeys).errors(), r),
{
    let snapshot = store.data.settings.duplicate();
    match store.apply_settings_patch(patch) {
        Ok(()) => {},
        Err(e) => return Err(e),
    }
    let next_capture = Some(store.data.settings.capture_hotkey.clone());
    let prev_capture = Some(snapshot.capture_hotkey.clone());
    let next = [
        next_capture,
        crate::models::dup_opt_text(&store.data.settings.main_hotkey),
        crate::models::dup_opt_text(&store.data.settings.sticky_hotkey),
        crate::models::dup_opt_text(&store.data.settings.todo_hotkey),
    ];
    let previous = [
        prev_capture,
        crate::models::dup_opt_text(&snapshot.main_hotkey),
        crate::models::dup_opt_text(&snapshot.sticky_hotkey),
        crate::models::dup_opt_text(&snapshot.todo_hotkey),
    ];
    let slots = [HotkeySlot::Capture, HotkeySlot::Main, HotkeySlot::Sticky, HotkeySlot::TodoFloat];
    let ghost patched = store.data.settings;
    let ghost all = slot_changes(snapshot, patched);
    let ghost base = hotkeys.binds();
    let ghost ebase = hotkeys.errors();
    assert forall|j: int| 0 <= j < 4 implies #[trigger] all[j] == (slots@[j], opt_view(next@[j]), opt_view(previous@[j])) by {}
    let mut applied: Vec<(HotkeySlot, Option<String>)> = Vec::new();
    let mut k: usize = 0;
    while k < 4
        invariant
            k <= 4,
            store.data.settings == patched,
            store.data.tasks == old(store).data.tasks,
            store.data.reminders == old(store).data.reminders,
            store.data.stickies == old(store).data.stickies,
            store.runtime == old(store).runtime,
            snapshot == old(store).data.settings,
            settings_patch_error(*patch) is None,
            exists|mid: Settings|
                #[trigger] coerced(mid, patched) && mid@ == settings_patch_between(old(store).data.settings@, *patch, 0, 100),
            all == slot_changes(snapshot, patched),
            base == old(hotkeys).binds(),
            forall|j: int| 0 <= j < 4 ==> #[trigger] all[j] == (slots@[j], opt_view(next@[j]), opt_view(previous@[j])),
            hotkeys.binds() == base + to_new(rebinds_upto(all, k as nat)),
            ebase == old(hotkeys).errors(),
            hotkeys.errors() == ebase + no_errors(rebinds_upto(all, k as nat).len()),
            applied@.map_values(|a: (HotkeySlot, Option<String>)| (a.0, opt_view(a.1))) == to_old(rebinds_upto(all, k as nat)),
        decreases 4 - k,
    {
        let ghost prefix = rebinds_upto(all, k as nat);
        assert(all[k as int] == (slots@[k as int], opt_view(next@[k as int]), opt_view(previous@[k as int])));
        if !same_opt(&next[k], &previous[k]) {
            let ghost e = all[k as int];
            assert(rebinds_upto(all, (k + 1) as nat) == prefix.push(e));
            assert(to_new(prefix.push(e)) =~= to_new(prefix).push((e.0, e.1)));
            assert(to_old(prefix.push(e)) =~= to_old(prefix).push((e.0, e.2)));
            let ghost eprev = hotkeys.errors();
            match hotkeys.bind(slots[k], as_opt_str(&next[k])) {
                Ok(()) => {
                    assert(hotkeys.errors() =~= ebase + no_errors(rebinds_upto(all, (k + 1) as nat).len()));
                    let ghost av = applied@.map_values(|a: (HotkeySlot, Option<String>)| (a.0, opt_view(a.1)));
                    applied.push((slots[k], crate::models::dup_opt_text(&previous[k])));
                    assert(applied@.map_values(|a: (HotkeySlot, Option<String>)| (a.0, opt_view(a.1))) =~= av.push((e.0, e.2)));
                },
                Err(error) => {
                    restore(store, &snapshot);
                    let ghost mid_binds = hotkeys.binds();
                    let ghost mid_errors = hotkeys.errors();
                    assert(mid_errors == (ebase + no_errors(prefix.len())).push(error_of(Err::<(), String>(error))));
                    let ghost olds = to_old(prefix);
                    let mut j: usize = 0;
                    while j < applied.len()
                        invariant
                            j <= applied@.len(),
                            applied@.map_values(|a: (HotkeySlot, Option<String>)| (a.0, opt_view(a.1))) == olds,
                            hotkeys.binds() == mid_binds + olds.take(j as int),
                            hotkeys.errors().len() == mid_errors.len() + j,
                            hotkeys.errors().subrange(0, mid_errors.len() as int) == mid_errors,
                        decreases applied@.len() - j,
                    {
                        let ghost before_j = hotkeys.binds();
                        assert(olds[j as int] == (applied@[j as int].0, opt_view(applied@[j as int].1)));
                        let ghost eb_j = hotkeys.errors();
                        let _ = hotkeys.bind(applied[j].0, as_opt_str(&applied[j].1));
                        assert(olds.take(j + 1) =~= olds.take(j as int).push(olds[j as int]));
                        assert(hotkeys.errors().subrange(0, mid_errors.len() as int) =~= eb_j.subrange(0, mid_errors.len() as int));
                        j = j + 1;
                    }
                    assert(olds.take(olds.len() as int) =~= olds);
                    assert(store.data.settings == old(store).data.settings);
                    assert(olds.len() == prefix.len());
                    assert(hotkey_outcome(old(store).data.settings, patched, store.data.settings, base, hotkeys.binds(), ebase, hotkeys.errors(), Err::<(), String>(error)));
                    return Err(error);
                },
            }
        } else {
            assert(rebinds_upto(all, (k + 1) as nat) == prefix);
        }
        k = k + 1;
    }
    assert(hotkey_outcome(old(store).data.settings, patched, store.data.settings, base, hotkeys.binds(), ebase, hotkeys.errors(), Ok::<(), String>(())));
    Ok(())
}

} // verus!
