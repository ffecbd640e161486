//! Reminder scheduling decisions, one tick at a time.
//!
//! A tick first plans (reads the store, updates the scheduler's own state,
//! decides what to notify), the caller then shows the notifications, and the
//! outcome is applied to the store. Times are local wall-clock instants; the
//! current instant is handed in. Due times are compared with it as wall
//! times: nothing here goes through the machine's time zone, so a clock
//! time that a daylight-saving shift skips or repeats is treated like any
//! other.
use vstd::prelude::*;
use vstd::string::*;
use crate::text::{blank, concat, contains, contains_seq, decimal, dec_seq, is_blank, owned, trim_seq};
use crate::datetime::{
    Clock, Day, Wall, at_clock, clocks_of, clocks_spec, fmt_wall, parse_clock, parse_clock_spec,
    parse_wall, parse_wall_spec, wall_text,
};
use crate::models::{
    Reminder, ReminderView, Repeat, Settings, StoreEvent, Task, TaskView, opt_view, reminder_views,
    task_views,
};
use crate::store::{
    Store, reminder_key, reminder_key_spec, task_key, task_key_spec, remembered, first_task_at, no_task_with,
    task_pos, lemma_task_pos, first_reminder_at, no_reminder_with, reminder_pos, lemma_reminder_pos,
};

verus! {

broadcast use vstd::string::group_string_axioms;

// ---------------------------------------------------------------- due events

/// A reminder or task reminder that has come due.
#[derive(Debug)]
pub struct Due {
    /// Fired key: once handled, the same occurrence never fires again.
    pub key: String,
    pub id: String,
    pub title: String,
    pub at: Wall,
    pub snoozed: bool,
    /// A one-shot task reminder: firing clears the task's `remind_at`.
    pub one_shot_task: bool,
    /// A one-shot reminder (its time carries a date): firing completes it.
    pub one_shot_reminder: bool,
}

pub struct DueView {
    pub key: Seq<char>,
    pub id: Seq<char>,
    pub title: Seq<char>,
    pub at: Wall,
    pub snoozed: bool,
    pub one_shot_task: bool,
    pub one_shot_reminder: bool,
}

impl View for Due {
    type V = DueView;

    open spec fn view(&self) -> DueView {
        DueView {
            key: self.key@,
            id: self.id@,
            title: self.title@,
            at: self.at,
            snoozed: self.snoozed,
            one_shot_task: self.one_shot_task,
            one_shot_reminder: self.one_shot_reminder,
        }
    }
}

pub open spec fn dues_view(s: Seq<Due>) -> Seq<DueView> {
    s.map_values(|d: Due| d@)
}

impl Due {
    pub fn duplicate(&self) -> (r: Due)
        ensures
            r@ == self@,
    {
        Due {
            key: self.key.clone(),
            id: self.id.clone(),
            title: self.title.clone(),
            at: self.at,
            snoozed: self.snoozed,
            one_shot_task: self.one_shot_task,
            one_shot_reminder: self.one_shot_reminder,
        }
    }
}

// ---------------------------------------------------------------- what comes due

/// Every event's instant is a real wall-clock instant.
pub open spec fn all_at_valid(q: Seq<DueView>) -> bool {
    forall|i: int| 0 <= i < q.len() ==> (#[trigger] q[i]).at.valid()
}

pub open spec fn opt_seq(o: Option<DueView>) -> Seq<DueView> {
    match o {
        Some(d) => seq![d],
        None => Seq::empty(),
    }
}

/// The re-fire of a snoozed reminder (whenever it is due).
pub open spec fn snooze_spec(r: ReminderView, at: Wall) -> Option<DueView> {
    match r.snoozed_until {
        None => None,
        Some(text) => match parse_wall_spec(text, at.date) {
            None => None,
            Some(w) => Some(DueView {
                key: reminder_key_spec(r.id, "snooze|"@ + text),
                id: r.id,
                title: r.title,
                at: w,
                snoozed: true,
                one_shot_task: false,
                one_shot_reminder: false,
            }),
        },
    }
}

/// A one-shot reminder whose time has passed.
pub open spec fn one_shot_spec(r: ReminderView, at: Wall) -> Option<DueView> {
    match parse_wall_spec(r.time, at.date) {
        Some(w) => if w.moment() <= at.moment() {
            Some(DueView {
                key: reminder_key_spec(r.id, wall_text(w)),
                id: r.id,
                title: r.title,
                at: w,
                snoozed: false,
                one_shot_task: false,
                one_shot_reminder: true,
            })
        } else {
            None
        },
        None => None,
    }
}

/// Whether the repeat rule lets a recurring reminder fire at `w`: work days
/// are Monday to Friday; a weekly one fires on the weekday it last fired.
pub open spec fn repeat_allows_spec(r: ReminderView, w: Wall, today: Day) -> bool {
    match r.repeat {
        Repeat::Never | Repeat::Daily => true,
        Repeat::Workdays => w.date.weekday() < 5,
        Repeat::Weekly => match r.last_fired {
            None => true,
            Some(text) => match parse_wall_spec(text, today) {
                Some(prev) => prev.date.weekday() == w.date.weekday(),
                None => true,
            },
        },
    }
}

/// The occurrence of a recurring reminder at clock `c` today, if it is due.
pub open spec fn clock_due(r: ReminderView, c: Clock, at: Wall) -> Seq<DueView> {
    let w = at_clock(at.date, c);
    if repeat_allows_spec(r, w, at.date) && w.moment() <= at.moment() {
        seq![DueView {
            key: reminder_key_spec(r.id, wall_text(w)),
            id: r.id,
            title: r.title,
            at: w,
            snoozed: false,
            one_shot_task: false,
            one_shot_reminder: false,
        }]
    } else {
        Seq::empty()
    }
}

/// Occurrences of a recurring reminder at each of its clocks, in order.
pub open spec fn clock_dues(r: ReminderView, cs: Seq<Clock>, at: Wall) -> Seq<DueView>
    decreases cs.len(),
{
    if cs.len() == 0 {
        Seq::empty()
    } else {
        clock_dues(r, cs.drop_last(), at) + clock_due(r, cs.last(), at)
    }
}

/// What a reminder contributes at `at`: a due snooze first of all; nothing
/// when it is off or done; a dated time is one-shot; clock times recur daily.
pub open spec fn reminder_dues(r: ReminderView, at: Wall) -> Seq<DueView> {
    if blank(r.time) {
        Seq::empty()
    } else if snooze_spec(r, at) is Some {
        let d = snooze_spec(r, at)->0;
        if d.at.moment() <= at.moment() { seq![d] } else { Seq::empty() }
    } else if !r.enabled || r.completed {
        Seq::empty()
    } else if contains_seq(r.time, "T"@) {
        opt_seq(one_shot_spec(r, at))
    } else if clocks_spec(r.time).len() > 0 {
        clock_dues(r, clocks_spec(r.time), at)
    } else {
        opt_seq(one_shot_spec(r, at))
    }
}

pub open spec fn reminders_dues(rs: Seq<ReminderView>, at: Wall) -> Seq<DueView>
    decreases rs.len(),
{
    if rs.len() == 0 {
        Seq::empty()
    } else {
        reminders_dues(rs.drop_last(), at) + reminder_dues(rs.last(), at)
    }
}

/// The reminder of an open task, if due: a bare `HH:MM` recurs daily (today's
/// occurrence), any other time is one-shot.
pub open spec fn task_due(t: TaskView, at: Wall) -> Option<DueView> {
    if t.deleted_at is Some || t.done || t.remind_at is None || blank(t.remind_at->0) {
        None
    } else {
        let raw = t.remind_at->0;
        let daily = raw.len() == 5;
        let wall = if daily {
            match parse_clock_spec(trim_seq(raw)) {
                Some(c) => Some(at_clock(at.date, c)),
                None => None,
            }
        } else {
            parse_wall_spec(raw, at.date)
        };
        match wall {
            Some(w) => if w.moment() <= at.moment() {
                Some(DueView {
                    key: if daily { task_key_spec(t.id, wall_text(w)) } else { task_key_spec(t.id, raw) },
                    id: t.id,
                    title: t.title,
                    at: w,
                    snoozed: false,
                    one_shot_task: !daily,
                    one_shot_reminder: false,
                })
            } else {
                None
            },
            None => None,
        }
    }
}

pub open spec fn tasks_dues(ts: Seq<TaskView>, at: Wall) -> Seq<DueView>
    decreases ts.len(),
{
    if ts.len() == 0 {
        Seq::empty()
    } else {
        tasks_dues(ts.drop_last(), at) + opt_seq(task_due(ts.last(), at))
    }
}

/// Everything due at `at`: reminders in order, then task reminders in order.
pub open spec fn collect_spec(rs: Seq<ReminderView>, ts: Seq<TaskView>, at: Wall) -> Seq<DueView> {
    reminders_dues(rs, at) + tasks_dues(ts, at)
}

fn snooze_due(reminder: &Reminder, at: &Wall) -> (r: Option<Due>)
    requires
        at.valid(),
    ensures
        match r {
            Some(d) => snooze_spec(reminder@, *at) == Some(d@) && d.at.valid(),
            None => snooze_spec(reminder@, *at) is None,
        },
{
    let text = match &reminder.snoozed_until {
        Some(t) => t,
        None => return None,
    };
    let wall = match parse_wall(text.as_str(), at.date) {
        Some(w) => w,
        None => return None,
    };
    let stamp = concat("snooze|", text.as_str());
    proof {
        reveal_strlit("snooze|");
    }
    Some(Due {
        key: reminder_key(reminder.id.as_str(), stamp.as_str()),
        id: reminder.id.clone(),
        title: reminder.title.clone(),
        at: wall,
        snoozed: true,
        one_shot_task: false,
        one_shot_reminder: false,
    })
}

fn one_shot_reminder(reminder: &Reminder, at: &Wall) -> (r: Option<Due>)
    requires
        at.valid(),
    ensures
        match r {
            Some(d) => one_shot_spec(reminder@, *at) == Some(d@) && d.at.valid(),
            None => one_shot_spec(reminder@, *at) is None,
        },
{
    let wall = match parse_wall(reminder.time.as_str(), at.date) {
        Some(w) => w,
        None => return None,
    };
    if wall.seconds() > at.seconds() {
        return None;
    }
    let stamp = fmt_wall(&wall);
    Some(Due {
        key: reminder_key(reminder.id.as_str(), stamp.as_str()),
        id: reminder.id.clone(),
        title: reminder.title.clone(),
        at: wall,
        snoozed: false,
        one_shot_task: false,
        one_shot_reminder: true,
    })
}

/// Whether the repeat rule lets `reminder` fire at `w`.
pub fn repeat_allows(reminder: &Reminder, w: &Wall, today: Day) -> (b: bool)
    requires
        w.valid(),
        today.valid(),
    ensures
        b == repeat_allows_spec(reminder@, *w, today),
{
    match reminder.repeat {
        Repeat::Never | Repeat::Daily => true,
        Repeat::Workdays => w.date.weekday_from_monday() < 5,
        Repeat::Weekly => match &reminder.last_fired {
            None => true,
            Some(text) => match parse_wall(text.as_str(), today) {
                Some(prev) => prev.date.weekday_from_monday() == w.date.weekday_from_monday(),
                None => true,
            },
        },
    }
}

fn push_opt(out: &mut Vec<Due>, d: Option<Due>)
    requires
        d matches Some(x) ==> x.at.valid(),
    ensures
        all_at_valid(dues_view(old(out)@)) ==> all_at_valid(dues_view(final(out)@)),
        dues_view(final(out)@) == dues_view(old(out)@) + opt_seq(match d {
            Some(x) => Some(x@),
            None => None,
        }),
{
    let ghost before = dues_view(out@);
    if let Some(x) = d {
        out.push(x);
        assert(dues_view(out@) =~= before + seq![out@.last()@]);
    } else {
        assert(dues_view(out@) =~= before + Seq::<DueView>::empty());
    }
}

fn collect_reminder(reminder: &Reminder, at: &Wall, out: &mut Vec<Due>)
    requires
        at.valid(),
    ensures
        all_at_valid(dues_view(old(out)@)) ==> all_at_valid(dues_view(final(out)@)),
        dues_view(final(out)@) == dues_view(old(out)@) + reminder_dues(reminder@, *at),
{
    let ghost before = dues_view(out@);
    let ghost r = reminder@;
    if is_blank(reminder.time.as_str()) {
        assert(dues_view(out@) =~= before + reminder_dues(r, *at));
        return;
    }
    if let Some(d) = snooze_due(reminder, at) {
        if d.at.seconds() <= at.seconds() {
            out.push(d);
            assert(dues_view(out@) =~= before + reminder_dues(r, *at));
        } else {
            assert(dues_view(out@) =~= before + reminder_dues(r, *at));
        }
        return;
    }
    if !reminder.enabled || reminder.completed {
        assert(dues_view(out@) =~= before + reminder_dues(r, *at));
        return;
    }
    proof {
        reveal_strlit("T");
    }
    if contains(reminder.time.as_str(), "T") {
        push_opt(out, one_shot_reminder(reminder, at));
        return;
    }
    let clocks = clocks_of(reminder.time.as_str());
    if clocks.len() > 0 {
        let ghost cs = clocks_spec(r.time);
        let mut k: usize = 0;
        while k < clocks.len()
            invariant
                at.valid(),
                clocks@ == cs,
                r == reminder@,
                k <= cs.len(),
                forall|j: int| 0 <= j < cs.len() ==> (#[trigger] cs[j]).hour < 24 && cs[j].minute < 60,
                dues_view(out@) == before + clock_dues(r, cs.take(k as int), *at),
                all_at_valid(before) ==> all_at_valid(dues_view(out@)),
            decreases cs.len() - k,
        {
            let c = clocks[k];
            let w = Wall { date: at.date, hour: c.hour, minute: c.minute, second: 0 };
            proof {
                assert(cs.take(k + 1).drop_last() =~= cs.take(k as int));
                assert(cs.take(k + 1).last() == c);
            }
            if repeat_allows(reminder, &w, at.date) && w.seconds() <= at.seconds() {
                let stamp = fmt_wall(&w);
                let ghost mid = dues_view(out@);
                out.push(Due {
                    key: reminder_key(reminder.id.as_str(), stamp.as_str()),
                    id: reminder.id.clone(),
                    title: reminder.title.clone(),
                    at: w,
                    snoozed: false,
                    one_shot_task: false,
                    one_shot_reminder: false,
                });
                assert(dues_view(out@) =~= mid.push(out@.last()@));
            }
            k = k + 1;
            assert(dues_view(out@) =~= before + clock_dues(r, cs.take(k as int), *at));
        }
        assert(cs.take(cs.len() as int) =~= cs);
        return;
    }
    push_opt(out, one_shot_reminder(reminder, at));
}

fn collect_task(task: &Task, at: &Wall, out: &mut Vec<Due>)
    requires
        at.valid(),
    ensures
        all_at_valid(dues_view(old(out)@)) ==> all_at_valid(dues_view(final(out)@)),
        dues_view(final(out)@) == dues_view(old(out)@) + opt_seq(task_due(task@, *at)),
{
    let ghost before = dues_view(out@);
    if task.in_trash() || task.done {
        assert(dues_view(out@) =~= before + opt_seq(task_due(task@, *at)));
        return;
    }
    let raw = match &task.remind_at {
        Some(text) => text,
        None => {
            assert(dues_view(out@) =~= before + opt_seq(task_due(task@, *at)));
            return;
        },
    };
    if is_blank(raw.as_str()) {
        assert(dues_view(out@) =~= before + opt_seq(task_due(task@, *at)));
        return;
    }
    let daily = crate::text::char_count(raw.as_str()) == 5;
    let wall = if daily {
        let t = crate::text::trim(raw.as_str());
        match parse_clock(t.as_str()) {
            Some(c) => Some(Wall { date: at.date, hour: c.hour, minute: c.minute, second: 0 }),
            None => None,
        }
    } else {
        parse_wall(raw.as_str(), at.date)
    };
    let w = match wall {
        Some(w) => w,
        None => {
            assert(dues_view(out@) =~= before + opt_seq(task_due(task@, *at)));
            return;
        },
    };
    if w.seconds() > at.seconds() {
        assert(dues_view(out@) =~= before + opt_seq(task_due(task@, *at)));
        return;
    }
    let key = if daily {
        let stamp = fmt_wall(&w);
        task_key(task.id.as_str(), stamp.as_str())
    } else {
        task_key(task.id.as_str(), raw.as_str())
    };
    out.push(Due {
        key,
        id: task.id.clone(),
        title: task.title.clone(),
        at: w,
        snoozed: false,
        one_shot_task: !daily,
        one_shot_reminder: false,
    });
    assert(dues_view(out@) =~= before + opt_seq(task_due(task@, *at)));
}

/// Everything due at `at`, appended to `out`: each reminder in order (a due
/// snooze, a passed one-shot time, or today's passed clock occurrences), then
/// each open task whose reminder time has passed.
pub fn collect(store: &Store, at: &Wall, out: &mut Vec<Due>)
    requires
        at.valid(),
    ensures
        all_at_valid(dues_view(old(out)@)) ==> all_at_valid(dues_view(final(out)@)),
        dues_view(final(out)@) == dues_view(old(out)@) + collect_spec(store.reminders_v(), store.tasks_v(), *at),
{
    let ghost before = dues_view(out@);
    let ghost rs = store.reminders_v();
    let ghost ts = store.tasks_v();
    let mut i: usize = 0;
    while i < store.data.reminders.len()
        invariant
            at.valid(),
            rs == store.reminders_v(),
            i <= rs.len(),
            dues_view(out@) == before + reminders_dues(rs.take(i as int), *at),
            all_at_valid(before) ==> all_at_valid(dues_view(out@)),
        decreases rs.len() - i,
    {
        proof {
            assert(rs.take(i + 1).drop_last() =~= rs.take(i as int));
        }
        collect_reminder(&store.data.reminders[i], at, out);
        i = i + 1;
        proof {
            assert(rs.take(i as int).last() == rs[i - 1]);
            assert(dues_view(out@) =~= before + reminders_dues(rs.take(i as int), *at));
        }
    }
    assert(rs.take(rs.len() as int) =~= rs);
    let ghost mid = dues_view(out@);
    let mut j: usize = 0;
    while j < store.data.tasks.len()
        invariant
            at.valid(),
            ts == store.tasks_v(),
            j <= ts.len(),
            dues_view(out@) == mid + tasks_dues(ts.take(j as int), *at),
            all_at_valid(before) ==> all_at_valid(dues_view(out@)),
        decreases ts.len() - j,
    {
        proof {
            assert(ts.take(j + 1).drop_last() =~= ts.take(j as int));
        }
        collect_task(&store.data.tasks[j], at, out);
        j = j + 1;
        proof {
            assert(ts.take(j as int).last() == ts[j - 1]);
            assert(dues_view(out@) =~= mid + tasks_dues(ts.take(j as int), *at));
        }
    }
    assert(ts.take(ts.len() as int) =~= ts);
    assert(dues_view(out@) =~= before + collect_spec(rs, ts, *at));
}


// ---------------------------------------------------------------- quiet hours

/// Seconds into the day of a clock time.
pub open spec fn clock_secs(c: Clock) -> int {
    c.hour * 3600 + c.minute * 60
}

/// Whether `at` falls in the quiet hours (which may span midnight); off when
/// disabled or when either end does not parse.
pub open spec fn in_dnd_spec(enabled: bool, from: Seq<char>, to: Seq<char>, at: Wall) -> bool {
    match (parse_clock_spec(from), parse_clock_spec(to)) {
        (Some(f), Some(t)) => {
            let cur = at.hour * 3600 + at.minute * 60 + at.second;
            enabled && if clock_secs(f) <= clock_secs(t) {
                clock_secs(f) <= cur && cur < clock_secs(t)
            } else {
                cur >= clock_secs(f) || cur < clock_secs(t)
            }
        },
        _ => false,
    }
}

/// Quiet hours: whether `at` falls between the two clock times of the
/// settings (spanning midnight when the start is later than the end).
pub fn in_dnd(settings: &Settings, at: &Wall) -> (b: bool)
    requires
        at.valid(),
    ensures
        b == in_dnd_spec(settings.dnd.enabled, settings.dnd.from@, settings.dnd.to@, *at),
{
    let from = match parse_clock(settings.dnd.from.as_str()) {
        Some(v) => v,
        None => return false,
    };
    let to = match parse_clock(settings.dnd.to.as_str()) {
        Some(v) => v,
        None => return false,
    };
    if !settings.dnd.enabled {
        return false;
    }
    let cur = at.hour * 3600 + at.minute * 60 + at.second;
    let f = from.hour * 3600 + from.minute * 60;
    let t = to.hour * 3600 + to.minute * 60;
    if f <= t {
        f <= cur && cur < t
    } else {
        cur >= f || cur < t
    }
}

// ---------------------------------------------------------------- scheduler state

/// The scheduler's own state between ticks.
pub struct NightState {
    /// The first tick (which settles what was missed while not running) is done.
    pub warmed_up: bool,
    /// Due events waiting to be notified; no key occurs twice.
    pub queue: Vec<Due>,
    /// When notifications were shown, for the hourly cap.
    pub sent: Vec<Wall>,
    /// Reminders settled silently during the current quiet hours.
    pub quiet: usize,
    /// Whether the previous tick was in the quiet hours.
    pub last_dnd: bool,
}

pub struct NightView {
    pub warmed_up: bool,
    pub queue: Seq<DueView>,
    pub sent: Seq<Wall>,
    pub quiet: nat,
    pub last_dnd: bool,
}

impl View for NightState {
    type V = NightView;

    open spec fn view(&self) -> NightView {
        NightView {
            warmed_up: self.warmed_up,
            queue: dues_view(self.queue@),
            sent: self.sent@,
            quiet: self.quiet as nat,
            last_dnd: self.last_dnd,
        }
    }
}

/// No two queued events share a key.
pub open spec fn keys_unique(q: Seq<DueView>) -> bool {
    forall|i: int, j: int| 0 <= i < j < q.len() ==> q[i].key != q[j].key
}

impl NightState {
    pub open spec fn wf(&self) -> bool {
        &&& keys_unique(self@.queue)
        &&& all_at_valid(self@.queue)
        &&& forall|i: int| 0 <= i < self.sent@.len() ==> (#[trigger] self.sent@[i]).valid()
    }

    pub fn new() -> (s: NightState)
        ensures
            s.wf(),
            s@.queue.len() == 0 && s@.sent.len() == 0,
            !s.warmed_up && s.quiet == 0 && !s.last_dnd,
    {
        let s = NightState { warmed_up: false, queue: Vec::new(), sent: Vec::new(), quiet: 0, last_dnd: false };
        assert(s@.queue =~= Seq::<DueView>::empty());
        s
    }
}

/// What one tick decided: notifications to show one by one, summary
/// notifications, events to settle silently (`true`) and whether anything
/// changed.
pub struct Plan {
    pub fires: Vec<Due>,
    pub batches: Vec<String>,
    pub settles: Vec<(Due, bool)>,
    pub dirty: bool,
}

pub struct PlanView {
    pub fires: Seq<DueView>,
    pub batches: Seq<Seq<char>>,
    pub settles: Seq<(DueView, bool)>,
    pub dirty: bool,
}

pub open spec fn settles_view(s: Seq<(Due, bool)>) -> Seq<(DueView, bool)> {
    s.map_values(|e: (Due, bool)| (e.0@, e.1))
}

impl View for Plan {
    type V = PlanView;

    open spec fn view(&self) -> PlanView {
        PlanView {
            fires: dues_view(self.fires@),
            batches: self.batches@.map_values(|b: String| b@),
            settles: settles_view(self.settles@),
            dirty: self.dirty,
        }
    }
}

// ---------------------------------------------------------------- queue rules

pub open spec fn key_in(q: Seq<DueView>, key: Seq<char>) -> bool {
    exists|i: int| 0 <= i < q.len() && q[i].key == key
}

/// The queue after offering `cands` in order: one whose key was handled or
/// is already queued is skipped.
pub open spec fn enqueue_spec(q: Seq<DueView>, cands: Seq<DueView>, fired: Seq<Seq<char>>) -> Seq<DueView>
    decreases cands.len(),
{
    if cands.len() == 0 {
        q
    } else {
        let q1 = enqueue_spec(q, cands.drop_last(), fired);
        let d = cands.last();
        if fired.contains(d.key) || key_in(q1, d.key) { q1 } else { q1.push(d) }
    }
}

/// Missed by more than the grace period (24 hours).
pub open spec fn stale_due(d: DueView, at: Wall) -> bool {
    at.moment() - d.at.moment() > 86400
}

pub open spec fn ready_due(d: DueView, at: Wall) -> bool {
    d.at.moment() <= at.moment()
}

/// Which queued events a partition picks.
pub enum Pick {
    Stale,
    Ready,
}

pub open spec fn picked(mode: Pick, d: DueView, at: Wall) -> bool {
    match mode {
        Pick::Stale => stale_due(d, at),
        Pick::Ready => ready_due(d, at),
    }
}

/// Front to back: a due event is released while the budget lasts; the rest
/// stays queued, in order. Returns (kept, released).
pub open spec fn release_spec(q: Seq<DueView>, at: Wall, budget: nat) -> (Seq<DueView>, Seq<DueView>)
    decreases q.len(),
{
    if q.len() == 0 {
        (Seq::empty(), Seq::empty())
    } else {
        let (k, f) = release_spec(q.drop_last(), at, budget);
        let d = q.last();
        if ready_due(d, at) && f.len() < budget { (k, f.push(d)) } else { (k.push(d), f) }
    }
}

pub open spec fn missed_text(n: nat) -> Seq<char> {
    "错过 "@ + dec_seq(n) + " 条提醒"@
}

pub open spec fn quiet_text(n: nat) -> Seq<char> {
    "免打扰期间有 "@ + dec_seq(n) + " 条提醒"@
}

pub open spec fn quietly(s: Seq<DueView>) -> Seq<(DueView, bool)> {
    s.map_values(|d: DueView| (d, true))
}

/// One planning step of the scheduler at `at`, from the store's health,
/// settings, reminders, tasks and fired keys.
///
/// Nothing happens on a corrupt store. Otherwise what came due is queued
/// (skipping handled or queued keys), sends older than an hour leave the
/// hourly window, and events missed by more than 24 hours are settled
/// silently. The first tick settles everything already due silently under
/// one summary; during quiet hours due events are settled silently and
/// counted; otherwise due events are released front to back while the hourly
/// cap (at least one) minus the sends in the window allows. Leaving quiet
/// hours with a count adds one summary and resets the count.
pub open spec fn tick_spec(
    corrupt: bool,
    cap_setting: u32,
    dnd: bool,
    cands: Seq<DueView>,
    fired: Seq<Seq<char>>,
    st: NightView,
    at: Wall,
) -> Option<(NightView, PlanView)> {
    if corrupt {
        None
    } else {
        let q1 = enqueue_spec(st.queue, cands, fired);
        let sent1 = st.sent.filter(|w: Wall| w.moment() > at.moment() - 3600);
        let cap: nat = if cap_setting == 0 { 1 } else { cap_setting as nat };
        let stale = q1.filter(|d: DueView| stale_due(d, at));
        let q2 = q1.filter(|d: DueView| !stale_due(d, at));
        let ready = q2.filter(|d: DueView| ready_due(d, at));
        let waiting = q2.filter(|d: DueView| !ready_due(d, at));
        let budget: nat = if cap > sent1.len() { (cap - sent1.len()) as nat } else { 0 };
        let released = release_spec(q2, at, budget);
        let queue = if !st.warmed_up || dnd { waiting } else { released.0 };
        let fires = if !st.warmed_up || dnd { Seq::empty() } else { released.1 };
        let settles = if !st.warmed_up || dnd { quietly(stale) + quietly(ready) } else { quietly(stale) };
        let sent = if !st.warmed_up && ready.len() > 0 { sent1.push(at) } else { sent1 };
        let batches0 = if !st.warmed_up && ready.len() > 0 { seq![missed_text(ready.len())] } else { Seq::empty() };
        let quiet1: nat = if st.warmed_up && dnd {
            if st.quiet + ready.len() > usize::MAX { usize::MAX as nat } else { st.quiet + ready.len() }
        } else {
            st.quiet
        };
        let closing = st.last_dnd && !dnd && quiet1 > 0;
        Some((
            NightView {
                warmed_up: true,
                queue,
                sent,
                quiet: if closing { 0 } else { quiet1 },
                last_dnd: dnd,
            },
            PlanView {
                fires,
                batches: if closing { batches0.push(quiet_text(quiet1)) } else { batches0 },
                settles,
                dirty: settles.len() + fires.len() > 0,
            },
        ))
    }
}


proof fn lemma_filter_step<A>(s: Seq<A>, pred: spec_fn(A) -> bool, k: int)
    requires
        0 <= k < s.len(),
    ensures
        s.take(k + 1).filter(pred) == if pred(s[k]) {
            s.take(k).filter(pred).push(s[k])
        } else {
            s.take(k).filter(pred)
        },
{
    assert(s.take(k + 1) =~= s.take(k).push(s[k]));
    crate::store::lemma_filter_push(s.take(k), pred, s[k]);
}

proof fn lemma_filter_keeps_unique(q: Seq<DueView>, pred: spec_fn(DueView) -> bool)
    requires
        keys_unique(q),
    ensures
        keys_unique(q.filter(pred)),
        forall|d: DueView| q.filter(pred).contains(d) ==> q.contains(d),
    decreases q.len(),
{
    if q.len() > 0 {
        let p = q.drop_last();
        let x = q.last();
        assert(keys_unique(p));
        lemma_filter_keeps_unique(p, pred);
        assert(q =~= p.push(x));
        crate::store::lemma_filter_push(p, pred, x);
        let f = p.filter(pred);
        assert forall|d: DueView| q.filter(pred).contains(d) implies q.contains(d) by {
            if d != x {
                if pred(x) {
                    let i = choose|i: int| 0 <= i < f.push(x).len() && f.push(x)[i] == d;
                    assert(f.contains(d));
                } else {
                    assert(f.contains(d));
                }
                assert(p.contains(d));
                let k = choose|k: int| 0 <= k < p.len() && p[k] == d;
                assert(q[k] == d);
            } else {
                assert(q[q.len() - 1] == x);
            }
        }
        if pred(x) {
            assert forall|i: int, j: int| 0 <= i < j < f.len() + 1 implies
                (#[trigger] f.push(x)[i]).key != (#[trigger] f.push(x)[j]).key by {
                if j == f.len() {
                    assert(f.push(x)[i] == f[i]);
                    assert(f.contains(f[i]));
                    assert(p.contains(f[i]));
                    let k = choose|k: int| 0 <= k < p.len() && p[k] == f[i];
                    assert(q[k] == p[k]);
                    assert(q[q.len() - 1] == x);
                }
            }
        }
    } else {
        assert(q.filter(pred) =~= Seq::<DueView>::empty()) by {
            reveal(Seq::filter);
        }
    }
}

/// Whether a queued event has this key.
fn queued(q: &Vec<Due>, key: &str) -> (b: bool)
    ensures
        b == key_in(dues_view(q@), key@),
{
    let mut i: usize = 0;
    while i < q.len()
        invariant
            i <= q@.len(),
            forall|j: int| 0 <= j < i ==> (#[trigger] q@[j]).key@ != key@,
        decreases q@.len() - i,
    {
        if crate::text::same_text(q[i].key.as_str(), key) {
            assert(dues_view(q@)[i as int].key == key@);
            return true;
        }
        i = i + 1;
    }
    proof {
        if key_in(dues_view(q@), key@) {
            let j = choose|j: int| 0 <= j < dues_view(q@).len() && dues_view(q@)[j].key == key@;
            assert(q@[j].key@ == key@);
        }
    }
    false
}

/// Offer the candidates to the queue in order.
fn enqueue(queue: &mut Vec<Due>, cands: Vec<Due>, store: &Store)
    requires
        keys_unique(dues_view(old(queue)@)),
        all_at_valid(dues_view(old(queue)@)),
        all_at_valid(dues_view(cands@)),
    ensures
        all_at_valid(dues_view(final(queue)@)),
        dues_view(final(queue)@) == enqueue_spec(dues_view(old(queue)@), dues_view(cands@), store.fired_v()),
        keys_unique(dues_view(final(queue)@)),
{
    let ghost q0 = dues_view(queue@);
    let ghost cs = dues_view(cands@);
    let mut k: usize = 0;
    while k < cands.len()
        invariant
            k <= cands@.len(),
            cs == dues_view(cands@),
            dues_view(queue@) == enqueue_spec(q0, cs.take(k as int), store.fired_v()),
            keys_unique(dues_view(queue@)),
            all_at_valid(dues_view(queue@)),
            all_at_valid(cs),
        decreases cands@.len() - k,
    {
        proof {
            assert(cs.take(k + 1).drop_last() =~= cs.take(k as int));
            assert(cs.take(k + 1).last() == cs[k as int]);
        }
        let d = &cands[k];
        if !store.has_fired(d.key.as_str()) && !queued(queue, d.key.as_str()) {
            let ghost before = dues_view(queue@);
            queue.push(d.duplicate());
            proof {
                assert(dues_view(queue@) =~= before.push(cs[k as int]));
                assert forall|i: int, j: int| 0 <= i < j < dues_view(queue@).len() implies
                    (#[trigger] dues_view(queue@)[i]).key != (#[trigger] dues_view(queue@)[j]).key by {
                    if j == before.len() {
                        assert(before[i].key != cs[k as int].key);
                    }
                }
            }
        }
        k = k + 1;
    }
    assert(cs.take(cs.len() as int) =~= cs);
}

/// Sends still inside the hourly window at `at`.
fn recent_sent(sent: &Vec<Wall>, at: &Wall) -> (r: Vec<Wall>)
    requires
        at.valid(),
        forall|i: int| 0 <= i < sent@.len() ==> (#[trigger] sent@[i]).valid(),
    ensures
        r@ == sent@.filter(|w: Wall| w.moment() > at.moment() - 3600),
        forall|i: int| 0 <= i < r@.len() ==> (#[trigger] r@[i]).valid(),
{
    let ghost pred = |w: Wall| w.moment() > at.moment() - 3600;
    let now = at.seconds();
    let mut r: Vec<Wall> = Vec::new();
    let mut k: usize = 0;
    while k < sent.len()
        invariant
            at.valid(),
            now == at.moment(),
            k <= sent@.len(),
            forall|i: int| 0 <= i < sent@.len() ==> (#[trigger] sent@[i]).valid(),
            pred == (|w: Wall| w.moment() > at.moment() - 3600),
            r@ == sent@.take(k as int).filter(pred),
            forall|i: int| 0 <= i < r@.len() ==> (#[trigger] r@[i]).valid(),
        decreases sent@.len() - k,
    {
        proof {
            lemma_filter_step(sent@, pred, k as int);
        }
        let w = sent[k];
        if w.seconds() > now - 3600 {
            r.push(w);
        }
        k = k + 1;
    }
    assert(sent@.take(sent@.len() as int) =~= sent@);
    r
}

/// Split the queue: the picked events come back, the others stay, both in order.
fn take_picked(queue: &mut Vec<Due>, at: &Wall, mode: Pick) -> (out: Vec<Due>)
    requires
        at.valid(),
        all_at_valid(dues_view(old(queue)@)),
    ensures
        dues_view(out@) == dues_view(old(queue)@).filter(|d: DueView| picked(mode, d, *at)),
        dues_view(final(queue)@) == dues_view(old(queue)@).filter(|d: DueView| !picked(mode, d, *at)),
{
    let ghost q0 = dues_view(queue@);
    let ghost yes = |d: DueView| picked(mode, d, *at);
    let ghost no = |d: DueView| !picked(mode, d, *at);
    let now = at.seconds();
    let mut rest: Vec<Due> = Vec::new();
    std::mem::swap(&mut rest, queue);
    let mut out: Vec<Due> = Vec::new();
    let mut k: usize = 0;
    while k < rest.len()
        invariant
            at.valid(),
            now == at.moment(),
            k <= rest@.len(),
            q0 == dues_view(rest@),
            yes == (|d: DueView| picked(mode, d, *at)),
            no == (|d: DueView| !picked(mode, d, *at)),
            dues_view(out@) == q0.take(k as int).filter(yes),
            dues_view(queue@) == q0.take(k as int).filter(no),
            all_at_valid(q0),
        decreases rest@.len() - k,
    {
        proof {
            lemma_filter_step(q0, yes, k as int);
            lemma_filter_step(q0, no, k as int);
        }
        let d = rest[k].duplicate();
        assert(q0[k as int].at.valid());
        let when = d.at.seconds();
        let take = match mode {
            Pick::Stale => now - when > 86400,
            Pick::Ready => when <= now,
        };
        if take {
            let ghost b = dues_view(out@);
            out.push(d);
            assert(dues_view(out@) =~= b.push(q0[k as int]));
        } else {
            let ghost b = dues_view(queue@);
            queue.push(d);
            assert(dues_view(queue@) =~= b.push(q0[k as int]));
        }
        k = k + 1;
    }
    assert(q0.take(q0.len() as int) =~= q0);
    out
}

/// Release due events front to back while the budget lasts.
fn release(queue: &mut Vec<Due>, at: &Wall, budget: usize) -> (fired: Vec<Due>)
    requires
        at.valid(),
        all_at_valid(dues_view(old(queue)@)),
    ensures
        (dues_view(final(queue)@), dues_view(fired@)) == release_spec(dues_view(old(queue)@), *at, budget as nat),
{
    let ghost q0 = dues_view(queue@);
    let now = at.seconds();
    let mut rest: Vec<Due> = Vec::new();
    std::mem::swap(&mut rest, queue);
    let mut fired: Vec<Due> = Vec::new();
    let mut k: usize = 0;
    while k < rest.len()
        invariant
            at.valid(),
            now == at.moment(),
            k <= rest@.len(),
            q0 == dues_view(rest@),
            (dues_view(queue@), dues_view(fired@)) == release_spec(q0.take(k as int), *at, budget as nat),
            all_at_valid(q0),
        decreases rest@.len() - k,
    {
        proof {
            assert(q0.take(k + 1).drop_last() =~= q0.take(k as int));
            assert(q0.take(k + 1).last() == q0[k as int]);
        }
        let d = rest[k].duplicate();
        assert(q0[k as int].at.valid());
        if d.at.seconds() <= now && fired.len() < budget {
            let ghost b = dues_view(fired@);
            fired.push(d);
            assert(dues_view(fired@) =~= b.push(q0[k as int]));
        } else {
            let ghost b = dues_view(queue@);
            queue.push(d);
            assert(dues_view(queue@) =~= b.push(q0[k as int]));
        }
        k = k + 1;
    }
    assert(q0.take(q0.len() as int) =~= q0);
    fired
}

fn settle_quietly(settles: &mut Vec<(Due, bool)>, dues: Vec<Due>)
    ensures
        settles_view(final(settles)@) == settles_view(old(settles)@) + quietly(dues_view(dues@)),
{
    let ghost s0 = settles_view(settles@);
    let mut k: usize = 0;
    while k < dues.len()
        invariant
            k <= dues@.len(),
            settles_view(settles@) == s0 + quietly(dues_view(dues@).take(k as int)),
        decreases dues@.len() - k,
    {
        let ghost b = settles_view(settles@);
        settles.push((dues[k].duplicate(), true));
        assert(settles_view(settles@) =~= b.push((dues_view(dues@)[k as int], true)));
        k = k + 1;
        assert(quietly(dues_view(dues@).take(k as int)) =~= quietly(dues_view(dues@).take(k - 1)).push((dues_view(dues@)[k - 1], true)));
        assert(settles_view(settles@) =~= s0 + quietly(dues_view(dues@).take(k as int)));
    }
    assert(dues_view(dues@).take(dues@.len() as int) =~= dues_view(dues@));
}


proof fn lemma_filter_all_valid(q: Seq<DueView>, pred: spec_fn(DueView) -> bool)
    requires
        keys_unique(q),
        all_at_valid(q),
    ensures
        keys_unique(q.filter(pred)),
        all_at_valid(q.filter(pred)),
{
    lemma_filter_keeps_unique(q, pred);
    let f = q.filter(pred);
    assert forall|i: int| 0 <= i < f.len() implies (#[trigger] f[i]).at.valid() by {
        assert(f.contains(f[i]));
        assert(q.contains(f[i]));
        let k = choose|k: int| 0 <= k < q.len() && q[k] == f[i];
    }
}

proof fn lemma_release_sub(q: Seq<DueView>, at: Wall, budget: nat)
    requires
        keys_unique(q),
        all_at_valid(q),
    ensures
        keys_unique(release_spec(q, at, budget).0),
        all_at_valid(release_spec(q, at, budget).0),
        all_at_valid(release_spec(q, at, budget).1),
        forall|d: DueView| release_spec(q, at, budget).0.contains(d) ==> q.contains(d),
    decreases q.len(),
{
    if q.len() > 0 {
        let p = q.drop_last();
        let x = q.last();
        assert(keys_unique(p));
        lemma_release_sub(p, at, budget);
        let (k, f) = release_spec(p, at, budget);
        assert(q[q.len() - 1] == x);
        assert forall|d: DueView| release_spec(q, at, budget).0.contains(d) implies q.contains(d) by {
            if d != x {
                if !(ready_due(x, at) && f.len() < budget) {
                    let i = choose|i: int| 0 <= i < k.push(x).len() && k.push(x)[i] == d;
                    assert(k.contains(d));
                }
                assert(k.contains(d));
                assert(p.contains(d));
                let j = choose|j: int| 0 <= j < p.len() && p[j] == d;
                assert(q[j] == d);
            }
        }
        if !(ready_due(x, at) && f.len() < budget) {
            assert forall|i: int, j: int| 0 <= i < j < k.len() + 1 implies
                (#[trigger] k.push(x)[i]).key != (#[trigger] k.push(x)[j]).key by {
                if j == k.len() {
                    assert(k.push(x)[i] == k[i]);
                    assert(k == release_spec(p, at, budget).0);
                    assert(k.contains(k[i]));
                    assert(p.contains(k[i]));
                    let m = choose|m: int| 0 <= m < p.len() && p[m] == k[i];
                    assert(q[m] == p[m]);
                }
            }
        }
    }
}

fn count_text(head: &str, n: usize, tail: &str) -> (r: String)
    ensures
        r@ == head@ + dec_seq(n as nat) + tail@,
{
    let d = decimal(n as u64);
    let a = concat(head, d.as_str());
    concat(a.as_str(), tail)
}

/// Plan one tick at `at` (see `tick_spec`). The store is only read.
pub fn plan_tick(store: &Store, state: &mut NightState, at: &Wall) -> (r: Option<Plan>)
    requires
        at.valid(),
        old(state).wf(),
    ensures
        final(state).wf(),
        match tick_spec(
            store.spec_is_corrupt(),
            store.data.settings.remind_cap_per_hour,
            in_dnd_spec(store.data.settings.dnd.enabled, store.data.settings.dnd.from@, store.data.settings.dnd.to@, *at),
            collect_spec(store.reminders_v(), store.tasks_v(), *at),
            store.fired_v(),
            old(state)@,
            *at,
        ) {
            None => r is None && final(state)@ == old(state)@,
            Some((st, plan)) => r matches Some(p) && p@ == plan && final(state)@ == st,
        },
{
    if store.is_corrupt() {
        return None;
    }
    let ghost st = state@;
    let dnd = in_dnd(&store.data.settings, at);
    let mut cands: Vec<Due> = Vec::new();
    assert(all_at_valid(dues_view(cands@)));
    collect(store, at, &mut cands);
    assert(dues_view(cands@) =~= collect_spec(store.reminders_v(), store.tasks_v(), *at));
    enqueue(&mut state.queue, cands, store);
    let ghost q1 = dues_view(state.queue@);
    let sent1 = recent_sent(&state.sent, at);
    state.sent = sent1;
    let ghost s1 = state.sent@;
    let cap: usize = if store.data.settings.remind_cap_per_hour == 0 {
        1
    } else {
        store.data.settings.remind_cap_per_hour as usize
    };
    let stale = take_picked(&mut state.queue, at, Pick::Stale);
    let ghost q2 = dues_view(state.queue@);
    proof {
        lemma_filter_all_valid(q1, |d: DueView| !picked(Pick::Stale, d, *at));
        assert((|d: DueView| !picked(Pick::Stale, d, *at)) =~= (|d: DueView| !stale_due(d, *at)));
        assert((|d: DueView| picked(Pick::Stale, d, *at)) =~= (|d: DueView| stale_due(d, *at)));
        assert(q2 == q1.filter(|d: DueView| !stale_due(d, *at)));
        assert(dues_view(stale@) == q1.filter(|d: DueView| stale_due(d, *at)));
    }
    let mut plan = Plan { fires: Vec::new(), batches: Vec::new(), settles: Vec::new(), dirty: false };
    assert(settles_view(plan.settles@) =~= Seq::<(DueView, bool)>::empty());
    assert(plan@.fires =~= Seq::<DueView>::empty());
    assert(plan@.batches =~= Seq::<Seq<char>>::empty());
    settle_quietly(&mut plan.settles, stale);
    let ghost released = release_spec(q2, *at, if cap > s1.len() { (cap - s1.len()) as nat } else { 0 });
    if !state.warmed_up || dnd {
        let ready = take_picked(&mut state.queue, at, Pick::Ready);
        proof {
            lemma_filter_all_valid(q2, |d: DueView| !picked(Pick::Ready, d, *at));
            assert((|d: DueView| !picked(Pick::Ready, d, *at)) =~= (|d: DueView| !ready_due(d, *at)));
            assert((|d: DueView| picked(Pick::Ready, d, *at)) =~= (|d: DueView| ready_due(d, *at)));
            assert(dues_view(state.queue@) == q2.filter(|d: DueView| !ready_due(d, *at)));
            assert(dues_view(ready@) == q2.filter(|d: DueView| ready_due(d, *at)));
        }
        let count = ready.len();
        settle_quietly(&mut plan.settles, ready);
        if !state.warmed_up {
            if count > 0 {
                let text = count_text("错过 ", count, " 条提醒");
                plan.batches.push(text);
                proof {
                    reveal_strlit("错过 ");
                    reveal_strlit(" 条提醒");
                }
                assert(plan@.batches =~= seq![missed_text(count as nat)]);
                state.sent.push(*at);
            }
        } else {
            state.quiet = state.quiet.saturating_add(count);
        }
        state.warmed_up = true;
    } else {
        let budget: usize = if cap > state.sent.len() { cap - state.sent.len() } else { 0 };
        let fired = release(&mut state.queue, at, budget);
        proof {
            lemma_release_sub(q2, *at, budget as nat);
        }
        plan.fires = fired;
    }
    plan.dirty = plan.settles.len() > 0 || plan.fires.len() > 0;
    if state.last_dnd && !dnd && state.quiet > 0 {
        let count = state.quiet;
        state.quiet = 0;
        let ghost b0 = plan@.batches;
        let text = count_text("免打扰期间有 ", count, " 条提醒");
        plan.batches.push(text);
        proof {
            reveal_strlit("免打扰期间有 ");
            reveal_strlit(" 条提醒");
        }
        assert(plan@.batches =~= b0.push(quiet_text(count as nat)));
    }
    state.last_dnd = dnd;
    Some(plan)
}


// ---------------------------------------------------------------- delivery and settling

/// Text of the notification for one due event.
pub open spec fn body_spec(d: DueView) -> Seq<char> {
    d.title + " · "@ + wall_text(d.at) + if d.snoozed { "（稍后提醒）"@ } else { Seq::empty() }
}

/// The notification text for one due event: title and time, marked when it
/// comes back from a snooze.
pub fn body_of(due: &Due) -> (r: String)
    requires
        due.at.valid(),
    ensures
        r@ == body_spec(due@),
{
    let when = fmt_wall(&due.at);
    let a = concat(due.title.as_str(), " · ");
    let b = concat(a.as_str(), when.as_str());
    proof {
        reveal_strlit(" · ");
        reveal_strlit("（稍后提醒）");
    }
    if due.snoozed {
        let r = concat(b.as_str(), "（稍后提醒）");
        r
    } else {
        assert(b@ =~= body_spec(due@));
        b
    }
}

/// What delivery hands back: every event to settle (the fired ones after the
/// silent ones) and how many notifications were shown.
pub struct Outcome {
    pub settles: Vec<(Due, bool)>,
    pub shown: usize,
    pub dirty: bool,
}

/// The outcome of delivering `plan` after `shown` of its notifications were
/// shown: fired events are settled too (a failed notification is not retried).
pub fn finish_delivery(plan: Plan, shown: usize) -> (o: Outcome)
    requires
        shown <= plan.fires@.len(),
    ensures
        settles_view(o.settles@) == plan@.settles + plan@.fires.map_values(|d: DueView| (d, false)),
        o.shown == shown,
        o.dirty == plan.dirty,
{
    let ghost p = plan@;
    let mut settles = plan.settles;
    let fires = plan.fires;
    let mut k: usize = 0;
    while k < fires.len()
        invariant
            k <= fires@.len(),
            p.fires == dues_view(fires@),
            settles_view(settles@) == p.settles + p.fires.take(k as int).map_values(|d: DueView| (d, false)),
        decreases fires@.len() - k,
    {
        let ghost b = settles_view(settles@);
        settles.push((fires[k].duplicate(), false));
        assert(settles_view(settles@) =~= b.push((p.fires[k as int], false)));
        k = k + 1;
        assert(p.fires.take(k as int).map_values(|d: DueView| (d, false))
            =~= p.fires.take(k - 1).map_values(|d: DueView| (d, false)).push((p.fires[k - 1], false)));
    }
    assert(p.fires.take(p.fires.len() as int) =~= p.fires);
    Outcome { settles, shown, dirty: plan.dirty }
}

/// The parts of the store a settlement touches.
pub struct Books {
    pub tasks: Seq<TaskView>,
    pub reminders: Seq<ReminderView>,
    pub fired: Seq<Seq<char>>,
}

impl Store {
    pub open spec fn books(&self) -> Books {
        Books { tasks: self.tasks_v(), reminders: self.reminders_v(), fired: self.fired_v() }
    }
}

/// Settling one event: its key is remembered; a one-shot task reminder is
/// cleared, a one-shot reminder is completed and switched off, and any
/// reminder records when it fired and drops its snooze.
pub open spec fn settle_books(b: Books, d: DueView, stamp: Seq<char>) -> Books {
    let fired = remembered(b.fired, d.key);
    if d.one_shot_task {
        Books {
            tasks: if no_task_with(b.tasks, d.id) {
                b.tasks
            } else {
                let i = task_pos(b.tasks, d.id);
                b.tasks.update(i, TaskView { remind_at: None, updated_at: stamp, ..b.tasks[i] })
            },
            fired,
            ..b
        }
    } else {
        Books {
            reminders: if no_reminder_with(b.reminders, d.id) {
                b.reminders
            } else {
                let i = reminder_pos(b.reminders, d.id);
                let r = b.reminders[i];
                b.reminders.update(i, ReminderView {
                    completed: if d.one_shot_reminder { true } else { r.completed },
                    enabled: if d.one_shot_reminder { false } else { r.enabled },
                    last_fired: Some(wall_text(d.at)),
                    snoozed_until: None,
                    ..r
                })
            },
            fired,
            ..b
        }
    }
}

/// Settling events in order; one whose key is already remembered is skipped.
/// Returns the books and the events to announce (id, kind).
pub open spec fn apply_books(b: Books, settles: Seq<(DueView, bool)>, stamp: Seq<char>) -> (Books, Seq<(Seq<char>, Seq<char>)>)
    decreases settles.len(),
{
    if settles.len() == 0 {
        (b, Seq::empty())
    } else {
        let (b1, ev) = apply_books(b, settles.drop_last(), stamp);
        let (d, quiet) = settles.last();
        if b1.fired.contains(d.key) {
            (b1, ev)
        } else {
            (settle_books(b1, d, stamp), ev.push((d.id, if quiet { "missed"@ } else { "fired"@ })))
        }
    }
}

pub open spec fn events_view(e: Seq<StoreEvent>) -> Seq<(Seq<char>, Seq<char>)> {
    e.map_values(|x: StoreEvent| (x.id@, x.kind@))
}

fn settle(store: &mut Store, due: &Due, quiet: bool, events: &mut Vec<StoreEvent>, stamp: &str)
    requires
        due.at.valid(),
    ensures
        final(store).books() == settle_books(old(store).books(), due@, stamp@),
        events_view(final(events)@) == events_view(old(events)@).push(
            (due.id@, if quiet { "missed"@ } else { "fired"@ }),
        ),
        final(store).data.settings == old(store).data.settings,
        final(store).data.stickies == old(store).data.stickies,
        final(store).kb == old(store).kb,
        final(store).undo == old(store).undo,
        final(store).health == old(store).health,
        final(store).runtime.note_pos == old(store).runtime.note_pos,
        final(store).runtime.migration == old(store).runtime.migration,
{
    let ghost b0 = store.books();
    store.remember_fired(due.key.as_str());
    if due.one_shot_task {
        if let Some(index) = store.find_index(due.id.as_str()) {
            proof {
                lemma_task_pos(b0.tasks, due.id@, index as int);
            }
            let ghost ts = store.tasks_v();
            store.data.tasks[index].remind_at = None;
            store.data.tasks[index].updated_at = owned(stamp);
            assert(store.tasks_v() =~= ts.update(index as int, TaskView { remind_at: None, updated_at: stamp@, ..ts[index as int] }));
        }
    } else if let Some(index) = store.find_reminder_index(due.id.as_str()) {
        proof {
            lemma_reminder_pos(b0.reminders, due.id@, index as int);
        }
        let ghost rs = store.reminders_v();
        let when = fmt_wall(&due.at);
        if due.one_shot_reminder {
            store.data.reminders[index].completed = true;
            store.data.reminders[index].enabled = false;
        }
        store.data.reminders[index].last_fired = Some(when);
        store.data.reminders[index].snoozed_until = None;
        assert(store.reminders_v() =~= settle_books(b0, due@, stamp@).reminders);
    }
    let ghost e0 = events_view(events@);
    if quiet {
        events.push(StoreEvent::missed(due.id.as_str()));
    } else {
        events.push(StoreEvent::fired(due.id.as_str()));
    }
    assert(events_view(events@) =~= e0.push((due.id@, if quiet { "missed"@ } else { "fired"@ })));
}

/// Apply a delivery outcome at `now` (its text `stamp` marks task updates):
/// each event not yet remembered is settled in order, the shown
/// notifications enter the hourly window, and the events to announce come
/// back. Nothing happens when the tick changed nothing. Saving is the
/// caller's part, when events come back.
pub fn apply(store: &mut Store, state: &mut NightState, outcome: Outcome, now: &Wall, stamp: &str) -> (events: Vec<StoreEvent>)
    requires
        now.valid(),
        old(state).wf(),
        all_at_valid(settles_view(outcome.settles@).map_values(|e: (DueView, bool)| e.0)),
    ensures
        final(state).wf(),
        final(store).data.settings == old(store).data.settings,
        final(store).data.stickies == old(store).data.stickies,
        final(store).kb == old(store).kb,
        final(store).undo == old(store).undo,
        final(store).health == old(store).health,
        final(store).runtime.note_pos == old(store).runtime.note_pos,
        final(store).runtime.migration == old(store).runtime.migration,
        !outcome.dirty ==> events@.len() == 0 && final(store).books() == old(store).books()
            && final(state)@ == old(state)@,
        outcome.dirty ==> {
            let (b, ev) = apply_books(old(store).books(), settles_view(outcome.settles@), stamp@);
            &&& final(store).books() == b
            &&& events_view(events@) == ev
            &&& final(state)@ == NightView { sent: old(state)@.sent + Seq::new(outcome.shown as nat, |i: int| *now), ..old(state)@ }
        },
{
    if !outcome.dirty {
        return Vec::new();
    }
    let ghost b0 = store.books();
    let ghost ss = settles_view(outcome.settles@);
    let mut events: Vec<StoreEvent> = Vec::new();
    let mut k: usize = 0;
    while k < outcome.settles.len()
        invariant
            k <= ss.len(),
            ss == settles_view(outcome.settles@),
            all_at_valid(ss.map_values(|e: (DueView, bool)| e.0)),
            (store.books(), events_view(events@)) == apply_books(b0, ss.take(k as int), stamp@),
            store.data.settings == old(store).data.settings,
            store.data.stickies == old(store).data.stickies,
            store.kb == old(store).kb,
            store.undo == old(store).undo,
            store.health == old(store).health,
            store.runtime.note_pos == old(store).runtime.note_pos,
            store.runtime.migration == old(store).runtime.migration,
        decreases ss.len() - k,
    {
        proof {
            assert(ss.take(k + 1).drop_last() =~= ss.take(k as int));
            assert(ss.take(k + 1).last() == ss[k as int]);
            assert(ss.map_values(|e: (DueView, bool)| e.0)[k as int].at.valid());
        }
        let (due, quiet) = (&outcome.settles[k].0, outcome.settles[k].1);
        if !store.has_fired(due.key.as_str()) {
            settle(store, due, quiet, &mut events, stamp);
        }
        k = k + 1;
    }
    assert(ss.take(ss.len() as int) =~= ss);
    let ghost sent0 = state.sent@;
    let mut j: usize = 0;
    while j < outcome.shown
        invariant
            j <= outcome.shown,
            now.valid(),
            state.sent@ == sent0 + Seq::new(j as nat, |i: int| *now),
            forall|i: int| 0 <= i < sent0.len() ==> (#[trigger] sent0[i]).valid(),
            state.queue == old(state).queue,
            state.warmed_up == old(state).warmed_up,
            state.quiet == old(state).quiet,
            state.last_dnd == old(state).last_dnd,
            sent0 == old(state).sent@,
        decreases outcome.shown - j,
    {
        state.sent.push(*now);
        j = j + 1;
        assert(state.sent@ =~= sent0 + Seq::new(j as nat, |i: int| *now));
    }
    proof {
        assert forall|i: int| 0 <= i < state.sent@.len() implies (#[trigger] state.sent@[i]).valid() by {
            if i >= sent0.len() {
                assert(state.sent@[i] == *now);
            }
        }
    }
    events
}


// ---------------------------------------------------------------- laws

proof fn lemma_release_within_budget(q: Seq<DueView>, at: Wall, budget: nat)
    ensures
        release_spec(q, at, budget).1.len() <= budget,
    decreases q.len(),
{
    if q.len() > 0 {
        lemma_release_within_budget(q.drop_last(), at, budget);
    }
}

/// The hourly cap is never exceeded: the notifications a tick releases, with
/// those already shown within the last hour, stay within the cap (at least one).
pub proof fn law_hourly_cap(
    corrupt: bool,
    cap_setting: u32,
    dnd: bool,
    cands: Seq<DueView>,
    fired: Seq<Seq<char>>,
    st: NightView,
    at: Wall,
)
    requires
        tick_spec(corrupt, cap_setting, dnd, cands, fired, st, at) is Some,
    ensures
        ({
            let outcome = tick_spec(corrupt, cap_setting, dnd, cands, fired, st, at)->0;
            let plan = outcome.1;
            let window = st.sent.filter(|w: Wall| w.moment() > at.moment() - 3600);
            let cap: nat = if cap_setting == 0 { 1 } else { cap_setting as nat };
            plan.fires.len() == 0 || plan.fires.len() + window.len() <= cap
        }),
{
    let q1 = enqueue_spec(st.queue, cands, fired);
    let q2 = q1.filter(|d: DueView| !stale_due(d, at));
    let window = st.sent.filter(|w: Wall| w.moment() > at.moment() - 3600);
    let cap: nat = if cap_setting == 0 { 1 } else { cap_setting as nat };
    let budget: nat = if cap > window.len() { (cap - window.len()) as nat } else { 0 };
    lemma_release_within_budget(q2, at, budget);
}

/// Settling is idempotent: events whose keys were all handled meanwhile
/// change nothing and announce nothing.
pub proof fn law_settle_idempotent(b: Books, settles: Seq<(DueView, bool)>, stamp: Seq<char>)
    requires
        forall|i: int| 0 <= i < settles.len() ==> b.fired.contains((#[trigger] settles[i]).0.key),
    ensures
        apply_books(b, settles, stamp) == (b, Seq::<(Seq<char>, Seq<char>)>::empty()),
    decreases settles.len(),
{
    if settles.len() > 0 {
        let p = settles.drop_last();
        assert forall|i: int| 0 <= i < p.len() implies b.fired.contains((#[trigger] p[i]).0.key) by {
            assert(p[i] == settles[i]);
        }
        law_settle_idempotent(b, p, stamp);
        assert(b.fired.contains(settles[settles.len() - 1].0.key));
    }
}

/// A weekly reminder that has fired before keeps to the weekday it fired
/// on: it is allowed at a wall time exactly when that time lies a whole
/// number of weeks from the last firing, and on any other day no occurrence
/// of it comes due.
pub proof fn law_weekly_keeps_its_weekday(r: ReminderView, c: Clock, at: Wall, prev: Wall)
    requires
        r.repeat == Repeat::Weekly,
        r.last_fired matches Some(text) && parse_wall_spec(text, at.date) == Some(prev),
    ensures
        repeat_allows_spec(r, at_clock(at.date, c), at.date) <==> (at.date.number() - prev.date.number()) % 7 == 0,
        (at.date.number() - prev.date.number()) % 7 != 0 ==> clock_due(r, c, at).len() == 0,
{
    let a = at.date.number();
    let p = prev.date.number();
    assert(((a + 2) % 7 == (p + 2) % 7) <==> (a - p) % 7 == 0) by (nonlinear_arith);
}

} // verus!
