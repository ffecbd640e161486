//! The weekly summary export: which week is meant, the three buckets of the
//! week's tasks, and the Markdown and CSV bytes of the summary. Stamps are
//! compared as local text by their date prefix; nothing is converted between
//! zones. Choosing the folder and writing the file are the caller's.
use vstd::prelude::*;
use vstd::string::*;
use crate::text::{
    byte_len, byte_len_capped, char_width, chars_of, concat, contains, contains_seq, owned, dec_seq, decimal, lemma_encode_concat,
    lowercase, occurs_at, same_text, starts_with, string_of_range, text_less, text_lt, to_lower, trim,
    trim_seq,
};
use crate::datetime::{day_text, fmt_day, Day};
use crate::week::{
    add_days, chrono_add_days, iso_week_label, week_label_spec, week_range, week_start, week_start_spec,
};
use crate::models::{opt_view, task_views, today, Source, Task, TaskView};

verus! {

broadcast use vstd::string::group_string_axioms;

// ---------------------------------------------------------------- byte prefixes

/// Bytes that `c` takes in UTF-8.
pub open spec fn width(c: char) -> int {
    vstd::utf8::encode_scalar(c as u32).len() as int
}

/// The characters of the first `n` bytes of `s` (what `&s[..n]` holds), when
/// byte `n` falls between two characters of `s`.
pub open spec fn head_bytes(s: Seq<char>, n: int) -> Option<Seq<char>>
    decreases s.len(),
{
    if n == 0 {
        Some(Seq::empty())
    } else if n < 0 || s.len() == 0 {
        None
    } else {
        match head_bytes(s.drop_first(), n - width(s[0])) {
            Some(t) => Some(seq![s[0]] + t),
            None => None,
        }
    }
}

/// `h` with `p` in front, when there is one.
pub open spec fn prefixed(p: Seq<char>, h: Option<Seq<char>>) -> Option<Seq<char>> {
    match h {
        Some(t) => Some(p + t),
        None => None,
    }
}

/// `&s[..n]`; `None` where byte `n` is not between two characters of `s`.
fn head_bytes_of(s: &str, n: u64) -> (r: Option<String>)
    ensures
        opt_view(r) == head_bytes(s@, n as int),
{
    let cs = chars_of(s);
    let mut i: usize = 0;
    let mut m: u64 = n;
    assert(s@.take(0) =~= Seq::<char>::empty());
    assert(s@.skip(0) =~= s@);
    assert(prefixed(Seq::empty(), head_bytes(s@, n as int)) =~= head_bytes(s@, n as int)) by {
        match head_bytes(s@, n as int) {
            Some(t) => assert(Seq::<char>::empty() + t =~= t),
            None => {},
        }
    }
    while m > 0 && i < cs.len()
        invariant
            cs@ == s@,
            i <= cs@.len(),
            m <= n,
            head_bytes(s@, n as int) == prefixed(s@.take(i as int), head_bytes(s@.skip(i as int), m as int)),
        decreases cs@.len() - i,
    {
        let w = char_width(cs[i]);
        let ghost rest = s@.skip(i as int);
        proof {
            vstd::utf8::char_is_scalar(cs@[i as int]);
            assert(rest[0] == s@[i as int]);
            assert(rest.drop_first() =~= s@.skip(i + 1));
            assert(s@.take(i + 1) =~= s@.take(i as int) + seq![s@[i as int]]);
            match head_bytes(s@.skip(i + 1), m - w) {
                Some(t) => {
                    assert(s@.take(i as int) + (seq![s@[i as int]] + t) =~= s@.take(i + 1) + t);
                },
                None => {},
            }
        }
        if w > m {
            return None;
        }
        m = m - w;
        i = i + 1;
    }
    if m == 0 {
        proof {
            assert(s@.take(i as int) + Seq::<char>::empty() =~= s@.take(i as int));
        }
        Some(string_of_range(&cs, 0, i))
    } else {
        None
    }
}

/// `&s[..10]` can be taken: the text is shorter than ten bytes, or byte ten
/// falls between two characters.
pub open spec fn cuts_at_ten(s: Seq<char>) -> bool {
    byte_len(s) >= 10 ==> head_bytes(s, 10) is Some
}

/// The first ten bytes of `s` lie between `from` and `to` (text order).
pub open spec fn in_range_spec(s: Seq<char>, from: Seq<char>, to: Seq<char>) -> bool {
    byte_len(s) >= 10 && match head_bytes(s, 10) {
        Some(h) => !text_lt(h, from) && !text_lt(to, h),
        None => false,
    }
}

/// The first ten bytes of `s` come before `from`.
pub open spec fn before_spec(s: Seq<char>, from: Seq<char>) -> bool {
    byte_len(s) >= 10 && match head_bytes(s, 10) {
        Some(h) => text_lt(h, from),
        None => false,
    }
}

fn first_ten(text: &str) -> (r: Option<String>)
    requires
        cuts_at_ten(text@),
    ensures
        match r {
            Some(h) => byte_len(text@) >= 10 && head_bytes(text@, 10) == Some(h@),
            None => byte_len(text@) < 10,
        },
{
    if byte_len_capped(text, 10) < 10 {
        return None;
    }
    match head_bytes_of(text, 10) {
        Some(h) => Some(h),
        None => None,
    }
}

fn in_range(text: &str, from: &str, to: &str) -> (r: bool)
    requires
        cuts_at_ten(text@),
    ensures
        r == in_range_spec(text@, from@, to@),
{
    match first_ten(text) {
        None => false,
        Some(h) => !text_less(h.as_str(), from) && !text_less(to, h.as_str()),
    }
}

fn before(text: &str, from: &str) -> (r: bool)
    requires
        cuts_at_ten(text@),
    ensures
        r == before_spec(text@, from@),
{
    match first_ten(text) {
        None => false,
        Some(h) => text_less(h.as_str(), from),
    }
}

/// An optional text that begins with `prefix`.
pub open spec fn opt_starts(t: Option<Seq<char>>, prefix: Seq<char>) -> bool {
    match t {
        Some(v) => occurs_at(v, prefix, 0),
        None => false,
    }
}

fn opt_starts_with(t: &Option<String>, prefix: &str) -> (r: bool)
    ensures
        r == opt_starts(opt_view(*t), prefix@),
{
    match t {
        Some(v) => starts_with(v.as_str(), prefix),
        None => false,
    }
}

// ---------------------------------------------------------------- which week

/// The week a request names: empty, `current`, `this` or 本周 for this week,
/// `last`, `previous` or 上周 for the week before, else a label like
/// `2026-W36`; as its Monday and Sunday, or the message shown instead.
pub open spec fn resolve_week_spec(raw: Seq<char>, today: Day) -> Result<(Day, Day), Seq<char>> {
    let text = lowercase(trim_seq(raw));
    let monday: Result<Day, Seq<char>> = if text == ""@ || text == "current"@ || text == "this"@ || text
        == "本周"@ {
        match week_start_spec(week_label_spec(today)) {
            Some(m) => Ok(m),
            None => Err("本周编号算不出来，请选具体周次"@),
        }
    } else if text == "last"@ || text == "previous"@ || text == "上周"@ {
        match chrono_add_days(today, -7) {
            None => Err("上周编号算不出来，请选具体周次"@),
            Some(prev) => match week_start_spec(week_label_spec(prev)) {
                Some(m) => Ok(m),
                None => Err("上周编号算不出来，请选具体周次"@),
            },
        }
    } else {
        match week_start_spec(text) {
            Some(m) => Ok(m),
            None => Err("周次格式不对，请用 2026-W36 这种写法"@),
        }
    };
    match monday {
        Err(e) => Err(e),
        Ok(m) => match chrono_add_days(m, 6) {
            Some(s) => Ok((m, s)),
            None => Err("周次范围算不出来，请选具体周次"@),
        },
    }
}

/// The Monday and Sunday of the week `raw` names, with `today` as the day
/// the request is made.
pub fn resolve_week_at(raw: &str, today: &Day) -> (r: Result<(Day, Day), String>)
    requires
        today.valid(),
    ensures
        match r {
            Ok(w) => resolve_week_spec(raw@, *today) == Ok::<(Day, Day), Seq<char>>(w) && w.0.valid()
                && w.1.valid(),
            Err(e) => resolve_week_spec(raw@, *today) == Err::<(Day, Day), Seq<char>>(e@),
        },
{
    let t = trim(raw);
    let text = to_lower(t.as_str());
    let this_week = same_text(text.as_str(), "") || same_text(text.as_str(), "current") || same_text(
        text.as_str(),
        "this",
    ) || same_text(text.as_str(), "本周");
    let last_week = same_text(text.as_str(), "last") || same_text(text.as_str(), "previous")
        || same_text(text.as_str(), "上周");
    let monday = if this_week {
        let label = iso_week_label(today);
        match week_start(label.as_str()) {
            Some(m) => m,
            None => return Err(owned("本周编号算不出来，请选具体周次")),
        }
    } else if last_week {
        let prev = match add_days(today, -7) {
            Some(p) => p,
            None => return Err(owned("上周编号算不出来，请选具体周次")),
        };
        let label = iso_week_label(&prev);
        match week_start(label.as_str()) {
            Some(m) => m,
            None => return Err(owned("上周编号算不出来，请选具体周次")),
        }
    } else {
        match week_start(text.as_str()) {
            Some(m) => m,
            None => return Err(owned("周次格式不对，请用 2026-W36 这种写法")),
        }
    };
    match week_range(&monday) {
        Some(range) => Ok(range),
        None => Err(owned("周次范围算不出来，请选具体周次")),
    }
}

/// The Monday and Sunday of the week `raw` names, today being the machine's
/// local date.
pub fn resolve_week(raw: &str) -> (r: Result<(Day, Day), String>)
    ensures
        exists|d: Day| #![auto]
            d.valid() && match r {
                Ok(w) => resolve_week_spec(raw@, d) == Ok::<(Day, Day), Seq<char>>(w),
                Err(e) => resolve_week_spec(raw@, d) == Err::<(Day, Day), Seq<char>>(e@),
            },
{
    let now = today();
    resolve_week_at(raw, &now)
}


// ---------------------------------------------------------------- the three buckets

/// Not in the trash.
pub open spec fn alive(t: TaskView) -> bool {
    t.deleted_at is None
}

/// Completed with a completion stamp inside the week.
pub open spec fn done_in_week(t: TaskView, from: Seq<char>, to: Seq<char>) -> bool {
    alive(t) && t.done && match t.done_at {
        Some(d) => in_range_spec(d, from, to),
        None => false,
    }
}

/// Created inside the week.
pub open spec fn created_in_week(t: TaskView, from: Seq<char>, to: Seq<char>) -> bool {
    alive(t) && in_range_spec(t.created_at, from, to)
}

/// Not done.
pub open spec fn open_task(t: TaskView) -> bool {
    alive(t) && !t.done
}

/// Not done and due before the week.
pub open spec fn overdue_before(t: TaskView, from: Seq<char>) -> bool {
    open_task(t) && match t.due_at {
        Some(d) => before_spec(d, from),
        None => false,
    }
}

/// Not done and carried into the week: carried before, planned for its
/// Monday, or due inside it.
pub open spec fn carried_into(t: TaskView, from: Seq<char>, to: Seq<char>) -> bool {
    open_task(t) && (t.carried_from >= 1 || opt_starts(t.planned_date, from) || match t.due_at {
        Some(d) => in_range_spec(d, from, to),
        None => false,
    })
}

/// Not done and carried three days or more.
pub open spec fn stale(t: TaskView) -> bool {
    open_task(t) && t.carried_from >= 3
}

/// The stamps that bucketing cuts at ten bytes can be cut there.
pub open spec fn export_safe(t: TaskView) -> bool {
    alive(t) ==> {
        &&& cuts_at_ten(t.created_at)
        &&& t.done ==> match t.done_at {
            Some(d) => cuts_at_ten(d),
            None => true,
        }
        &&& !t.done ==> match t.due_at {
            Some(d) => cuts_at_ten(d),
            None => true,
        }
    }
}

/// Rank of a priority among next week's candidates: high, med, then the rest.
pub open spec fn weight(p: Seq<char>) -> int {
    if p == "high"@ { 0 } else if p == "med"@ { 1 } else { 2 }
}

/// `a` comes strictly before `b` among candidates: carried longer, then the
/// higher priority.
pub open spec fn outranks(a: TaskView, b: TaskView) -> bool {
    a.carried_from > b.carried_from || (a.carried_from == b.carried_from && weight(a.priority) < weight(b.priority))
}

/// `x` put into a ranked list after everything it does not outrank.
pub open spec fn rank_insert(s: Seq<TaskView>, x: TaskView) -> Seq<TaskView>
    decreases s.len(),
{
    if s.len() == 0 {
        seq![x]
    } else if outranks(x, s[0]) {
        seq![x] + s
    } else {
        seq![s[0]] + rank_insert(s.drop_first(), x)
    }
}

/// The stable ranking of a list: ties keep their order.
pub open spec fn ranked(s: Seq<TaskView>) -> Seq<TaskView>
    decreases s.len(),
{
    if s.len() == 0 {
        Seq::empty()
    } else {
        rank_insert(ranked(s.drop_last()), s.last())
    }
}

/// At most the first five.
pub open spec fn top5(s: Seq<TaskView>) -> Seq<TaskView> {
    if s.len() <= 5 { s } else { s.take(5) }
}

/// The buckets of one week.
pub struct Buckets {
    /// Completed inside the week.
    pub week_done: Vec<Task>,
    /// Not done, whenever due.
    pub undone: Vec<Task>,
    /// Not done and due before the week.
    pub overdue: Vec<Task>,
    /// Not done and carried into the week.
    pub carry: Vec<Task>,
    /// Next week's candidates: the five most carried of those carried three
    /// days or more.
    pub candidates: Vec<Task>,
    /// Created inside the week.
    pub created: Vec<Task>,
}

/// The buckets as mathematical values.
pub struct BucketViews {
    pub week_done: Seq<TaskView>,
    pub undone: Seq<TaskView>,
    pub overdue: Seq<TaskView>,
    pub carry: Seq<TaskView>,
    pub candidates: Seq<TaskView>,
    pub created: Seq<TaskView>,
}

impl Buckets {
    pub open spec fn views(&self) -> BucketViews {
        BucketViews {
            week_done: task_views(self.week_done@),
            undone: task_views(self.undone@),
            overdue: task_views(self.overdue@),
            carry: task_views(self.carry@),
            candidates: task_views(self.candidates@),
            created: task_views(self.created@),
        }
    }
}

/// The buckets of `ts` for the week from `from` to `to` (both `YYYY-MM-DD`);
/// tasks in the trash count nowhere.
pub open spec fn bucket_views(ts: Seq<TaskView>, from: Seq<char>, to: Seq<char>) -> BucketViews {
    BucketViews {
        week_done: ts.filter(|t: TaskView| done_in_week(t, from, to)),
        undone: ts.filter(|t: TaskView| open_task(t)),
        overdue: ts.filter(|t: TaskView| overdue_before(t, from)),
        carry: ts.filter(|t: TaskView| carried_into(t, from, to)),
        candidates: top5(ranked(ts.filter(|t: TaskView| stale(t)))),
        created: ts.filter(|t: TaskView| created_in_week(t, from, to)),
    }
}

proof fn lemma_rank_insert_at(s: Seq<TaskView>, x: TaskView, p: int)
    requires
        0 <= p <= s.len(),
        forall|j: int| 0 <= j < p ==> !outranks(x, #[trigger] s[j]),
        p < s.len() ==> outranks(x, s[p]),
    ensures
        rank_insert(s, x) == s.take(p) + seq![x] + s.skip(p),
    decreases s.len(),
{
    if s.len() == 0 {
        assert(s.take(p) + seq![x] + s.skip(p) =~= seq![x]);
    } else if p == 0 {
        assert(s.take(p) + seq![x] + s.skip(p) =~= seq![x] + s);
    } else {
        let t = s.drop_first();
        assert forall|j: int| 0 <= j < p - 1 implies !outranks(x, #[trigger] t[j]) by {
            assert(t[j] == s[j + 1]);
        }
        if p - 1 < t.len() {
            assert(t[p - 1] == s[p]);
        }
        lemma_rank_insert_at(t, x, p - 1);
        assert(s.take(p) + seq![x] + s.skip(p) =~= seq![s[0]] + (t.take(p - 1) + seq![x] + t.skip(p - 1)));
    }
}

fn weight_of(p: &str) -> (w: u8)
    ensures
        w == weight(p@),
{
    if same_text(p, "high") {
        0
    } else if same_text(p, "med") {
        1
    } else {
        2
    }
}

/// Put a copy of `t` into the ranked list after everything it does not outrank.
fn insert_ranked(list: &mut Vec<Task>, t: &Task)
    ensures
        task_views(final(list)@) == rank_insert(task_views(old(list)@), t@),
{
    let ghost l0 = task_views(list@);
    let wt = weight_of(t.priority.as_str());
    let mut pos: usize = 0;
    let mut found = false;
    while pos < list.len() && !found
        invariant
            pos <= list@.len(),
            list@ == old(list)@,
            l0 == task_views(list@),
            wt == weight(t@.priority),
            found ==> pos < list@.len() && outranks(t@, l0[pos as int]),
            forall|j: int| 0 <= j < pos ==> !outranks(t@, #[trigger] l0[j]),
        decreases list@.len() - pos + (if found { 0int } else { 1int }),
    {
        let e = &list[pos];
        assert(l0[pos as int] == e@);
        let better = if t.carried_from != e.carried_from {
            t.carried_from > e.carried_from
        } else {
            wt < weight_of(e.priority.as_str())
        };
        if better {
            found = true;
        } else {
            pos = pos + 1;
        }
    }
    proof {
        lemma_rank_insert_at(l0, t@, pos as int);
    }
    list.insert(pos, t.duplicate());
    assert(task_views(list@) =~= l0.take(pos as int) + seq![t@] + l0.skip(pos as int));
}

/// Sort the tasks into the week's buckets (`monday` to `sunday`).
pub fn bucket(tasks: &[Task], monday: &Day, sunday: &Day) -> (b: Buckets)
    requires
        monday.valid(),
        sunday.valid(),
        forall|i: int| 0 <= i < tasks@.len() ==> export_safe(#[trigger] tasks@[i]@),
    ensures
        b.views() == bucket_views(task_views(tasks@), day_text(*monday), day_text(*sunday)),
{
    let from = fmt_day(monday);
    let to = fmt_day(sunday);
    let ghost f = from@;
    let ghost g = to@;
    let ghost ts = task_views(tasks@);
    let ghost p_done = |t: TaskView| done_in_week(t, f, g);
    let ghost p_created = |t: TaskView| created_in_week(t, f, g);
    let ghost p_open = |t: TaskView| open_task(t);
    let ghost p_over = |t: TaskView| overdue_before(t, f);
    let ghost p_carry = |t: TaskView| carried_into(t, f, g);
    let ghost p_stale = |t: TaskView| stale(t);
    let mut week_done: Vec<Task> = Vec::new();
    let mut undone: Vec<Task> = Vec::new();
    let mut overdue: Vec<Task> = Vec::new();
    let mut carry: Vec<Task> = Vec::new();
    let mut candidates: Vec<Task> = Vec::new();
    let mut created: Vec<Task> = Vec::new();
    let mut i: usize = 0;
    while i < tasks.len()
        invariant
            i <= tasks@.len(),
            ts == task_views(tasks@),
            f == from@,
            g == to@,
            forall|k: int| 0 <= k < tasks@.len() ==> export_safe(#[trigger] tasks@[k]@),
            p_done == (|t: TaskView| done_in_week(t, f, g)),
            p_created == (|t: TaskView| created_in_week(t, f, g)),
            p_open == (|t: TaskView| open_task(t)),
            p_over == (|t: TaskView| overdue_before(t, f)),
            p_carry == (|t: TaskView| carried_into(t, f, g)),
            p_stale == (|t: TaskView| stale(t)),
            task_views(week_done@) == ts.take(i as int).filter(p_done),
            task_views(created@) == ts.take(i as int).filter(p_created),
            task_views(undone@) == ts.take(i as int).filter(p_open),
            task_views(overdue@) == ts.take(i as int).filter(p_over),
            task_views(carry@) == ts.take(i as int).filter(p_carry),
            task_views(candidates@) == ranked(ts.take(i as int).filter(p_stale)),
        decreases tasks@.len() - i,
    {
        let t = &tasks[i];
        let ghost tv = t@;
        proof {
            assert(ts[i as int] == tv);
            assert(export_safe(tasks@[i as int]@));
            assert(ts.take(i + 1) =~= ts.take(i as int).push(tv));
            crate::store::lemma_filter_push(ts.take(i as int), p_done, tv);
            crate::store::lemma_filter_push(ts.take(i as int), p_created, tv);
            crate::store::lemma_filter_push(ts.take(i as int), p_open, tv);
            crate::store::lemma_filter_push(ts.take(i as int), p_over, tv);
            crate::store::lemma_filter_push(ts.take(i as int), p_carry, tv);
            crate::store::lemma_filter_push(ts.take(i as int), p_stale, tv);
            let sf = ts.take(i as int).filter(p_stale);
            assert(sf.push(tv).drop_last() =~= sf);
        }
        if !t.in_trash() {
            let done_here = t.done && match &t.done_at {
                Some(d) => in_range(d.as_str(), from.as_str(), to.as_str()),
                None => false,
            };
            if done_here {
                let ghost prior = week_done@;
                week_done.push(t.duplicate());
                assert(task_views(week_done@) =~= task_views(prior).push(tv));
            }
            if in_range(t.created_at.as_str(), from.as_str(), to.as_str()) {
                let ghost prior = created@;
                created.push(t.duplicate());
                assert(task_views(created@) =~= task_views(prior).push(tv));
            }
            if !t.done {
                let ghost prior = undone@;
                undone.push(t.duplicate());
                assert(task_views(undone@) =~= task_views(prior).push(tv));
                let over = match &t.due_at {
                    Some(d) => before(d.as_str(), from.as_str()),
                    None => false,
                };
                if over {
                    let ghost prior = overdue@;
                    overdue.push(t.duplicate());
                    assert(task_views(overdue@) =~= task_views(prior).push(tv));
                }
                let due_in = match &t.due_at {
                    Some(d) => in_range(d.as_str(), from.as_str(), to.as_str()),
                    None => false,
                };
                if t.carried_from >= 1 || opt_starts_with(&t.planned_date, from.as_str()) || due_in {
                    let ghost prior = carry@;
                    carry.push(t.duplicate());
                    assert(task_views(carry@) =~= task_views(prior).push(tv));
                }
                if t.carried_from >= 3 {
                    insert_ranked(&mut candidates, t);
                }
            }
        }
        i = i + 1;
    }
    proof {
        assert(ts.take(tasks@.len() as int) =~= ts);
    }
    let ghost all = task_views(candidates@);
    candidates.truncate(5);
    assert(task_views(candidates@) =~= top5(all));
    let b = Buckets { week_done, undone, overdue, carry, candidates, created };
    proof {
        assert(p_done =~= (|t: TaskView| done_in_week(t, day_text(*monday), day_text(*sunday))));
        assert(p_created =~= (|t: TaskView| created_in_week(t, day_text(*monday), day_text(*sunday))));
        assert(p_over =~= (|t: TaskView| overdue_before(t, day_text(*monday))));
        assert(p_carry =~= (|t: TaskView| carried_into(t, day_text(*monday), day_text(*sunday))));
    }
    b
}


// ---------------------------------------------------------------- cells and lines

/// Tasks of `ts` in the category `name`.
pub open spec fn in_category(ts: Seq<TaskView>, name: Seq<char>) -> nat {
    ts.filter(|t: TaskView| t.category == name).len()
}

/// `共 N 条：工作 a 条 · 学习 b 条 · 生活 c 条` over the week's completions.
pub open spec fn category_line_spec(wd: Seq<TaskView>) -> Seq<char> {
    "共 "@ + dec_seq(wd.len()) + " 条："@ + "工作"@ + " "@ + dec_seq(in_category(wd, "工作"@)) + " 条"@ + " · "@
        + "学习"@ + " "@ + dec_seq(in_category(wd, "学习"@)) + " 条"@ + " · "@ + "生活"@ + " "@ + dec_seq(
        in_category(wd, "生活"@),
    ) + " 条"@
}

fn push(text: &mut String, s: &str)
    ensures
        final(text)@ == old(text)@ + s@,
{
    text.append(s);
}

fn push_num(text: &mut String, n: u64)
    ensures
        final(text)@ == old(text)@ + dec_seq(n as nat),
{
    let d = decimal(n);
    text.append(d.as_str());
}

/// Count of the week's completions by category, in the fixed order 工作, 学习, 生活.
fn category_line(week_done: &Vec<Task>) -> (r: String)
    ensures
        r@ == category_line_spec(task_views(week_done@)),
{
    let ghost wd = task_views(week_done@);
    let ghost p1 = |t: TaskView| t.category == "工作"@;
    let ghost p2 = |t: TaskView| t.category == "学习"@;
    let ghost p3 = |t: TaskView| t.category == "生活"@;
    let mut c1: u64 = 0;
    let mut c2: u64 = 0;
    let mut c3: u64 = 0;
    let mut i: usize = 0;
    while i < week_done.len()
        invariant
            i <= week_done@.len(),
            wd == task_views(week_done@),
            p1 == (|t: TaskView| t.category == "工作"@),
            p2 == (|t: TaskView| t.category == "学习"@),
            p3 == (|t: TaskView| t.category == "生活"@),
            c1 == wd.take(i as int).filter(p1).len(),
            c2 == wd.take(i as int).filter(p2).len(),
            c3 == wd.take(i as int).filter(p3).len(),
            c1 <= i && c2 <= i && c3 <= i,
        decreases week_done@.len() - i,
    {
        let t = &week_done[i];
        proof {
            assert(wd[i as int] == t@);
            assert(wd.take(i + 1) =~= wd.take(i as int).push(t@));
            crate::store::lemma_filter_push(wd.take(i as int), p1, t@);
            crate::store::lemma_filter_push(wd.take(i as int), p2, t@);
            crate::store::lemma_filter_push(wd.take(i as int), p3, t@);
            reveal_strlit("工作");
            reveal_strlit("学习");
            reveal_strlit("生活");
            assert("工作"@[0] != "学习"@[0] && "工作"@[0] != "生活"@[0] && "学习"@[0] != "生活"@[0]);
        }
        if same_text(t.category.as_str(), "工作") {
            c1 = c1 + 1;
        } else if same_text(t.category.as_str(), "学习") {
            c2 = c2 + 1;
        } else if same_text(t.category.as_str(), "生活") {
            c3 = c3 + 1;
        }
        i = i + 1;
    }
    proof {
        assert(wd.take(week_done@.len() as int) =~= wd);
    }
    let mut r = String::new();
    push(&mut r, "共 ");
    push_num(&mut r, week_done.len() as u64);
    push(&mut r, " 条：");
    push(&mut r, "工作");
    push(&mut r, " ");
    push_num(&mut r, c1);
    push(&mut r, " 条");
    push(&mut r, " · ");
    push(&mut r, "学习");
    push(&mut r, " ");
    push_num(&mut r, c2);
    push(&mut r, " 条");
    push(&mut r, " · ");
    push(&mut r, "生活");
    push(&mut r, " ");
    push_num(&mut r, c3);
    push(&mut r, " 条");
    proof {
        assert(p1 =~= (|t: TaskView| t.category == "工作"@));
    }
    r
}

/// The title as a cell: marked when its completion time was never recorded,
/// or with the days carried while still open.
pub open spec fn title_cell_spec(t: TaskView) -> Seq<char> {
    if t.legacy {
        t.title + "（完成时刻未记录）"@
    } else if t.carried_from >= 1 && !t.done {
        t.title + "（拖 "@ + dec_seq(t.carried_from as nat) + " 天）"@
    } else {
        t.title
    }
}

fn title_cell(t: &Task) -> (r: String)
    ensures
        r@ == title_cell_spec(t@),
{
    if t.legacy {
        concat(t.title.as_str(), "（完成时刻未记录）")
    } else if t.carried_from >= 1 && !t.done {
        let mut r = t.title.clone();
        push(&mut r, "（拖 ");
        push_num(&mut r, t.carried_from as u64);
        push(&mut r, " 天）");
        r
    } else {
        t.title.clone()
    }
}

/// A stamp as a cell: `—` when absent; the date and the clock split by a
/// space when longer than a date.
pub open spec fn time_cell_spec(o: Option<Seq<char>>) -> Seq<char> {
    match o {
        None => "—"@,
        Some(v) => if v.len() > 10 {
            v.take(10) + " "@ + v.skip(11)
        } else {
            v
        },
    }
}

fn time_cell(o: &Option<String>) -> (r: String)
    ensures
        r@ == time_cell_spec(opt_view(*o)),
{
    match o {
        None => owned("—"),
        Some(v) => {
            let cs = chars_of(v.as_str());
            if cs.len() > 10 {
                let mut r = string_of_range(&cs, 0, 10);
                push(&mut r, " ");
                let tail = string_of_range(&cs, 11, cs.len());
                push(&mut r, tail.as_str());
                assert(v@.take(10) =~= v@.subrange(0, 10));
                r
            } else {
                v.clone()
            }
        },
    }
}

/// The lines `f` writes for each of `ts`, in order.
pub open spec fn lines(ts: Seq<TaskView>, f: spec_fn(TaskView) -> Seq<char>) -> Seq<char>
    decreases ts.len(),
{
    if ts.len() == 0 {
        Seq::empty()
    } else {
        lines(ts.drop_last(), f) + f(ts.last())
    }
}

proof fn lemma_lines_push(s: Seq<TaskView>, f: spec_fn(TaskView) -> Seq<char>, x: TaskView)
    ensures
        lines(s.push(x), f) == lines(s, f) + f(x),
{
    assert(s.push(x).drop_last() =~= s);
}

proof fn lemma_filtered_lines_push(
    s: Seq<TaskView>,
    p: spec_fn(TaskView) -> bool,
    f: spec_fn(TaskView) -> Seq<char>,
    x: TaskView,
)
    ensures
        lines(s.push(x).filter(p), f) == (if p(x) { lines(s.filter(p), f) + f(x) } else { lines(s.filter(p), f) }),
        s.push(x).filter(p).len() == s.filter(p).len() + (if p(x) { 1int } else { 0int }),
{
    crate::store::lemma_filter_push(s, p, x);
    lemma_lines_push(s.filter(p), f, x);
}

/// `- [ ] title（category · priority）`
pub open spec fn candidate_line(t: TaskView) -> Seq<char> {
    "- [ ] "@ + t.title + "（"@ + t.category + " · "@ + t.priority + "）\n"@
}

/// `- ✅ 完成 title · 时刻 time`
pub open spec fn done_line(t: TaskView) -> Seq<char> {
    "- ✅ 完成 "@ + title_cell_spec(t) + " · 时刻 "@ + time_cell_spec(t.done_at) + "\n"@
}

/// `- ✚ 记下 title`
pub open spec fn created_line(t: TaskView) -> Seq<char> {
    "- ✚ 记下 "@ + t.title + "\n"@
}

/// `- ⏳ 到期未完成 title（priority · 拖 n 天）`
pub open spec fn due_line(t: TaskView) -> Seq<char> {
    "- ⏳ 到期未完成 "@ + t.title + "（"@ + t.priority + " · 拖 "@ + dec_seq(t.carried_from as nat) + " 天）\n"@
}

/// `- title · category · time` in the week's completion list.
pub open spec fn detail_line(t: TaskView) -> Seq<char> {
    "- "@ + title_cell_spec(t) + " · "@ + t.category + " · "@ + time_cell_spec(t.done_at) + "\n"@
}

fn candidate_line_of(t: &Task) -> (r: String)
    ensures
        r@ == candidate_line(t@),
{
    let mut r = owned("- [ ] ");
    push(&mut r, t.title.as_str());
    push(&mut r, "（");
    push(&mut r, t.category.as_str());
    push(&mut r, " · ");
    push(&mut r, t.priority.as_str());
    push(&mut r, "）\n");
    r
}

fn done_line_of(t: &Task) -> (r: String)
    ensures
        r@ == done_line(t@),
{
    let mut r = owned("- ✅ 完成 ");
    let a = title_cell(t);
    push(&mut r, a.as_str());
    push(&mut r, " · 时刻 ");
    let b = time_cell(&t.done_at);
    push(&mut r, b.as_str());
    push(&mut r, "\n");
    r
}

fn created_line_of(t: &Task) -> (r: String)
    ensures
        r@ == created_line(t@),
{
    let mut r = owned("- ✚ 记下 ");
    push(&mut r, t.title.as_str());
    push(&mut r, "\n");
    r
}

fn due_line_of(t: &Task) -> (r: String)
    ensures
        r@ == due_line(t@),
{
    let mut r = owned("- ⏳ 到期未完成 ");
    push(&mut r, t.title.as_str());
    push(&mut r, "（");
    push(&mut r, t.priority.as_str());
    push(&mut r, " · 拖 ");
    push_num(&mut r, t.carried_from as u64);
    push(&mut r, " 天）\n");
    r
}

fn detail_line_of(t: &Task) -> (r: String)
    ensures
        r@ == detail_line(t@),
{
    let mut r = owned("- ");
    let a = title_cell(t);
    push(&mut r, a.as_str());
    push(&mut r, " · ");
    push(&mut r, t.category.as_str());
    push(&mut r, " · ");
    let b = time_cell(&t.done_at);
    push(&mut r, b.as_str());
    push(&mut r, "\n");
    r
}


// ---------------------------------------------------------------- the Markdown summary

/// The `k`-th day of the week from `monday`, stepping one day at a time.
pub open spec fn week_day(monday: Day, k: nat) -> Option<Day>
    decreases k,
{
    if k == 0 {
        Some(monday)
    } else {
        match week_day(monday, (k - 1) as nat) {
            Some(d) => chrono_add_days(d, 1),
            None => None,
        }
    }
}

/// Each day of the week from `monday` can be reached.
pub open spec fn week_days_ok(monday: Day) -> bool {
    forall|k: nat| k < 7 ==> (#[trigger] week_day(monday, k)) is Some
}

pub open spec fn weekday_label(k: int) -> Seq<char> {
    if k == 0 {
        "周一"@
    } else if k == 1 {
        "周二"@
    } else if k == 2 {
        "周三"@
    } else if k == 3 {
        "周四"@
    } else if k == 4 {
        "周五"@
    } else if k == 5 {
        "周六"@
    } else {
        "周日"@
    }
}

fn weekday_label_of(k: usize) -> (r: &'static str)
    ensures
        r@ == weekday_label(k as int),
{
    if k == 0 {
        "周一"
    } else if k == 1 {
        "周二"
    } else if k == 2 {
        "周三"
    } else if k == 3 {
        "周四"
    } else if k == 4 {
        "周五"
    } else if k == 5 {
        "周六"
    } else {
        "周日"
    }
}

/// Which tasks a day lists (0: completed that day, 1: created that day, 2:
/// due that day).
pub open spec fn day_pred(kind: int, key: Seq<char>) -> spec_fn(TaskView) -> bool {
    if kind == 0 {
        |t: TaskView| opt_starts(t.done_at, key)
    } else if kind == 1 {
        |t: TaskView| occurs_at(t.created_at, key, 0)
    } else {
        |t: TaskView| opt_starts(t.due_at, key)
    }
}

/// The line a day writes for a task of each kind.
pub open spec fn day_line(kind: int) -> spec_fn(TaskView) -> Seq<char> {
    if kind == 0 {
        |t: TaskView| done_line(t)
    } else if kind == 1 {
        |t: TaskView| created_line(t)
    } else {
        |t: TaskView| due_line(t)
    }
}

/// Lines of one kind for the day `key`, and how many there are.
fn day_lines(ts: &Vec<Task>, key: &str, kind: u8) -> (r: (String, usize))
    requires
        kind <= 2,
    ensures
        r.0@ == lines(task_views(ts@).filter(day_pred(kind as int, key@)), day_line(kind as int)),
        r.1 == task_views(ts@).filter(day_pred(kind as int, key@)).len(),
{
    let ghost all = task_views(ts@);
    let ghost p = day_pred(kind as int, key@);
    let ghost f = day_line(kind as int);
    let mut text = String::new();
    let mut n: usize = 0;
    let mut i: usize = 0;
    while i < ts.len()
        invariant
            i <= ts@.len(),
            all == task_views(ts@),
            p == day_pred(kind as int, key@),
            f == day_line(kind as int),
            kind <= 2,
            text@ == lines(all.take(i as int).filter(p), f),
            n == all.take(i as int).filter(p).len(),
            n <= i,
        decreases ts@.len() - i,
    {
        let t = &ts[i];
        proof {
            assert(all[i as int] == t@);
            assert(all.take(i + 1) =~= all.take(i as int).push(t@));
            lemma_filtered_lines_push(all.take(i as int), p, f, t@);
        }
        let hit = if kind == 0 {
            opt_starts_with(&t.done_at, key)
        } else if kind == 1 {
            starts_with(t.created_at.as_str(), key)
        } else {
            opt_starts_with(&t.due_at, key)
        };
        if hit {
            let line = if kind == 0 {
                done_line_of(t)
            } else if kind == 1 {
                created_line_of(t)
            } else {
                due_line_of(t)
            };
            push(&mut text, line.as_str());
            n = n + 1;
        }
        i = i + 1;
    }
    proof {
        assert(all.take(ts@.len() as int) =~= all);
    }
    (text, n)
}

/// One day of the day-by-day part: its heading, then what was completed,
/// created and due that day, or a line saying there is nothing.
pub open spec fn day_section(b: BucketViews, key: Seq<char>, k: int) -> Seq<char> {
    let d = b.week_done.filter(day_pred(0, key));
    let c = b.created.filter(day_pred(1, key));
    let u = b.undone.filter(day_pred(2, key));
    "### "@ + key + " "@ + weekday_label(k) + "\n\n"@ + if d.len() == 0 && c.len() == 0 && u.len() == 0 {
        "- 无记录\n\n"@
    } else {
        lines(d, day_line(0)) + lines(c, day_line(1)) + lines(u, day_line(2)) + "\n"@
    }
}

/// The first `n` days of the day-by-day part.
pub open spec fn day_sections(b: BucketViews, monday: Day, n: nat) -> Seq<char>
    decreases n,
{
    if n == 0 {
        Seq::empty()
    } else {
        day_sections(b, monday, (n - 1) as nat) + match week_day(monday, (n - 1) as nat) {
            Some(d) => day_section(b, day_text(d), n - 1),
            None => Seq::empty(),
        }
    }
}

/// The head of the summary: title, range, the bucket counts, the category
/// line and next week's candidates.
pub open spec fn md_head(b: BucketViews, label: Seq<char>, monday: Day, sunday: Day) -> Seq<char> {
    let wd = b.week_done;
    let cand = b.candidates;
    "# 本周汇总 · "@ + label + "\n\n"@ + "区间："@ + day_text(monday) + "（周一）～ "@ + day_text(sunday)
        + "（周日）\n\n"@ + "## 三桶概览\n\n"@ + "- 本周完成："@ + dec_seq(b.week_done.len()) + " 条\n"@
        + "- 顺延未完成："@ + dec_seq(b.carry.len()) + " 条\n"@ + "- 已逾期："@ + dec_seq(b.overdue.len())
        + " 条\n"@ + "- 新建："@ + dec_seq(b.created.len()) + " 条\n\n"@ + "分类分布（完成口径）："@
        + category_line_spec(wd) + "\n\n"@ + "## 下周候选（拖留 ≥3 天 Top5）\n\n"@ + (if cand.len() == 0 {
        "- 没有拖留三天以上的存量\n\n"@
    } else {
        lines(cand, |t: TaskView| candidate_line(t)) + "\n"@
    })
}

/// The tail of the summary: the week's completions, then the footer.
pub open spec fn md_tail(b: BucketViews) -> Seq<char> {
    let wd = b.week_done;
    "## 本周完成明细\n\n"@ + (if wd.len() == 0 {
        "本周没有完成记录——不算失败，下周接着来。\n"@
    } else {
        lines(wd, |t: TaskView| detail_line(t))
    }) + "\n> 由「待办列表」本地导出，不含任何网络上报。\n"@
}

/// The whole Markdown summary.
pub open spec fn md_text(b: BucketViews, label: Seq<char>, monday: Day, sunday: Day) -> Seq<char> {
    md_head(b, label, monday, sunday) + "## 按日明细\n\n"@ + day_sections(b, monday, 7) + md_tail(b)
}

fn md_head_text(b: &Buckets, label: &str, monday: &Day, sunday: &Day) -> (r: String)
    requires
        monday.valid(),
        sunday.valid(),
    ensures
        r@ == md_head(b.views(), label@, *monday, *sunday),
{
    let mut t = String::new();
    push(&mut t, "# 本周汇总 · ");
    push(&mut t, label);
    push(&mut t, "\n\n");
    push(&mut t, "区间：");
    let m = fmt_day(monday);
    push(&mut t, m.as_str());
    push(&mut t, "（周一）～ ");
    let s = fmt_day(sunday);
    push(&mut t, s.as_str());
    push(&mut t, "（周日）\n\n");
    push(&mut t, "## 三桶概览\n\n");
    push(&mut t, "- 本周完成：");
    push_num(&mut t, b.week_done.len() as u64);
    push(&mut t, " 条\n");
    push(&mut t, "- 顺延未完成：");
    push_num(&mut t, b.carry.len() as u64);
    push(&mut t, " 条\n");
    push(&mut t, "- 已逾期：");
    push_num(&mut t, b.overdue.len() as u64);
    push(&mut t, " 条\n");
    push(&mut t, "- 新建：");
    push_num(&mut t, b.created.len() as u64);
    push(&mut t, " 条\n\n");
    push(&mut t, "分类分布（完成口径）：");
    let c = category_line(&b.week_done);
    push(&mut t, c.as_str());
    push(&mut t, "\n\n");
    push(&mut t, "## 下周候选（拖留 ≥3 天 Top5）\n\n");
    let ghost head = t@;
    if b.candidates.len() == 0 {
        push(&mut t, "- 没有拖留三天以上的存量\n\n");
    } else {
        let ghost cand = task_views(b.candidates@);
        let ghost f = |x: TaskView| candidate_line(x);
        let mut i: usize = 0;
        while i < b.candidates.len()
            invariant
                i <= b.candidates@.len(),
                cand == task_views(b.candidates@),
                f == (|x: TaskView| candidate_line(x)),
                t@ == head + lines(cand.take(i as int), f),
            decreases b.candidates@.len() - i,
        {
            let line = candidate_line_of(&b.candidates[i]);
            proof {
                assert(cand[i as int] == b.candidates@[i as int]@);
                assert(cand.take(i + 1) =~= cand.take(i as int).push(cand[i as int]));
                lemma_lines_push(cand.take(i as int), f, cand[i as int]);
            }
            push(&mut t, line.as_str());
            i = i + 1;
        }
        assert(cand.take(b.candidates@.len() as int) =~= cand);
        push(&mut t, "\n");
    }
    t
}

fn md_tail_text(b: &Buckets) -> (r: String)
    ensures
        r@ == md_tail(b.views()),
{
    let mut t = owned("## 本周完成明细\n\n");
    let ghost head = t@;
    if b.week_done.len() == 0 {
        push(&mut t, "本周没有完成记录——不算失败，下周接着来。\n");
    } else {
        let ghost wd = task_views(b.week_done@);
        let ghost f = |x: TaskView| detail_line(x);
        let mut i: usize = 0;
        while i < b.week_done.len()
            invariant
                i <= b.week_done@.len(),
                wd == task_views(b.week_done@),
                f == (|x: TaskView| detail_line(x)),
                t@ == head + lines(wd.take(i as int), f),
            decreases b.week_done@.len() - i,
        {
            let line = detail_line_of(&b.week_done[i]);
            proof {
                assert(wd[i as int] == b.week_done@[i as int]@);
                assert(wd.take(i + 1) =~= wd.take(i as int).push(wd[i as int]));
                lemma_lines_push(wd.take(i as int), f, wd[i as int]);
            }
            push(&mut t, line.as_str());
            i = i + 1;
        }
        assert(wd.take(b.week_done@.len() as int) =~= wd);
    }
    push(&mut t, "\n> 由「待办列表」本地导出，不含任何网络上报。\n");
    t
}

fn day_section_text(b: &Buckets, key: &str, k: usize) -> (r: String)
    ensures
        r@ == day_section(b.views(), key@, k as int),
{
    let (d, nd) = day_lines(&b.week_done, key, 0);
    let (c, nc) = day_lines(&b.created, key, 1);
    let (u, nu) = day_lines(&b.undone, key, 2);
    let mut t = owned("### ");
    push(&mut t, key);
    push(&mut t, " ");
    push(&mut t, weekday_label_of(k));
    push(&mut t, "\n\n");
    if nd == 0 && nc == 0 && nu == 0 {
        push(&mut t, "- 无记录\n\n");
    } else {
        push(&mut t, d.as_str());
        push(&mut t, c.as_str());
        push(&mut t, u.as_str());
        push(&mut t, "\n");
    }
    t
}

/// The bytes of a text in UTF-8.
fn utf8_bytes(s: &str) -> (r: Vec<u8>)
    ensures
        r@ == vstd::utf8::encode_utf8(s@),
{
    let b = s.as_bytes();
    let mut r: Vec<u8> = Vec::new();
    let mut i: usize = 0;
    while i < b.len()
        invariant
            i <= b@.len(),
            b@ == s.spec_bytes(),
            r@ == b@.take(i as int),
        decreases b@.len() - i,
    {
        r.push(b[i]);
        i = i + 1;
        assert(r@ =~= b@.take(i as int));
    }
    assert(b@.take(b@.len() as int) =~= b@);
    r
}

/// The Markdown summary of the week from `monday` to `sunday`, as UTF-8 bytes.
fn md_bytes(b: &Buckets, label: &str, monday: &Day, sunday: &Day) -> (r: Vec<u8>)
    requires
        monday.valid(),
        sunday.valid(),
        week_days_ok(*monday),
    ensures
        r@ == vstd::utf8::encode_utf8(md_text(b.views(), label@, *monday, *sunday)),
{
    let mut text = md_head_text(b, label, monday, sunday);
    push(&mut text, "## 按日明细\n\n");
    let ghost head = text@;
    let mut day = *monday;
    let mut index: usize = 0;
    while index < 7
        invariant
            index <= 7,
            week_days_ok(*monday),
            index < 7 ==> week_day(*monday, index as nat) == Some(day) && day.valid(),
            text@ == head + day_sections(b.views(), *monday, index as nat),
        decreases 7 - index,
    {
        let key = fmt_day(&day);
        let section = day_section_text(b, key.as_str(), index);
        push(&mut text, section.as_str());
        proof {
            assert(day_sections(b.views(), *monday, (index + 1) as nat) == day_sections(b.views(), *monday, index as nat)
                + day_section(b.views(), day_text(day), index as int));
        }
        if index < 6 {
            proof {
                assert(week_day(*monday, (index + 1) as nat) is Some);
            }
            day = match add_days(&day, 1) {
                Some(next) => next,
                None => {
                    proof {
                        assert(false);
                    }
                    day
                },
            };
        }
        index = index + 1;
    }
    let tail = md_tail_text(b);
    push(&mut text, tail.as_str());
    utf8_bytes(text.as_str())
}


// ---------------------------------------------------------------- the CSV table

/// `s` with each `"` doubled.
pub open spec fn quotes_doubled(s: Seq<char>) -> Seq<char>
    decreases s.len(),
{
    if s.len() == 0 {
        Seq::empty()
    } else {
        quotes_doubled(s.drop_last()) + if s.last() == '"' {
            seq!['"', '"']
        } else {
            seq![s.last()]
        }
    }
}

/// A CSV cell: quotes doubled, and the whole in quotes when it holds a comma,
/// a quote or a line break.
pub open spec fn csv_cell(c: Seq<char>) -> Seq<char> {
    let e = quotes_doubled(c);
    if contains_seq(e, seq![',']) || contains_seq(e, seq!['"']) || contains_seq(e, seq!['\n']) {
        seq!['"'] + e + seq!['"']
    } else {
        e
    }
}

/// The parts of `s` with `sep` between each two.
pub open spec fn joined(s: Seq<Seq<char>>, sep: Seq<char>) -> Seq<char>
    decreases s.len(),
{
    if s.len() == 0 {
        Seq::empty()
    } else if s.len() == 1 {
        s[0]
    } else {
        joined(s.drop_last(), sep) + sep + s.last()
    }
}

/// One CSV line.
pub open spec fn row_text(cells: Seq<Seq<char>>) -> Seq<char> {
    joined(cells.map_values(|c: Seq<char>| csv_cell(c)), seq![',']) + seq!['\n']
}

fn doubled_quotes(c: &str) -> (r: String)
    ensures
        r@ == quotes_doubled(c@),
{
    let cs = chars_of(c);
    let mut r = String::new();
    let mut i: usize = 0;
    while i < cs.len()
        invariant
            i <= cs@.len(),
            cs@ == c@,
            r@ == quotes_doubled(c@.take(i as int)),
        decreases cs@.len() - i,
    {
        proof {
            assert(c@.take(i + 1).drop_last() =~= c@.take(i as int));
            assert(c@.take(i + 1).last() == cs@[i as int]);
        }
        if cs[i] == '"' {
            crate::text::push_char(&mut r, '"');
            crate::text::push_char(&mut r, '"');
        } else {
            crate::text::push_char(&mut r, cs[i]);
        }
        i = i + 1;
    }
    assert(c@.take(cs@.len() as int) =~= c@);
    r
}

fn csv_cell_of(c: &str) -> (r: String)
    ensures
        r@ == csv_cell(c@),
{
    let e = doubled_quotes(c);
    proof {
        reveal_strlit(",");
        reveal_strlit("\"");
        reveal_strlit("\n");
        assert(","@ =~= seq![',']);
        assert("\""@ =~= seq!['"']);
        assert("\n"@ =~= seq!['\n']);
    }
    if contains(e.as_str(), ",") || contains(e.as_str(), "\"") || contains(e.as_str(), "\n") {
        let mut r = owned("\"");
        push(&mut r, e.as_str());
        push(&mut r, "\"");
        r
    } else {
        e
    }
}

/// Append one CSV line, cells separated by commas, as UTF-8 bytes.
fn write_row(out: &mut Vec<u8>, cells: &Vec<String>)
    ensures
        final(out)@ == old(out)@ + vstd::utf8::encode_utf8(row_text(cells@.map_values(|c: String| c@))),
{
    let ghost cv = cells@.map_values(|c: String| c@);
    let ghost f = |c: Seq<char>| csv_cell(c);
    let mut line = String::new();
    let mut i: usize = 0;
    while i < cells.len()
        invariant
            i <= cells@.len(),
            cv == cells@.map_values(|c: String| c@),
            f == (|c: Seq<char>| csv_cell(c)),
            line@ == joined(cv.take(i as int).map_values(f), seq![',']),
        decreases cells@.len() - i,
    {
        let cell = csv_cell_of(cells[i].as_str());
        proof {
            assert(cv[i as int] == cells@[i as int]@);
            assert(cv.take(i + 1).map_values(f) =~= cv.take(i as int).map_values(f).push(cell@));
            assert(cv.take(i + 1).map_values(f).drop_last() =~= cv.take(i as int).map_values(f));
        }
        if i > 0 {
            crate::text::push_char(&mut line, ',');
        }
        push(&mut line, cell.as_str());
        proof {
            if i == 0 {
                assert(cv.take(1).map_values(f) =~= seq![cell@]);
            }
        }
        i = i + 1;
    }
    assert(cv.take(cells@.len() as int) =~= cv);
    crate::text::push_char(&mut line, '\n');
    assert(line@ =~= row_text(cv));
    let mut bytes = utf8_bytes(line.as_str());
    out.append(&mut bytes);
}

pub open spec fn or_empty(o: Option<Seq<char>>) -> Seq<char> {
    match o {
        Some(v) => v,
        None => Seq::empty(),
    }
}

/// A subtask in the subtask cell: `√` in front when done.
pub open spec fn subtask_text(s: crate::models::SubtaskView) -> Seq<char> {
    if s.done { "√"@ + s.title } else { s.title }
}

pub open spec fn source_spec(s: Source) -> Seq<char> {
    match s {
        Source::Capture => "capture"@,
        Source::Manual => "manual"@,
        Source::Seed => "seed"@,
    }
}

fn source_text(s: Source) -> (r: &'static str)
    ensures
        r@ == source_spec(s),
{
    match s {
        Source::Capture => "capture",
        Source::Manual => "manual",
        Source::Seed => "seed",
    }
}

/// The heading line's cells.
pub open spec fn csv_head() -> Seq<Seq<char>> {
    seq![
        "ISO周"@, "标题"@, "分类"@, "优先级"@, "截止"@, "提醒"@, "计划日"@, "拖留天数"@, "状态"@, "完成时刻"@,
        "子任务"@, "进度"@, "备注数"@, "旧数据"@, "来源"@, "创建时间"@, "更新时间"@,
    ]
}

/// The cells of one task under the week label `label`.
pub open spec fn task_cells(t: TaskView, label: Seq<char>) -> Seq<Seq<char>> {
    let done_subs = t.subtasks.filter(|x: crate::models::SubtaskView| x.done).len();
    seq![
        label,
        t.title,
        t.category,
        t.priority,
        or_empty(t.due_at),
        or_empty(t.remind_at),
        or_empty(t.planned_date),
        dec_seq(t.carried_from as nat),
        if t.done { "已完成"@ } else { "未完成"@ },
        or_empty(t.done_at),
        joined(t.subtasks.map_values(|x: crate::models::SubtaskView| subtask_text(x)), " / "@),
        dec_seq(done_subs) + "/"@ + dec_seq(t.subtasks.len()),
        dec_seq(t.notes.len()),
        if t.legacy { "是"@ } else { "否"@ },
        source_spec(t.source),
        t.created_at,
        t.updated_at,
    ]
}

/// The lines of the tasks not in the trash.
pub open spec fn task_rows(ts: Seq<TaskView>, label: Seq<char>) -> Seq<char>
    decreases ts.len(),
{
    if ts.len() == 0 {
        Seq::empty()
    } else {
        task_rows(ts.drop_last(), label) + if alive(ts.last()) {
            row_text(task_cells(ts.last(), label))
        } else {
            Seq::empty()
        }
    }
}

/// The whole table as text (after the byte-order mark).
pub open spec fn csv_text(ts: Seq<TaskView>, label: Seq<char>) -> Seq<char> {
    row_text(csv_head()) + task_rows(ts, label)
}

fn opt_or_empty(o: &Option<String>) -> (r: String)
    ensures
        r@ == or_empty(opt_view(*o)),
{
    match o {
        Some(v) => v.clone(),
        None => String::new(),
    }
}

fn subtasks_cell(t: &Task) -> (r: (String, u64))
    ensures
        r.0@ == joined(t@.subtasks.map_values(|x: crate::models::SubtaskView| subtask_text(x)), " / "@),
        r.1 == t@.subtasks.filter(|x: crate::models::SubtaskView| x.done).len(),
{
    let ghost sv = t@.subtasks;
    let ghost f = |x: crate::models::SubtaskView| subtask_text(x);
    let ghost p = |x: crate::models::SubtaskView| x.done;
    let mut text = String::new();
    let mut n: u64 = 0;
    let mut i: usize = 0;
    while i < t.subtasks.len()
        invariant
            i <= t.subtasks@.len(),
            sv == t@.subtasks,
            sv.len() == t.subtasks@.len(),
            f == (|x: crate::models::SubtaskView| subtask_text(x)),
            p == (|x: crate::models::SubtaskView| x.done),
            text@ == joined(sv.take(i as int).map_values(f), " / "@),
            n == sv.take(i as int).filter(p).len(),
            n <= i,
        decreases t.subtasks@.len() - i,
    {
        let s = &t.subtasks[i];
        let ghost sx = sv[i as int];
        assert(sx == s@);
        let part = if s.done {
            concat("√", s.title.as_str())
        } else {
            s.title.clone()
        };
        proof {
            assert(sv.take(i + 1).map_values(f) =~= sv.take(i as int).map_values(f).push(part@));
            assert(sv.take(i + 1).map_values(f).drop_last() =~= sv.take(i as int).map_values(f));
            assert(sv.take(i + 1) =~= sv.take(i as int).push(sx));
            crate::store::lemma_filter_push(sv.take(i as int), p, sx);
            if i == 0 {
                assert(sv.take(1).map_values(f) =~= seq![part@]);
            }
        }
        if i > 0 {
            push(&mut text, " / ");
        }
        push(&mut text, part.as_str());
        if s.done {
            n = n + 1;
        }
        i = i + 1;
    }
    assert(sv.take(t.subtasks@.len() as int) =~= sv);
    (text, n)
}

fn task_cells_of(t: &Task, label: &str) -> (r: Vec<String>)
    ensures
        r@.map_values(|c: String| c@) == task_cells(t@, label@),
{
    let (subs, done_subs) = subtasks_cell(t);
    let mut progress = decimal(done_subs);
    push(&mut progress, "/");
    push_num(&mut progress, t.subtasks.len() as u64);
    let mut cells: Vec<String> = Vec::new();
    cells.push(owned(label));
    cells.push(t.title.clone());
    cells.push(t.category.clone());
    cells.push(t.priority.clone());
    cells.push(opt_or_empty(&t.due_at));
    cells.push(opt_or_empty(&t.remind_at));
    cells.push(opt_or_empty(&t.planned_date));
    cells.push(decimal(t.carried_from as u64));
    cells.push(if t.done { owned("已完成") } else { owned("未完成") });
    cells.push(opt_or_empty(&t.done_at));
    cells.push(subs);
    cells.push(progress);
    cells.push(decimal(t.notes.len() as u64));
    cells.push(if t.legacy { owned("是") } else { owned("否") });
    cells.push(owned(source_text(t.source)));
    cells.push(t.created_at.clone());
    cells.push(t.updated_at.clone());
    assert(cells@.map_values(|c: String| c@) =~= task_cells(t@, label@));
    cells
}

fn head_cells() -> (r: Vec<String>)
    ensures
        r@.map_values(|c: String| c@) == csv_head(),
{
    let mut cells: Vec<String> = Vec::new();
    cells.push(owned("ISO周"));
    cells.push(owned("标题"));
    cells.push(owned("分类"));
    cells.push(owned("优先级"));
    cells.push(owned("截止"));
    cells.push(owned("提醒"));
    cells.push(owned("计划日"));
    cells.push(owned("拖留天数"));
    cells.push(owned("状态"));
    cells.push(owned("完成时刻"));
    cells.push(owned("子任务"));
    cells.push(owned("进度"));
    cells.push(owned("备注数"));
    cells.push(owned("旧数据"));
    cells.push(owned("来源"));
    cells.push(owned("创建时间"));
    cells.push(owned("更新时间"));
    assert(cells@.map_values(|c: String| c@) =~= csv_head());
    cells
}

/// The table of every task not in the trash, all fields, as UTF-8 bytes
/// after a byte-order mark.
fn csv_bytes(tasks: &[Task], label: &str) -> (r: Vec<u8>)
    ensures
        r@ == seq![0xEFu8, 0xBBu8, 0xBFu8] + vstd::utf8::encode_utf8(csv_text(task_views(tasks@), label@)),
{
    let ghost ts = task_views(tasks@);
    let ghost bom = seq![0xEFu8, 0xBBu8, 0xBFu8];
    let mut out: Vec<u8> = Vec::new();
    out.push(0xEFu8);
    out.push(0xBBu8);
    out.push(0xBFu8);
    let head = head_cells();
    write_row(&mut out, &head);
    let ghost first = row_text(csv_head());
    assert(out@ =~= bom + vstd::utf8::encode_utf8(first));
    let mut i: usize = 0;
    while i < tasks.len()
        invariant
            i <= tasks@.len(),
            ts == task_views(tasks@),
            bom == seq![0xEFu8, 0xBBu8, 0xBFu8],
            first == row_text(csv_head()),
            out@ == bom + vstd::utf8::encode_utf8(first + task_rows(ts.take(i as int), label@)),
        decreases tasks@.len() - i,
    {
        let t = &tasks[i];
        proof {
            assert(ts[i as int] == t@);
            assert(ts.take(i + 1).drop_last() =~= ts.take(i as int));
            assert(ts.take(i + 1).last() == t@);
        }
        let ghost prev = first + task_rows(ts.take(i as int), label@);
        if !t.in_trash() {
            let cells = task_cells_of(t, label);
            let ghost row = row_text(task_cells(t@, label@));
            write_row(&mut out, &cells);
            proof {
                lemma_encode_concat(prev, row);
                assert(prev + row =~= first + task_rows(ts.take(i + 1), label@));
                assert(out@ =~= bom + vstd::utf8::encode_utf8(first + task_rows(ts.take(i + 1), label@)));
            }
        } else {
            proof {
                assert(prev + Seq::<char>::empty() =~= prev);
                assert(first + task_rows(ts.take(i + 1), label@) =~= prev);
            }
        }
        i = i + 1;
    }
    assert(ts.take(tasks@.len() as int) =~= ts);
    out
}


// ---------------------------------------------------------------- what to write

/// The extension a requested format asks for: `md` (also `markdown`) or
/// `csv`, any case, surrounding blanks ignored; none for anything else.
pub open spec fn format_ext(format: Seq<char>) -> Option<Seq<char>> {
    let k = lowercase(trim_seq(format));
    if k == "md"@ || k == "markdown"@ {
        Some("md"@)
    } else if k == "csv"@ {
        Some("csv"@)
    } else {
        None
    }
}

/// The format text a request stands for: `md` when none is given.
pub open spec fn format_or_default(format: Option<Seq<char>>) -> Seq<char> {
    match format {
        Some(f) => f,
        None => "md"@,
    }
}

/// The week text a request stands for: `current` when none is given.
pub open spec fn week_or_default(week: Option<Seq<char>>) -> Seq<char> {
    match week {
        Some(w) => w,
        None => "current"@,
    }
}

/// A weekly export ready to be written.
pub struct WeeklyFile {
    /// The ISO week label, such as `2026-W36`.
    pub label: String,
    /// `md` or `csv`.
    pub ext: String,
    /// The file-name stem, `周汇总-<label>` made safe.
    pub stem: String,
    /// The file's bytes.
    pub bytes: Vec<u8>,
}

/// The tasks can be bucketed without cutting a stamp inside a character.
pub fn tasks_export_safe(tasks: &[Task]) -> (r: bool)
    ensures
        r == forall|i: int| 0 <= i < tasks@.len() ==> export_safe(#[trigger] tasks@[i]@),
{
    let mut i: usize = 0;
    while i < tasks.len()
        invariant
            i <= tasks@.len(),
            forall|j: int| 0 <= j < i ==> export_safe(#[trigger] tasks@[j]@),
        decreases tasks@.len() - i,
    {
        let t = &tasks[i];
        if !t.in_trash() {
            if !cuts_ok(t.created_at.as_str()) {
                assert(!export_safe(tasks@[i as int]@));
                return false;
            }
            let ok = if t.done {
                match &t.done_at {
                    Some(d) => cuts_ok(d.as_str()),
                    None => true,
                }
            } else {
                match &t.due_at {
                    Some(d) => cuts_ok(d.as_str()),
                    None => true,
                }
            };
            if !ok {
                assert(!export_safe(tasks@[i as int]@));
                return false;
            }
        }
        i = i + 1;
    }
    true
}

fn cuts_ok(s: &str) -> (r: bool)
    ensures
        r == cuts_at_ten(s@),
{
    if byte_len_capped(s, 10) < 10 {
        true
    } else {
        match head_bytes_of(s, 10) {
            Some(_) => true,
            None => false,
        }
    }
}

/// Whether each day of the week from `monday` can be reached.
fn week_days_reachable(monday: &Day) -> (r: bool)
    requires
        monday.valid(),
    ensures
        r == week_days_ok(*monday),
{
    let mut day = *monday;
    let mut k: usize = 0;
    while k < 6
        invariant
            k <= 6,
            week_day(*monday, k as nat) == Some(day),
            day.valid(),
            forall|j: nat| j <= k ==> (#[trigger] week_day(*monday, j)) is Some,
        decreases 6 - k,
    {
        match add_days(&day, 1) {
            Some(next) => {
                day = next;
            },
            None => {
                proof {
                    assert(week_day(*monday, (k + 1) as nat) is None);
                }
                return false;
            },
        }
        k = k + 1;
        assert forall|j: nat| j <= k implies (#[trigger] week_day(*monday, j)) is Some by {
            if j == k {
                assert(week_day(*monday, k as nat) == Some(day));
            }
        }
    }
    true
}

/// What a weekly export of `tasks` writes, on `today`: the week `week` names
/// (this week by default) in the format `format` asks for (`md` by default).
pub open spec fn weekly_spec(ts: Seq<TaskView>, week: Option<Seq<char>>, format: Option<Seq<char>>, today: Day)
    -> Result<(Seq<char>, Seq<char>, Seq<char>, Seq<u8>), Seq<char>> {
    match resolve_week_spec(week_or_default(week), today) {
        Err(e) => Err(e),
        Ok((monday, sunday)) => {
            let label = week_label_spec(monday);
            let stem = crate::store::safe_stem_spec("周汇总-"@ + label);
            match format_ext(format_or_default(format)) {
                None => Err("只支持 md 和 csv 两种格式"@),
                Some(ext) => if ext == "csv"@ {
                    Ok((label, ext, stem, seq![0xEFu8, 0xBBu8, 0xBFu8] + vstd::utf8::encode_utf8(csv_text(ts, label))))
                } else if !week_days_ok(monday) {
                    Err("周次范围算不出来，请选具体周次"@)
                } else {
                    Ok((label, ext, stem, vstd::utf8::encode_utf8(md_text(
                        bucket_views(ts, day_text(monday), day_text(sunday)),
                        label,
                        monday,
                        sunday,
                    ))))
                },
            }
        },
    }
}


/// The file extension a requested format asks for.
fn ext_of(format: &str) -> (r: Option<String>)
    ensures
        opt_view(r) == format_ext(format@),
{
    let t = trim(format);
    let k = to_lower(t.as_str());
    if same_text(k.as_str(), "md") || same_text(k.as_str(), "markdown") {
        Some(owned("md"))
    } else if same_text(k.as_str(), "csv") {
        Some(owned("csv"))
    } else {
        None
    }
}

/// What a weekly export writes, on `today`: the week `week` names (this week
/// when absent) in the format `format` asks for (`md` when absent).
pub fn weekly_file_at(tasks: &[Task], week: Option<String>, format: Option<String>, today: &Day) -> (r: Result<
    WeeklyFile,
    String,
>)
    requires
        today.valid(),
        format_ext(format_or_default(opt_view(format))) == Some("md"@) ==> forall|i: int|
            0 <= i < tasks@.len() ==> export_safe(#[trigger] tasks@[i]@),
    ensures
        match r {
            Ok(f) => weekly_spec(task_views(tasks@), opt_view(week), opt_view(format), *today) == Ok::<
                (Seq<char>, Seq<char>, Seq<char>, Seq<u8>),
                Seq<char>,
            >((f.label@, f.ext@, f.stem@, f.bytes@)),
            Err(e) => weekly_spec(task_views(tasks@), opt_view(week), opt_view(format), *today) == Err::<
                (Seq<char>, Seq<char>, Seq<char>, Seq<u8>),
                Seq<char>,
            >(e@),
        },
{
    let raw_week = match week {
        Some(w) => w,
        None => owned("current"),
    };
    let (monday, sunday) = match resolve_week_at(raw_week.as_str(), today) {
        Ok(range) => range,
        Err(e) => return Err(e),
    };
    let label = iso_week_label(&monday);
    let kind = match format {
        Some(f) => f,
        None => owned("md"),
    };
    let ext = match ext_of(kind.as_str()) {
        Some(e) => e,
        None => return Err(owned("只支持 md 和 csv 两种格式")),
    };
    let named = concat("周汇总-", label.as_str());
    let stem = crate::store::safe_file_stem(named.as_str());
    proof {
        reveal_strlit("md");
        reveal_strlit("csv");
    }
    if same_text(ext.as_str(), "csv") {
        let bytes = csv_bytes(tasks, label.as_str());
        return Ok(WeeklyFile { label, ext, stem, bytes });
    }
    assert(ext@ == "md"@);
    if !week_days_reachable(&monday) {
        return Err(owned("周次范围算不出来，请选具体周次"));
    }
    let b = bucket(tasks, &monday, &sunday);
    let bytes = md_bytes(&b, label.as_str(), &monday, &sunday);
    Ok(WeeklyFile { label, ext, stem, bytes })
}

/// What a weekly export writes, today being the machine's local date.
pub fn weekly_file(tasks: &[Task], week: Option<String>, format: Option<String>) -> (r: Result<WeeklyFile, String>)
    requires
        format_ext(format_or_default(opt_view(format))) == Some("md"@) ==> forall|i: int|
            0 <= i < tasks@.len() ==> export_safe(#[trigger] tasks@[i]@),
    ensures
        exists|d: Day| #![auto]
            d.valid() && match r {
                Ok(f) => weekly_spec(task_views(tasks@), opt_view(week), opt_view(format), d) == Ok::<
                    (Seq<char>, Seq<char>, Seq<char>, Seq<u8>),
                    Seq<char>,
                >((f.label@, f.ext@, f.stem@, f.bytes@)),
                Err(e) => weekly_spec(task_views(tasks@), opt_view(week), opt_view(format), d) == Err::<
                    (Seq<char>, Seq<char>, Seq<char>, Seq<u8>),
                    Seq<char>,
                >(e@),
            },
{
    let now = today();
    weekly_file_at(tasks, week, format, &now)
}

/// The file name of the `attempt`-th try (from 0): `stem.ext`, then
/// `stem-2.ext`, `stem-3.ext` and so on up to `stem-98.ext`.
pub open spec fn export_name_spec(stem: Seq<char>, ext: Seq<char>, attempt: nat) -> Result<Seq<char>, Seq<char>> {
    if attempt == 0 {
        Ok(stem + "."@ + ext)
    } else if attempt + 1 <= 98 {
        Ok(stem + "-"@ + dec_seq(attempt + 1) + "."@ + ext)
    } else {
        Err("同名导出文件太多，先清理一下"@)
    }
}

/// The file name to try for a weekly export, never replacing an earlier one:
/// the caller moves to the next attempt while the name is taken.
pub fn export_name(stem: &str, ext: &str, attempt: u32) -> (r: Result<String, String>)
    ensures
        match r {
            Ok(n) => export_name_spec(stem@, ext@, attempt as nat) == Ok::<Seq<char>, Seq<char>>(n@),
            Err(e) => export_name_spec(stem@, ext@, attempt as nat) == Err::<Seq<char>, Seq<char>>(e@),
        },
{
    if attempt == 0 {
        let mut n = owned(stem);
        push(&mut n, ".");
        push(&mut n, ext);
        Ok(n)
    } else if attempt <= 97 {
        let mut n = owned(stem);
        push(&mut n, "-");
        push_num(&mut n, attempt as u64 + 1);
        push(&mut n, ".");
        push(&mut n, ext);
        Ok(n)
    } else {
        Err(owned("同名导出文件太多，先清理一下"))
    }
}

/// The folder an export goes to: the one given, else the one in the
/// settings (each trimmed, blank counting as absent); `None` means the
/// default folder under the data directory.
pub open spec fn export_dir_spec(dir: Option<Seq<char>>, configured: Option<Seq<char>>) -> Option<Seq<char>> {
    match dir {
        Some(d) if trim_seq(d).len() > 0 => Some(trim_seq(d)),
        _ => match configured {
            Some(c) if trim_seq(c).len() > 0 => Some(trim_seq(c)),
            _ => None,
        },
    }
}

pub fn export_dir(dir: &Option<String>, configured: &Option<String>) -> (r: Option<String>)
    ensures
        opt_view(r) == export_dir_spec(opt_view(*dir), opt_view(*configured)),
{
    if let Some(d) = dir {
        let t = trim(d.as_str());
        if t.unicode_len() > 0 {
            return Some(t);
        }
    }
    if let Some(c) = configured {
        let t = trim(c.as_str());
        if t.unicode_len() > 0 {
            return Some(t);
        }
    }
    None
}

/// In the CSV export, a task's row has one cell per column, and the cell
/// under 状态 reads 已完成 exactly when the task is done and 未完成 exactly
/// when it is open.
pub proof fn law_csv_status_cell(t: TaskView, label: Seq<char>)
    ensures
        task_cells(t, label).len() == csv_head().len(),
        csv_head()[8] == "状态"@,
        task_cells(t, label)[8] == "已完成"@ <==> t.done,
        task_cells(t, label)[8] == "未完成"@ <==> !t.done,
{
    reveal_strlit("已完成");
    reveal_strlit("未完成");
    assert("已完成"@[0] != "未完成"@[0]);
}

} // verus!
