//! Local usage metrics, computed from recorded events (which never leave the
//! machine): capture latency median and weekly capture counts.
use vstd::prelude::*;
use vstd::string::*;
use crate::text::{blank, chars_of, is_blank, same_text, string_of_range};
use crate::json::{as_i64_spec, json_parse, parse_value, Json};
use crate::datetime::{split_on, split_seq};
use crate::datetime::Day;
use crate::week::chrono_iso_week;
use chrono::Datelike;

verus! {

broadcast use vstd::string::group_string_axioms;

/// Integer division by two rounding toward zero, as Rust's `/` does.
pub open spec fn half_toward_zero(x: int) -> int {
    if x >= 0 { x / 2 } else { -((-x) / 2) }
}

/// `x` inserted before the first element not smaller than it.
pub open spec fn sorted_insert(s: Seq<i64>, x: i64) -> Seq<i64>
    decreases s.len(),
{
    if s.len() == 0 {
        seq![x]
    } else if x <= s[0] {
        seq![x] + s
    } else {
        seq![s[0]] + sorted_insert(s.drop_first(), x)
    }
}

/// The samples in ascending order.
pub open spec fn sorted(s: Seq<i64>) -> Seq<i64>
    decreases s.len(),
{
    if s.len() == 0 {
        Seq::empty()
    } else {
        sorted_insert(sorted(s.drop_last()), s.last())
    }
}

pub proof fn lemma_sorted_len(s: Seq<i64>)
    ensures
        sorted(s).len() == s.len(),
    decreases s.len(),
{
    if s.len() > 0 {
        lemma_sorted_len(s.drop_last());
        lemma_insert_len(sorted(s.drop_last()), s.last());
    }
}

proof fn lemma_insert_len(s: Seq<i64>, x: i64)
    ensures
        sorted_insert(s, x).len() == s.len() + 1,
    decreases s.len(),
{
    if s.len() > 0 && !(x <= s[0]) {
        lemma_insert_len(s.drop_first(), x);
    }
}

proof fn lemma_insert_at(s: Seq<i64>, x: i64, p: int)
    requires
        0 <= p <= s.len(),
        forall|j: int| 0 <= j < p ==> !(x <= #[trigger] s[j]),
        p < s.len() ==> x <= s[p],
    ensures
        sorted_insert(s, x) == s.take(p) + seq![x] + s.skip(p),
    decreases s.len(),
{
    if s.len() == 0 {
        assert(s.take(p) + seq![x] + s.skip(p) =~= seq![x]);
    } else if p == 0 {
        assert(s.take(p) + seq![x] + s.skip(p) =~= seq![x] + s);
    } else {
        let t = s.drop_first();
        assert forall|j: int| 0 <= j < p - 1 implies !(x <= #[trigger] t[j]) by {
            assert(t[j] == s[j + 1]);
        }
        if p - 1 < t.len() {
            assert(t[p - 1] == s[p]);
        }
        lemma_insert_at(t, x, p - 1);
        assert(s.take(p) + seq![x] + s.skip(p) =~= seq![s[0]] + (t.take(p - 1) + seq![x] + t.skip(p - 1)));
    }
}

/// The samples sorted ascending.
pub fn sort_samples(samples: &[i64]) -> (r: Vec<i64>)
    ensures
        r@ == sorted(samples@),
{
    let mut r: Vec<i64> = Vec::new();
    let mut k: usize = 0;
    while k < samples.len()
        invariant
            k <= samples@.len(),
            r@ == sorted(samples@.take(k as int)),
        decreases samples@.len() - k,
    {
        let x = samples[k];
        let mut pos: usize = 0;
        while pos < r.len() && !(x <= r[pos])
            invariant
                pos <= r@.len(),
                forall|j: int| 0 <= j < pos ==> !(x <= #[trigger] r@[j]),
            decreases r@.len() - pos,
        {
            pos = pos + 1;
        }
        proof {
            lemma_insert_at(r@, x, pos as int);
            assert(samples@.take(k + 1).drop_last() =~= samples@.take(k as int));
            assert(samples@.take(k + 1).last() == x);
        }
        r.insert(pos, x);
        assert(r@ =~= sorted(samples@.take(k as int)).take(pos as int) + seq![x] + sorted(samples@.take(k as int)).skip(pos as int));
        k = k + 1;
    }
    assert(samples@.take(samples@.len() as int) =~= samples@);
    r
}

/// Median of the samples: the middle one, or the mean of the two middle ones
/// (rounded toward zero); `None` without samples.
pub open spec fn p50_spec(samples: Seq<i64>) -> Option<int> {
    let s = sorted(samples);
    let n = samples.len();
    if n == 0 {
        None
    } else if n % 2 == 1 {
        Some(s[(n / 2) as int] as int)
    } else {
        Some(half_toward_zero(s[n / 2 - 1] + s[(n / 2) as int]))
    }
}

/// The two middle samples of an even count add up within `i64`.
pub open spec fn p50_fits(samples: Seq<i64>) -> bool {
    let s = sorted(samples);
    let n = samples.len();
    n % 2 == 0 && n > 0 ==> i64::MIN <= s[n / 2 - 1] + s[(n / 2) as int] <= i64::MAX
}

/// Median latency (P50) of the samples; `None` when there are none.
pub fn p50_ms(samples: &[i64]) -> (r: Option<i64>)
    requires
        p50_fits(samples@),
    ensures
        match r {
            Some(v) => p50_spec(samples@) == Some(v as int),
            None => p50_spec(samples@) is None,
        },
{
    if samples.len() == 0 {
        return None;
    }
    let s = sort_samples(samples);
    proof {
        lemma_sorted_len(samples@);
    }
    let n = s.len();
    if n % 2 == 1 {
        Some(s[n / 2])
    } else {
        let sum = s[n / 2 - 1] + s[n / 2];
        let half = sum / 2;
        assert(half == half_toward_zero(sum as int));
        Some(half)
    }
}

// ---------------------------------------------------------------- weekly counts

/// A recorded event, as the metrics read it.
#[derive(Debug, Clone, PartialEq)]
pub struct Ev {
    pub event: String,
    pub ts: String,
    pub latency_ms: Option<i64>,
    pub reason: Option<String>,
}

/// A recorded event as a value.
pub struct EvView {
    pub event: Seq<char>,
    pub ts: Seq<char>,
    pub latency_ms: Option<i64>,
    pub reason: Option<Seq<char>>,
}

impl View for Ev {
    type V = EvView;

    open spec fn view(&self) -> EvView {
        EvView {
            event: self.event@,
            ts: self.ts@,
            latency_ms: self.latency_ms,
            reason: match self.reason {
                Some(r) => Some(r@),
                None => None,
            },
        }
    }
}

/// The text of a string value.
pub open spec fn str_of(j: Option<Json>) -> Option<Seq<char>> {
    match j {
        Some(Json::Str(s)) => Some(s@),
        _ => None,
    }
}

/// The event a parsed line describes: `event` and `ts` must be strings;
/// `props.latency_ms` is kept when it is an `i64`, `props.reason` when it is
/// a string.
pub open spec fn event_of_json(parsed: Result<Json, Seq<char>>) -> Option<EvView> {
    match parsed {
        Ok(v) => match (str_of(v.get_spec("event"@)), str_of(v.get_spec("ts"@))) {
            (Some(e), Some(t)) => Some(EvView {
                event: e,
                ts: t,
                latency_ms: match v.get_spec("props"@) {
                    Some(p) => match p.get_spec("latency_ms"@) {
                        Some(Json::Number(n)) => as_i64_spec(n),
                        _ => None,
                    },
                    None => None,
                },
                reason: match v.get_spec("props"@) {
                    Some(p) => str_of(p.get_spec("reason"@)),
                    None => None,
                },
            }),
            _ => None,
        },
        Err(_) => None,
    }
}

fn text_field(v: &Json, key: &str) -> (r: Option<String>)
    ensures
        match r {
            Some(s) => str_of(v.get_spec(key@)) == Some(s@),
            None => str_of(v.get_spec(key@)) is None,
        },
{
    match v.get(key) {
        Some(Json::Str(s)) => Some(s.clone()),
        _ => None,
    }
}

fn event_of_value(v: &Json) -> (r: Option<Ev>)
    ensures
        match r {
            Some(e) => event_of_json(Ok(*v)) == Some(e@),
            None => event_of_json(Ok(*v)) is None,
        },
{
    proof {
        reveal_strlit("event");
        reveal_strlit("ts");
        reveal_strlit("props");
        reveal_strlit("latency_ms");
        reveal_strlit("reason");
    }
    let event = match text_field(v, "event") {
        Some(e) => e,
        None => return None,
    };
    let ts = match text_field(v, "ts") {
        Some(t) => t,
        None => return None,
    };
    let (latency_ms, reason) = match v.get("props") {
        Some(p) => {
            let latency = match p.get("latency_ms") {
                Some(Json::Number(n)) => n.as_i64(),
                _ => None,
            };
            (latency, text_field(p, "reason"))
        },
        None => (None, None),
    };
    Some(Ev { event, ts, latency_ms, reason })
}

/// One line of the event file read as an event (serde_json's reading of the
/// line, then the fields `event_of_json` picks out).
pub fn event_of_line(line: &str) -> (r: Option<Ev>)
    ensures
        match r {
            Some(e) => event_of_json(json_parse(line@)) == Some(e@),
            None => event_of_json(json_parse(line@)) is None,
        },
{
    match parse_value(line) {
        Ok(v) => event_of_value(&v),
        Err(_) => None,
    }
}

/// The lines of a text as `str::lines` gives them: split at `\n`, a `\r`
/// before a `\n` dropped (the piece after the last `\n` is kept as it is).
pub open spec fn log_lines(text: Seq<char>) -> Seq<Seq<char>> {
    let ps = split_seq(text, '\n');
    Seq::new(ps.len(), |i: int| {
        if i < ps.len() - 1 && ps[i].len() > 0 && ps[i].last() == '\r' { ps[i].drop_last() } else { ps[i] }
    })
}

/// The last `max` non-blank lines.
pub open spec fn recent_lines(text: Seq<char>, max: nat) -> Seq<Seq<char>> {
    let ls = log_lines(text).filter(|l: Seq<char>| !blank(l));
    if ls.len() > max { ls.skip(ls.len() - max) } else { ls }
}

/// The events the lines read as, in order; lines that are not events are left out.
pub open spec fn events_of(lines: Seq<Seq<char>>) -> Seq<EvView>
    decreases lines.len(),
{
    if lines.len() == 0 {
        Seq::empty()
    } else {
        let head = events_of(lines.drop_last());
        match event_of_json(json_parse(lines.last())) {
            Some(e) => head.push(e),
            None => head,
        }
    }
}

pub open spec fn recent_events_spec(text: Seq<char>, max: nat) -> Seq<EvView> {
    events_of(recent_lines(text, max))
}

pub open spec fn evs_view(v: Seq<Ev>) -> Seq<EvView> {
    v.map_values(|e: Ev| e@)
}

/// The events of the last `max` non-blank lines of an event file's text.
pub fn recent_events(text: &str, max: usize) -> (r: Vec<Ev>)
    ensures
        evs_view(r@) == recent_events_spec(text@, max as nat),
{
    let parts = split_on(text, '\n');
    let ghost ps = split_seq(text@, '\n');
    let ghost all = log_lines(text@);
    let ghost keep = |l: Seq<char>| !blank(l);
    let mut lines: Vec<String> = Vec::new();
    let mut k: usize = 0;
    while k < parts.len()
        invariant
            k <= parts@.len(),
            parts@.len() == ps.len(),
            ps == split_seq(text@, '\n'),
            all == log_lines(text@),
            all.len() == ps.len(),
            keep == (|l: Seq<char>| !blank(l)),
            forall|i: int| 0 <= i < parts@.len() ==> #[trigger] parts@[i]@ == ps[i],
            lines@.map_values(|x: String| x@) == all.take(k as int).filter(keep),
        decreases parts@.len() - k,
    {
        let cs = chars_of(parts[k].as_str());
        let line = if k + 1 < parts.len() && cs.len() > 0 && cs[cs.len() - 1] == '\r' {
            string_of_range(&cs, 0, cs.len() - 1)
        } else {
            parts[k].clone()
        };
        proof {
            assert(cs@ == ps[k as int]);
            if k + 1 < parts.len() && cs.len() > 0 && cs@[cs.len() - 1] == '\r' {
                assert(ps[k as int].drop_last() =~= cs@.subrange(0, cs.len() - 1));
            }
            assert(line@ == all[k as int]);
            assert(all.take(k + 1) =~= all.take(k as int).push(all[k as int]));
            crate::store::lemma_filter_push(all.take(k as int), keep, all[k as int]);
        }
        let ghost before = lines@.map_values(|x: String| x@);
        if !is_blank(line.as_str()) {
            lines.push(line);
            assert(lines@.map_values(|x: String| x@) =~= before.push(all[k as int]));
        }
        k = k + 1;
    }
    assert(all.take(all.len() as int) =~= all);
    let ghost ls = lines@.map_values(|x: String| x@);
    let start: usize = if lines.len() > max { lines.len() - max } else { 0 };
    let ghost chosen = recent_lines(text@, max as nat);
    assert(chosen =~= ls.skip(start as int));
    let mut out: Vec<Ev> = Vec::new();
    let mut j: usize = start;
    while j < lines.len()
        invariant
            start <= j <= lines@.len(),
            ls == lines@.map_values(|x: String| x@),
            chosen == ls.skip(start as int),
            evs_view(out@) == events_of(ls.subrange(start as int, j as int)),
        decreases lines@.len() - j,
    {
        proof {
            assert(ls.subrange(start as int, j + 1).drop_last() =~= ls.subrange(start as int, j as int));
            assert(ls.subrange(start as int, j + 1).last() == lines@[j as int]@);
        }
        let ghost before = evs_view(out@);
        match event_of_line(lines[j].as_str()) {
            Some(e) => {
                out.push(e);
                assert(evs_view(out@) =~= before.push(out@.last()@));
            },
            None => {},
        }
        j = j + 1;
    }
    assert(ls.subrange(start as int, lines@.len() as int) =~= chosen);
    out
}

/// The date written in an RFC 3339 stamp (in the stamp's own offset), as
/// chrono's `DateTime::parse_from_rfc3339` reads it; `None` when the stamp
/// does not parse.
pub uninterp spec fn rfc3339_date(ts: Seq<char>) -> Option<Day>;

/// A local date for a stamp: a real date at most two days from the date
/// written in the stamp (both the stamp's offset and the local one are less
/// than a day).
pub open spec fn local_date_of(ts: Seq<char>, local: Day) -> bool {
    rfc3339_date(ts) matches Some(own) && local.valid() && own.number() - 2 <= local.number() <= own.number() + 2
}

/// chrono's `DateTime::parse_from_rfc3339` of a stamp, with the date it
/// writes and the date of the same instant in the local time zone (`Local`).
/// The claims: the result is `None` exactly when chrono refuses the stamp;
/// otherwise the written date is the name `rfc3339_date` of the stamp, and
/// the local date, which depends on the machine's time zone, is a real date
/// within two days of it.
#[verifier::external_body]
fn parse_stamp(ts: &str) -> (r: Option<(Day, Day)>)
    ensures
        match r {
            Some((own, local)) => rfc3339_date(ts@) == Some(own) && local_date_of(ts@, local),
            None => rfc3339_date(ts@) is None,
        },
{
    let dt = chrono::DateTime::parse_from_rfc3339(ts).ok()?;
    let local: chrono::DateTime<chrono::Local> = dt.into();
    Some((
        Day { year: dt.year(), month: dt.month(), day: dt.day() },
        Day { year: local.year(), month: local.month(), day: local.day() },
    ))
}

/// The week key of a date's ISO week (chrono's `iso_week`).
pub open spec fn date_week(d: Day) -> int {
    week_key_spec(chrono_iso_week(d).0 as int, chrono_iso_week(d).1 as int)
}

/// The key `year * 100 + week` that weekly counts compare.
pub open spec fn week_key_spec(year: int, week: int) -> int {
    year * 100 + week
}

/// The week key of an ISO week.
pub fn week_key(year: i32, week: u32) -> (k: i32)
    requires
        1 <= week <= 53,
        -262144 <= year <= 262143,
    ensures
        k == week_key_spec(year as int, week as int),
{
    year * 100 + week as i32
}

/// How many capture commits fall in the given week, given the week of each
/// event's stamp.
pub open spec fn weekly_count(events: Seq<(String, String)>, weeks: Seq<Option<i32>>, year_week: i32) -> nat
    decreases events.len(),
{
    if events.len() == 0 || weeks.len() < events.len() {
        0
    } else {
        let n = (events.len() - 1) as int;
        weekly_count(events.drop_last(), weeks.take(n), year_week)
            + if events[n].0@ == "capture_commit"@ && weeks[n] == Some(year_week) { 1nat } else { 0nat }
    }
}

/// Capture commits among `events` whose week (`weeks[i]` for `events[i]`) is `year_week`.
pub fn count_in_week_of(events: &[(String, String)], weeks: &Vec<Option<i32>>, year_week: i32) -> (n: usize)
    requires
        weeks@.len() == events@.len(),
    ensures
        n == weekly_count(events@, weeks@, year_week),
{
    let mut n: usize = 0;
    let mut k: usize = 0;
    proof {
        reveal_strlit("capture_commit");
    }
    while k < events.len()
        invariant
            k <= events@.len(),
            weeks@.len() == events@.len(),
            n == weekly_count(events@.take(k as int), weeks@.take(k as int), year_week),
            n <= k,
        decreases events@.len() - k,
    {
        proof {
            assert(events@.take(k + 1).drop_last() =~= events@.take(k as int));
            assert(weeks@.take(k + 1).take(k as int) =~= weeks@.take(k as int));
        }
        if same_text(events[k].0.as_str(), "capture_commit") && weeks[k] == Some(year_week) {
            n = n + 1;
        }
        k = k + 1;
    }
    assert(events@.take(events@.len() as int) =~= events@);
    assert(weeks@.take(weeks@.len() as int) =~= weeks@);
    n
}

/// The week of each event as its local date gives it (none for a stamp that
/// does not parse).
pub open spec fn weeks_of(locals: Seq<Option<Day>>) -> Seq<Option<i32>> {
    Seq::new(locals.len(), |i: int| match locals[i] {
        Some(d) => Some(date_week(d) as i32),
        None => None,
    })
}

/// `locals` gives each event's stamp a local date: none exactly when the
/// stamp does not parse, and otherwise one within two days of the date it
/// writes.
pub open spec fn locals_fit(events: Seq<(String, String)>, locals: Seq<Option<Day>>) -> bool {
    &&& locals.len() == events.len()
    &&& forall|i: int| 0 <= i < events.len() ==> match #[trigger] locals[i] {
        Some(d) => local_date_of(events[i].1@, d),
        None => rfc3339_date(events[i].1@) is None,
    }
}

/// `n` counts the capture commits whose stamp's local date falls in the
/// week `year_week`, for local dates that fit the stamps.
pub open spec fn counted_in_week(events: Seq<(String, String)>, year_week: i32, locals: Seq<Option<Day>>, n: nat) -> bool {
    locals_fit(events, locals) && weekly_count(events, weeks_of(locals), year_week) == n
}

/// Capture commits among `events` (name, RFC 3339 stamp) in the ISO week
/// `year_week` (`year * 100 + week`) of the local time zone. A stamp that
/// does not parse never counts; a parsed one counts when the ISO week of its
/// local date is `year_week`. Which local date a stamp has depends on the
/// machine's time zone; it is within two days of the date the stamp writes.
pub fn count_in_week(events: &[(String, String)], year_week: i32) -> (n: usize)
    ensures
        n <= events@.len(),
        exists|locals: Seq<Option<Day>>| #[trigger] counted_in_week(events@, year_week, locals, n as nat),
{
    let mut weeks: Vec<Option<i32>> = Vec::new();
    let ghost mut locals: Seq<Option<Day>> = Seq::empty();
    let mut k: usize = 0;
    while k < events.len()
        invariant
            k <= events@.len(),
            weeks@.len() == k,
            locals.len() == k,
            weeks@ == weeks_of(locals),
            forall|i: int| 0 <= i < k ==> match #[trigger] locals[i] {
                Some(d) => local_date_of(events@[i].1@, d),
                None => rfc3339_date(events@[i].1@) is None,
            },
        decreases events@.len() - k,
    {
        let ghost before = locals;
        match parse_stamp(events[k].1.as_str()) {
            Some((_, local)) => {
                let (y, w) = crate::week::iso_week_of(&local);
                weeks.push(Some(week_key(y, w)));
                proof {
                    locals = before.push(Some(local));
                }
            },
            None => {
                weeks.push(None);
                proof {
                    locals = before.push(None);
                }
            },
        }
        assert(weeks@ =~= weeks_of(locals));
        k = k + 1;
    }
    let n = count_in_week_of(events, &weeks, year_week);
    proof {
        lemma_weekly_count_bound(events@, weeks@, year_week);
        assert(counted_in_week(events@, year_week, locals, n as nat));
    }
    n
}

proof fn lemma_weekly_count_bound(events: Seq<(String, String)>, weeks: Seq<Option<i32>>, year_week: i32)
    ensures
        weekly_count(events, weeks, year_week) <= events.len(),
    decreases events.len(),
{
    if events.len() > 0 && weeks.len() >= events.len() {
        lemma_weekly_count_bound(events.drop_last(), weeks.take(events.len() - 1), year_week);
    }
}

} // verus!
