//! Local-wall-time values (no time-zone conversion anywhere): clock times,
//! calendar days, and the text forms the app stores (`HH:MM`, `YYYY-MM-DD`,
//! `YYYY-MM-DDTHH:mm`). Parsing and formatting go through chrono.
use vstd::prelude::*;
use vstd::string::*;
use crate::text::{
    chars_of, dec_seq, lemma_trim_idempotent, lowercase, same_text, string_of, string_of_range, to_lower,
    trim, trim_seq,
};
use chrono::{Datelike, Timelike};

verus! {

broadcast use vstd::string::group_string_axioms;

/// A time of day to the minute (`HH:MM`).
#[derive(Clone, Copy, Debug, PartialEq, Eq, Structural)]
pub struct Clock {
    pub hour: u32,
    pub minute: u32,
}

/// A calendar day of the proleptic Gregorian calendar.
#[derive(Clone, Copy, Debug, PartialEq, Eq, Structural)]
pub struct Day {
    pub year: i32,
    pub month: u32,
    pub day: u32,
}

/// A local wall-clock instant (date and time of day, no zone).
#[derive(Clone, Copy, Debug, PartialEq, Eq, Structural)]
pub struct Wall {
    pub date: Day,
    pub hour: u32,
    pub minute: u32,
    pub second: u32,
}

pub open spec fn is_leap(y: int) -> bool {
    (y % 4 == 0 && y % 100 != 0) || y % 400 == 0
}

pub open spec fn days_in_month(y: int, m: int) -> int {
    if m == 2 {
        if is_leap(y) { 29 } else { 28 }
    } else if m == 4 || m == 6 || m == 9 || m == 11 {
        30
    } else {
        31
    }
}

/// The year range chrono's `NaiveDate` covers.
pub open spec fn year_in_range(y: int) -> bool {
    -262143 <= y <= 262142
}

/// An instant, in the seconds `Wall::moment` counts, that falls on one of
/// chrono's dates (years -262143 to 262142).
pub open spec fn chrono_instant(secs: int) -> bool {
    (Day { year: -262143i32, month: 1u32, day: 1u32 }).number() * 86400 <= secs
        && secs < ((Day { year: 262142i32, month: 12u32, day: 31u32 }).number() + 1) * 86400
}

impl Day {
    pub open spec fn valid(self) -> bool {
        &&& year_in_range(self.year as int)
        &&& 1 <= self.month <= 12
        &&& 1 <= self.day <= days_in_month(self.year as int, self.month as int)
    }

    /// Days since a fixed origin; consecutive days differ by one.
    pub open spec fn number(self) -> int {
        let y = (if self.month <= 2 { self.year - 1 } else { self.year as int }) + 280000;
        let era = y / 400;
        let yoe = y % 400;
        let mp = if self.month > 2 { self.month - 3 } else { self.month + 9 };
        let doy = (153 * mp + 2) / 5 + self.day - 1;
        let doe = yoe * 365 + yoe / 4 - yoe / 100 + doy;
        era * 146097 + doe
    }

    /// Day of the week, Monday = 0 … Sunday = 6.
    pub open spec fn weekday(self) -> int {
        (self.number() + 2) % 7
    }

    pub fn day_number(&self) -> (n: i64)
        requires
            self.valid(),
        ensures
            n == self.number(),
    {
        let y: i64 = (if self.month <= 2 { self.year as i64 - 1 } else { self.year as i64 }) + 280000;
        let era = y / 400;
        let yoe = y % 400;
        let mp: i64 = if self.month > 2 { self.month as i64 - 3 } else { self.month as i64 + 9 };
        let doy = (153 * mp + 2) / 5 + self.day as i64 - 1;
        let doe = yoe * 365 + yoe / 4 - yoe / 100 + doy;
        era * 146097 + doe
    }

    pub fn weekday_from_monday(&self) -> (w: u32)
        requires
            self.valid(),
        ensures
            w == self.weekday(),
            w < 7,
    {
        let n = self.day_number();
        ((n + 2) % 7) as u32
    }
}

impl Wall {
    pub open spec fn valid(self) -> bool {
        self.date.valid() && self.hour < 24 && self.minute < 60 && self.second < 60
    }

    /// Seconds since a fixed origin, on the wall clock.
    pub open spec fn moment(self) -> int {
        self.date.number() * 86400 + self.hour * 3600 + self.minute * 60 + self.second
    }

    pub fn seconds(&self) -> (n: i64)
        requires
            self.valid(),
        ensures
            n == self.moment(),
    {
        self.date.day_number() * 86400 + self.hour as i64 * 3600 + self.minute as i64 * 60
            + self.second as i64
    }

    pub open spec fn clock(self) -> Clock {
        Clock { hour: self.hour, minute: self.minute }
    }
}

/// A clock time placed on a day, at second zero.
pub open spec fn at_clock(d: Day, c: Clock) -> Wall {
    Wall { date: d, hour: c.hour, minute: c.minute, second: 0 }
}

// ------------------------------------------------------------ chrono parsing

/// What chrono's `NaiveTime::parse_from_str(text, fmt)` yields, as (hour, minute, second).
pub uninterp spec fn chrono_time(text: Seq<char>, fmt: Seq<char>) -> Option<(u32, u32, u32)>;

/// What chrono's `NaiveDate::parse_from_str(text, fmt)` yields, as (year, month, day).
pub uninterp spec fn chrono_date(text: Seq<char>, fmt: Seq<char>) -> Option<(i32, u32, u32)>;

/// What chrono's `NaiveDateTime::parse_from_str(text, fmt)` yields, as
/// (year, month, day, hour, minute, second).
pub uninterp spec fn chrono_datetime(text: Seq<char>, fmt: Seq<char>) -> Option<
    (i32, u32, u32, u32, u32, u32),
>;

pub open spec fn time_ok(t: (u32, u32, u32)) -> bool {
    t.0 < 24 && t.1 < 60 && t.2 < 60
}

pub open spec fn date_ok(d: (i32, u32, u32)) -> bool {
    (Day { year: d.0, month: d.1, day: d.2 }).valid()
}

pub open spec fn digit_value(c: char) -> int {
    c as int - '0' as int
}

/// `HH:MM` with two digits each, an hour below 24 and a minute below 60:
/// the hour and minute it names.
pub open spec fn two_digit_clock(t: Seq<char>) -> Option<(u32, u32)> {
    if t.len() == 5 && t[2] == ':' && '0' <= t[0] <= '9' && '0' <= t[1] <= '9' && '0' <= t[3] <= '9'
        && '0' <= t[4] <= '9' && digit_value(t[0]) * 10 + digit_value(t[1]) < 24
        && digit_value(t[3]) * 10 + digit_value(t[4]) < 60 {
        Some(((digit_value(t[0]) * 10 + digit_value(t[1])) as u32, (digit_value(t[3]) * 10 + digit_value(t[4])) as u32))
    } else {
        None
    }
}

/// chrono's `NaiveTime::parse_from_str`. The claims beyond the name: a
/// parsed time has hour < 24, minute < 60 and second < 60 (chrono keeps leap
/// seconds in the nanosecond field); and with `%H:%M`, a text of two-digit
/// hour and minute in range parses to that time, second 0.
#[verifier::external_body]
fn chrono_parse_time(text: &str, fmt: &str) -> (r: Option<(u32, u32, u32)>)
    ensures
        r == chrono_time(text@, fmt@),
        r matches Some(t) ==> time_ok(t),
        fmt@ == "%H:%M"@ ==> (two_digit_clock(text@) matches Some((h, m)) ==> r == Some((h, m, 0u32))),
{
    chrono::NaiveTime::parse_from_str(text, fmt).ok().map(|t| (t.hour(), t.minute(), t.second()))
}

/// chrono's `NaiveDate::parse_from_str`. The claim beyond the name: the date is a
/// real calendar date in chrono's year range.
#[verifier::external_body]
pub(crate) fn chrono_parse_date(text: &str, fmt: &str) -> (r: Option<(i32, u32, u32)>)
    ensures
        r == chrono_date(text@, fmt@),
        r matches Some(d) ==> date_ok(d),
{
    chrono::NaiveDate::parse_from_str(text, fmt).ok().map(|d| (d.year(), d.month(), d.day()))
}

/// chrono's `NaiveDateTime::parse_from_str`. The claim beyond the name: the date
/// is a real calendar date and the time of day is in range.
#[verifier::external_body]
fn chrono_parse_datetime(text: &str, fmt: &str) -> (r: Option<(i32, u32, u32, u32, u32, u32)>)
    ensures
        r == chrono_datetime(text@, fmt@),
        r matches Some(v) ==> date_ok((v.0, v.1, v.2)) && time_ok((v.3, v.4, v.5)),
{
    chrono::NaiveDateTime::parse_from_str(text, fmt).ok().map(
        |v| (v.year(), v.month(), v.day(), v.hour(), v.minute(), v.second()),
    )
}

pub open spec fn wall_of(v: (i32, u32, u32, u32, u32, u32)) -> Wall {
    Wall { date: Day { year: v.0, month: v.1, day: v.2 }, hour: v.3, minute: v.4, second: v.5 }
}

// ------------------------------------------------------------ chrono formatting

/// Decimal text of `n` left-padded with zeros to `width` characters.
pub open spec fn pad_dec(n: nat, width: nat) -> Seq<char> {
    let d = dec_seq(n);
    Seq::new((if width > d.len() { width - d.len() } else { 0 }) as nat, |i: int| '0') + d
}

/// chrono's `%Y`: four zero-padded digits for years 0..=9999, otherwise an
/// explicit sign followed by at least four digits.
pub open spec fn year_text(y: int) -> Seq<char> {
    if 0 <= y <= 9999 {
        pad_dec(y as nat, 4)
    } else if y > 9999 {
        seq!['+'] + pad_dec(y as nat, 4)
    } else {
        seq!['-'] + pad_dec((-y) as nat, 4)
    }
}

/// `%Y-%m-%d`.
pub open spec fn day_text(d: Day) -> Seq<char> {
    year_text(d.year as int) + seq!['-'] + pad_dec(d.month as nat, 2) + seq!['-'] + pad_dec(
        d.day as nat,
        2,
    )
}

/// `%H:%M`.
pub open spec fn clock_text(c: Clock) -> Seq<char> {
    pad_dec(c.hour as nat, 2) + seq![':'] + pad_dec(c.minute as nat, 2)
}

/// `%Y-%m-%dT%H:%M`, the full-moment form the app stores.
pub open spec fn wall_text(w: Wall) -> Seq<char> {
    day_text(w.date) + seq!['T'] + clock_text(w.clock())
}

/// chrono's `NaiveDate::format("%Y-%m-%d")`, written out as chrono's
/// formatting code writes it.
#[verifier::external_body]
pub fn fmt_day(d: &Day) -> (r: String)
    requires
        d.valid(),
    ensures
        r@ == day_text(*d),
{
    chrono::NaiveDate::from_ymd_opt(d.year, d.month, d.day).unwrap().format("%Y-%m-%d").to_string()
}

/// chrono's `NaiveDateTime::format("%Y-%m-%dT%H:%M")`.
#[verifier::external_body]
pub fn fmt_wall(w: &Wall) -> (r: String)
    requires
        w.valid(),
    ensures
        r@ == wall_text(*w),
{
    chrono::NaiveDate::from_ymd_opt(w.date.year, w.date.month, w.date.day).unwrap().and_hms_opt(
        w.hour,
        w.minute,
        w.second,
    ).unwrap().format("%Y-%m-%dT%H:%M").to_string()
}

/// What chrono gives for `NaiveDateTime::checked_add_signed(TimeDelta::minutes(m))`:
/// `None` past the last date chrono can hold.
pub uninterp spec fn chrono_plus_minutes(w: Wall, minutes: int) -> Option<Wall>;

/// chrono's `NaiveDateTime::checked_add_signed` of whole minutes. The claims
/// beyond the name: a result is a valid instant exactly `60 * minutes`
/// seconds later, and there is one exactly when that instant falls on one of
/// chrono's dates (up to the year 262142), in particular when the year is
/// below 262000 and the step at most a year.
#[verifier::external_body]
pub(crate) fn plus_minutes(w: &Wall, minutes: u32) -> (r: Option<Wall>)
    requires
        w.valid(),
    ensures
        r == chrono_plus_minutes(*w, minutes as int),
        r matches Some(v) ==> v.valid() && v.moment() == w.moment() + 60 * minutes,
        w.date.year < 262000 && minutes <= 525600 ==> r is Some,
        r is Some <==> chrono_instant(w.moment() + 60 * minutes),
{
    let base = chrono::NaiveDate::from_ymd_opt(w.date.year, w.date.month, w.date.day).unwrap()
        .and_hms_opt(w.hour, w.minute, w.second).unwrap();
    base.checked_add_signed(chrono::TimeDelta::minutes(minutes as i64)).map(|v| Wall {
        date: Day { year: v.year(), month: v.month(), day: v.day() },
        hour: v.hour(),
        minute: v.minute(),
        second: v.second(),
    })
}

// ------------------------------------------------------------ nullish text

/// "null" / "none" / "undefined" / "nan" in any case, around whitespace.
pub open spec fn nullish(s: Seq<char>) -> bool {
    let lower = lowercase(trim_seq(s));
    lower == "null"@ || lower == "none"@ || lower == "undefined"@ || lower == "nan"@
}

pub fn is_nullish(text: &str) -> (r: bool)
    ensures
        r == nullish(text@),
{
    let t = trim(text);
    let lower = to_lower(t.as_str());
    let l = lower.as_str();
    same_text(l, "null") || same_text(l, "none") || same_text(l, "undefined") || same_text(
        l,
        "nan",
    )
}

// ------------------------------------------------------------ clock parsing

/// The (hour, minute) that the clock parser reads from trimmed text, before
/// seconds are dropped.
pub open spec fn clock_parse(t: Seq<char>) -> Option<(u32, u32)> {
    if let Some(v) = chrono_time(t, "%H:%M"@) {
        Some((v.0, v.1))
    } else if let Some(v) = chrono_time(t, "%H:%M:%S"@) {
        Some((v.0, v.1))
    } else if let Some(v) = chrono_datetime(t, "%Y-%m-%dT%H:%M:%S"@) {
        Some((v.3, v.4))
    } else if let Some(v) = chrono_datetime(t, "%Y-%m-%dT%H:%M"@) {
        Some((v.3, v.4))
    } else {
        None
    }
}

/// `HH:MM` (or `HH:MM:SS`, or a full moment) read as a clock time to the minute.
pub open spec fn parse_clock_spec(raw: Seq<char>) -> Option<Clock> {
    match clock_parse(trim_seq(raw)) {
        Some(hm) => Some(Clock { hour: hm.0, minute: hm.1 }),
        None => None,
    }
}

/// Clock time of `raw`, seconds dropped; `None` when it does not parse.
pub fn parse_clock(raw: &str) -> (r: Option<Clock>)
    ensures
        r == parse_clock_spec(raw@),
        r matches Some(c) ==> c.hour < 24 && c.minute < 60,
        two_digit_clock(trim_seq(raw@)) matches Some((h, m)) ==> r == Some(Clock { hour: h, minute: m }),
{
    let t = trim(raw);
    let text = t.as_str();
    if let Some(v) = chrono_parse_time(text, "%H:%M") {
        return Some(Clock { hour: v.0, minute: v.1 });
    }
    if let Some(v) = chrono_parse_time(text, "%H:%M:%S") {
        return Some(Clock { hour: v.0, minute: v.1 });
    }
    if let Some(v) = chrono_parse_datetime(text, "%Y-%m-%dT%H:%M:%S") {
        return Some(Clock { hour: v.3, minute: v.4 });
    }
    if let Some(v) = chrono_parse_datetime(text, "%Y-%m-%dT%H:%M") {
        return Some(Clock { hour: v.3, minute: v.4 });
    }
    None
}

/// A bare clock time, `HH:MM` or `HH:MM:SS`, with no date.
pub open spec fn pure_clock(raw: Seq<char>) -> bool {
    chrono_time(trim_seq(raw), "%H:%M"@) is Some || chrono_time(trim_seq(raw), "%H:%M:%S"@) is Some
}

/// Whether `raw` is a bare clock time (see `pure_clock`).
pub fn is_pure_clock(raw: &str) -> (r: bool)
    ensures
        r == pure_clock(raw@),
{
    let t = trim(raw);
    chrono_parse_time(t.as_str(), "%H:%M").is_some() || chrono_parse_time(t.as_str(), "%H:%M:%S").is_some()
}

// ------------------------------------------------------------ splitting

/// What `str::split(sep)` yields, read left to right.
pub open spec fn split_seq(s: Seq<char>, sep: char) -> Seq<Seq<char>>
    decreases s.len(),
{
    if s.len() == 0 {
        seq![Seq::<char>::empty()]
    } else {
        let r = split_seq(s.drop_last(), sep);
        if s.last() == sep {
            r.push(Seq::<char>::empty())
        } else {
            r.update(r.len() - 1, r.last().push(s.last()))
        }
    }
}

pub proof fn lemma_split_nonempty(s: Seq<char>, sep: char)
    ensures
        split_seq(s, sep).len() >= 1,
    decreases s.len(),
{
    if s.len() > 0 {
        lemma_split_nonempty(s.drop_last(), sep);
    }
}

/// The pieces of `s` between occurrences of `sep`.
pub fn split_on(s: &str, sep: char) -> (parts: Vec<String>)
    ensures
        parts@.len() == split_seq(s@, sep).len(),
        forall|i: int| 0 <= i < parts@.len() ==> #[trigger] parts@[i]@ == split_seq(s@, sep)[i],
{
    let v = chars_of(s);
    let mut parts: Vec<String> = Vec::new();
    let mut cur: Vec<char> = Vec::new();
    let mut i: usize = 0;
    assert(v@.take(0) =~= Seq::<char>::empty());
    while i < v.len()
        invariant
            v@ == s@,
            i <= v@.len(),
            parts@.len() + 1 == split_seq(v@.take(i as int), sep).len(),
            forall|k: int| 0 <= k < parts@.len() ==> #[trigger] parts@[k]@ == split_seq(
                v@.take(i as int),
                sep,
            )[k],
            cur@ == split_seq(v@.take(i as int), sep).last(),
        decreases v@.len() - i,
    {
        let c = v[i];
        proof {
            assert(v@.take(i + 1).drop_last() =~= v@.take(i as int));
            lemma_split_nonempty(v@.take(i as int), sep);
        }
        if c == sep {
            let piece = string_of(&cur);
            parts.push(piece);
            cur = Vec::new();
        } else {
            cur.push(c);
        }
        i = i + 1;
    }
    proof {
        assert(v@.take(v@.len() as int) =~= s@);
        lemma_split_nonempty(s@, sep);
    }
    let last = string_of(&cur);
    parts.push(last);
    parts
}

// ------------------------------------------------------------ multi-clock reminders

/// Clock times of the `/`-separated pieces, first occurrence kept.
pub open spec fn clocks_from(parts: Seq<Seq<char>>) -> Seq<Clock>
    decreases parts.len(),
{
    if parts.len() == 0 {
        Seq::empty()
    } else {
        let prev = clocks_from(parts.drop_last());
        match parse_clock_spec(parts.last()) {
            Some(c) => if prev.contains(c) { prev } else { prev.push(c) },
            None => prev,
        }
    }
}

/// A reminder time can carry several clocks (`10:00/14:00/16:00`).
pub open spec fn clocks_spec(raw: Seq<char>) -> Seq<Clock> {
    clocks_from(split_seq(raw, '/'))
}

fn contains_clock(v: &Vec<Clock>, c: Clock) -> (r: bool)
    ensures
        r == v@.contains(c),
{
    let mut i: usize = 0;
    while i < v.len()
        invariant
            i <= v@.len(),
            forall|k: int| 0 <= k < i ==> v@[k] != c,
        decreases v@.len() - i,
    {
        if v[i] == c {
            return true;
        }
        i = i + 1;
    }
    false
}

/// The distinct clock times in a reminder's time text, in order.
pub fn clocks_of(raw: &str) -> (out: Vec<Clock>)
    ensures
        out@ == clocks_spec(raw@),
        forall|i: int| 0 <= i < out@.len() ==> (#[trigger] out@[i]).hour < 24 && out@[i].minute < 60,
{
    let parts = split_on(raw, '/');
    let ghost ps = split_seq(raw@, '/');
    let mut out: Vec<Clock> = Vec::new();
    let mut i: usize = 0;
    while i < parts.len()
        invariant
            parts@.len() == ps.len(),
            forall|k: int| 0 <= k < parts@.len() ==> #[trigger] parts@[k]@ == ps[k],
            i <= parts@.len(),
            out@ == clocks_from(ps.take(i as int)),
            forall|k: int| 0 <= k < out@.len() ==> (#[trigger] out@[k]).hour < 24 && out@[k].minute < 60,
        decreases parts@.len() - i,
    {
        proof {
            assert(ps.take(i + 1).drop_last() =~= ps.take(i as int));
            assert(ps.take(i + 1).last() == ps[i as int]);
        }
        if let Some(c) = parse_clock(parts[i].as_str()) {
            if !contains_clock(&out, c) {
                out.push(c);
            }
        }
        i = i + 1;
    }
    assert(ps.take(ps.len() as int) =~= ps);
    out
}

// ------------------------------------------------------------ date-time normalisation

/// The full-moment candidate: a space at index 10 (v1's `YYYY-MM-DD HH:MM`) becomes `T`.
pub open spec fn t_form(t: Seq<char>) -> Seq<char> {
    if t[10] == ' ' { t.update(10, 'T') } else { t }
}

/// Normalised user-visible time text; `None` when it cannot be read.
/// Accepts `YYYY-MM-DD`, `HH:MM`, and full moments with optional seconds and
/// zone suffix, which is cut off, never converted.
pub open spec fn normalize_spec(raw: Seq<char>) -> Option<Seq<char>> {
    let t = trim_seq(raw);
    if t.len() == 0 || nullish(t) {
        None
    } else if t.len() == 5 && t[2] == ':' {
        if parse_clock_spec(t) is Some { Some(t) } else { None }
    } else if t.len() == 10 {
        if chrono_date(t, "%Y-%m-%d"@) is Some { Some(t) } else { None }
    } else if t.len() < 16 {
        None
    } else {
        let head = t_form(t);
        let prefix = head.take(16);
        if chrono_datetime(prefix, "%Y-%m-%dT%H:%M"@) is Some {
            Some(prefix)
        } else if chrono_datetime(head, "%Y-%m-%dT%H:%M:%S"@) is Some {
            Some(prefix)
        } else {
            None
        }
    }
}

pub fn normalize_datetime(raw: &str) -> (r: Option<String>)
    ensures
        match r {
            Some(s) => normalize_spec(raw@) == Some(s@),
            None => normalize_spec(raw@) is None,
        },
{
    let t = trim(raw);
    proof {
        lemma_trim_idempotent(raw@);
    }
    if t.as_str().is_empty() || is_nullish(t.as_str()) {
        return None;
    }
    let chars = chars_of(t.as_str());
    let n = chars.len();
    if n == 5 && chars[2] == ':' {
        if parse_clock(t.as_str()).is_some() {
            return Some(t);
        }
        return None;
    }
    if n == 10 {
        if chrono_parse_date(t.as_str(), "%Y-%m-%d").is_some() {
            return Some(t);
        }
        return None;
    }
    if n < 16 {
        return None;
    }
    let mut head_chars = chars;
    if head_chars[10] == ' ' {
        head_chars.set(10, 'T');
    }
    let head = string_of(&head_chars);
    let prefix = string_of_range(&head_chars, 0, 16);
    proof {
        assert(head@ =~= t_form(t@));
        assert(prefix@ =~= t_form(t@).take(16));
    }
    if chrono_parse_datetime(prefix.as_str(), "%Y-%m-%dT%H:%M").is_some() {
        return Some(prefix);
    }
    if chrono_parse_datetime(head.as_str(), "%Y-%m-%dT%H:%M:%S").is_some() {
        return Some(prefix);
    }
    None
}

/// Date part of a normalised time, when it has one.
pub open spec fn date_text_spec(raw: Seq<char>) -> Option<Seq<char>> {
    match normalize_spec(raw) {
        Some(n) => if n.len() < 10 { None } else { Some(n.take(10)) },
        None => None,
    }
}

/// `YYYY-MM-DD` of a time text (planned dates, date comparisons).
pub fn normalize_date_text(raw: &str) -> (r: Option<String>)
    ensures
        match r {
            Some(s) => date_text_spec(raw@) == Some(s@),
            None => date_text_spec(raw@) is None,
        },
{
    let normalized = match normalize_datetime(raw) {
        Some(v) => v,
        None => return None,
    };
    let chars = chars_of(normalized.as_str());
    if chars.len() < 10 {
        return None;
    }
    Some(string_of_range(&chars, 0, 10))
}

// ------------------------------------------------------------ wall instants

/// The first `n` characters (all of them when there are fewer), as `chars().take(n)`.
pub open spec fn take_upto(s: Seq<char>, n: nat) -> Seq<char> {
    if s.len() <= n { s } else { s.take(n as int) }
}

/// User-visible text read as a wall instant: a date alone is midnight, a clock
/// alone is on `today`.
pub open spec fn parse_wall_spec(value: Seq<char>, today: Day) -> Option<Wall> {
    let t = trim_seq(value);
    if t.len() == 10 {
        match chrono_date(t, "%Y-%m-%d"@) {
            Some(d) => Some(Wall { date: Day { year: d.0, month: d.1, day: d.2 }, hour: 0, minute: 0, second: 0 }),
            None => None,
        }
    } else if t.len() == 5 {
        match parse_clock_spec(t) {
            Some(c) => Some(at_clock(today, c)),
            None => None,
        }
    } else if let Some(v) = chrono_datetime(take_upto(t, 16), "%Y-%m-%dT%H:%M"@) {
        Some(wall_of(v))
    } else if let Some(v) = chrono_datetime(t, "%Y-%m-%dT%H:%M:%S"@) {
        Some(wall_of(v))
    } else {
        None
    }
}

pub fn parse_wall(value: &str, today: Day) -> (r: Option<Wall>)
    requires
        today.valid(),
    ensures
        r == parse_wall_spec(value@, today),
        r matches Some(w) ==> w.valid(),
{
    let t = trim(value);
    let chars = chars_of(t.as_str());
    let n = chars.len();
    if n == 10 {
        return match chrono_parse_date(t.as_str(), "%Y-%m-%d") {
            Some(d) => Some(Wall { date: Day { year: d.0, month: d.1, day: d.2 }, hour: 0, minute: 0, second: 0 }),
            None => None,
        };
    }
    if n == 5 {
        proof {
            lemma_trim_idempotent(value@);
        }
        return match parse_clock(t.as_str()) {
            Some(c) => Some(Wall { date: today, hour: c.hour, minute: c.minute, second: 0 }),
            None => None,
        };
    }
    let take = if n < 16 { n } else { 16 };
    let head = string_of_range(&chars, 0, take);
    proof {
        assert(head@ =~= take_upto(t@, 16));
    }
    if let Some(v) = chrono_parse_datetime(head.as_str(), "%Y-%m-%dT%H:%M") {
        return Some(Wall { date: Day { year: v.0, month: v.1, day: v.2 }, hour: v.3, minute: v.4, second: v.5 });
    }
    if let Some(v) = chrono_parse_datetime(t.as_str(), "%Y-%m-%dT%H:%M:%S") {
        return Some(Wall { date: Day { year: v.0, month: v.1, day: v.2 }, hour: v.3, minute: v.4, second: v.5 });
    }
    None
}

// ------------------------------------------------------------ overdue days

/// Days a task with this due text is overdue on `today` (0 when not overdue,
/// capped at 9999).
pub open spec fn carry_days_spec(due_at: Option<Seq<char>>, today: Day) -> u32 {
    match due_at {
        None => 0,
        Some(raw) => match parse_wall_spec(raw, today) {
            None => 0,
            Some(w) => {
                let days = today.number() - w.date.number();
                if days <= 0 { 0 } else if days > 9999 { 9999 } else { days as u32 }
            },
        },
    }
}

/// Overdue days from `due_at` to the injected `today` (same day is not overdue).
pub fn carry_days_from(due_at: &Option<String>, today: Day) -> (r: u32)
    requires
        today.valid(),
    ensures
        r == carry_days_spec(
            match due_at {
                Some(s) => Some(s@),
                None => None,
            },
            today,
        ),
        r <= 9999,
{
    let raw = match due_at {
        Some(value) => value,
        None => return 0,
    };
    let wall = match parse_wall(raw.as_str(), today) {
        Some(value) => value,
        None => return 0,
    };
    let due = wall.date.day_number();
    let now = today.day_number();
    if due >= now {
        return 0;
    }
    let days = now - due;
    if days > 9999 {
        return 9999;
    }
    days as u32
}

} // verus!
