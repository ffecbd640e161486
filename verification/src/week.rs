//! ISO calendar weeks: labels like `2026-W36`, the Monday a label names, and
//! which week an export is for.
use vstd::prelude::*;
use vstd::string::*;
use crate::text::{
    all_digits, is_ascii_digit, concat, dec_seq, decimal, digits_value, lowercase, owned, parse_u32, parse_u32_spec,
    same_text, to_lower, to_upper, trim, trim_seq, uppercase,
};
use crate::datetime::{Day, pad_dec};
use chrono::Datelike;

verus! {

broadcast use vstd::string::group_string_axioms;

/// What chrono gives for `TimeDelta::try_days(n)` followed by
/// `NaiveDate::checked_add_signed`: `None` when either is out of range.
pub uninterp spec fn chrono_add_days(d: Day, n: int) -> Option<Day>;

/// chrono's `checked_add_signed` of whole days. The claims beyond the name: a
/// result is a real date exactly `n` days later; and there is one exactly
/// when that day is one of chrono's dates (from the year -262143 to 262142),
/// in particular when the year is within 250000 of year 0 and the step at
/// most a million days.
#[verifier::external_body]
pub(crate) fn add_days(d: &Day, n: i64) -> (r: Option<Day>)
    requires
        d.valid(),
    ensures
        r == chrono_add_days(*d, n as int),
        r matches Some(x) ==> x.valid() && x.number() == d.number() + n,
        -250000 <= d.year <= 250000 && -1000000 <= n <= 1000000 ==> r is Some,
        r is Some <==> crate::datetime::chrono_instant((d.number() + n) * 86400),
{
    let date = chrono::NaiveDate::from_ymd_opt(d.year, d.month, d.day).unwrap();
    match chrono::TimeDelta::try_days(n) {
        Some(delta) => date.checked_add_signed(delta).map(|x| Day { year: x.year(), month: x.month(), day: x.day() }),
        None => None,
    }
}

/// What chrono's `iso_week()` gives for a date: (ISO year, week number).
pub uninterp spec fn chrono_iso_week(d: Day) -> (i32, u32);

/// The ISO week rule: the week's Thursday (three days after its Monday)
/// falls in year `y`, and `w` counts the weeks from that year's first
/// Thursday.
pub open spec fn iso_week_rule(d: Day, y: i32, w: u32) -> bool {
    let thursday = d.number() - d.weekday() + 3;
    let jan1 = Day { year: y, month: 1u32, day: 1u32 }.number();
    &&& jan1 <= thursday <= (Day { year: y, month: 12u32, day: 31u32 }).number()
    &&& w == (thursday - jan1) / 7 + 1
}

/// chrono's `NaiveDate::iso_week()`. The claims beyond the name: the week
/// number is 1 to 53, the ISO year is the date's year or one next to it, and
/// both follow the ISO rule (`iso_week_rule`).
#[verifier::external_body]
pub(crate) fn iso_week_of(d: &Day) -> (r: (i32, u32))
    requires
        d.valid(),
    ensures
        r == chrono_iso_week(*d),
        1 <= r.1 <= 53,
        d.year - 1 <= r.0 <= d.year + 1,
        iso_week_rule(*d, r.0, r.1),
{
    let w = chrono::NaiveDate::from_ymd_opt(d.year, d.month, d.day).unwrap().iso_week();
    (w.year(), w.week())
}

/// A signed number in decimal, as `{}` prints it.
pub open spec fn int_text(y: int) -> Seq<char> {
    if y < 0 { seq!['-'] + dec_seq((-y) as nat) } else { dec_seq(y as nat) }
}

/// The ISO week label of a date, `YYYY-Www`.
pub open spec fn week_label_spec(d: Day) -> Seq<char> {
    let w = chrono_iso_week(d);
    int_text(w.0 as int) + "-W"@ + pad_dec(w.1 as nat, 2)
}

fn int_string(y: i32) -> (r: String)
    ensures
        r@ == int_text(y as int),
{
    if y < 0 {
        let n: u64 = (-(y as i64)) as u64;
        let d = decimal(n);
        proof {
            reveal_strlit("-");
        }
        concat("-", d.as_str())
    } else {
        decimal(y as u64)
    }
}

fn pad2(n: u32) -> (r: String)
    ensures
        r@ == pad_dec(n as nat, 2),
{
    let d = decimal(n as u64);
    if n < 10 {
        proof {
            reveal_strlit("0");
            assert(dec_seq(n as nat).len() == 1);
        }
        let r = concat("0", d.as_str());
        assert(r@ =~= pad_dec(n as nat, 2));
        r
    } else {
        proof {
            lemma_dec_len_two(n as nat);
        }
        assert(d@ =~= pad_dec(n as nat, 2));
        d
    }
}

proof fn lemma_dec_len_two(n: nat)
    requires
        n >= 10,
    ensures
        dec_seq(n).len() >= 2,
{
    assert(dec_seq(n) == dec_seq(n / 10).push(crate::text::digit_char(n % 10)));
    assert(dec_seq(n / 10).len() >= 1) by {
        if n / 10 >= 10 {
            assert(dec_seq(n / 10) == dec_seq(n / 100).push(crate::text::digit_char((n / 10) % 10)));
        }
    }
}

/// The ISO week label of a date, such as `2026-W36`.
pub fn iso_week_label(date: &Day) -> (r: String)
    requires
        date.valid(),
    ensures
        r@ == week_label_spec(*date),
{
    let (y, w) = iso_week_of(date);
    let a = int_string(y);
    let b = concat(a.as_str(), "-W");
    let c = pad2(w);
    proof {
        reveal_strlit("-W");
    }
    concat(b.as_str(), c.as_str())
}

pub open spec fn pow10(k: nat) -> nat
    decreases k,
{
    if k == 0 { 1 } else { 10 * pow10((k - 1) as nat) }
}

/// `s` without `-` characters.
pub open spec fn no_dashes(s: Seq<char>) -> Seq<char> {
    s.filter(|c: char| c != '-')
}

/// The week number part after the year: an optional leading `W`, then a `u32`.
pub open spec fn week_number_spec(rest: Seq<char>) -> Option<u32> {
    if rest.len() > 0 && rest[0] == 'W' { parse_u32_spec(rest.drop_first()) } else { parse_u32_spec(rest) }
}

/// The Monday of the ISO week a label names (`YYYY-Www` or `YYYYWww`, any
/// case): week 1 is the week with 4 January.
pub open spec fn week_start_spec(week: Seq<char>) -> Option<Day> {
    let t = no_dashes(uppercase(trim_seq(week)));
    if t.len() < 6 || !('0' <= t[0] && t[0] <= '9') || !all_digits(t.take(4)) {
        None
    } else {
        match week_number_spec(t.skip(4)) {
            None => None,
            Some(n) => if n == 0 || n > 53 {
                None
            } else {
                let jan4 = Day { year: digits_value(t.take(4)) as i32, month: 1, day: 4 };
                match chrono_add_days(jan4, -jan4.weekday()) {
                    None => None,
                    Some(monday1) => chrono_add_days(monday1, (n - 1) * 7),
                }
            },
        }
    }
}

proof fn lemma_digits_value_bound(s: Seq<char>)
    requires
        all_digits(s),
    ensures
        digits_value(s) < pow10(s.len()),
    decreases s.len(),
{
    if s.len() > 0 {
        let p = s.drop_last();
        assert forall|i: int| 0 <= i < p.len() implies is_ascii_digit(#[trigger] p[i]) by {
            assert(p[i] == s[i]);
        }
        lemma_digits_value_bound(p);
        assert(is_ascii_digit(s[s.len() - 1]));
    }
}

fn remove_dashes(s: &str) -> (r: String)
    ensures
        r@ == no_dashes(s@),
{
    let cs = crate::text::chars_of(s);
    let ghost pred = |c: char| c != '-';
    let mut out = String::new();
    let mut k: usize = 0;
    while k < cs.len()
        invariant
            k <= cs@.len(),
            cs@ == s@,
            pred == (|c: char| c != '-'),
            out@ == s@.take(k as int).filter(pred),
        decreases cs@.len() - k,
    {
        proof {
            assert(s@.take(k + 1) =~= s@.take(k as int).push(s@[k as int]));
            crate::store::lemma_filter_push(s@.take(k as int), pred, s@[k as int]);
        }
        if cs[k] != '-' {
            crate::text::push_char(&mut out, cs[k]);
        }
        k = k + 1;
    }
    assert(s@.take(s@.len() as int) =~= s@);
    out
}

/// The Monday of the ISO week a label names (`2026-W36`, `2026W36`, any case).
pub fn week_start(week: &str) -> (r: Option<Day>)
    ensures
        r == week_start_spec(week@),
        r matches Some(d) ==> d.valid(),
{
    let t0 = trim(week);
    let t1 = to_upper(t0.as_str());
    let text = remove_dashes(t1.as_str());
    let cs = crate::text::chars_of(text.as_str());
    if cs.len() < 6 || !('0' <= cs[0] && cs[0] <= '9') {
        return None;
    }
    assert(cs@ == no_dashes(uppercase(trim_seq(week@))));
    let head = crate::text::string_of_range(&cs, 0, 4);
    assert(head@ =~= cs@.take(4));
    let year: i32 = match parse_u32(head.as_str()) {
        None => {
            proof {
                if all_digits(head@) {
                    lemma_digits_value_bound(head@);
                    assert(pow10(4) == 10000) by {
                        reveal_with_fuel(pow10, 5);
                    }
                }
            }
            return None;
        },
        Some(v) => {
            proof {
                assert(is_ascii_digit(head@[0]));
                lemma_digits_value_bound(head@);
                assert(pow10(4) == 10000) by {
                    reveal_with_fuel(pow10, 5);
                }
            }
            v as i32
        },
    };
    let rest = crate::text::string_of_range(&cs, 4, cs.len());
    assert(rest@ =~= text@.skip(4));
    let rcs = crate::text::chars_of(rest.as_str());
    let number = if rcs.len() > 0 && rcs[0] == 'W' {
        let body = crate::text::string_of_range(&rcs, 1, rcs.len());
        assert(body@ =~= rest@.drop_first());
        parse_u32(body.as_str())
    } else {
        parse_u32(rest.as_str())
    };
    let n = match number {
        Some(n) => n,
        None => return None,
    };
    if n == 0 || n > 53 {
        return None;
    }
    let jan4 = Day { year, month: 1, day: 4 };
    let back = jan4.weekday_from_monday() as i64;
    let monday1 = match add_days(&jan4, -back) {
        Some(d) => d,
        None => return None,
    };
    add_days(&monday1, (n as i64 - 1) * 7)
}

/// The week from a Monday to its Sunday.
pub fn week_range(monday: &Day) -> (r: Option<(Day, Day)>)
    requires
        monday.valid(),
    ensures
        match r {
            Some((a, b)) => a == *monday && chrono_add_days(*monday, 6) == Some(b) && b.valid()
                && b.number() == monday.number() + 6,
            None => chrono_add_days(*monday, 6) is None,
        },
        -250000 <= monday.year <= 250000 ==> r is Some,
{
    match add_days(monday, 6) {
        Some(sunday) => Some((*monday, sunday)),
        None => None,
    }
}

} // verus!
