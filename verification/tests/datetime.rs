use kettd::datetime::{clocks_of, normalize_date_text, normalize_datetime, parse_clock, parse_wall, Clock, Day};
use kettd::models::{carry_days, patch_datetime, today, PatchValue};

fn clock(h: u32, m: u32) -> Clock {
    Clock { hour: h, minute: m }
}

#[test]
fn parse_clock_accepts_clock_and_datetime_forms() {
    assert_eq!(parse_clock("09:00"), Some(clock(9, 0)));
    assert_eq!(parse_clock(" 23:59 "), Some(clock(23, 59)));
    assert_eq!(parse_clock("2026-08-29T18:00"), Some(clock(18, 0)));
    assert_eq!(parse_clock("2026-08-29T18:00:30"), Some(clock(18, 0)));
    assert_eq!(parse_clock("18:00:30"), Some(clock(18, 0)));
    assert_eq!(parse_clock("9:00"), Some(clock(9, 0)));
}

#[test]
fn parse_clock_rejects_garbage_and_out_of_range() {
    assert_eq!(parse_clock(""), None);
    assert_eq!(parse_clock("24:00"), None);
    assert_eq!(parse_clock("12:60"), None);
    assert_eq!(parse_clock("明天"), None);
    assert_eq!(parse_clock("null"), None);
}

#[test]
fn clocks_of_keeps_multi_and_dedupes() {
    assert_eq!(clocks_of("10:00/14:00/16:00").len(), 3);
    assert_eq!(clocks_of("09:00"), vec![clock(9, 0)]);
    assert_eq!(clocks_of("09:00/09:00"), vec![clock(9, 0)]);
    assert_eq!(clocks_of("09:00/坏值/14:00"), vec![clock(9, 0), clock(14, 0)]);
    assert!(clocks_of("").is_empty());
}

#[test]
#[allow(non_snake_case)]
fn normalize_datetime_converts_v1_space_form_to_T_form() {
    assert_eq!(normalize_datetime("2026-08-29 18:00").as_deref(), Some("2026-08-29T18:00"));
}

#[test]
fn normalize_datetime_truncates_seconds_without_converting() {
    assert_eq!(normalize_datetime("2026-08-29T18:00:30").as_deref(), Some("2026-08-29T18:00"));
    assert_eq!(normalize_datetime("2026-08-29 18:00:30").as_deref(), Some("2026-08-29T18:00"));
}

#[test]
fn normalize_datetime_truncates_tz_suffix_and_never_shifts() {
    assert_eq!(normalize_datetime("2026-08-29T18:00:00Z").as_deref(), Some("2026-08-29T18:00"));
    assert_eq!(normalize_datetime("2026-08-29T18:00+08:00").as_deref(), Some("2026-08-29T18:00"));
    assert_eq!(normalize_datetime("2026-08-29T18:00:00-05:00").as_deref(), Some("2026-08-29T18:00"));
}

#[test]
fn normalize_datetime_passes_through_date_only_and_clock() {
    assert_eq!(normalize_datetime("2026-08-29").as_deref(), Some("2026-08-29"));
    assert_eq!(normalize_datetime("09:00").as_deref(), Some("09:00"));
    assert_eq!(normalize_datetime("2026-08-29T18:00").as_deref(), Some("2026-08-29T18:00"));
}

#[test]
fn normalize_datetime_nullish_and_invalid_become_none() {
    for raw in ["", "   ", "null", "None", "undefined", "NaN"] {
        assert_eq!(normalize_datetime(raw), None, "未置空：{:?}", raw);
    }
    assert_eq!(normalize_datetime("2026-13-45T10:00"), None);
    assert_eq!(normalize_datetime("2026-08-2"), None);
    assert_eq!(normalize_datetime("2026-08-29T9"), None);
}

#[test]
fn normalize_date_text_needs_a_full_date() {
    assert_eq!(normalize_date_text("2026-08-29T18:00").as_deref(), Some("2026-08-29"));
    assert_eq!(normalize_date_text("2026-08-29").as_deref(), Some("2026-08-29"));
    assert_eq!(normalize_date_text("09:00"), None);
    assert_eq!(normalize_date_text("坏值"), None);
}

#[test]
fn patch_datetime_handles_json_value_shapes() {
    assert_eq!(patch_datetime(&PatchValue::Null), None);
    assert_eq!(patch_datetime(&PatchValue::Text("2026-08-29 18:00".into())), Some("2026-08-29T18:00".to_string()));
    assert_eq!(patch_datetime(&PatchValue::Other("12345".into())), None);
    assert_eq!(patch_datetime(&PatchValue::Text("".into())), None);
}

#[test]
fn parse_wall_treats_date_only_as_midnight_and_clock_as_today() {
    let day = today();
    let date_only = parse_wall("2026-08-29", day).unwrap();
    assert_eq!((date_only.hour, date_only.minute, date_only.second), (0, 0, 0));
    let w = parse_wall("2026-08-29T18:00", day).unwrap();
    assert_eq!((w.hour, w.minute), (18, 0));
    assert_eq!(parse_wall("09:00", day).unwrap().date, day);
    assert_eq!(parse_wall("坏值", day), None);
}

#[test]
fn carry_days_counts_overdue_and_zeroes_today_and_future() {
    assert_eq!(carry_days(&None), 0);
    assert_eq!(carry_days(&Some("坏值".to_string())), 0);
    let now = chrono::Local::now().date_naive();
    let past = (now - chrono::Duration::days(3)).format("%Y-%m-%d").to_string();
    assert_eq!(carry_days(&Some(past)), 3);
    let future = (now + chrono::Duration::days(3)).format("%Y-%m-%d").to_string();
    assert_eq!(carry_days(&Some(future)), 0);
    assert_eq!(carry_days(&Some(now.format("%Y-%m-%d").to_string())), 0);
}

#[test]
fn injected_day_is_used_for_bare_clocks() {
    let d = Day { year: 2026, month: 9, day: 6 };
    let w = parse_wall(" 07:05 ", d).unwrap();
    assert_eq!((w.date, w.hour, w.minute), (d, 7, 5));
}
