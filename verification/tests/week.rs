use kettd::datetime::Day;
use kettd::week::{iso_week_label, week_range, week_start};

#[test]
fn week_start_and_range_cover_monday_to_sunday() {
    let monday = week_start("2026-W36").unwrap();
    assert_eq!(monday.weekday_from_monday(), 0);
    let (start, end) = week_range(&monday).unwrap();
    assert_eq!(start, monday);
    assert_eq!(end.day_number() - start.day_number(), 6, "周区间必须是周一到周日共 7 天");
    assert_eq!(week_start("2026W36"), Some(monday));
}

#[test]
fn week_start_rejects_bad_numbers_and_shapes() {
    assert!(week_start("2026-W0").is_none());
    assert!(week_start("2026-W54").is_none());
    assert!(week_start("2026-Wabc").is_none());
    assert!(week_start("not-a-week").is_none());
}

#[test]
fn week_start_of_a_known_week() {
    assert_eq!(week_start("2026-W36"), Some(Day { year: 2026, month: 8, day: 31 }));
    assert_eq!(week_start(" 2026-w01 "), Some(Day { year: 2025, month: 12, day: 29 }));
    assert_eq!(week_start("2026-W+3"), Some(Day { year: 2026, month: 1, day: 12 }));
}

#[test]
fn iso_week_label_pads_the_week_number() {
    assert_eq!(iso_week_label(&Day { year: 2026, month: 8, day: 31 }), "2026-W36");
    assert_eq!(iso_week_label(&Day { year: 2026, month: 1, day: 5 }), "2026-W02");
    assert_eq!(iso_week_label(&Day { year: 2026, month: 1, day: 1 }), "2026-W01");
    assert_eq!(iso_week_label(&Day { year: 2027, month: 1, day: 1 }), "2026-W53");
}

#[test]
fn label_of_a_monday_names_that_monday() {
    let monday = Day { year: 2026, month: 3, day: 2 };
    let label = iso_week_label(&monday);
    assert_eq!(week_start(&label), Some(monday));
}
