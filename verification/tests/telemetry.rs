use chrono::Datelike;
use kettd::telemetry::{count_in_week, count_in_week_of, p50_ms};

#[test]
fn p50_odd_and_even() {
    assert_eq!(p50_ms(&[300, 100, 200]), Some(200));
    assert_eq!(p50_ms(&[100, 200, 300, 400]), Some(250));
    assert_eq!(p50_ms(&[]), None);
    assert_eq!(p50_ms(&[42]), Some(42));
}

#[test]
fn p50_of_negative_mean_rounds_toward_zero() {
    assert_eq!(p50_ms(&[-3, 0]), Some(-1));
}

#[test]
fn count_in_week_filters_name_and_week() {
    let same = chrono::Local::now().to_rfc3339_opts(chrono::SecondsFormat::Secs, false);
    let ev = vec![
        ("capture_commit".to_string(), same.clone()),
        ("capture_commit".to_string(), same.clone()),
        ("app_launch".to_string(), same.clone()),
    ];
    let dt: chrono::DateTime<chrono::Local> = chrono::DateTime::parse_from_rfc3339(&same).unwrap().into();
    let wk = dt.iso_week().year() * 100 + dt.iso_week().week() as i32;
    assert_eq!(count_in_week(&ev, wk), 2);
    assert_eq!(count_in_week(&ev, 199901), 0);
}

#[test]
fn count_in_week_of_uses_the_given_weeks() {
    let ev = vec![
        ("capture_commit".to_string(), "a".to_string()),
        ("capture_commit".to_string(), "b".to_string()),
        ("other".to_string(), "c".to_string()),
    ];
    let weeks = vec![Some(202636), None, Some(202636)];
    assert_eq!(count_in_week_of(&ev, &weeks, 202636), 1);
}

#[test]
fn parse_line_reads_nested_props() {
    let line = r#"{"ts":"2026-09-04T10:00:00+08:00","event":"capture_commit","props":{"latency_ms":812}}"#;
    let e = kettd::telemetry::event_of_line(line).unwrap();
    assert_eq!(e.event, "capture_commit");
    assert_eq!(e.latency_ms, Some(812));
    assert_eq!(e.reason, None);

    let miss = r#"{"ts":"2026-09-04T10:00:00+08:00","event":"reminder_missed","props":{"reason":"dnd"}}"#;
    assert_eq!(kettd::telemetry::event_of_line(miss).unwrap().reason.as_deref(), Some("dnd"));
}

#[test]
fn lines_without_a_name_or_stamp_are_not_events() {
    assert!(kettd::telemetry::event_of_line(r#"{"event":"capture_commit"}"#).is_none());
    assert!(kettd::telemetry::event_of_line(r#"{"event":1,"ts":"x"}"#).is_none());
    assert!(kettd::telemetry::event_of_line("not json").is_none());
    let e = kettd::telemetry::event_of_line(r#"{"event":"a","ts":"t","props":{"latency_ms":1.5,"reason":3}}"#).unwrap();
    assert_eq!((e.latency_ms, e.reason), (None, None));
}

#[test]
fn recent_events_keep_the_last_non_blank_lines_that_read_as_events() {
    let text = "{\"event\":\"a\",\"ts\":\"1\"}\r\n\n  \ngarbage\n{\"event\":\"b\",\"ts\":\"2\"}\r\n{\"event\":\"c\",\"ts\":\"3\"}\n";
    let all: Vec<String> = kettd::telemetry::recent_events(text, 10).into_iter().map(|e| e.event).collect();
    assert_eq!(all, vec!["a", "b", "c"]);
    let last_three: Vec<String> = kettd::telemetry::recent_events(text, 3).into_iter().map(|e| e.event).collect();
    assert_eq!(last_three, vec!["b", "c"], "garbage takes one of the three lines");
    assert!(kettd::telemetry::recent_events(text, 0).is_empty());
}

#[test]
fn a_stamp_that_does_not_parse_never_counts() {
    let events = vec![
        ("capture_commit".to_string(), "2026-13-40T99:00:00Z".to_string()),
        ("capture_commit".to_string(), "yesterday".to_string()),
    ];
    for week in [202601, 202636, 0] {
        assert_eq!(count_in_week(&events, week), 0);
    }
}
