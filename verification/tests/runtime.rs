use kettd::runtime::{corner_preference_for, note_label, DWMWCP_DONOTROUND, DWMWCP_ROUND};

#[test]
fn restored_window_gets_round_corners() {
    assert_eq!(corner_preference_for(false), DWMWCP_ROUND);
}

#[test]
fn maximized_window_gets_square_corners() {
    assert_eq!(corner_preference_for(true), DWMWCP_DONOTROUND);
}

#[test]
fn note_windows_are_labelled_by_id() {
    assert_eq!(note_label("n1"), "note:n1");
}
