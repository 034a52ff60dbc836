use httpfile::{Error, Header, LineSource, Scroll, SpinnerState};

#[test]
fn header_line_splits_on_first_separator() {
    let h = Header::parse("content-type: application/json".to_owned()).unwrap();
    assert_eq!(h.name, "content-type");
    assert_eq!(h.value, "application/json");
}

#[test]
fn header_without_separator_fails_invalid_name() {
    let result = Header::parse("content-type application/json".to_owned());
    assert!(matches!(result, Err(Error::InvalidHeaderName)));
}

#[test]
fn header_with_nothing_after_separator_fails_invalid_value() {
    let result = Header::parse("Name: ".to_owned());
    assert!(matches!(result, Err(Error::InvalidHeaderValue)));
}

#[test]
fn header_value_is_truncated_at_second_separator() {
    let h = Header::parse("a: b: c".to_owned()).unwrap();
    assert_eq!(h.name, "a");
    assert_eq!(h.value, "b");
}

#[test]
fn header_with_empty_name_keeps_its_value() {
    let h = Header::parse(": v".to_owned()).unwrap();
    assert_eq!(h.name, "");
    assert_eq!(h.value, "v");
}

#[test]
fn line_source_hands_out_lines_in_order() {
    let mut src = LineSource::new("one\ntwo\nthree");
    assert!(src.has_data());
    assert_eq!(src.next_line().unwrap(), "one");
    assert_eq!(src.next_line().unwrap(), "two");
    assert!(src.has_data());
    assert_eq!(src.next_line().unwrap(), "three");
    assert!(!src.has_data());
    assert!(src.next_line().is_none());
}

#[test]
fn line_source_on_empty_input_has_no_data() {
    let mut src = LineSource::new("");
    assert!(!src.has_data());
    assert!(src.next_line().is_none());
}

#[test]
fn scroll_moves_and_reports_row_column() {
    let mut s = Scroll::default();
    s.scroll(3, 5);
    assert_eq!(s.to_tuple(), (5, 3));
    s.scroll(-1, -2);
    assert_eq!(s.to_tuple(), (3, 2));
}

#[test]
fn scroll_saturates_at_zero_and_at_max() {
    let mut s = Scroll::default();
    s.scroll(-4, -4);
    assert_eq!(s.to_tuple(), (0, 0));
    for _ in 0..3 {
        s.scroll(32000, 32000);
    }
    assert_eq!(s.to_tuple(), (65535, 65535));
}

#[test]
fn spinner_cycles_through_frames() {
    let mut st = SpinnerState::default();
    assert_eq!(st.advance(4), 0);
    assert_eq!(st.advance(4), 1);
    assert_eq!(st.advance(4), 2);
    assert_eq!(st.advance(4), 3);
    assert_eq!(st.advance(4), 0);
}
