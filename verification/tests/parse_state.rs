use fmt_runner::ParseState;

#[test]
fn test_new_parse_state() {
    let source = "fn main() {}".to_string();
    let state = ParseState::new(source.clone());
    assert_eq!(state.source(), source.as_str());
    assert!(!state.has_tree());
    assert!(state.tree().is_none());
}

#[test]
fn test_has_tree() {
    let state = ParseState::new("test".to_string());
    assert!(!state.has_tree());
}

#[test]
fn test_byte_to_point_rows_and_columns() {
    let state = ParseState::new("ab\ncd\n".to_string());
    assert_eq!(state.byte_to_point(0), (0, 0));
    assert_eq!(state.byte_to_point(1), (0, 1));
    assert_eq!(state.byte_to_point(2), (0, 2));
    assert_eq!(state.byte_to_point(3), (1, 0));
    assert_eq!(state.byte_to_point(4), (1, 1));
    assert_eq!(state.byte_to_point(6), (2, 0));
}

#[test]
fn test_byte_to_point_clamps_past_end() {
    let state = ParseState::new("ab".to_string());
    assert_eq!(state.byte_to_point(99), (0, 2));
}

#[test]
fn test_replace_range_updates_source_and_lines() {
    let mut state = ParseState::new("one\ntwo\n".to_string());
    let replacement = "1\n1".as_bytes().to_vec();
    state.replace_range(0, 3, &replacement);
    assert_eq!(state.source(), "1\n1\ntwo\n");
    assert_eq!(state.byte_to_point(2), (1, 0));
    assert_eq!(state.byte_to_point(4), (2, 0));
}
