use candy_frontend::position::{
    format_range, line_start_offsets_raw, offset_to_position, range_to_positions, Offset,
    Position,
};

fn position(line: usize, character: usize) -> Position {
    Position { line, character }
}

#[test]
fn line_starts_follow_line_feeds() {
    assert_eq!(line_start_offsets_raw(""), vec![Offset(0)]);
    assert_eq!(line_start_offsets_raw("a\nbc\n"), vec![Offset(0), Offset(2), Offset(5)]);
    assert_eq!(line_start_offsets_raw("ä\nx"), vec![Offset(0), Offset(3)]);
}

#[test]
fn positions_of_offsets() {
    let text = "a\nbc\nd";
    assert_eq!(offset_to_position(Some(text), Offset(0)), position(0, 0));
    assert_eq!(offset_to_position(Some(text), Offset(2)), position(1, 0));
    assert_eq!(offset_to_position(Some(text), Offset(3)), position(1, 1));
    assert_eq!(offset_to_position(Some(text), Offset(6)), position(2, 1));
    assert_eq!(offset_to_position(Some(text), Offset(100)), position(2, 1));
    assert_eq!(offset_to_position(None, Offset(0)), position(0, 0));
}

#[test]
fn positions_count_grapheme_clusters() {
    assert_eq!(offset_to_position(Some("e\u{301}x"), Offset(3)), position(0, 1));
    assert_eq!(offset_to_position(Some("e\u{301}x"), Offset(4)), position(0, 2));
    assert_eq!(offset_to_position(Some("äb"), Offset(2)), position(0, 1));
    assert_eq!(offset_to_position(Some("a\r\nb"), Offset(3)), position(1, 0));
}

#[test]
fn ranges_of_positions() {
    let range = range_to_positions(Some("ab\ncd"), Offset(1)..Offset(4));
    assert_eq!(range.start, position(0, 1));
    assert_eq!(range.end, position(1, 1));
    assert_eq!(format_range(&range), "1:2 – 2:2");
    assert_eq!(position(0, 4).to_string(), "1:5");
}
