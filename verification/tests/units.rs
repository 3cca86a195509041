use rwedit::metrics::{next_grapheme_boundary, prev_grapheme_boundary, display_width_up_to};
use rwedit::search::find_in_line;
use rwedit::text::{split_newlines, join_newlines, encode_char};
use rwedit::viewport::adjust_window;
use rwedit::buffer::TextBuffer;
use rwedit::Position;

#[test]
fn split_and_join_are_inverse() {
    let t = b"one\n\ntwo\n".to_vec();
    let parts = split_newlines(&t);
    assert_eq!(parts.len(), 4);
    assert_eq!(parts[0], b"one".to_vec());
    assert_eq!(parts[1], Vec::<u8>::new());
    assert_eq!(parts[2], b"two".to_vec());
    assert_eq!(parts[3], Vec::<u8>::new());
    assert_eq!(join_newlines(&parts), t);
}

#[test]
fn encode_char_gives_utf8_bytes() {
    assert_eq!(encode_char('a'), vec![0x61]);
    assert_eq!(encode_char('\u{00e9}'), vec![0xC3, 0xA9]);
    assert_eq!(encode_char('\u{65e5}'), vec![0xE6, 0x97, 0xA5]);
    assert_eq!(encode_char('\u{1f600}'), vec![0xF0, 0x9F, 0x98, 0x80]);
}

#[test]
fn boundaries_step_over_combining_marks() {
    let line = "e\u{301}x".as_bytes().to_vec();
    assert_eq!(next_grapheme_boundary(&line, 0), 3);
    assert_eq!(next_grapheme_boundary(&line, 3), 4);
    assert_eq!(prev_grapheme_boundary(&line, 4), 3);
    assert_eq!(prev_grapheme_boundary(&line, 3), 0);
}

#[test]
fn display_width_doubles_for_wide_chars() {
    let line = "a\u{65e5}b".as_bytes().to_vec();
    assert_eq!(display_width_up_to(&line, 1), 1);
    assert_eq!(display_width_up_to(&line, 4), 3);
    assert_eq!(display_width_up_to(&line, 5), 4);
}

#[test]
fn find_in_line_returns_first_hit() {
    let line = b"xabxab".to_vec();
    let q = b"ab".to_vec();
    assert_eq!(find_in_line(&line, &q), Some(1));
    let missing = b"zz".to_vec();
    assert_eq!(find_in_line(&line, &missing), None);
}

#[test]
fn window_adjusts_only_when_needed() {
    assert_eq!(adjust_window(5, 2, 10), 2);
    assert_eq!(adjust_window(5, 7, 10), 5);
    assert_eq!(adjust_window(5, 25, 10), 16);
}

#[test]
fn buffer_delete_range_within_one_row() {
    let mut b = TextBuffer::from_lines(vec![b"hello".to_vec()]);
    b.delete_range(Position { row: 0, col: 1 }, Position { row: 0, col: 4 });
    assert_eq!(b.text(), b"ho".to_vec());
}

#[test]
fn buffer_selected_text_clamps_columns() {
    let b = TextBuffer::from_lines(vec![b"ab".to_vec(), b"cd".to_vec()]);
    let t = b.selected_text(Position { row: 0, col: 1 }, Position { row: 1, col: 99 });
    assert_eq!(t, b"b\ncd".to_vec());
}
