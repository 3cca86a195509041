use rwedit::Position;
use rwedit::engine::{Arrow, Editor};

fn doc(lines: &[&str]) -> Editor {
    let v: Vec<Vec<u8>> = lines.iter().map(|s| s.as_bytes().to_vec()).collect();
    Editor::load(v)
}

fn text(ed: &Editor) -> Vec<u8> {
    ed.document_text()
}

#[test]
fn insert_then_backspace_restores() {
    let mut ed = doc(&["hello"]);
    ed.cursor = Position { row: 0, col: 3 };
    ed.insert_char('x');
    assert_eq!(text(&ed), b"helxlo".to_vec());
    assert_eq!(ed.cursor, Position { row: 0, col: 4 });
    ed.backspace();
    assert_eq!(text(&ed), b"hello".to_vec());
    assert_eq!(ed.cursor, Position { row: 0, col: 3 });
}

#[test]
fn insert_then_backspace_restores_multibyte() {
    let mut ed = doc(&["ab"]);
    ed.cursor = Position { row: 0, col: 1 };
    ed.insert_char('\u{00e9}');
    assert_eq!(text(&ed), "a\u{00e9}b".as_bytes().to_vec());
    assert_eq!(ed.cursor, Position { row: 0, col: 3 });
    ed.backspace();
    assert_eq!(text(&ed), b"ab".to_vec());
    assert_eq!(ed.cursor, Position { row: 0, col: 1 });
}

#[test]
fn undo_then_redo_roundtrip() {
    let mut ed = doc(&["abc"]);
    ed.cursor = Position { row: 0, col: 3 };
    ed.insert_char('!');
    assert_eq!(text(&ed), b"abc!".to_vec());
    ed.undo();
    assert_eq!(text(&ed), b"abc".to_vec());
    assert_eq!(ed.history.redo_len(), 1);
    ed.redo();
    assert_eq!(text(&ed), b"abc!".to_vec());
    assert_eq!(ed.history.undo_len(), 1);
    assert_eq!(ed.history.redo_len(), 0);
}

#[test]
fn undo_on_empty_history_is_noop() {
    let mut ed = doc(&["abc"]);
    ed.undo();
    assert_eq!(text(&ed), b"abc".to_vec());
    ed.redo();
    assert_eq!(text(&ed), b"abc".to_vec());
}

#[test]
fn undo_clamps_cursor_into_restored_buffer() {
    let mut ed = doc(&["ab"]);
    ed.cursor = Position { row: 0, col: 2 };
    ed.insert_newline();
    ed.insert_char('x');
    assert_eq!(text(&ed), b"ab\nx".to_vec());
    assert_eq!(ed.cursor, Position { row: 1, col: 1 });
    ed.undo();
    ed.undo();
    assert_eq!(text(&ed), b"ab".to_vec());
    assert!(ed.cursor.row == 0);
    assert!(ed.cursor.col <= 2);
}

#[test]
fn cursor_stays_on_boundaries_of_wide_text() {
    let mut ed = doc(&["\u{65e5}\u{672c}\u{8a9e}"]);
    ed.handle_arrow(Arrow::Right);
    assert_eq!(ed.cursor, Position { row: 0, col: 3 });
    ed.handle_arrow(Arrow::Right);
    assert_eq!(ed.cursor, Position { row: 0, col: 6 });
    ed.handle_arrow(Arrow::Right);
    assert_eq!(ed.cursor, Position { row: 0, col: 9 });
    ed.handle_arrow(Arrow::Right);
    assert_eq!(ed.cursor, Position { row: 0, col: 9 });
    ed.handle_arrow(Arrow::Left);
    assert_eq!(ed.cursor, Position { row: 0, col: 6 });
    ed.handle_arrow(Arrow::Left);
    assert_eq!(ed.cursor, Position { row: 0, col: 3 });
    ed.handle_arrow(Arrow::Left);
    assert_eq!(ed.cursor, Position { row: 0, col: 0 });
}

#[test]
fn arrows_wrap_between_rows() {
    let mut ed = doc(&["ab", "cd"]);
    ed.cursor = Position { row: 0, col: 2 };
    ed.handle_arrow(Arrow::Right);
    assert_eq!(ed.cursor, Position { row: 1, col: 0 });
    ed.handle_arrow(Arrow::Left);
    assert_eq!(ed.cursor, Position { row: 0, col: 2 });
    ed.handle_arrow(Arrow::Down);
    assert_eq!(ed.cursor, Position { row: 1, col: 2 });
    ed.handle_arrow(Arrow::Up);
    assert_eq!(ed.cursor, Position { row: 0, col: 2 });
}

#[test]
fn copy_paste_reproduces_multiline_selection() {
    let mut ed = doc(&["abcd", "efgh", "ijkl"]);
    ed.sel_start = Some(Position { row: 0, col: 2 });
    ed.sel_end = Some(Position { row: 2, col: 2 });
    let copied = ed.copy_text().unwrap();
    assert_eq!(copied, b"cd\nefgh\nij".to_vec());
    let mut other = doc(&["xy"]);
    other.cursor = Position { row: 0, col: 1 };
    other.paste(&copied);
    assert_eq!(text(&other), b"xcd\nefgh\nijy".to_vec());
    assert_eq!(other.cursor, Position { row: 2, col: 2 });
    other.sel_start = Some(Position { row: 0, col: 1 });
    other.sel_end = Some(Position { row: 2, col: 2 });
    assert_eq!(other.copy_text().unwrap(), copied);
}

#[test]
fn select_all_three_lines() {
    let mut ed = doc(&["ab", "", "xyz"]);
    ed.select_all();
    assert_eq!(ed.sel_start, Some(Position { row: 0, col: 0 }));
    assert_eq!(ed.sel_end, Some(Position { row: 2, col: 3 }));
    assert_eq!(ed.copy_text().unwrap(), b"ab\n\nxyz".to_vec());
}

#[test]
fn search_wraps_to_earlier_row() {
    let mut ed = doc(&["aaa", "xx needle yy", "bbb", "ccc", "ddd", "eee"]);
    ed.cursor = Position { row: 5, col: 0 };
    let q = b"needle".to_vec();
    let hit = ed.search(&q);
    assert_eq!(hit, Some(Position { row: 1, col: 3 }));
    assert_eq!(ed.cursor, Position { row: 1, col: 3 });
}

#[test]
fn search_misses_leave_cursor_alone() {
    let mut ed = doc(&["aaa", "bbb"]);
    ed.cursor = Position { row: 1, col: 2 };
    let q = b"zzz".to_vec();
    assert_eq!(ed.search(&q), None);
    assert_eq!(ed.cursor, Position { row: 1, col: 2 });
    let empty: Vec<u8> = Vec::new();
    assert_eq!(ed.search(&empty), None);
    assert_eq!(ed.cursor, Position { row: 1, col: 2 });
}

#[test]
fn search_finds_first_match_in_row() {
    let mut ed = doc(&["no", "ab ab"]);
    ed.cursor = Position { row: 0, col: 0 };
    let q = b"ab".to_vec();
    assert_eq!(ed.search(&q), Some(Position { row: 1, col: 0 }));
}

#[test]
fn h_scroll_keeps_cursor_inside_window() {
    let mut ed = doc(&["aaaaaaaaaaaaaaaaaaaaaaaaa"]);
    ed.cursor = Position { row: 0, col: 25 };
    ed.adjust_viewport(5, 10);
    let off = ed.h_scroll_offset;
    assert!(off <= 25 && 25 < off + 10);
    assert_eq!(off, 16);
}

#[test]
fn h_scroll_counts_wide_columns() {
    let mut ed = doc(&["\u{65e5}\u{65e5}\u{65e5}\u{65e5}\u{65e5}"]);
    ed.cursor = Position { row: 0, col: 15 };
    ed.adjust_viewport(1, 4);
    assert_eq!(ed.h_scroll_offset, 7);
}

#[test]
fn v_scroll_follows_cursor() {
    let mut ed = doc(&["a", "b", "c", "d", "e", "f"]);
    ed.cursor = Position { row: 5, col: 0 };
    ed.adjust_viewport(3, 10);
    assert_eq!(ed.scroll_offset, 3);
    ed.cursor = Position { row: 1, col: 0 };
    ed.adjust_viewport(3, 10);
    assert_eq!(ed.scroll_offset, 1);
}

#[test]
fn scroll_keys_stay_in_range() {
    let mut ed = doc(&["a", "b"]);
    ed.scroll_up();
    assert_eq!(ed.scroll_offset, 0);
    ed.scroll_down();
    assert_eq!(ed.scroll_offset, 1);
    ed.scroll_down();
    assert_eq!(ed.scroll_offset, 1);
}

#[test]
fn backspace_at_origin_is_noop() {
    let mut ed = Editor::new();
    ed.backspace();
    assert_eq!(ed.buffer.num_lines(), 1);
    assert_eq!(ed.buffer.line_len(0), 0);
    assert_eq!(ed.cursor, Position { row: 0, col: 0 });
    assert_eq!(ed.history.undo_len(), 0);
}

#[test]
fn backspace_joins_rows() {
    let mut ed = doc(&["ab", "cd"]);
    ed.cursor = Position { row: 1, col: 0 };
    ed.backspace();
    assert_eq!(text(&ed), b"abcd".to_vec());
    assert_eq!(ed.cursor, Position { row: 0, col: 2 });
}

#[test]
fn newline_splits_row() {
    let mut ed = doc(&["hello"]);
    ed.cursor = Position { row: 0, col: 2 };
    ed.insert_newline();
    assert_eq!(text(&ed), b"he\nllo".to_vec());
    assert_eq!(ed.cursor, Position { row: 1, col: 0 });
}

#[test]
fn delete_selection_splices_rows() {
    let mut ed = doc(&["abcd", "efgh", "ijkl"]);
    ed.sel_start = Some(Position { row: 2, col: 2 });
    ed.sel_end = Some(Position { row: 0, col: 2 });
    ed.delete_selection();
    assert_eq!(text(&ed), b"abkl".to_vec());
    assert_eq!(ed.cursor, Position { row: 0, col: 2 });
    assert_eq!(ed.sel_start, None);
    assert_eq!(ed.history.undo_len(), 1);
}

#[test]
fn cut_hands_out_text_and_deletes() {
    let mut ed = doc(&["hello"]);
    ed.sel_start = Some(Position { row: 0, col: 1 });
    ed.sel_end = Some(Position { row: 0, col: 4 });
    let cut = ed.cut_text().unwrap();
    assert_eq!(cut, b"ell".to_vec());
    assert_eq!(text(&ed), b"ho".to_vec());
    assert_eq!(ed.cut_text(), None);
}

#[test]
fn typing_over_selection_replaces_it() {
    let mut ed = doc(&["hello"]);
    ed.sel_start = Some(Position { row: 0, col: 1 });
    ed.sel_end = Some(Position { row: 0, col: 4 });
    ed.insert_char('u');
    assert_eq!(text(&ed), b"huo".to_vec());
    assert_eq!(ed.cursor, Position { row: 0, col: 2 });
}

#[test]
fn paste_is_one_undo_step() {
    let mut ed = doc(&["ab"]);
    ed.cursor = Position { row: 0, col: 1 };
    let clip = b"x\ny\nz".to_vec();
    ed.paste(&clip);
    assert_eq!(text(&ed), b"ax\ny\nzb".to_vec());
    assert_eq!(ed.cursor, Position { row: 2, col: 1 });
    assert_eq!(ed.history.undo_len(), 1);
    ed.undo();
    assert_eq!(text(&ed), b"ab".to_vec());
}

#[test]
fn word_moves_step_over_blank_runs() {
    let mut ed = doc(&["foo bar baz"]);
    ed.move_word_right();
    assert_eq!(ed.cursor, Position { row: 0, col: 4 });
    ed.move_word_right();
    assert_eq!(ed.cursor, Position { row: 0, col: 8 });
    ed.move_word_right();
    assert_eq!(ed.cursor, Position { row: 0, col: 11 });
    ed.move_word_left();
    assert_eq!(ed.cursor, Position { row: 0, col: 7 });
}

#[test]
fn word_moves_wrap_at_row_edges() {
    let mut ed = doc(&["ab", "cd"]);
    ed.cursor = Position { row: 0, col: 2 };
    ed.move_word_right();
    assert_eq!(ed.cursor, Position { row: 1, col: 0 });
    ed.move_word_left();
    assert_eq!(ed.cursor, Position { row: 0, col: 2 });
}

#[test]
fn accel_moves_double_and_reset() {
    let mut ed = doc(&["abcdefghijklmnopqrst"]);
    assert_eq!(ed.accel, 8);
    ed.move_accel_right();
    assert_eq!(ed.cursor, Position { row: 0, col: 8 });
    assert_eq!(ed.accel, 16);
    ed.move_accel_right();
    assert_eq!(ed.cursor, Position { row: 0, col: 20 });
    assert_eq!(ed.accel, 32);
    ed.reset_accel();
    assert_eq!(ed.accel, 8);
}

#[test]
fn shift_arrows_grow_a_selection() {
    let mut ed = doc(&["abc"]);
    ed.set_shift_selection(true);
    ed.handle_arrow(Arrow::Right);
    ed.handle_arrow(Arrow::Right);
    assert_eq!(ed.sel_start, Some(Position { row: 0, col: 0 }));
    assert_eq!(ed.sel_end, Some(Position { row: 0, col: 2 }));
    assert_eq!(ed.copy_text().unwrap(), b"ab".to_vec());
    ed.set_shift_selection(false);
    ed.selection_reset();
    assert_eq!(ed.copy_text(), None);
}

#[test]
fn load_of_nothing_yields_one_empty_line() {
    let ed = Editor::load(Vec::new());
    assert_eq!(ed.buffer.num_lines(), 1);
    assert_eq!(ed.buffer.line_len(0), 0);
    assert_eq!(text(&ed), Vec::<u8>::new());
}

#[test]
fn document_text_joins_rows_without_trailing_newline() {
    let ed = doc(&["ab", "", "c"]);
    assert_eq!(text(&ed), b"ab\n\nc".to_vec());
}
