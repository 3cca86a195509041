//! The editing engine: one session owning the buffer, the cursor and
//! selection, the undo/redo history, and the viewport offsets, with the
//! operations that key dispatch invokes.
use vstd::prelude::*;
use crate::Position;
use crate::pos_le;
use crate::buffer::{
    TextBuffer, clamp_to, selection_bytes, insert_char_spec, insert_char_newcol,
    insert_newline_spec, delete_backward_spec, delete_backward_pos, delete_range_spec,
    insert_text_spec, insert_text_end,
};
use crate::history::{History, checkpoint_spec, undo_spec, redo_spec};
use crate::metrics::{
    prev_boundary, next_boundary, word_left_col, word_right_col, display_width_before,
    prev_grapheme_boundary, next_grapheme_boundary, word_left_boundary, word_right_boundary,
    display_width_up_to, is_grapheme_boundary,
};
use crate::viewport::{window_adjusted, adjust_window};
use crate::search::{search_from, match_at, line_contains};

verus! {

/// An arrow key.
#[derive(Clone, Copy, PartialEq, Eq, Structural, Debug)]
pub enum Arrow {
    Left,
    Right,
    Up,
    Down,
}

/// `p` with its row pulled into the buffer, for defensive use of stale
/// selection endpoints.
pub open spec fn row_clamped(lines: Seq<Seq<u8>>, p: Position) -> Position
    recommends
        lines.len() >= 1,
{
    if (p.row as int) < lines.len() {
        p
    } else {
        Position { row: (lines.len() - 1) as usize, col: p.col }
    }
}

/// Cursor after a leftward move: the previous grapheme boundary, or the end
/// of the previous row, or (0,0).
pub open spec fn left_of(lines: Seq<Seq<u8>>, r: int, c: int) -> (int, int)
    recommends
        0 <= r < lines.len(),
{
    if c > 0 {
        (r, prev_boundary(lines[r], c))
    } else if r > 0 {
        (r - 1, lines[r - 1].len() as int)
    } else {
        (0, 0)
    }
}

/// Cursor after a rightward move: the next grapheme boundary, or the start
/// of the next row, or unchanged at the document's end.
pub open spec fn right_of(lines: Seq<Seq<u8>>, r: int, c: int) -> (int, int)
    recommends
        0 <= r < lines.len(),
{
    if c < lines[r].len() {
        (r, next_boundary(lines[r], c))
    } else if r + 1 < lines.len() {
        (r + 1, 0)
    } else {
        (r, c)
    }
}

/// Cursor after an upward move: same column clamped into the row above.
pub open spec fn up_of(lines: Seq<Seq<u8>>, r: int, c: int) -> (int, int)
    recommends
        0 <= r < lines.len(),
{
    if r > 0 {
        (r - 1, clamp_to(c, lines[r - 1].len() as int))
    } else {
        (r, c)
    }
}

/// Cursor after a downward move: same column clamped into the row below.
pub open spec fn down_of(lines: Seq<Seq<u8>>, r: int, c: int) -> (int, int)
    recommends
        0 <= r < lines.len(),
{
    if r + 1 < lines.len() {
        (r + 1, clamp_to(c, lines[r + 1].len() as int))
    } else {
        (r, c)
    }
}

/// Cursor after the move that `key` names.
pub open spec fn arrow_of(lines: Seq<Seq<u8>>, r: int, c: int, key: Arrow) -> (int, int)
    recommends
        0 <= r < lines.len(),
{
    match key {
        Arrow::Left => left_of(lines, r, c),
        Arrow::Right => right_of(lines, r, c),
        Arrow::Up => up_of(lines, r, c),
        Arrow::Down => down_of(lines, r, c),
    }
}

/// Cursor after a leftward word move: back to (and onto) the nearest blank
/// cluster, or the line start, wrapping to the previous row's end first.
pub open spec fn word_left_of(lines: Seq<Seq<u8>>, r: int, c: int) -> (int, int)
    recommends
        0 <= r < lines.len(),
{
    if c == 0 && r == 0 {
        (0, 0)
    } else if c == 0 {
        (r - 1, lines[r - 1].len() as int)
    } else {
        (r, word_left_col(lines[r], c))
    }
}

/// Cursor after a rightward word move: past the next run of blank clusters
/// or to the line end, wrapping to the next row's start first.
pub open spec fn word_right_of(lines: Seq<Seq<u8>>, r: int, c: int) -> (int, int)
    recommends
        0 <= r < lines.len(),
{
    if c == lines[r].len() && r + 1 >= lines.len() {
        (r, c)
    } else if c == lines[r].len() {
        (r + 1, 0)
    } else {
        (r, word_right_col(lines[r], c))
    }
}

/// `n` leftward moves in a row.
pub open spec fn left_n_of(lines: Seq<Seq<u8>>, r: int, c: int, n: nat) -> (int, int)
    decreases n,
{
    if n == 0 {
        (r, c)
    } else {
        let (r1, c1) = left_of(lines, r, c);
        left_n_of(lines, r1, c1, (n - 1) as nat)
    }
}

/// `n` rightward moves in a row.
pub open spec fn right_n_of(lines: Seq<Seq<u8>>, r: int, c: int, n: nat) -> (int, int)
    decreases n,
{
    if n == 0 {
        (r, c)
    } else {
        let (r1, c1) = right_of(lines, r, c);
        right_n_of(lines, r1, c1, (n - 1) as nat)
    }
}

/// Display-column position of the cursor within its row, saturated at the
/// top of `usize`.
pub open spec fn sat_width(line: Seq<u8>, col: int) -> int {
    let w = display_width_before(line, col);
    if w <= usize::MAX as int {
        w
    } else {
        usize::MAX as int
    }
}

/// The base step of accelerated moves, and its cap.
pub const ACCEL_BASE: usize = 8;

pub const ACCEL_CAP: usize = 1024;

/// One editing session.
pub struct Editor {
    pub buffer: TextBuffer,
    pub cursor: Position,
    pub sel_start: Option<Position>,
    pub sel_end: Option<Position>,
    pub shift_selection: bool,
    pub history: History,
    pub scroll_offset: usize,
    pub h_scroll_offset: usize,
    pub accel: usize,
}

impl Editor {
    /// Session invariant: the buffer is never empty, the cursor sits on a
    /// row of the buffer at a column no past its end, and the acceleration
    /// step stays within its bounds.
    pub open spec fn wf(&self) -> bool {
        &&& self.buffer.wf()
        &&& (self.cursor.row as int) < self.buffer@.len()
        &&& self.cursor.col <= self.buffer@[self.cursor.row as int].len()
        &&& ACCEL_BASE <= self.accel <= ACCEL_CAP
    }

    /// A selection is active and non-empty.
    pub open spec fn has_selection(&self) -> bool {
        match (self.sel_start, self.sel_end) {
            (Some(a), Some(b)) => a != b,
            _ => false,
        }
    }

    /// The selection endpoints, rows clamped into the buffer, in document
    /// order.
    pub open spec fn sel_endpoints(&self) -> (Position, Position)
        recommends
            self.has_selection(),
    {
        match (self.sel_start, self.sel_end) {
            (Some(a), Some(b)) => {
                let ac = row_clamped(self.buffer@, a);
                let bc = row_clamped(self.buffer@, b);
                if pos_le(ac, bc) {
                    (ac, bc)
                } else {
                    (bc, ac)
                }
            },
            _ => (Position { row: 0, col: 0 }, Position { row: 0, col: 0 }),
        }
    }

    /// The selection fields are untouched.
    pub open spec fn same_selection(&self, o: &Editor) -> bool {
        &&& self.sel_start == o.sel_start
        &&& self.sel_end == o.sel_end
        &&& self.shift_selection == o.shift_selection
    }

    /// The history stacks are untouched.
    pub open spec fn same_history(&self, o: &Editor) -> bool {
        &&& self.history.undo_stack() == o.history.undo_stack()
        &&& self.history.redo_stack() == o.history.redo_stack()
    }

    /// The viewport offsets and the acceleration step are untouched.
    pub open spec fn same_view(&self, o: &Editor) -> bool {
        &&& self.scroll_offset == o.scroll_offset
        &&& self.h_scroll_offset == o.h_scroll_offset
        &&& self.accel == o.accel
    }

    /// A new, empty document.
    pub fn new() -> (e: Editor)
        ensures
            e.wf(),
            e.buffer@ == seq![Seq::<u8>::empty()],
            e.cursor == (Position { row: 0, col: 0 }),
            e.sel_start is None && e.sel_end is None && !e.shift_selection,
            e.history.undo_stack().len() == 0 && e.history.redo_stack().len() == 0,
            e.scroll_offset == 0 && e.h_scroll_offset == 0,
            e.accel == ACCEL_BASE,
    {
        Editor {
            buffer: TextBuffer::new(),
            cursor: Position { row: 0, col: 0 },
            sel_start: None,
            sel_end: None,
            shift_selection: false,
            history: History::new(),
            scroll_offset: 0,
            h_scroll_offset: 0,
            accel: ACCEL_BASE,
        }
    }

    /// Open a document from loaded lines: the history is reset and the
    /// cursor returns to the document start.
    pub fn load(lines: Vec<Vec<u8>>) -> (e: Editor)
        ensures
            e.wf(),
            lines@.len() == 0 ==> e.buffer@ == seq![Seq::<u8>::empty()],
            lines@.len() > 0 ==> e.buffer@ == lines.deep_view(),
            e.cursor == (Position { row: 0, col: 0 }),
            e.sel_start is None && e.sel_end is None && !e.shift_selection,
            e.history.undo_stack().len() == 0 && e.history.redo_stack().len() == 0,
            e.scroll_offset == 0 && e.h_scroll_offset == 0,
            e.accel == ACCEL_BASE,
    {
        Editor {
            buffer: TextBuffer::from_lines(lines),
            cursor: Position { row: 0, col: 0 },
            sel_start: None,
            sel_end: None,
            shift_selection: false,
            history: History::new(),
            scroll_offset: 0,
            h_scroll_offset: 0,
            accel: ACCEL_BASE,
        }
    }

    /// Push the current buffer onto the undo stack and clear the redo
    /// stack, immediately before a logical edit.
    pub fn save_checkpoint(&mut self)
        requires
            old(self).wf(),
        ensures
            final(self).wf(),
            (final(self).history.undo_stack(), final(self).history.redo_stack())
                == checkpoint_spec(old(self).history.undo_stack(), old(self).buffer@),
            final(self).buffer == old(self).buffer,
            final(self).cursor == old(self).cursor,
            final(self).same_selection(old(self)),
            final(self).same_view(old(self)),
    {
        let snap = self.buffer.snapshot();
        self.history.checkpoint(snap);
    }

    fn has_selection_now(&self) -> (r: bool)
        ensures
            r == self.has_selection(),
    {
        match (&self.sel_start, &self.sel_end) {
            (Some(a), Some(b)) => !(a.row == b.row && a.col == b.col),
            _ => false,
        }
    }

    /// The normalized, row-clamped selection endpoints.
    fn sel_bounds(&self) -> (r: (Position, Position))
        requires
            self.wf(),
            self.has_selection(),
        ensures
            r == self.sel_endpoints(),
            pos_le(r.0, r.1),
            r.0.row < self.buffer@.len(),
            r.1.row < self.buffer@.len(),
    {
        let n = self.buffer.num_lines();
        let a = match &self.sel_start {
            Some(p) => Position { row: p.row, col: p.col },
            None => Position { row: 0, col: 0 },
        };
        let b = match &self.sel_end {
            Some(p) => Position { row: p.row, col: p.col },
            None => Position { row: 0, col: 0 },
        };
        let ac = if a.row < n {
            a
        } else {
            Position { row: n - 1, col: a.col }
        };
        let bc = if b.row < n {
            b
        } else {
            Position { row: n - 1, col: b.col }
        };
        if crate::position_le(ac, bc) {
            (ac, bc)
        } else {
            (bc, ac)
        }
    }

    /// Delete the selected range as one checkpointed edit; without an
    /// active selection nothing happens at all.
    pub fn delete_selection(&mut self)
        requires
            old(self).wf(),
        ensures
            final(self).wf(),
            !old(self).has_selection() ==> *final(self) == *old(self),
            old(self).has_selection() ==> ({
                let (s, e) = old(self).sel_endpoints();
                &&& final(self).buffer@ == delete_range_spec(old(self).buffer@, s, e)
                &&& final(self).cursor.row == s.row
                &&& final(self).cursor.col as int == clamp_to(
                    s.col as int,
                    old(self).buffer@[s.row as int].len() as int,
                )
                &&& (final(self).history.undo_stack(), final(self).history.redo_stack())
                    == checkpoint_spec(old(self).history.undo_stack(), old(self).buffer@)
                &&& final(self).sel_start is None
                &&& final(self).sel_end is None
                &&& final(self).shift_selection == old(self).shift_selection
                &&& final(self).same_view(old(self))
            }),
    {
        if !self.has_selection_now() {
            return ;
        }
        let (s, e) = self.sel_bounds();
        self.save_checkpoint();
        let slen = self.buffer.line_len(s.row);
        let sc = if s.col <= slen {
            s.col
        } else {
            slen
        };
        self.buffer.delete_range(s, e);
        self.cursor = Position { row: s.row, col: sc };
        self.sel_start = None;
        self.sel_end = None;
    }

    /// Type one character: an active selection is deleted first, a
    /// checkpoint is taken, and the character lands at the cursor, which
    /// moves past it.
    pub fn insert_char(&mut self, c: char)
        requires
            old(self).wf(),
        ensures
            final(self).wf(),
            ({
                let (b1, c1, u1) = if old(self).has_selection() {
                    let (s, e) = old(self).sel_endpoints();
                    (
                        delete_range_spec(old(self).buffer@, s, e),
                        Position {
                            row: s.row,
                            col: clamp_to(
                                s.col as int,
                                old(self).buffer@[s.row as int].len() as int,
                            ) as usize,
                        },
                        old(self).history.undo_stack().push(old(self).buffer@),
                    )
                } else {
                    (old(self).buffer@, old(self).cursor, old(self).history.undo_stack())
                };
                &&& final(self).buffer@ == insert_char_spec(b1, c1.row as int, c1.col as int, c)
                &&& final(self).cursor.row == c1.row
                &&& final(self).cursor.col as int == insert_char_newcol(
                    b1,
                    c1.row as int,
                    c1.col as int,
                    c,
                )
                &&& final(self).history.undo_stack() == u1.push(b1)
                &&& final(self).history.redo_stack().len() == 0
                &&& (if old(self).has_selection() {
                    final(self).sel_start is None && final(self).sel_end is None
                } else {
                    final(self).sel_start == old(self).sel_start && final(self).sel_end == old(self).sel_end
                })
                &&& final(self).shift_selection == old(self).shift_selection
                &&& final(self).same_view(old(self))
            }),
    {
        if self.has_selection_now() {
            self.delete_selection();
        }
        self.save_checkpoint();
        let nc = self.buffer.insert(self.cursor.row, self.cursor.col, c);
        self.cursor = Position { row: self.cursor.row, col: nc };
    }

    /// Split the current line at the cursor: an active selection is deleted
    /// first, a checkpoint is taken, and the cursor moves to the start of
    /// the new row.
    pub fn insert_newline(&mut self)
        requires
            old(self).wf(),
        ensures
            final(self).wf(),
            ({
                let (b1, c1, u1) = if old(self).has_selection() {
                    let (s, e) = old(self).sel_endpoints();
                    (
                        delete_range_spec(old(self).buffer@, s, e),
                        Position {
                            row: s.row,
                            col: clamp_to(
                                s.col as int,
                                old(self).buffer@[s.row as int].len() as int,
                            ) as usize,
                        },
                        old(self).history.undo_stack().push(old(self).buffer@),
                    )
                } else {
                    (old(self).buffer@, old(self).cursor, old(self).history.undo_stack())
                };
                &&& final(self).buffer@ == insert_newline_spec(b1, c1.row as int, c1.col as int)
                &&& final(self).cursor.row as int == c1.row + 1
                &&& final(self).cursor.col == 0
                &&& final(self).history.undo_stack() == u1.push(b1)
                &&& final(self).history.redo_stack().len() == 0
                &&& (if old(self).has_selection() {
                    final(self).sel_start is None && final(self).sel_end is None
                } else {
                    final(self).sel_start == old(self).sel_start && final(self).sel_end == old(self).sel_end
                })
                &&& final(self).shift_selection == old(self).shift_selection
                &&& final(self).same_view(old(self))
            }),
    {
        if self.has_selection_now() {
            self.delete_selection();
        }
        self.save_checkpoint();
        let r = self.cursor.row;
        self.buffer.insert_newline(r, self.cursor.col);
        let n = self.buffer.num_lines();
        proof {
            assert(r as int + 2 <= n as int);
        }
        self.cursor = Position { row: r + 1, col: 0 };
    }

    /// Backspace: with an active selection, exactly a selection deletion;
    /// at the very start of the document, nothing at all (no checkpoint);
    /// otherwise a checkpointed backward deletion at the cursor.
    pub fn backspace(&mut self)
        requires
            old(self).wf(),
        ensures
            final(self).wf(),
            old(self).has_selection() ==> ({
                let (s, e) = old(self).sel_endpoints();
                &&& final(self).buffer@ == delete_range_spec(old(self).buffer@, s, e)
                &&& final(self).cursor.row == s.row
                &&& final(self).cursor.col as int == clamp_to(
                    s.col as int,
                    old(self).buffer@[s.row as int].len() as int,
                )
                &&& (final(self).history.undo_stack(), final(self).history.redo_stack())
                    == checkpoint_spec(old(self).history.undo_stack(), old(self).buffer@)
                &&& final(self).sel_start is None
                &&& final(self).sel_end is None
            }),
            !old(self).has_selection() && old(self).cursor == (Position { row: 0, col: 0 })
                ==> *final(self) == *old(self),
            !old(self).has_selection() && old(self).cursor != (Position { row: 0, col: 0 }) ==> ({
                &&& final(self).buffer@ == delete_backward_spec(
                    old(self).buffer@,
                    old(self).cursor.row as int,
                    old(self).cursor.col as int,
                )
                &&& (final(self).cursor.row as int, final(self).cursor.col as int)
                    == delete_backward_pos(
                    old(self).buffer@,
                    old(self).cursor.row as int,
                    old(self).cursor.col as int,
                )
                &&& (final(self).history.undo_stack(), final(self).history.redo_stack())
                    == checkpoint_spec(old(self).history.undo_stack(), old(self).buffer@)
                &&& final(self).same_selection(old(self))
            }),
            final(self).same_view(old(self)),
            final(self).shift_selection == old(self).shift_selection,
    {
        if self.has_selection_now() {
            self.delete_selection();
            return ;
        }
        if self.cursor.col == 0 && self.cursor.row == 0 {
            return ;
        }
        self.save_checkpoint();
        let p = self.buffer.delete_backward(self.cursor.row, self.cursor.col);
        self.cursor = p;
    }

    /// Select the whole document: anchor at (0,0), live end at the end of
    /// the last line.
    pub fn select_all(&mut self)
        requires
            old(self).wf(),
        ensures
            final(self).wf(),
            final(self).sel_start == Some(Position { row: 0, col: 0 }),
            final(self).sel_end == Some(
                Position {
                    row: (old(self).buffer@.len() - 1) as usize,
                    col: old(self).buffer@.last().len() as usize,
                },
            ),
            final(self).shift_selection,
            final(self).buffer == old(self).buffer,
            final(self).cursor == old(self).cursor,
            final(self).same_history(old(self)),
            final(self).same_view(old(self)),
    {
        let last = self.buffer.num_lines() - 1;
        let len = self.buffer.line_len(last);
        self.sel_start = Some(Position { row: 0, col: 0 });
        self.sel_end = Some(Position { row: last, col: len });
        self.shift_selection = true;
    }

    /// Drop the selection endpoints.
    pub fn selection_reset(&mut self)
        ensures
            final(self).sel_start is None,
            final(self).sel_end is None,
            final(self).buffer == old(self).buffer,
            final(self).cursor == old(self).cursor,
            final(self).shift_selection == old(self).shift_selection,
            final(self).same_history(old(self)),
            final(self).same_view(old(self)),
            old(self).wf() ==> final(self).wf(),
    {
        self.sel_start = None;
        self.sel_end = None;
    }

    /// Enter or leave selection mode, as shift is held or released.
    pub fn set_shift_selection(&mut self, on: bool)
        ensures
            final(self).shift_selection == on,
            final(self).buffer == old(self).buffer,
            final(self).cursor == old(self).cursor,
            final(self).sel_start == old(self).sel_start,
            final(self).sel_end == old(self).sel_end,
            final(self).same_history(old(self)),
            final(self).same_view(old(self)),
            old(self).wf() ==> final(self).wf(),
    {
        self.shift_selection = on;
    }

    /// Move one grapheme left, wrapping to the previous row's end.
    pub fn move_left(&mut self)
        requires
            old(self).wf(),
        ensures
            final(self).wf(),
            (final(self).cursor.row as int, final(self).cursor.col as int) == left_of(
                old(self).buffer@,
                old(self).cursor.row as int,
                old(self).cursor.col as int,
            ),
            final(self).cursor.col == 0 || is_grapheme_boundary(
                final(self).buffer@[final(self).cursor.row as int],
                final(self).cursor.col as int,
            ),
            final(self).buffer == old(self).buffer,
            final(self).same_selection(old(self)),
            final(self).same_history(old(self)),
            final(self).same_view(old(self)),
    {
        if self.cursor.col > 0 {
            let line = self.buffer.line_at(self.cursor.row);
            let nc = prev_grapheme_boundary(line, self.cursor.col);
            self.cursor = Position { row: self.cursor.row, col: nc };
        } else if self.cursor.row > 0 {
            let r = self.cursor.row - 1;
            let len = self.buffer.line_len(r);
            self.cursor = Position { row: r, col: len };
        }
    }

    /// Move one grapheme right, wrapping to the next row's start.
    pub fn move_right(&mut self)
        requires
            old(self).wf(),
        ensures
            final(self).wf(),
            (final(self).cursor.row as int, final(self).cursor.col as int) == right_of(
                old(self).buffer@,
                old(self).cursor.row as int,
                old(self).cursor.col as int,
            ),
            final(self).cursor.col == 0 || final(self).cursor == old(self).cursor
                || is_grapheme_boundary(
                final(self).buffer@[final(self).cursor.row as int],
                final(self).cursor.col as int,
            ),
            final(self).buffer == old(self).buffer,
            final(self).same_selection(old(self)),
            final(self).same_history(old(self)),
            final(self).same_view(old(self)),
    {
        let len = self.buffer.line_len(self.cursor.row);
        if self.cursor.col < len {
            let line = self.buffer.line_at(self.cursor.row);
            let nc = next_grapheme_boundary(line, self.cursor.col);
            self.cursor = Position { row: self.cursor.row, col: nc };
        } else {
            let n = self.buffer.num_lines();
            if self.cursor.row + 1 < n {
                self.cursor = Position { row: self.cursor.row + 1, col: 0 };
            }
        }
    }

    /// Move one row up, clamping the column.
    pub fn move_up(&mut self)
        requires
            old(self).wf(),
        ensures
            final(self).wf(),
            (final(self).cursor.row as int, final(self).cursor.col as int) == up_of(
                old(self).buffer@,
                old(self).cursor.row as int,
                old(self).cursor.col as int,
            ),
            final(self).buffer == old(self).buffer,
            final(self).same_selection(old(self)),
            final(self).same_history(old(self)),
            final(self).same_view(old(self)),
    {
        if self.cursor.row > 0 {
            let r = self.cursor.row - 1;
            let len = self.buffer.line_len(r);
            let c = if self.cursor.col <= len {
                self.cursor.col
            } else {
                len
            };
            self.cursor = Position { row: r, col: c };
        }
    }

    /// Move one row down, clamping the column.
    pub fn move_down(&mut self)
        requires
            old(self).wf(),
        ensures
            final(self).wf(),
            (final(self).cursor.row as int, final(self).cursor.col as int) == down_of(
                old(self).buffer@,
                old(self).cursor.row as int,
                old(self).cursor.col as int,
            ),
            final(self).buffer == old(self).buffer,
            final(self).same_selection(old(self)),
            final(self).same_history(old(self)),
            final(self).same_view(old(self)),
    {
        let n = self.buffer.num_lines();
        if self.cursor.row + 1 < n {
            let r = self.cursor.row + 1;
            let len = self.buffer.line_len(r);
            let c = if self.cursor.col <= len {
                self.cursor.col
            } else {
                len
            };
            self.cursor = Position { row: r, col: c };
        }
    }

    /// Handle an arrow key: move the cursor, and in selection mode anchor
    /// the selection at the pre-move position and track its live end.
    pub fn handle_arrow(&mut self, key: Arrow)
        requires
            old(self).wf(),
        ensures
            final(self).wf(),
            (final(self).cursor.row as int, final(self).cursor.col as int) == arrow_of(
                old(self).buffer@,
                old(self).cursor.row as int,
                old(self).cursor.col as int,
                key,
            ),
            final(self).buffer == old(self).buffer,
            final(self).same_history(old(self)),
            final(self).same_view(old(self)),
            final(self).shift_selection == old(self).shift_selection,
            old(self).shift_selection ==> final(self).sel_start == (if old(self).sel_start is None {
                Some(old(self).cursor)
            } else {
                old(self).sel_start
            }) && final(self).sel_end == Some(final(self).cursor),
            !old(self).shift_selection ==> final(self).sel_start == old(self).sel_start && final(self).sel_end == old(self).sel_end,
    {
        let anchor = self.cursor;
        match key {
            Arrow::Left => self.move_left(),
            Arrow::Right => self.move_right(),
            Arrow::Up => self.move_up(),
            Arrow::Down => self.move_down(),
        }
        if self.shift_selection {
            if self.sel_start.is_none() {
                self.sel_start = Some(anchor);
            }
            self.sel_end = Some(self.cursor);
        }
    }

    /// Word move left: to the previous row's end at column 0, otherwise
    /// back onto the nearest blank cluster or the line start.
    pub fn move_word_left(&mut self)
        requires
            old(self).wf(),
        ensures
            final(self).wf(),
            (final(self).cursor.row as int, final(self).cursor.col as int) == word_left_of(
                old(self).buffer@,
                old(self).cursor.row as int,
                old(self).cursor.col as int,
            ),
            final(self).buffer == old(self).buffer,
            final(self).same_selection(old(self)),
            final(self).same_history(old(self)),
            final(self).same_view(old(self)),
    {
        if self.cursor.col == 0 && self.cursor.row == 0 {
            return ;
        }
        if self.cursor.col == 0 {
            let r = self.cursor.row - 1;
            let len = self.buffer.line_len(r);
            self.cursor = Position { row: r, col: len };
            return ;
        }
        let line = self.buffer.line_at(self.cursor.row);
        let nc = word_left_boundary(line, self.cursor.col);
        self.cursor = Position { row: self.cursor.row, col: nc };
    }

    /// Word move right: to the next row's start at the line end, otherwise
    /// past the next blank run or to the line end.
    pub fn move_word_right(&mut self)
        requires
            old(self).wf(),
        ensures
            final(self).wf(),
            (final(self).cursor.row as int, final(self).cursor.col as int) == word_right_of(
                old(self).buffer@,
                old(self).cursor.row as int,
                old(self).cursor.col as int,
            ),
            final(self).buffer == old(self).buffer,
            final(self).same_selection(old(self)),
            final(self).same_history(old(self)),
            final(self).same_view(old(self)),
    {
        let len = self.buffer.line_len(self.cursor.row);
        let n = self.buffer.num_lines();
        if self.cursor.col == len {
            if self.cursor.row + 1 < n {
                self.cursor = Position { row: self.cursor.row + 1, col: 0 };
            }
            return ;
        }
        let line = self.buffer.line_at(self.cursor.row);
        let nc = word_right_boundary(line, self.cursor.col);
        self.cursor = Position { row: self.cursor.row, col: nc };
    }

    /// Accelerated move left: the plain move repeated `accel` times, after
    /// which the step doubles, capped.
    pub fn move_accel_left(&mut self)
        requires
            old(self).wf(),
        ensures
            final(self).wf(),
            (final(self).cursor.row as int, final(self).cursor.col as int) == left_n_of(
                old(self).buffer@,
                old(self).cursor.row as int,
                old(self).cursor.col as int,
                old(self).accel as nat,
            ),
            final(self).accel as int == (if old(self).accel * 2 <= ACCEL_CAP {
                old(self).accel * 2 as int
            } else {
                ACCEL_CAP as int
            }),
            final(self).buffer == old(self).buffer,
            final(self).same_selection(old(self)),
            final(self).same_history(old(self)),
            final(self).scroll_offset == old(self).scroll_offset,
            final(self).h_scroll_offset == old(self).h_scroll_offset,
    {
        let n = self.accel;
        let mut i: usize = 0;
        while i < n
            invariant
                0 <= i <= n,
                self.wf(),
                left_n_of(
                    self.buffer@,
                    self.cursor.row as int,
                    self.cursor.col as int,
                    (n - i) as nat,
                ) == left_n_of(
                    old(self).buffer@,
                    old(self).cursor.row as int,
                    old(self).cursor.col as int,
                    n as nat,
                ),
                self.buffer == old(self).buffer,
                self.same_selection(old(self)),
                self.same_history(old(self)),
                self.same_view(old(self)),
            decreases n - i,
        {
            self.move_left();
            i = i + 1;
        }
        let doubled = self.accel * 2;
        self.accel = if doubled <= ACCEL_CAP {
            doubled
        } else {
            ACCEL_CAP
        };
    }

    /// Accelerated move right: the plain move repeated `accel` times, after
    /// which the step doubles, capped.
    pub fn move_accel_right(&mut self)
        requires
            old(self).wf(),
        ensures
            final(self).wf(),
            (final(self).cursor.row as int, final(self).cursor.col as int) == right_n_of(
                old(self).buffer@,
                old(self).cursor.row as int,
                old(self).cursor.col as int,
                old(self).accel as nat,
            ),
            final(self).accel as int == (if old(self).accel * 2 <= ACCEL_CAP {
                old(self).accel * 2 as int
            } else {
                ACCEL_CAP as int
            }),
            final(self).buffer == old(self).buffer,
            final(self).same_selection(old(self)),
            final(self).same_history(old(self)),
            final(self).scroll_offset == old(self).scroll_offset,
            final(self).h_scroll_offset == old(self).h_scroll_offset,
    {
        let n = self.accel;
        let mut i: usize = 0;
        while i < n
            invariant
                0 <= i <= n,
                self.wf(),
                right_n_of(
                    self.buffer@,
                    self.cursor.row as int,
                    self.cursor.col as int,
                    (n - i) as nat,
                ) == right_n_of(
                    old(self).buffer@,
                    old(self).cursor.row as int,
                    old(self).cursor.col as int,
                    n as nat,
                ),
                self.buffer == old(self).buffer,
                self.same_selection(old(self)),
                self.same_history(old(self)),
                self.same_view(old(self)),
            decreases n - i,
        {
            self.move_right();
            i = i + 1;
        }
        let doubled = self.accel * 2;
        self.accel = if doubled <= ACCEL_CAP {
            doubled
        } else {
            ACCEL_CAP
        };
    }

    /// Any key without the accelerating modifier resets the step.
    pub fn reset_accel(&mut self)
        ensures
            final(self).accel == ACCEL_BASE as usize,
            final(self).buffer == old(self).buffer,
            final(self).cursor == old(self).cursor,
            final(self).same_selection(old(self)),
            final(self).same_history(old(self)),
            final(self).scroll_offset == old(self).scroll_offset,
            final(self).h_scroll_offset == old(self).h_scroll_offset,
            old(self).wf() ==> final(self).wf(),
    {
        self.accel = ACCEL_BASE;
    }

    /// The selected text, serialized for the clipboard; `None` without an
    /// active non-empty selection.
    pub fn copy_text(&self) -> (r: Option<Vec<u8>>)
        requires
            self.wf(),
        ensures
            self.has_selection() ==> ({
                let (s, e) = self.sel_endpoints();
                r matches Some(t) && t@ == selection_bytes(self.buffer@, s, e)
            }),
            !self.has_selection() ==> r is None,
    {
        if !self.has_selection_now() {
            return None;
        }
        let (s, e) = self.sel_bounds();
        Some(self.buffer.selected_text(s, e))
    }

    /// Cut: the selected text is handed out and the selection is deleted as
    /// one checkpointed edit; `None` (and no change) without a selection.
    pub fn cut_text(&mut self) -> (r: Option<Vec<u8>>)
        requires
            old(self).wf(),
        ensures
            final(self).wf(),
            !old(self).has_selection() ==> r is None && *final(self) == *old(self),
            old(self).has_selection() ==> ({
                let (s, e) = old(self).sel_endpoints();
                &&& r matches Some(t) && t@ == selection_bytes(old(self).buffer@, s, e)
                &&& final(self).buffer@ == delete_range_spec(old(self).buffer@, s, e)
                &&& final(self).cursor.row == s.row
                &&& final(self).cursor.col as int == clamp_to(
                    s.col as int,
                    old(self).buffer@[s.row as int].len() as int,
                )
                &&& (final(self).history.undo_stack(), final(self).history.redo_stack())
                    == checkpoint_spec(old(self).history.undo_stack(), old(self).buffer@)
                &&& final(self).sel_start is None
                &&& final(self).sel_end is None
                &&& final(self).same_view(old(self))
            }),
    {
        let r = self.copy_text();
        if r.is_some() {
            self.delete_selection();
        }
        r
    }

    /// Paste text at the cursor as one checkpointed edit: newline-delimited
    /// segments are inserted with a row split between each pair, and the
    /// cursor lands just after the last segment.
    pub fn paste(&mut self, text: &Vec<u8>)
        requires
            old(self).wf(),
        ensures
            final(self).wf(),
            final(self).buffer@ == insert_text_spec(
                old(self).buffer@,
                old(self).cursor.row as int,
                old(self).cursor.col as int,
                text@,
            ),
            (final(self).cursor.row as int, final(self).cursor.col as int) == insert_text_end(
                old(self).buffer@,
                old(self).cursor.row as int,
                old(self).cursor.col as int,
                text@,
            ),
            (final(self).history.undo_stack(), final(self).history.redo_stack())
                == checkpoint_spec(old(self).history.undo_stack(), old(self).buffer@),
            final(self).same_selection(old(self)),
            final(self).same_view(old(self)),
    {
        self.save_checkpoint();
        let end = self.buffer.insert_text(self.cursor.row, self.cursor.col, text);
        self.cursor = end;
    }

    /// Undo: restore the top undo snapshot, push the current state onto the
    /// redo stack, and clamp the cursor into the restored buffer. A no-op
    /// when nothing can be undone.
    pub fn undo(&mut self)
        requires
            old(self).wf(),
        ensures
            final(self).wf(),
            old(self).history.undo_stack().len() == 0 ==> final(self).buffer == old(self).buffer
                && final(self).cursor == old(self).cursor && final(self).same_selection(old(self))
                && final(self).same_history(old(self)) && final(self).same_view(old(self)),
            old(self).history.undo_stack().len() > 0 ==> ({
                let (u2, r2, b2) = undo_spec(
                    old(self).history.undo_stack(),
                    old(self).history.redo_stack(),
                    old(self).buffer@,
                );
                &&& final(self).history.undo_stack() == u2
                &&& final(self).history.redo_stack() == r2
                &&& final(self).buffer@ == (if b2.len() == 0 {
                    seq![Seq::<u8>::empty()]
                } else {
                    b2
                })
                &&& final(self).cursor.row as int == (if (old(self).cursor.row as int) < final(self).buffer@.len() {
                    old(self).cursor.row as int
                } else {
                    final(self).buffer@.len() - 1
                })
                &&& final(self).cursor.col as int == clamp_to(
                    old(self).cursor.col as int,
                    final(self).buffer@[final(self).cursor.row as int].len() as int,
                )
                &&& final(self).same_selection(old(self))
                &&& final(self).same_view(old(self))
            }),
    {
        let snap = self.buffer.snapshot();
        let restored = self.history.undo(snap);
        match restored {
            Some(prev) => {
                self.buffer.replace_all(prev);
                self.clamp_cursor();
            },
            None => {},
        }
    }

    /// Redo: the mirror of `undo`.
    pub fn redo(&mut self)
        requires
            old(self).wf(),
        ensures
            final(self).wf(),
            old(self).history.redo_stack().len() == 0 ==> final(self).buffer == old(self).buffer
                && final(self).cursor == old(self).cursor && final(self).same_selection(old(self))
                && final(self).same_history(old(self)) && final(self).same_view(old(self)),
            old(self).history.redo_stack().len() > 0 ==> ({
                let (u2, r2, b2) = redo_spec(
                    old(self).history.undo_stack(),
                    old(self).history.redo_stack(),
                    old(self).buffer@,
                );
                &&& final(self).history.undo_stack() == u2
                &&& final(self).history.redo_stack() == r2
                &&& final(self).buffer@ == (if b2.len() == 0 {
                    seq![Seq::<u8>::empty()]
                } else {
                    b2
                })
                &&& final(self).cursor.row as int == (if (old(self).cursor.row as int) < final(self).buffer@.len() {
                    old(self).cursor.row as int
                } else {
                    final(self).buffer@.len() - 1
                })
                &&& final(self).cursor.col as int == clamp_to(
                    old(self).cursor.col as int,
                    final(self).buffer@[final(self).cursor.row as int].len() as int,
                )
                &&& final(self).same_selection(old(self))
                &&& final(self).same_view(old(self))
            }),
    {
        let snap = self.buffer.snapshot();
        let restored = self.history.redo(snap);
        match restored {
            Some(next) => {
                self.buffer.replace_all(next);
                self.clamp_cursor();
            },
            None => {},
        }
    }

    /// Pull the cursor into the buffer after a wholesale replacement.
    fn clamp_cursor(&mut self)
        requires
            old(self).buffer.wf(),
        ensures
            final(self).wf() <==> ACCEL_BASE <= old(self).accel <= ACCEL_CAP,
            final(self).buffer == old(self).buffer,
            final(self).cursor.row as int == (if (old(self).cursor.row as int) < old(self).buffer@.len() {
                old(self).cursor.row as int
            } else {
                old(self).buffer@.len() - 1
            }),
            final(self).cursor.col as int == clamp_to(
                old(self).cursor.col as int,
                old(self).buffer@[final(self).cursor.row as int].len() as int,
            ),
            final(self).same_selection(old(self)),
            final(self).same_history(old(self)),
            final(self).same_view(old(self)),
    {
        let n = self.buffer.num_lines();
        let r = if self.cursor.row < n {
            self.cursor.row
        } else {
            n - 1
        };
        let len = self.buffer.line_len(r);
        let c = if self.cursor.col <= len {
            self.cursor.col
        } else {
            len
        };
        self.cursor = Position { row: r, col: c };
    }

    /// Scroll the viewport one row up, never past the top.
    pub fn scroll_up(&mut self)
        requires
            old(self).wf(),
        ensures
            final(self).wf(),
            final(self).scroll_offset == (if old(self).scroll_offset > 0 {
                (old(self).scroll_offset - 1) as usize
            } else {
                0usize
            }),
            final(self).buffer == old(self).buffer,
            final(self).cursor == old(self).cursor,
            final(self).same_selection(old(self)),
            final(self).same_history(old(self)),
            final(self).h_scroll_offset == old(self).h_scroll_offset,
            final(self).accel == old(self).accel,
    {
        if self.scroll_offset > 0 {
            self.scroll_offset = self.scroll_offset - 1;
        }
    }

    /// Scroll the viewport one row down, never past the last row.
    pub fn scroll_down(&mut self)
        requires
            old(self).wf(),
        ensures
            final(self).wf(),
            final(self).scroll_offset == (if (old(self).scroll_offset as int) < old(self).buffer@.len() - 1 {
                (old(self).scroll_offset + 1) as usize
            } else {
                old(self).scroll_offset
            }),
            final(self).buffer == old(self).buffer,
            final(self).cursor == old(self).cursor,
            final(self).same_selection(old(self)),
            final(self).same_history(old(self)),
            final(self).h_scroll_offset == old(self).h_scroll_offset,
            final(self).accel == old(self).accel,
    {
        let n = self.buffer.num_lines();
        if self.scroll_offset < n - 1 {
            self.scroll_offset = self.scroll_offset + 1;
        }
    }

    /// Recompute both viewport offsets for a visible area of `height` rows
    /// and `width` display columns, keeping the cursor inside the window on
    /// both axes.
    pub fn adjust_viewport(&mut self, height: usize, width: usize)
        requires
            old(self).wf(),
            height >= 1,
            width >= 1,
        ensures
            final(self).wf(),
            final(self).scroll_offset as int == window_adjusted(
                old(self).scroll_offset as int,
                old(self).cursor.row as int,
                height as int,
            ),
            final(self).scroll_offset <= final(self).cursor.row < final(self).scroll_offset
                + height,
            final(self).h_scroll_offset as int == window_adjusted(
                old(self).h_scroll_offset as int,
                sat_width(
                    old(self).buffer@[old(self).cursor.row as int],
                    old(self).cursor.col as int,
                ),
                width as int,
            ),
            final(self).h_scroll_offset as int <= sat_width(
                final(self).buffer@[final(self).cursor.row as int],
                final(self).cursor.col as int,
            ) < final(self).h_scroll_offset + width,
            final(self).buffer == old(self).buffer,
            final(self).cursor == old(self).cursor,
            final(self).same_selection(old(self)),
            final(self).same_history(old(self)),
            final(self).accel == old(self).accel,
    {
        self.scroll_offset = adjust_window(self.scroll_offset, self.cursor.row, height);
        let line = self.buffer.line_at(self.cursor.row);
        let cw = display_width_up_to(line, self.cursor.col);
        self.h_scroll_offset = adjust_window(self.h_scroll_offset, cw, width);
    }

    /// Search for the first occurrence of `q`, scanning rows from the
    /// cursor's row to the end and wrapping to the rows before it; the
    /// cursor moves to a match and stays put otherwise.
    pub fn search(&mut self, q: &Vec<u8>) -> (r: Option<Position>)
        requires
            old(self).wf(),
        ensures
            final(self).wf(),
            final(self).buffer == old(self).buffer,
            final(self).same_selection(old(self)),
            final(self).same_history(old(self)),
            final(self).same_view(old(self)),
            match r {
                Some(p) => q@.len() >= 1 && final(self).cursor == p && p.row < old(self).buffer@.len() && match_at(old(self).buffer@[p.row as int], q@, p.col as int) && (
                forall|j: int| 0 <= j < p.col ==> !match_at(old(self).buffer@[p.row as int], q@, j))
                    && (if p.row >= old(self).cursor.row {
                    forall|t: int|
                        old(self).cursor.row <= t < p.row ==> !line_contains(
                            old(self).buffer@[t],
                            q@,
                        )
                } else {
                    (forall|t: int|
                        old(self).cursor.row <= t < old(self).buffer@.len() ==> !line_contains(
                            old(self).buffer@[t],
                            q@,
                        )) && (forall|t: int|
                        0 <= t < p.row ==> !line_contains(old(self).buffer@[t], q@))
                }),
                None => final(self).cursor == old(self).cursor && (q@.len() == 0 || forall|t: int|
                    0 <= t < old(self).buffer@.len() ==> !line_contains(old(self).buffer@[t], q@)),
            },
    {
        let r = search_from(&self.buffer, self.cursor.row, q);
        match r {
            Some(p) => {
                self.cursor = Position { row: p.row, col: p.col };
                Some(p)
            },
            None => None,
        }
    }

    /// The whole document as one byte string, for saving.
    pub fn document_text(&self) -> (r: Vec<u8>)
        ensures
            r@ == crate::text::join_nl(self.buffer@),
    {
        self.buffer.text()
    }
}

} // verus!
