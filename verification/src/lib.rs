//! Core engine of a terminal text editor: line buffer, cursor and selection,
//! undo/redo history, clipboard serialization, viewport scrolling, and search.
//!
//! Lines are stored as UTF-8 byte vectors; columns are byte offsets.
use vstd::prelude::*;

pub mod buffer;
pub mod engine;
pub mod history;
pub mod laws;
pub mod metrics;
pub mod search;
pub mod text;
pub mod viewport;

verus! {

/// A position in the document: a row index and a byte offset into that row.
#[derive(Clone, Copy, PartialEq, Eq, Structural, Debug)]
pub struct Position {
    pub row: usize,
    pub col: usize,
}

/// Orders positions row-major, then by column.
pub open spec fn pos_le(a: Position, b: Position) -> bool {
    a.row < b.row || (a.row == b.row && a.col <= b.col)
}

/// Returns whether `a` comes before `b` (or equals it) in document order.
pub fn position_le(a: Position, b: Position) -> (r: bool)
    ensures
        r == pos_le(a, b),
{
    a.row < b.row || (a.row == b.row && a.col <= b.col)
}

} // verus!
