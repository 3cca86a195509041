//! Laws of the editing engine that span several operations: insertion and
//! backspace are inverse, undo and redo are exact inverses around one
//! checkpointed edit, and a paste reproduces the pasted text verbatim.
use vstd::prelude::*;
use vstd::utf8::{encode_scalar, char_is_scalar};
use crate::Position;
use crate::buffer::{
    clamp_to, spliced, insert_char_spec, insert_char_newcol, delete_backward_spec,
    delete_backward_pos, insert_text_spec, insert_text_end, selected_rows, selection_bytes,
};
use crate::history::{checkpoint_spec, undo_spec, redo_spec};
use crate::text::{
    remove_range, split_nl, join_nl, lemma_prev_char_start_after_insert, lemma_split_nl_len,
    lemma_join_split_nl, lemma_encode_scalar_shape,
};

verus! {

/// Inserting a character at any valid position and then backspacing at the
/// resulting cursor restores the original buffer exactly, and puts the
/// cursor back where the insertion happened.
pub proof fn lemma_insert_then_backspace(lines: Seq<Seq<u8>>, row: int, col: int, c: char)
    requires
        lines.len() >= 1,
        0 <= row < lines.len(),
        0 <= col <= lines[row].len(),
    ensures
        ({
            let l2 = insert_char_spec(lines, row, col, c);
            let nc = insert_char_newcol(lines, row, col, c);
            delete_backward_spec(l2, row, nc) == lines && delete_backward_pos(l2, row, nc) == (
            row,
            col,
            )
        }),
{
    char_is_scalar(c);
    lemma_encode_scalar_shape(c as u32);
    let enc = encode_scalar(c as u32);
    let line = lines[row];
    let a = line.subrange(0, col);
    let b = line.subrange(col, line.len() as int);
    assert(spliced(line, col, enc) =~= a + enc + b);
    let l2 = insert_char_spec(lines, row, col, c);
    let nc = insert_char_newcol(lines, row, col, c);
    lemma_prev_char_start_after_insert(a, c as u32, b);
    assert(l2[row] == a + enc + b);
    assert(nc == a.len() + enc.len());
    assert(clamp_to(nc, l2[row].len() as int) == nc);
    assert(a + b =~= line);
    assert(delete_backward_spec(l2, row, nc) == l2.update(
        row,
        remove_range(l2[row], a.len() as int, nc),
    ));
    assert(l2.update(row, line) =~= lines);
}

/// Around one checkpointed edit, undo and redo are exact inverses: undo
/// brings the buffer back to the checkpointed snapshot, and redo after
/// that undo brings back the post-edit buffer, with both stacks exactly as
/// the edit left them.
pub proof fn lemma_undo_redo_inverse(
    undo0: Seq<Seq<Seq<u8>>>,
    pre: Seq<Seq<u8>>,
    post: Seq<Seq<u8>>,
)
    ensures
        ({
            let (u1, r1) = checkpoint_spec(undo0, pre);
            let (u2, r2, b2) = undo_spec(u1, r1, post);
            let (u3, r3, b3) = redo_spec(u2, r2, b2);
            b2 == pre && u2 == undo0 && r2 == seq![post] && b3 == post && u3 == u1 && r3 == r1
        }),
{
    let (u1, r1) = checkpoint_spec(undo0, pre);
    assert(u1.len() > 0);
    assert(u1.last() == pre);
    assert(u1.drop_last() =~= undo0);
    let (u2, r2, b2) = undo_spec(u1, r1, post);
    assert(r2 =~= seq![post]);
    let (u3, r3, b3) = redo_spec(u2, r2, b2);
    assert(r2.last() == post);
    assert(r2.drop_last() =~= r1);
    assert(u3 =~= u1);
}

/// Pasting text at any valid position and then extracting the selection
/// that spans exactly the pasted region yields the text back, byte for
/// byte, newline-delimited segments included.
pub proof fn lemma_paste_reproduces_text(
    lines: Seq<Seq<u8>>,
    row: usize,
    col: usize,
    text: Seq<u8>,
)
    requires
        lines.len() >= 1,
        (row as int) < lines.len(),
        col <= lines[row as int].len(),
        row + split_nl(text).len() <= usize::MAX,
        col + text.len() <= usize::MAX,
    ensures
        ({
            let l2 = insert_text_spec(lines, row as int, col as int, text);
            let (er, ec) = insert_text_end(lines, row as int, col as int, text);
            selection_bytes(
                l2,
                Position { row, col },
                Position { row: er as usize, col: ec as usize },
            ) == text
        }),
{
    let segs = split_nl(text);
    lemma_split_nl_len(text);
    lemma_join_split_nl(text);
    let n = segs.len() as int;
    let line = lines[row as int];
    let pre = line.subrange(0, col as int);
    let post = line.subrange(col as int, line.len() as int);
    let l2 = insert_text_spec(lines, row as int, col as int, text);
    let (er, ec) = insert_text_end(lines, row as int, col as int, text);
    assert(clamp_to(col as int, line.len() as int) == col);
    if n == 1 {
        assert(segs[0].len() <= text.len()) by {
            crate::text::lemma_split_nl_seg_len(text, 0);
        }
        let s = Position { row, col };
        let e = Position { row: er as usize, col: ec as usize };
        assert(e.row == row && e.col as int == col + segs[0].len());
        assert(l2[row as int] == pre + segs[0] + post);
        assert(l2[row as int].len() == line.len() + segs[0].len());
        assert(clamp_to(s.col as int, l2[row as int].len() as int) == col);
        assert(clamp_to(e.col as int, l2[row as int].len() as int) == col + segs[0].len());
        assert(l2[row as int].subrange(col as int, col + segs[0].len()) =~= segs[0]);
        assert(selected_rows(l2, s, e) =~= seq![segs[0]]);
        assert(segs =~= seq![segs[0]]);
        assert(join_nl(segs) == text);
    } else {
        assert(segs.last().len() <= text.len()) by {
            crate::text::lemma_split_nl_seg_len(text, n - 1);
        }
        let s = Position { row, col };
        let e = Position { row: er as usize, col: ec as usize };
        assert(er == row + n - 1);
        assert(ec == segs.last().len());
        assert(l2 == lines.subrange(0, row as int) + seq![pre + segs[0]] + segs.subrange(1, n - 1)
            + seq![segs.last() + post] + lines.subrange(row as int + 1, lines.len() as int));
        assert(l2.len() == lines.len() + n - 1);
        assert(l2[row as int] == pre + segs[0]);
        assert(l2[er] == segs.last() + post);
        assert(clamp_to(s.col as int, l2[row as int].len() as int) == col);
        assert(clamp_to(e.col as int, l2[er].len() as int) == ec);
        assert(l2[row as int].subrange(col as int, l2[row as int].len() as int) =~= segs[0]);
        assert(l2[er].subrange(0, ec) =~= segs.last());
        assert forall|j: int| 0 <= j < n - 2 implies #[trigger] (l2.subrange(row as int + 1, er)[j])
            == segs[1 + j] by {
            assert(l2[row as int + 1 + j] == segs.subrange(1, n - 1)[j]);
        }
        assert(l2.subrange(row as int + 1, er) =~= segs.subrange(1, n - 1));
        assert(selected_rows(l2, s, e) =~= seq![segs[0]] + segs.subrange(1, n - 1) + seq![
            segs.last(),
        ]);
        assert(seq![segs[0]] + segs.subrange(1, n - 1) + seq![segs.last()] =~= segs);
        assert(join_nl(segs) == text);
    }
}

/// Selecting the whole document — anchor at its start, live end at the end
/// of its last line — extracts exactly the document text: all rows joined
/// with newlines.
pub proof fn lemma_select_all_extracts_document(lines: Seq<Seq<u8>>)
    requires
        1 <= lines.len() <= usize::MAX,
        lines.last().len() <= usize::MAX,
    ensures
        selection_bytes(
            lines,
            Position { row: 0, col: 0 },
            Position { row: (lines.len() - 1) as usize, col: lines.last().len() as usize },
        ) == join_nl(lines),
{
    let s = Position { row: 0, col: 0 };
    let e = Position { row: (lines.len() - 1) as usize, col: lines.last().len() as usize };
    if lines.len() == 1 {
        assert(lines[0].subrange(0, lines[0].len() as int) =~= lines[0]);
        assert(selected_rows(lines, s, e) =~= seq![lines[0]]);
        assert(seq![lines[0]] =~= lines);
    } else {
        let last = lines.len() - 1;
        assert(lines[0].subrange(0, lines[0].len() as int) =~= lines[0]);
        assert(lines[last as int].subrange(0, lines[last as int].len() as int) =~= lines[
            last as int
        ]);
        assert(selected_rows(lines, s, e) =~= seq![lines[0]] + lines.subrange(1, last as int)
            + seq![lines[last as int]]);
        assert(seq![lines[0]] + lines.subrange(1, last as int) + seq![lines[last as int]]
            =~= lines);
    }
}

} // verus!
