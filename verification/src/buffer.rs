//! The text buffer: an ordered, never-empty sequence of UTF-8 line bytes,
//! with insertion, line splitting, backward deletion, range deletion,
//! wholesale replacement, and extraction of a selected span.
use vstd::prelude::*;
use vstd::pervasive::VecAdditionalExecFns;
use vstd::utf8::encode_scalar;
use crate::Position;
use crate::pos_le;
use crate::text::{
    prev_char_start, remove_range, join_nl, split_nl, encode_char, append_bytes,
};

verus! {

/// `col` clamped to the byte length of a row.
pub open spec fn clamp_to(col: int, len: int) -> int {
    if col <= len {
        col
    } else {
        len
    }
}

/// `line` with `ins` spliced in at byte offset `col`.
pub open spec fn spliced(line: Seq<u8>, col: int, ins: Seq<u8>) -> Seq<u8>
    recommends
        0 <= col <= line.len(),
{
    line.subrange(0, col) + ins + line.subrange(col, line.len() as int)
}

/// The rows covered by a normalized selection, cut to its column bounds:
/// either a single partial row, or the first row's suffix, the interior
/// rows whole, and the last row's prefix.
pub open spec fn selected_rows(lines: Seq<Seq<u8>>, s: Position, e: Position) -> Seq<Seq<u8>>
    recommends
        pos_le(s, e),
        s.row < lines.len(),
        e.row < lines.len(),
{
    let sc = clamp_to(s.col as int, lines[s.row as int].len() as int);
    let ec = clamp_to(e.col as int, lines[e.row as int].len() as int);
    if s.row == e.row {
        seq![lines[s.row as int].subrange(sc, ec)]
    } else {
        seq![lines[s.row as int].subrange(sc, lines[s.row as int].len() as int)] + lines.subrange(
            s.row as int + 1,
            e.row as int,
        ) + seq![lines[e.row as int].subrange(0, ec)]
    }
}

/// The text of a normalized selection: its rows joined with newlines.
pub open spec fn selection_bytes(lines: Seq<Seq<u8>>, s: Position, e: Position) -> Seq<u8> {
    join_nl(selected_rows(lines, s, e))
}


/// The buffer after inserting character `c` at (row, col), column clamped.
pub open spec fn insert_char_spec(lines: Seq<Seq<u8>>, row: int, col: int, c: char) -> Seq<
    Seq<u8>,
>
    recommends
        0 <= row < lines.len(),
{
    lines.update(
        row,
        spliced(lines[row], clamp_to(col, lines[row].len() as int), encode_scalar(c as u32)),
    )
}

/// Column just after the character inserted at (row, col).
pub open spec fn insert_char_newcol(lines: Seq<Seq<u8>>, row: int, col: int, c: char) -> int
    recommends
        0 <= row < lines.len(),
{
    clamp_to(col, lines[row].len() as int) + encode_scalar(c as u32).len()
}

/// The buffer after splitting the row at (row, col), column clamped.
pub open spec fn insert_newline_spec(lines: Seq<Seq<u8>>, row: int, col: int) -> Seq<Seq<u8>>
    recommends
        0 <= row < lines.len(),
{
    let cc = clamp_to(col, lines[row].len() as int);
    lines.update(row, lines[row].subrange(0, cc)).insert(
        row + 1,
        lines[row].subrange(cc, lines[row].len() as int),
    )
}

/// The buffer after a backspace at (row, col), column clamped.
pub open spec fn delete_backward_spec(lines: Seq<Seq<u8>>, row: int, col: int) -> Seq<Seq<u8>>
    recommends
        0 <= row < lines.len(),
{
    let line = lines[row];
    let cc = clamp_to(col, line.len() as int);
    if cc > 0 {
        lines.update(row, remove_range(line, prev_char_start(line, cc), cc))
    } else if row > 0 {
        lines.update(row - 1, lines[row - 1] + line).remove(row)
    } else {
        lines
    }
}

/// Where the cursor lands after a backspace at (row, col).
pub open spec fn delete_backward_pos(lines: Seq<Seq<u8>>, row: int, col: int) -> (int, int)
    recommends
        0 <= row < lines.len(),
{
    let line = lines[row];
    let cc = clamp_to(col, line.len() as int);
    if cc > 0 {
        (row, prev_char_start(line, cc))
    } else if row > 0 {
        (row - 1, lines[row - 1].len() as int)
    } else {
        (0, 0)
    }
}

/// The buffer after removing the normalized range from `s` to `e`.
pub open spec fn delete_range_spec(lines: Seq<Seq<u8>>, s: Position, e: Position) -> Seq<Seq<u8>>
    recommends
        pos_le(s, e),
        s.row < lines.len(),
        e.row < lines.len(),
{
    let sc = clamp_to(s.col as int, lines[s.row as int].len() as int);
    let ec = clamp_to(e.col as int, lines[e.row as int].len() as int);
    if s.row == e.row {
        lines.update(s.row as int, remove_range(lines[s.row as int], sc, ec))
    } else {
        lines.subrange(0, s.row as int) + seq![
            lines[s.row as int].subrange(0, sc) + lines[e.row as int].subrange(
                ec,
                lines[e.row as int].len() as int,
            ),
        ] + lines.subrange(e.row as int + 1, lines.len() as int)
    }
}

/// The buffer after inserting (possibly multi-line) `text` at (row, col).
pub open spec fn insert_text_spec(lines: Seq<Seq<u8>>, row: int, col: int, text: Seq<u8>) -> Seq<
    Seq<u8>,
>
    recommends
        0 <= row < lines.len(),
{
    let segs = split_nl(text);
    let cc = clamp_to(col, lines[row].len() as int);
    let pre = lines[row].subrange(0, cc);
    let post = lines[row].subrange(cc, lines[row].len() as int);
    if segs.len() == 1 {
        lines.update(row, pre + segs[0] + post)
    } else {
        lines.subrange(0, row) + seq![pre + segs[0]] + segs.subrange(1, segs.len() as int - 1)
            + seq![segs.last() + post] + lines.subrange(row + 1, lines.len() as int)
    }
}

/// Where the cursor lands after inserting `text` at (row, col).
pub open spec fn insert_text_end(lines: Seq<Seq<u8>>, row: int, col: int, text: Seq<u8>) -> (
    int,
    int,
)
    recommends
        0 <= row < lines.len(),
{
    let segs = split_nl(text);
    let cc = clamp_to(col, lines[row].len() as int);
    if segs.len() == 1 {
        (row, cc + segs[0].len())
    } else {
        (row + segs.len() - 1, segs.last().len() as int)
    }
}

/// Bytes `src[from..to)` copied out as a fresh vector.
pub fn copy_byte_range(src: &Vec<u8>, from: usize, to: usize) -> (r: Vec<u8>)
    requires
        from <= to <= src@.len(),
    ensures
        r@ == src@.subrange(from as int, to as int),
{
    let mut r: Vec<u8> = Vec::new();
    let mut i: usize = from;
    while i < to
        invariant
            from <= i <= to <= src@.len(),
            r@ =~= src@.subrange(from as int, i as int),
        decreases to - i,
    {
        r.push(src[i]);
        i = i + 1;
        proof {
            assert(r@ =~= src@.subrange(from as int, i as int));
        }
    }
    r
}

/// `line` with `ins` spliced in at byte offset `col`.
pub fn splice_bytes(line: &Vec<u8>, col: usize, ins: &Vec<u8>) -> (r: Vec<u8>)
    requires
        col <= line@.len(),
    ensures
        r@ == spliced(line@, col as int, ins@),
{
    let mut r = copy_byte_range(line, 0, col);
    let mut i: usize = 0;
    while i < ins.len()
        invariant
            0 <= i <= ins@.len(),
            col <= line@.len(),
            r@ =~= line@.subrange(0, col as int) + ins@.subrange(0, i as int),
        decreases ins@.len() - i,
    {
        r.push(ins[i]);
        i = i + 1;
        proof {
            assert(r@ =~= line@.subrange(0, col as int) + ins@.subrange(0, i as int));
        }
    }
    proof {
        assert(ins@.subrange(0, ins@.len() as int) =~= ins@);
    }
    let mut j: usize = col;
    while j < line.len()
        invariant
            col <= j <= line@.len(),
            r@ =~= line@.subrange(0, col as int) + ins@ + line@.subrange(col as int, j as int),
        decreases line@.len() - j,
    {
        r.push(line[j]);
        j = j + 1;
        proof {
            assert(r@ =~= line@.subrange(0, col as int) + ins@ + line@.subrange(
                col as int,
                j as int,
            ));
        }
    }
    r
}


proof fn lemma_deep_remove(a: Vec<Vec<u8>>, b: Vec<Vec<u8>>, i: int)
    requires
        0 <= i < a@.len(),
        b@ == a@.remove(i),
    ensures
        b.deep_view() == a.deep_view().remove(i),
{
    assert forall|j: int| 0 <= j < b@.len() implies b.deep_view()[j] == a.deep_view().remove(i)[j]
        by {
        if j < i {
            assert(b@[j] == a@[j]);
        } else {
            assert(b@[j] == a@[j + 1]);
        }
    }
    assert(b.deep_view() =~= a.deep_view().remove(i));
}

proof fn lemma_deep_insert(a: Vec<Vec<u8>>, b: Vec<Vec<u8>>, i: int, x: Vec<u8>)
    requires
        0 <= i <= a@.len(),
        b@ == a@.insert(i, x),
    ensures
        b.deep_view() == a.deep_view().insert(i, x.deep_view()),
{
    assert forall|j: int| 0 <= j < b@.len() implies b.deep_view()[j] == a.deep_view().insert(
        i,
        x.deep_view(),
    )[j] by {
        if j < i {
            assert(b@[j] == a@[j]);
        } else if j == i {
            assert(b@[j] == x);
        } else {
            assert(b@[j] == a@[j - 1]);
        }
    }
    assert(b.deep_view() =~= a.deep_view().insert(i, x.deep_view()));
}

/// The buffer: a document as a sequence of lines, never empty.
pub struct TextBuffer {
    lines: Vec<Vec<u8>>,
}

impl View for TextBuffer {
    type V = Seq<Seq<u8>>;

    closed spec fn view(&self) -> Seq<Seq<u8>> {
        self.lines.deep_view()
    }
}

impl TextBuffer {
    /// The buffer invariant: at least one (possibly empty) line exists.
    pub open spec fn wf(&self) -> bool {
        self@.len() >= 1
    }

    /// A new document: one empty line.
    pub fn new() -> (r: TextBuffer)
        ensures
            r.wf(),
            r@ == seq![Seq::<u8>::empty()],
    {
        let mut lines: Vec<Vec<u8>> = Vec::new();
        lines.push(Vec::new());
        let r = TextBuffer { lines };
        proof {
            assert(r@ =~~= seq![Seq::<u8>::empty()]);
        }
        r
    }

    /// A document built from loaded lines; an empty load yields one empty line.
    pub fn from_lines(lines: Vec<Vec<u8>>) -> (r: TextBuffer)
        ensures
            r.wf(),
            lines@.len() == 0 ==> r@ == seq![Seq::<u8>::empty()],
            lines@.len() > 0 ==> r@ == lines.deep_view(),
    {
        if lines.is_empty() {
            TextBuffer::new()
        } else {
            TextBuffer { lines }
        }
    }

    pub fn num_lines(&self) -> (n: usize)
        ensures
            n == self@.len(),
    {
        self.lines.len()
    }

    pub fn line_len(&self, row: usize) -> (n: usize)
        requires
            row < self@.len(),
        ensures
            n == self@[row as int].len(),
    {
        proof {
            assert(self.lines@[row as int].deep_view() =~= self.lines@[row as int]@);
        }
        self.lines[row].len()
    }

    /// Borrow one line of the document.
    pub fn line_at(&self, row: usize) -> (l: &Vec<u8>)
        requires
            row < self@.len(),
        ensures
            l@ == self@[row as int],
    {
        proof {
            assert(self.lines@[row as int].deep_view() =~= self.lines@[row as int]@);
        }
        &self.lines[row]
    }

    /// The whole document as one byte string, rows joined with newlines,
    /// as it is written to disk.
    pub fn text(&self) -> (r: Vec<u8>)
        ensures
            r@ == join_nl(self@),
    {
        crate::text::join_newlines(&self.lines)
    }

    /// A fresh copy of all lines, for history snapshots.
    pub fn snapshot(&self) -> (r: Vec<Vec<u8>>)
        ensures
            r.deep_view() == self@,
    {
        let mut r: Vec<Vec<u8>> = Vec::new();
        let mut i: usize = 0;
        while i < self.lines.len()
            invariant
                0 <= i <= self.lines@.len(),
                r.deep_view() =~~= self@.subrange(0, i as int),
            decreases self.lines@.len() - i,
        {
            proof {
                assert(self.lines@[i as int].deep_view() =~= self.lines@[i as int]@);
            }
            let row = copy_byte_range(&self.lines[i], 0, self.lines[i].len());
            proof {
                assert(self.lines@[i as int]@.subrange(0, self.lines@[i as int]@.len() as int)
                    =~= self.lines@[i as int]@);
                assert(row.deep_view() =~= row@);
                assert(row.deep_view() == self@[i as int]);
            }
            let ghost prev_dv = r.deep_view();
            let ghost prev_v = r@;
            r.push(row);
            i = i + 1;
            proof {
                assert(r@ == prev_v.push(row));
                assert forall|k: int| 0 <= k < prev_v.len() implies r.deep_view()[k] == prev_dv[k] by {
                    assert(r@[k] == prev_v[k]);
                }
                assert(r.deep_view()[prev_v.len() as int] == row.deep_view());
                assert(r.deep_view() =~= prev_dv.push(row.deep_view()));
                assert(r.deep_view() =~= self@.subrange(0, i as int));
            }
        }
        proof {
            assert(self@.subrange(0, self@.len() as int) =~= self@);
        }
        r
    }

    /// Replace the whole document, as undo/redo and file loading do; an
    /// empty replacement leaves one empty line.
    pub fn replace_all(&mut self, lines: Vec<Vec<u8>>)
        ensures
            final(self).wf(),
            lines@.len() == 0 ==> final(self)@ == seq![Seq::<u8>::empty()],
            lines@.len() > 0 ==> final(self)@ == lines.deep_view(),
    {
        let nb = TextBuffer::from_lines(lines);
        *self = nb;
    }

    /// Insert one character at (row, col); the column is clamped to the
    /// row's byte length first. Returns the byte offset just after the
    /// inserted character.
    pub fn insert(&mut self, row: usize, col: usize, c: char) -> (newcol: usize)
        requires
            old(self).wf(),
            row < old(self)@.len(),
        ensures
            final(self).wf(),
            final(self)@ == insert_char_spec(old(self)@, row as int, col as int, c),
            newcol as int == insert_char_newcol(old(self)@, row as int, col as int, c),
            newcol <= final(self)@[row as int].len(),
            final(self)@.len() == old(self)@.len(),
    {
        proof {
            assert(self.lines@[row as int].deep_view() =~= self.lines@[row as int]@);
        }
        let len = self.lines[row].len();
        let cc = if col <= len {
            col
        } else {
            len
        };
        let enc = encode_char(c);
        let nl = splice_bytes(&self.lines[row], cc, &enc);
        proof {
            vstd::std_specs::vec::axiom_spec_len(&nl);
        }
        let newcol = cc + enc.len();
        self.lines.set(row, nl);
        proof {
            assert(final(self)@ =~~= old(self)@.update(
                row as int,
                spliced(
                    old(self)@[row as int],
                    clamp_to(col as int, old(self)@[row as int].len() as int),
                    encode_scalar(c as u32),
                ),
            ));
        }
        newcol
    }

    /// Insert a run of bytes (no newlines among them, for a single-row
    /// splice) at (row, col), clamping the column first. Returns the byte
    /// offset just after the inserted bytes.
    pub fn insert_bytes(&mut self, row: usize, col: usize, ins: &Vec<u8>) -> (newcol: usize)
        requires
            old(self).wf(),
            row < old(self)@.len(),
        ensures
            final(self).wf(),
            final(self)@ == old(self)@.update(
                row as int,
                spliced(
                    old(self)@[row as int],
                    clamp_to(col as int, old(self)@[row as int].len() as int),
                    ins@,
                ),
            ),
            newcol as int == clamp_to(col as int, old(self)@[row as int].len() as int)
                + ins@.len(),
            newcol <= final(self)@[row as int].len(),
            final(self)@.len() == old(self)@.len(),
    {
        proof {
            assert(self.lines@[row as int].deep_view() =~= self.lines@[row as int]@);
        }
        let len = self.lines[row].len();
        let cc = if col <= len {
            col
        } else {
            len
        };
        let nl = splice_bytes(&self.lines[row], cc, ins);
        proof {
            vstd::std_specs::vec::axiom_spec_len(&nl);
        }
        let newcol = cc + ins.len();
        self.lines.set(row, nl);
        proof {
            assert(final(self)@ =~~= old(self)@.update(
                row as int,
                spliced(
                    old(self)@[row as int],
                    clamp_to(col as int, old(self)@[row as int].len() as int),
                    ins@,
                ),
            ));
        }
        newcol
    }

    /// Split the row at (row, col): the row keeps the bytes before the
    /// clamped column and a new row below receives the rest.
    pub fn insert_newline(&mut self, row: usize, col: usize)
        requires
            old(self).wf(),
            row < old(self)@.len(),
        ensures
            final(self).wf(),
            final(self)@ == insert_newline_spec(old(self)@, row as int, col as int),
            final(self)@.len() == old(self)@.len() + 1,
    {
        let mut line = self.lines.remove(row);
        proof {
            assert(line.deep_view() =~= line@);
        }
        let len = line.len();
        let cc = if col <= len {
            col
        } else {
            len
        };
        let tail = line.split_off(cc);
        self.lines.insert(row, line);
        proof {
            vstd::std_specs::vec::axiom_spec_len(&self.lines);
        }
        self.lines.insert(row + 1, tail);
        proof {
            let occ = clamp_to(col as int, old(self)@[row as int].len() as int);
            assert(final(self)@ =~~= old(self)@.update(
                row as int,
                old(self)@[row as int].subrange(0, occ),
            ).insert(row as int + 1, old(self)@[row as int].subrange(occ, old(self)@[row as int].len() as int)));
        }
    }

    /// Backspace at (row, col) with the column clamped first: within a row
    /// it removes the character ending at the column; at column 0 it joins
    /// the row onto the one above; at the very start of the document it
    /// does nothing. Returns the position where the cursor belongs next.
    pub fn delete_backward(&mut self, row: usize, col: usize) -> (p: Position)
        requires
            old(self).wf(),
            row < old(self)@.len(),
        ensures
            final(self).wf(),
            final(self)@ == delete_backward_spec(old(self)@, row as int, col as int),
            (p.row as int, p.col as int) == delete_backward_pos(old(self)@, row as int, col as int),
            p.row < final(self)@.len(),
            p.col <= final(self)@[p.row as int].len(),
    {
        proof {
            assert(self.lines@[row as int].deep_view() =~= self.lines@[row as int]@);
        }
        let len = self.lines[row].len();
        let cc = if col <= len {
            col
        } else {
            len
        };
        if cc > 0 {
            let q = crate::text::find_prev_char_start(&self.lines[row], cc);
            let mut line = self.lines.remove(row);
            let tail = line.split_off(cc);
            line.truncate(q);
            line.extend_from_slice(tail.as_slice());
            proof {
                assert(line@ =~= remove_range(old(self)@[row as int], q as int, cc as int));
            }
            self.lines.insert(row, line);
            proof {
                assert(final(self)@ =~~= old(self)@.update(
                    row as int,
                    remove_range(old(self)@[row as int], prev_char_start(old(self)@[row as int], cc as int), cc as int),
                ));
            }
            Position { row, col: q }
        } else if row > 0 {
            let cur = self.lines.remove(row);
            let mut prev = self.lines.remove(row - 1);
            proof {
                assert(prev.deep_view() =~= prev@);
                assert(cur.deep_view() =~= cur@);
            }
            let plen = prev.len();
            prev.extend_from_slice(cur.as_slice());
            proof {
                assert(prev@ =~= old(self)@[row as int - 1] + old(self)@[row as int]);
            }
            self.lines.insert(row - 1, prev);
            proof {
                assert(final(self)@ =~~= old(self)@.update(
                    row as int - 1,
                    old(self)@[row as int - 1] + old(self)@[row as int],
                ).remove(row as int));
            }
            Position { row: row - 1, col: plen }
        } else {
            proof {
                assert(final(self)@ =~~= old(self)@);
            }
            Position { row: 0, col: 0 }
        }
    }

    /// Text of the normalized selection from `start` to `end`, rows joined
    /// with newlines; columns are clamped to their rows first.
    pub fn selected_text(&self, start: Position, end: Position) -> (r: Vec<u8>)
        requires
            self.wf(),
            pos_le(start, end),
            start.row < self@.len(),
            end.row < self@.len(),
        ensures
            r@ == selection_bytes(self@, start, end),
    {
        let mut pieces: Vec<Vec<u8>> = Vec::new();
        if start.row == end.row {
            proof {
                assert(self.lines@[start.row as int].deep_view() =~= self.lines@[start.row as int]@);
            }
            let line = &self.lines[start.row];
            let len = line.len();
            let sc = if start.col <= len { start.col } else { len };
            let ec = if end.col <= len { end.col } else { len };
            let piece = copy_byte_range(line, sc, ec);
            pieces.push(piece);
            proof {
                assert(pieces.deep_view() =~~= selected_rows(self@, start, end));
            }
        } else {
            proof {
                assert(self.lines@[start.row as int].deep_view() =~= self.lines@[start.row as int]@);
            }
            let first = &self.lines[start.row];
            let flen = first.len();
            let sc = if start.col <= flen { start.col } else { flen };
            let suffix = copy_byte_range(first, sc, flen);
            pieces.push(suffix);
            let mut i: usize = start.row + 1;
            while i < end.row
                invariant
                    start.row < i <= end.row,
                    end.row < self@.len(),
                    pos_le(start, end),
                    pieces.deep_view() =~~= seq![
                        self@[start.row as int].subrange(
                            clamp_to(start.col as int, self@[start.row as int].len() as int),
                            self@[start.row as int].len() as int,
                        ),
                    ] + self@.subrange(start.row as int + 1, i as int),
                decreases end.row - i,
            {
                proof {
                    assert(self.lines@[i as int].deep_view() =~= self.lines@[i as int]@);
                }
                let row = copy_byte_range(&self.lines[i], 0, self.lines[i].len());
                proof {
                    assert(row@ =~= self@[i as int]);
                }
                let ghost prev_dv = pieces.deep_view();
                let ghost prev_v = pieces@;
                pieces.push(row);
                i = i + 1;
                proof {
                    assert(pieces@ == prev_v.push(row));
                    assert forall|k: int| 0 <= k < prev_v.len() implies pieces.deep_view()[k]
                        == prev_dv[k] by {
                        assert(pieces@[k] == prev_v[k]);
                    }
                    assert(pieces.deep_view()[prev_v.len() as int] == row.deep_view());
                    assert(row.deep_view() =~= row@);
                    assert(pieces.deep_view() =~~= prev_dv.push(self@[i as int - 1]));
                    assert(pieces.deep_view() =~~= seq![
                        self@[start.row as int].subrange(
                            clamp_to(start.col as int, self@[start.row as int].len() as int),
                            self@[start.row as int].len() as int,
                        ),
                    ] + self@.subrange(start.row as int + 1, i as int));
                }
            }
            proof {
                assert(self.lines@[end.row as int].deep_view() =~= self.lines@[end.row as int]@);
            }
            let last = &self.lines[end.row];
            let llen = last.len();
            let ec = if end.col <= llen { end.col } else { llen };
            let prefix = copy_byte_range(last, 0, ec);
            let ghost prev_dv = pieces.deep_view();
            let ghost prev_v = pieces@;
            pieces.push(prefix);
            proof {
                assert(pieces@ == prev_v.push(prefix));
                assert forall|k: int| 0 <= k < prev_v.len() implies pieces.deep_view()[k]
                    == prev_dv[k] by {
                    assert(pieces@[k] == prev_v[k]);
                }
                assert(pieces.deep_view()[prev_v.len() as int] == prefix.deep_view());
                assert(prefix.deep_view() =~= prefix@);
                assert(pieces.deep_view() =~~= selected_rows(self@, start, end));
            }
        }
        let r = crate::text::join_newlines(&pieces);
        r
    }

    /// Remove the normalized range from `start` to `end`: within one row a
    /// plain byte-range removal; across rows the first row keeps its prefix,
    /// gains the last row's suffix, and the rows between vanish.
    pub fn delete_range(&mut self, start: Position, end: Position)
        requires
            old(self).wf(),
            pos_le(start, end),
            start.row < old(self)@.len(),
            end.row < old(self)@.len(),
        ensures
            final(self).wf(),
            final(self)@ == delete_range_spec(old(self)@, start, end),
            final(self)@.len() == old(self)@.len() - (end.row - start.row),
            clamp_to(start.col as int, old(self)@[start.row as int].len() as int)
                <= final(self)@[start.row as int].len(),
    {
        proof {
            assert(self.lines@[start.row as int].deep_view() =~= self.lines@[start.row as int]@);
            assert(self.lines@[end.row as int].deep_view() =~= self.lines@[end.row as int]@);
        }
        if start.row == end.row {
            let len = self.lines[start.row].len();
            let sc = if start.col <= len { start.col } else { len };
            let ec = if end.col <= len { end.col } else { len };
            let mut line = self.lines.remove(start.row);
            let tail = line.split_off(ec);
            line.truncate(sc);
            line.extend_from_slice(tail.as_slice());
            proof {
                assert(line@ =~= remove_range(
                    old(self)@[start.row as int],
                    sc as int,
                    ec as int,
                ));
            }
            self.lines.insert(start.row, line);
            proof {
                assert(final(self)@ =~~= old(self)@.update(
                    start.row as int,
                    remove_range(
                        old(self)@[start.row as int],
                        clamp_to(start.col as int, old(self)@[start.row as int].len() as int),
                        clamp_to(end.col as int, old(self)@[start.row as int].len() as int),
                    ),
                ));
            }
        } else {
            let flen = self.lines[start.row].len();
            let sc = if start.col <= flen { start.col } else { flen };
            let llen = self.lines[end.row].len();
            let ec = if end.col <= llen { end.col } else { llen };
            let mut lastline = self.lines.remove(end.row);
            let tail = lastline.split_off(ec);
            let ghost mid = (end.row - start.row - 1) as int;
            let mut k: usize = end.row - start.row - 1;
            proof {
                assert(self.lines.deep_view() =~~= old(self)@.subrange(0, start.row as int + 1)
                    + old(self)@.subrange(end.row as int - k as int, end.row as int)
                    + old(self)@.subrange(end.row as int + 1, old(self)@.len() as int));
            }
            while k > 0
                invariant
                    0 <= k <= end.row - start.row - 1,
                    start.row < end.row < old(self)@.len(),
                    self.lines.deep_view() =~~= old(self)@.subrange(0, start.row as int + 1)
                        + old(self)@.subrange(end.row as int - k as int, end.row as int)
                        + old(self)@.subrange(end.row as int + 1, old(self)@.len() as int),
                decreases k,
            {
                let ghost pre = self.lines;
                proof {
                    assert(self.lines@.len() == self.lines.deep_view().len());
                }
                self.lines.remove(start.row + 1);
                k = k - 1;
                proof {
                    lemma_deep_remove(pre, self.lines, start.row as int + 1);
                    assert(pre.deep_view().remove(start.row as int + 1) =~~= old(self)@.subrange(
                        0,
                        start.row as int + 1,
                    ) + old(self)@.subrange(end.row as int - k as int, end.row as int)
                        + old(self)@.subrange(end.row as int + 1, old(self)@.len() as int));
                }
            }
            let ghost pre2 = self.lines;
            proof {
                assert(self.lines@.len() == self.lines.deep_view().len());
                assert(self.lines.deep_view()[start.row as int] == old(self)@[start.row as int]);
            }
            let mut first = self.lines.remove(start.row);
            proof {
                lemma_deep_remove(pre2, self.lines, start.row as int);
                assert(first.deep_view() =~= first@);
                assert(pre2.deep_view()[start.row as int] == pre2@[start.row as int].deep_view());
                assert(first@ == old(self)@[start.row as int]);
            }
            first.truncate(sc);
            first.extend_from_slice(tail.as_slice());
            proof {
                assert(first@ =~= old(self)@[start.row as int].subrange(0, sc as int)
                    + old(self)@[end.row as int].subrange(ec as int, old(self)@[end.row as int].len() as int));
            }
            let ghost pre3 = self.lines;
            let ghost firstg = first;
            self.lines.insert(start.row, first);
            proof {
                lemma_deep_insert(pre3, self.lines, start.row as int, firstg);
                assert(firstg.deep_view() =~= firstg@);
                assert(final(self)@ =~~= old(self)@.subrange(0, start.row as int) + seq![
                    old(self)@[start.row as int].subrange(
                        0,
                        clamp_to(start.col as int, old(self)@[start.row as int].len() as int),
                    ) + old(self)@[end.row as int].subrange(
                        clamp_to(end.col as int, old(self)@[end.row as int].len() as int),
                        old(self)@[end.row as int].len() as int,
                    ),
                ] + old(self)@.subrange(end.row as int + 1, old(self)@.len() as int));
            }
        }
    }

    /// Insert possibly multi-line text at (row, col), the column clamped
    /// first: the text is split on newlines, the first segment continues the
    /// row's prefix, interior segments become rows of their own, and the
    /// last segment gains the row's suffix. Returns the position just after
    /// the inserted text.
    pub fn insert_text(&mut self, row: usize, col: usize, text: &Vec<u8>) -> (end: Position)
        requires
            old(self).wf(),
            row < old(self)@.len(),
        ensures
            final(self).wf(),
            final(self)@ == insert_text_spec(old(self)@, row as int, col as int, text@),
            (end.row as int, end.col as int) == insert_text_end(
                old(self)@,
                row as int,
                col as int,
                text@,
            ),
            final(self)@.len() == old(self)@.len() + split_nl(text@).len() - 1,
            end.row < final(self)@.len(),
            end.col <= final(self)@[end.row as int].len(),
    {
        let segs = crate::text::split_newlines(text);
        let ghost sg = split_nl(text@);
        let n = segs.len();
        proof {
            assert(self.lines@[row as int].deep_view() =~= self.lines@[row as int]@);
            assert(self.lines.deep_view()[row as int] == old(self)@[row as int]);
        }
        let ghost pre0 = self.lines;
        let mut line = self.lines.remove(row);
        proof {
            lemma_deep_remove(pre0, self.lines, row as int);
            assert(line.deep_view() =~= line@);
            assert(line@ == old(self)@[row as int]);
        }
        let len = line.len();
        let cc = if col <= len {
            col
        } else {
            len
        };
        let post = line.split_off(cc);
        let ghost prev = old(self)@[row as int].subrange(0, cc as int);
        let ghost postv = old(self)@[row as int].subrange(
            cc as int,
            old(self)@[row as int].len() as int,
        );
        if n == 1 {
            proof {
                assert(segs@[0].deep_view() =~= segs@[0]@);
                assert(segs@[0]@ == sg[0]);
            }
            let mut nl = line;
            append_bytes(&mut nl, &segs[0]);
            let ecol = nl.len();
            append_bytes(&mut nl, &post);
            let ghost p1 = self.lines;
            let ghost nlg = nl;
            self.lines.insert(row, nl);
            proof {
                lemma_deep_insert(p1, self.lines, row as int, nlg);
                assert(nlg.deep_view() =~= nlg@);
                assert(nlg@ =~= prev + sg[0] + postv);
                assert(final(self)@ =~~= old(self)@.update(row as int, prev + sg[0] + postv));
            }
            Position { row, col: ecol }
        } else {
            proof {
                assert(segs@[0].deep_view() =~= segs@[0]@);
                assert(segs@[0]@ == sg[0]);
            }
            let mut firstrow = line;
            append_bytes(&mut firstrow, &segs[0]);
            let ghost p1 = self.lines;
            let ghost fg = firstrow;
            self.lines.insert(row, firstrow);
            proof {
                lemma_deep_insert(p1, self.lines, row as int, fg);
                assert(fg.deep_view() =~= fg@);
                assert(self.lines.deep_view() =~~= old(self)@.subrange(0, row as int) + seq![
                    prev + sg[0],
                ] + sg.subrange(1, 1) + old(self)@.subrange(
                    row as int + 1,
                    old(self)@.len() as int,
                ));
            }
            let mut i: usize = 1;
            while i < n - 1
                invariant
                    1 <= i <= n - 1,
                    n == segs@.len(),
                    n == sg.len(),
                    n >= 2,
                    row < old(self)@.len(),
                    segs.deep_view() == sg,
                    self.lines.deep_view() =~~= old(self)@.subrange(0, row as int) + seq![
                        prev + sg[0],
                    ] + sg.subrange(1, i as int) + old(self)@.subrange(
                        row as int + 1,
                        old(self)@.len() as int,
                    ),
                decreases n - i,
            {
                proof {
                    assert(segs@[i as int].deep_view() =~= segs@[i as int]@);
                    assert(segs@[i as int]@ == sg[i as int]);
                }
                let seg = copy_byte_range(&segs[i], 0, segs[i].len());
                proof {
                    vstd::std_specs::vec::axiom_spec_len(&self.lines);
                    assert(self.lines@.len() == self.lines.deep_view().len());
                    assert(self.lines@.len() == old(self)@.len() + i - 1);
                }
                let ghost pk = self.lines;
                let ghost sgg = seg;
                self.lines.insert(row + i, seg);
                i = i + 1;
                proof {
                    lemma_deep_insert(pk, self.lines, row as int + i - 1, sgg);
                    assert(sgg.deep_view() =~= sgg@);
                    assert(sgg@ =~= sg[i as int - 1].subrange(0, sg[i as int - 1].len() as int));
                    assert(sgg@ =~= sg[i as int - 1]);
                    assert(self.lines.deep_view() =~~= old(self)@.subrange(0, row as int) + seq![
                        prev + sg[0],
                    ] + sg.subrange(1, i as int) + old(self)@.subrange(
                        row as int + 1,
                        old(self)@.len() as int,
                    ));
                }
            }
            proof {
                assert(segs@[n as int - 1].deep_view() =~= segs@[n as int - 1]@);
                assert(segs@[n as int - 1]@ == sg[n as int - 1]);
            }
            let ecol = segs[n - 1].len();
            let mut lastrow = copy_byte_range(&segs[n - 1], 0, segs[n - 1].len());
            append_bytes(&mut lastrow, &post);
            proof {
                vstd::std_specs::vec::axiom_spec_len(&self.lines);
                assert(self.lines@.len() == self.lines.deep_view().len());
                assert(self.lines@.len() == old(self)@.len() + n - 2);
            }
            let ghost pl = self.lines;
            let ghost lg = lastrow;
            self.lines.insert(row + (n - 1), lastrow);
            proof {
                lemma_deep_insert(pl, self.lines, row as int + n - 1, lg);
                assert(lg.deep_view() =~= lg@);
                assert(sg[n as int - 1].subrange(0, sg[n as int - 1].len() as int) =~= sg[n as int
                    - 1]);
                assert(lg@ =~= sg.last() + postv);
                assert(final(self)@ =~~= old(self)@.subrange(0, row as int) + seq![prev + sg[0]]
                    + sg.subrange(1, sg.len() as int - 1) + seq![sg.last() + postv] + old(
                    self,
                )@.subrange(row as int + 1, old(self)@.len() as int));
            }
            Position { row: row + (n - 1), col: ecol }
        }
    }
}

} // verus!
