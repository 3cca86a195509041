//! Incremental search: case-sensitive literal byte search for the first
//! occurrence, scanning rows from the cursor's row to the end of the buffer
//! and then wrapping to the rows before it.
use vstd::prelude::*;
use crate::Position;
use crate::buffer::TextBuffer;

verus! {

/// The query matches the line at byte offset `i`.
pub open spec fn match_at(line: Seq<u8>, q: Seq<u8>, i: int) -> bool {
    0 <= i && i + q.len() <= line.len() && line.subrange(i, i + q.len() as int) == q
}

/// The query occurs somewhere in the line.
pub open spec fn line_contains(line: Seq<u8>, q: Seq<u8>) -> bool {
    exists|i: int| match_at(line, q, i)
}

/// Byte offset of the first occurrence of `q` in `line`, or `None`.
pub fn find_in_line(line: &Vec<u8>, q: &Vec<u8>) -> (r: Option<usize>)
    requires
        q@.len() >= 1,
    ensures
        match r {
            Some(i) => match_at(line@, q@, i as int) && forall|j: int|
                0 <= j < i ==> !match_at(line@, q@, j),
            None => !line_contains(line@, q@),
        },
{
    let m = q.len();
    let n = line.len();
    if m > n {
        proof {
            assert forall|i: int| !match_at(line@, q@, i) by {}
        }
        return None;
    }
    let mut i: usize = 0;
    while i <= n - m
        invariant
            q@.len() == m,
            line@.len() == n,
            1 <= m <= n,
            0 <= i <= n - m + 1,
            forall|j: int| 0 <= j < i ==> !match_at(line@, q@, j),
        decreases n - m + 1 - i,
    {
        let mut j: usize = 0;
        let mut hit = true;
        while j < m
            invariant
                q@.len() == m,
                line@.len() == n,
                1 <= m <= n,
                0 <= i <= n - m,
                0 <= j <= m,
                hit ==> forall|t: int| 0 <= t < j ==> line@[i + t] == q@[t],
                !hit ==> !match_at(line@, q@, i as int),
            decreases m - j,
        {
            if line[i + j] != q[j] {
                hit = false;
                proof {
                    assert(line@.subrange(i as int, i as int + m) != q@) by {
                        assert(line@.subrange(i as int, i as int + m)[j as int] != q@[j as int]);
                    }
                }
                j = m;
            } else {
                j = j + 1;
            }
        }
        if hit {
            proof {
                assert(line@.subrange(i as int, i as int + m) =~= q@);
            }
            return Some(i);
        }
        proof {
            assert(!match_at(line@, q@, i as int));
        }
        i = i + 1;
    }
    proof {
        assert forall|j: int| !match_at(line@, q@, j) by {
            if 0 <= j <= n - m {
                assert(!match_at(line@, q@, j));
            }
        }
    }
    None
}

/// First match in scan order: rows `from_row` to the last row, then rows 0
/// up to (but not including) `from_row`; within a row, the leftmost match.
/// `None` when the query is empty or occurs nowhere.
pub fn search_from(buf: &TextBuffer, from_row: usize, q: &Vec<u8>) -> (r: Option<Position>)
    requires
        buf.wf(),
        from_row < buf@.len(),
    ensures
        match r {
            Some(p) => q@.len() >= 1 && p.row < buf@.len() && match_at(
                buf@[p.row as int],
                q@,
                p.col as int,
            ) && (forall|j: int| 0 <= j < p.col ==> !match_at(buf@[p.row as int], q@, j)) && (
            if p.row >= from_row {
                forall|t: int| from_row <= t < p.row ==> !line_contains(buf@[t], q@)
            } else {
                (forall|t: int| from_row <= t < buf@.len() ==> !line_contains(buf@[t], q@))
                    && (forall|t: int| 0 <= t < p.row ==> !line_contains(buf@[t], q@))
            }),
            None => q@.len() == 0 || forall|t: int|
                0 <= t < buf@.len() ==> !line_contains(buf@[t], q@),
        },
{
    if q.len() == 0 {
        return None;
    }
    let n = buf.num_lines();
    let mut row: usize = from_row;
    while row < n
        invariant
            buf.wf(),
            n == buf@.len(),
            from_row <= row <= n,
            q@.len() >= 1,
            forall|t: int| from_row <= t < row ==> !line_contains(buf@[t], q@),
        decreases n - row,
    {
        let found = find_in_line(buf.line_at(row), q);
        match found {
            Some(col) => {
                return Some(Position { row, col });
            },
            None => {},
        }
        row = row + 1;
    }
    let mut row2: usize = 0;
    while row2 < from_row
        invariant
            buf.wf(),
            n == buf@.len(),
            from_row < n,
            0 <= row2 <= from_row,
            q@.len() >= 1,
            forall|t: int| from_row <= t < n ==> !line_contains(buf@[t], q@),
            forall|t: int| 0 <= t < row2 ==> !line_contains(buf@[t], q@),
        decreases from_row - row2,
    {
        let found = find_in_line(buf.line_at(row2), q);
        match found {
            Some(col) => {
                return Some(Position { row: row2, col });
            },
            None => {},
        }
        row2 = row2 + 1;
    }
    None
}

} // verus!
