//! Byte-level text primitives: UTF-8 character encoding, the scan that finds
//! the start of the character ending at a byte offset, and splitting/joining
//! of text on newline bytes.
use vstd::prelude::*;
use vstd::utf8::{encode_scalar, is_continuation_byte, is_scalar};

verus! {

pub const NEWLINE: u8 = 10;

/// Start of the character that ends at byte offset `col`: the largest
/// offset `q < col` at which a non-continuation byte stands, or 0 when every
/// byte before `col` is a continuation byte.
pub open spec fn prev_char_start(s: Seq<u8>, col: int) -> int
    recommends
        0 < col <= s.len(),
    decreases col,
{
    if col <= 1 {
        0
    } else if is_continuation_byte(s[col - 1]) {
        prev_char_start(s, col - 1)
    } else {
        col - 1
    }
}

pub proof fn lemma_prev_char_start_range(s: Seq<u8>, col: int)
    requires
        0 < col <= s.len(),
    ensures
        0 <= prev_char_start(s, col) < col,
    decreases col,
{
    if col > 1 && is_continuation_byte(s[col - 1]) {
        lemma_prev_char_start_range(s, col - 1);
    }
}

/// `s` with the bytes of the range `[p, q)` removed.
pub open spec fn remove_range(s: Seq<u8>, p: int, q: int) -> Seq<u8>
    recommends
        0 <= p <= q <= s.len(),
{
    s.subrange(0, p) + s.subrange(q, s.len() as int)
}

/// Executable mirror of `prev_char_start`.
pub fn find_prev_char_start(line: &Vec<u8>, col: usize) -> (r: usize)
    requires
        0 < col <= line@.len(),
    ensures
        r as int == prev_char_start(line@, col as int),
        r < col,
    decreases col,
{
    proof {
        lemma_prev_char_start_range(line@, col as int);
    }
    if col <= 1 {
        0
    } else if 0x80 <= line[col - 1] && line[col - 1] <= 0xbf {
        find_prev_char_start(line, col - 1)
    } else {
        col - 1
    }
}

/// The UTF-8 bytes of one character.
pub fn encode_char(c: char) -> (r: Vec<u8>)
    ensures
        r@ == encode_scalar(c as u32),
        1 <= r@.len() <= 4,
{
    proof {
        vstd::utf8::char_is_scalar(c);
    }
    let x = c as u32;
    let r: Vec<u8> = if x < 0x80 {
        vec![#[verifier::truncate] ((x & 0x7F) as u8)]
    } else if x < 0x800 {
        vec![
            0xC0 | #[verifier::truncate] (((x >> 6) & 0x1F) as u8),
            0x80 | #[verifier::truncate] ((x & 0x3F) as u8),
        ]
    } else if x < 0x10000 {
        vec![
            0xE0 | #[verifier::truncate] (((x >> 12) & 0x0F) as u8),
            0x80 | #[verifier::truncate] (((x >> 6) & 0x3F) as u8),
            0x80 | #[verifier::truncate] ((x & 0x3F) as u8),
        ]
    } else {
        vec![
            0xF0 | #[verifier::truncate] (((x >> 18) & 0x7) as u8),
            0x80 | #[verifier::truncate] (((x >> 12) & 0x3F) as u8),
            0x80 | #[verifier::truncate] (((x >> 6) & 0x3F) as u8),
            0x80 | #[verifier::truncate] ((x & 0x3F) as u8),
        ]
    };
    proof {
        assert(r@ =~= encode_scalar(c as u32));
    }
    r
}

/// The first byte of an encoded character is never a continuation byte;
/// all its later bytes are continuation bytes.
pub proof fn lemma_encode_scalar_shape(s: u32)
    requires
        is_scalar(s),
    ensures
        1 <= encode_scalar(s).len() <= 4,
        !is_continuation_byte(encode_scalar(s)[0]),
        forall|i: int|
            1 <= i < encode_scalar(s).len() ==> is_continuation_byte(encode_scalar(s)[i]),
{
    if s <= 0x7F {
        assert((s & 0x7F) as u8 <= 0x7f) by (bit_vector);
    } else if s <= 0x7FF {
        assert(0xC0 <= (0xC0 | (((s >> 6) & 0x1F) as u8))) by (bit_vector);
        assert(0x80 <= (0x80 | ((s & 0x3F) as u8)) <= 0xbf) by (bit_vector);
    } else if s <= 0xFFFF {
        assert(0xC0 <= (0xE0 | (((s >> 12) & 0x0F) as u8))) by (bit_vector);
        assert(0x80 <= (0x80 | (((s >> 6) & 0x3F) as u8)) <= 0xbf) by (bit_vector);
        assert(0x80 <= (0x80 | ((s & 0x3F) as u8)) <= 0xbf) by (bit_vector);
    } else {
        assert(0xC0 <= (0xF0 | (((s >> 18) & 0x7) as u8))) by (bit_vector);
        assert(0x80 <= (0x80 | (((s >> 12) & 0x3F) as u8)) <= 0xbf) by (bit_vector);
        assert(0x80 <= (0x80 | (((s >> 6) & 0x3F) as u8)) <= 0xbf) by (bit_vector);
        assert(0x80 <= (0x80 | ((s & 0x3F) as u8)) <= 0xbf) by (bit_vector);
    }
}

/// Removing the character just inserted restores the surrounding text:
/// in `a + encode_scalar(c) + b`, the scan back from the end of the encoding
/// stops exactly at its first byte.
pub proof fn lemma_prev_char_start_after_insert(a: Seq<u8>, s: u32, b: Seq<u8>)
    requires
        is_scalar(s),
    ensures
        ({
            let t = a + encode_scalar(s) + b;
            let col = a.len() + encode_scalar(s).len();
            prev_char_start(t, col as int) == a.len() && remove_range(
                t,
                a.len() as int,
                col as int,
            ) =~= a + b
        }),
{
    lemma_encode_scalar_shape(s);
    let enc = encode_scalar(s);
    let t = a + enc + b;
    let col = (a.len() + enc.len()) as int;
    assert(t[a.len() as int] == enc[0]);
    assert forall|k: int| a.len() < k < col implies is_continuation_byte(#[trigger] t[k]) by {
        assert(t[k] == enc[k - a.len()]);
    }
    lemma_prev_scan_stops(t, a.len() as int, col);
    assert(remove_range(t, a.len() as int, col) =~= a + b);
}

/// Scanning back over a run of continuation bytes that begins right after a
/// non-continuation byte (or at offset 0) stops at the start of the run.
proof fn lemma_prev_scan_stops(t: Seq<u8>, p: int, col: int)
    requires
        0 <= p < col <= t.len(),
        !is_continuation_byte(t[p]),
        forall|k: int| p < k < col ==> is_continuation_byte(t[k]),
    ensures
        prev_char_start(t, col) == p,
    decreases col,
{
    if col - 1 == p {
        if col <= 1 {
        } else {
        }
    } else {
        lemma_prev_scan_stops(t, p, col - 1);
    }
}

/// Byte offset of the first newline in `t`, or `t.len()` when none occurs.
pub open spec fn first_nl(t: Seq<u8>) -> int
    decreases t.len(),
{
    if t.len() == 0 {
        0
    } else if t[0] == NEWLINE {
        0
    } else {
        1 + first_nl(t.drop_first())
    }
}

pub proof fn lemma_first_nl(t: Seq<u8>)
    ensures
        0 <= first_nl(t) <= t.len(),
        first_nl(t) < t.len() ==> t[first_nl(t)] == NEWLINE,
        forall|j: int| 0 <= j < first_nl(t) ==> t[j] != NEWLINE,
    decreases t.len(),
{
    if t.len() > 0 && t[0] != NEWLINE {
        lemma_first_nl(t.drop_first());
        assert forall|j: int| 0 <= j < first_nl(t) implies t[j] != NEWLINE by {
            if j > 0 {
                assert(t[j] == t.drop_first()[j - 1]);
            }
        }
    }
}

/// `t` split on newline bytes; the newline bytes themselves are dropped.
/// Always yields at least one segment.
pub open spec fn split_nl(t: Seq<u8>) -> Seq<Seq<u8>>
    decreases t.len(),
{
    let i = first_nl(t);
    if 0 <= i < t.len() {
        seq![t.subrange(0, i)] + split_nl(t.subrange(i + 1, t.len() as int))
    } else {
        seq![t]
    }
}

/// Segments joined with a newline byte between each pair.
pub open spec fn join_nl(ls: Seq<Seq<u8>>) -> Seq<u8>
    decreases ls.len(),
{
    if ls.len() == 0 {
        seq![]
    } else if ls.len() == 1 {
        ls[0]
    } else {
        ls[0] + seq![NEWLINE] + join_nl(ls.drop_first())
    }
}

pub proof fn lemma_split_nl_len(t: Seq<u8>)
    ensures
        split_nl(t).len() >= 1,
        split_nl(t).len() <= t.len() + 1,
    decreases t.len(),
{
    lemma_first_nl(t);
    let i = first_nl(t);
    if i != t.len() {
        lemma_split_nl_len(t.subrange(i + 1, t.len() as int));
    }
}

/// Splitting on newlines and joining with newlines are inverse.
pub proof fn lemma_join_split_nl(t: Seq<u8>)
    ensures
        join_nl(split_nl(t)) == t,
    decreases t.len(),
{
    lemma_first_nl(t);
    let i = first_nl(t);
    if i == t.len() {
        assert(join_nl(split_nl(t)) =~= t);
    } else {
        let rest = t.subrange(i + 1, t.len() as int);
        lemma_split_nl_len(rest);
        lemma_join_split_nl(rest);
        assert((seq![t.subrange(0, i)] + split_nl(rest)).drop_first() =~= split_nl(rest));
        assert(join_nl(split_nl(t)) =~= t.subrange(0, i) + seq![NEWLINE] + rest);
        assert(t.subrange(0, i) + seq![NEWLINE] + rest =~= t);
    }
}

/// `first_nl` is pinned down by its characteristic properties.
pub proof fn lemma_first_nl_is(t: Seq<u8>, k: int)
    requires
        0 <= k <= t.len(),
        forall|j: int| 0 <= j < k ==> t[j] != NEWLINE,
        k < t.len() ==> t[k] == NEWLINE,
    ensures
        first_nl(t) == k,
    decreases t.len(),
{
    if t.len() > 0 && t[0] != NEWLINE {
        lemma_first_nl_is(t.drop_first(), k - 1);
    }
}

/// Executable split of `text` on newline bytes.
pub fn split_newlines(text: &Vec<u8>) -> (r: Vec<Vec<u8>>)
    ensures
        r.deep_view() == split_nl(text@),
        r@.len() >= 1,
{
    let mut out: Vec<Vec<u8>> = Vec::new();
    let mut seg: Vec<u8> = Vec::new();
    let mut i: usize = 0;
    proof {
        assert(text@.subrange(0, text@.len() as int) =~= text@);
    }
    while i < text.len()
        invariant
            0 <= i <= text@.len(),
            seg@.len() <= i,
            seg@ =~= text@.subrange(i - seg@.len(), i as int),
            forall|j: int| (i - seg@.len()) <= j < i ==> text@[j] != NEWLINE,
            out.deep_view() + split_nl(text@.subrange(i - seg@.len(), text@.len() as int))
                =~= split_nl(text@),
        decreases text@.len() - i,
    {
        let ghost old_out = out.deep_view();
        let ghost old_seg = seg@;
        let ghost start = i - seg@.len();
        let b = text[i];
        i = i + 1;
        if b == NEWLINE {
            proof {
                let rfs = text@.subrange(start, text@.len() as int);
                assert forall|j: int| 0 <= j < old_seg.len() implies rfs[j] != NEWLINE by {
                    assert(rfs[j] == text@[start + j]);
                }
                lemma_first_nl_is(rfs, old_seg.len() as int);
                assert(rfs.subrange(0, old_seg.len() as int) =~= old_seg);
                assert(rfs.subrange(old_seg.len() as int + 1, rfs.len() as int) =~= text@.subrange(
                    i as int,
                    text@.len() as int,
                ));
                assert(split_nl(rfs) =~= seq![old_seg] + split_nl(
                    text@.subrange(i as int, text@.len() as int),
                ));
            }
            out.push(seg);
            seg = Vec::new();
            proof {
                assert(out.deep_view() =~~= old_out.push(old_seg));
                assert(old_out.push(old_seg) + split_nl(
                    text@.subrange(i as int, text@.len() as int),
                ) =~= old_out + (seq![old_seg] + split_nl(
                    text@.subrange(i as int, text@.len() as int),
                )));
            }
        } else {
            seg.push(b);
        }
        proof {
            assert(seg@ =~= text@.subrange(i - seg@.len(), i as int));
        }
    }
    proof {
        let ghost start = i - seg@.len();
        let rfs = text@.subrange(start, text@.len() as int);
        assert forall|j: int| 0 <= j < seg@.len() implies rfs[j] != NEWLINE by {
            assert(rfs[j] == text@[start + j]);
        }
        lemma_first_nl_is(rfs, seg@.len() as int);
        assert(rfs =~= seg@);
        assert(split_nl(rfs) =~= seq![seg@]);
    }
    let ghost old_out = out.deep_view();
    let ghost last = seg@;
    out.push(seg);
    proof {
        assert(out.deep_view() =~~= old_out.push(last));
        assert(old_out.push(last) =~= old_out + seq![last]);
        assert(out.deep_view() =~~= split_nl(text@));
    }
    out
}

/// Joining splits at any interior seam: the text of all rows equals the text
/// of the first `k` rows, a newline, and the text of the rest.
pub proof fn lemma_join_nl_split(ls: Seq<Seq<u8>>, k: int)
    requires
        0 < k < ls.len(),
    ensures
        join_nl(ls) == join_nl(ls.take(k)) + seq![NEWLINE] + join_nl(ls.skip(k)),
    decreases k,
{
    if k == 1 {
        assert(ls.take(1) =~= seq![ls[0]]);
        assert(ls.skip(1) =~= ls.drop_first());
        assert(join_nl(ls.take(1)) == ls[0]);
    } else {
        let df = ls.drop_first();
        lemma_join_nl_split(df, k - 1);
        assert(df.take(k - 1) =~= ls.take(k).drop_first());
        assert(df.skip(k - 1) =~= ls.skip(k));
        assert(ls.take(k)[0] == ls[0]);
        assert(join_nl(ls.take(k)) == ls[0] + seq![NEWLINE] + join_nl(ls.take(k).drop_first()));
        assert(ls[0] + seq![NEWLINE] + (join_nl(df.take(k - 1)) + seq![NEWLINE] + join_nl(
            ls.skip(k),
        )) =~= (ls[0] + seq![NEWLINE] + join_nl(df.take(k - 1))) + seq![NEWLINE] + join_nl(
            ls.skip(k),
        ));
    }
}

/// Appends the bytes of `src` to `dst`.
pub fn append_bytes(dst: &mut Vec<u8>, src: &Vec<u8>)
    ensures
        final(dst)@ == old(dst)@ + src@,
{
    let mut i: usize = 0;
    while i < src.len()
        invariant
            0 <= i <= src@.len(),
            dst@ =~= old(dst)@ + src@.subrange(0, i as int),
        decreases src@.len() - i,
    {
        dst.push(src[i]);
        i = i + 1;
        proof {
            assert(dst@ =~= old(dst)@ + src@.subrange(0, i as int));
        }
    }
    proof {
        assert(old(dst)@ + src@.subrange(0, src@.len() as int) =~= old(dst)@ + src@);
    }
}

/// Executable join of rows with newline bytes between them.
pub fn join_newlines(rows: &Vec<Vec<u8>>) -> (r: Vec<u8>)
    ensures
        r@ == join_nl(rows.deep_view()),
{
    let ghost dv = rows.deep_view();
    let mut r: Vec<u8> = Vec::new();
    let n = rows.len();
    let mut i: usize = 0;
    while i < n
        invariant
            0 <= i <= n,
            n == rows@.len(),
            dv == rows.deep_view(),
            i == 0 ==> r@.len() == 0,
            0 < i < n ==> r@ == join_nl(dv.take(i as int)) + seq![NEWLINE],
            0 < i == n ==> r@ == join_nl(dv),
        decreases n - i,
    {
        proof {
            assert(rows@[i as int].deep_view() =~= rows@[i as int]@);
            assert(dv[i as int] == rows@[i as int]@);
        }
        append_bytes(&mut r, &rows[i]);
        i = i + 1;
        if i < n {
            r.push(NEWLINE);
            proof {
                if i == 1 {
                    assert(dv.take(1) =~= seq![dv[0]]);
                    assert(join_nl(dv.take(1)) == dv[0]);
                    assert(r@ =~= join_nl(dv.take(1)) + seq![NEWLINE]);
                } else {
                    lemma_join_nl_split(dv.take(i as int), i as int - 1);
                    assert(dv.take(i as int).take(i as int - 1) =~= dv.take(i as int - 1));
                    assert(dv.take(i as int).skip(i as int - 1) =~= seq![dv[i as int - 1]]);
                    assert(join_nl(seq![dv[i as int - 1]]) == dv[i as int - 1]);
                    assert(r@ =~= join_nl(dv.take(i as int)) + seq![NEWLINE]);
                }
            }
        } else {
            proof {
                if i == 1 {
                    assert(dv.take(1) =~= dv);
                    assert(join_nl(dv) == dv[0]);
                    assert(r@ =~= join_nl(dv));
                } else {
                    lemma_join_nl_split(dv, i as int - 1);
                    assert(dv.skip(i as int - 1) =~= seq![dv[i as int - 1]]);
                    assert(join_nl(seq![dv[i as int - 1]]) == dv[i as int - 1]);
                    assert(r@ =~= join_nl(dv));
                }
            }
        }
    }
    proof {
        if n == 0 {
            assert(dv.len() == 0);
            assert(r@ =~= join_nl(dv));
        }
    }
    r
}

/// Every segment that the split yields is at most as long as the text.
pub proof fn lemma_split_nl_seg_len(t: Seq<u8>, i: int)
    requires
        0 <= i < split_nl(t).len(),
    ensures
        split_nl(t)[i].len() <= t.len(),
    decreases t.len(),
{
    lemma_first_nl(t);
    let k = first_nl(t);
    if 0 <= k < t.len() {
        if i > 0 {
            lemma_split_nl_seg_len(t.subrange(k + 1, t.len() as int), i - 1);
        }
    }
}

} // verus!
