//! Grapheme metrics for a line of UTF-8 bytes: where the grapheme clusters
//! begin, and how many display columns each cluster occupies. The two
//! segmentation wrappers are the only trusted items of the crate; everything
//! that scans their results is verified.
use vstd::prelude::*;
use unicode_segmentation::UnicodeSegmentation;
use unicode_width::UnicodeWidthStr;

verus! {

/// The byte offsets at which the grapheme clusters of `s` begin, in
/// increasing order, as unicode_segmentation reports them.
pub uninterp spec fn grapheme_starts_of(s: Seq<u8>) -> Seq<int>;

/// The display width in terminal columns of each grapheme cluster of `s`,
/// one entry per cluster, as unicode_width reports them.
pub uninterp spec fn grapheme_widths_of(s: Seq<u8>) -> Seq<int>;

/// The shape that a cluster-start listing always has: it names the
/// grapheme starts of the line, begins at 0 on a non-empty line, stays
/// inside the line, and increases strictly.
pub open spec fn starts_ok(line: Seq<u8>, sv: Seq<usize>) -> bool {
    &&& sv.map_values(|v: usize| v as int) == grapheme_starts_of(line)
    &&& (line.len() == 0 ==> sv.len() == 0)
    &&& (line.len() > 0 ==> sv.len() > 0 && sv[0] == 0)
    &&& (forall|i: int| 0 <= i < sv.len() ==> (#[trigger] sv[i]) < line.len())
    &&& (forall|i: int| 0 < i < sv.len() ==> sv[i - 1] < #[trigger] sv[i])
}

/// Relies on unicode_segmentation::UnicodeSegmentation::grapheme_indices:
/// the byte offset of each extended grapheme cluster of the line, in
/// increasing order, starting at offset 0 for a non-empty line. A line that
/// is not valid UTF-8 is treated as one cluster per byte.
#[verifier::external_body]
pub fn grapheme_starts(line: &Vec<u8>) -> (r: Vec<usize>)
    ensures
        starts_ok(line@, r@),
{
    match core::str::from_utf8(line.as_slice()) {
        Ok(s) => s.grapheme_indices(true).map(|(i, _)| i).collect(),
        Err(_) => (0..line.len()).collect(),
    }
}

/// Relies on unicode_segmentation::UnicodeSegmentation::graphemes and
/// unicode_width::UnicodeWidthStr::width: the display width of each grapheme
/// cluster of the line, one entry per cluster, in order. A line that is not
/// valid UTF-8 is treated as one column per byte.
#[verifier::external_body]
pub fn grapheme_widths(line: &Vec<u8>) -> (r: Vec<usize>)
    ensures
        r@.map_values(|v: usize| v as int) == grapheme_widths_of(line@),
        r@.len() == grapheme_starts_of(line@).len(),
{
    match core::str::from_utf8(line.as_slice()) {
        Ok(s) => s.graphemes(true).map(|g| g.width()).collect(),
        Err(_) => vec![1; line.len()],
    }
}

/// Cluster start offsets that lie strictly after `col`, first one wins;
/// `len` when none does.
pub open spec fn next_start(starts: Seq<int>, col: int, len: int) -> int
    decreases starts.len(),
{
    if starts.len() == 0 {
        len
    } else if starts[0] > col {
        starts[0]
    } else {
        next_start(starts.drop_first(), col, len)
    }
}

/// Largest cluster start strictly before `col`; 0 when none is.
pub open spec fn prev_start(starts: Seq<int>, col: int) -> int
    decreases starts.len(),
{
    if starts.len() == 0 {
        0
    } else if starts.last() < col {
        starts.last()
    } else {
        prev_start(starts.drop_last(), col)
    }
}

/// The byte offset of the grapheme boundary that follows `col` in `s`.
pub open spec fn next_boundary(s: Seq<u8>, col: int) -> int {
    next_start(grapheme_starts_of(s), col, s.len() as int)
}

/// The byte offset of the grapheme boundary that precedes `col` in `s`.
pub open spec fn prev_boundary(s: Seq<u8>, col: int) -> int {
    prev_start(grapheme_starts_of(s), col)
}

proof fn lemma_next_start_skip(starts: Seq<int>, col: int, len: int, k: int)
    requires
        0 <= k <= starts.len(),
        forall|j: int| 0 <= j < k ==> starts[j] <= col,
    ensures
        next_start(starts, col, len) == next_start(starts.skip(k), col, len),
    decreases k,
{
    if k > 0 {
        lemma_next_start_skip(starts.drop_first(), col, len, k - 1);
        assert(starts.drop_first().skip(k - 1) =~= starts.skip(k));
    } else {
        assert(starts.skip(0) =~= starts);
    }
}

proof fn lemma_prev_start_take(starts: Seq<int>, col: int, k: int)
    requires
        0 <= k <= starts.len(),
        forall|j: int| k <= j < starts.len() ==> starts[j] >= col,
    ensures
        prev_start(starts, col) == prev_start(starts.take(k), col),
    decreases starts.len() - k,
{
    if k < starts.len() {
        lemma_prev_start_take(starts.drop_last(), col, k);
        assert(starts.drop_last().take(k) =~= starts.take(k));
    } else {
        assert(starts.take(k) =~= starts);
    }
}

/// The boundary after `col`: the byte offset where the next grapheme cluster
/// begins, or the end of the line when no cluster begins after `col`.
pub fn next_grapheme_boundary(line: &Vec<u8>, col: usize) -> (r: usize)
    ensures
        r as int == next_boundary(line@, col as int),
        r <= line@.len(),
        col < line@.len() ==> col < r,
        is_grapheme_boundary(line@, r as int),
{
    let starts = grapheme_starts(line);
    let ghost ss = starts@.map_values(|v: usize| v as int);
    let n = starts.len();
    let mut k: usize = 0;
    while k < n && starts[k] <= col
        invariant
            0 <= k <= n,
            n == starts@.len(),
            ss == starts@.map_values(|v: usize| v as int),
            ss.len() == n,
            forall|j: int| 0 <= j < k ==> ss[j] <= col,
        decreases n - k,
    {
        proof {
            assert(ss[k as int] == starts@[k as int] as int);
        }
        k = k + 1;
    }
    proof {
        lemma_next_start_skip(ss, col as int, line@.len() as int, k as int);
        lemma_next_start_element(ss, col as int, line@.len() as int);
    }
    if k < n {
        let r = starts[k];
        proof {
            assert(ss.skip(k as int)[0] == ss[k as int]);
            assert(r as int != line@.len() ==> ss.contains(r as int));
            if ss.contains(r as int) {
                let ghost i = choose|i: int| 0 <= i < ss.len() && ss[i] == r as int;
                assert(grapheme_starts_of(line@)[i] == r as int);
            }
        }
        r
    } else {
        proof {
            assert(ss.skip(k as int).len() == 0);
        }
        line.len()
    }
}

/// The boundary before `col`: the byte offset where the latest grapheme
/// cluster beginning strictly before `col` starts, or 0.
pub fn prev_grapheme_boundary(line: &Vec<u8>, col: usize) -> (r: usize)
    ensures
        r as int == prev_boundary(line@, col as int),
        r <= line@.len(),
        0 < col ==> r < col,
        is_grapheme_boundary(line@, r as int),
{
    let starts = grapheme_starts(line);
    let ghost ss = starts@.map_values(|v: usize| v as int);
    let n = starts.len();
    let mut k: usize = n;
    while k > 0 && starts[k - 1] >= col
        invariant
            0 <= k <= n,
            n == starts@.len(),
            ss == starts@.map_values(|v: usize| v as int),
            ss.len() == n,
            forall|j: int| k <= j < n ==> ss[j] >= col,
        decreases k,
    {
        proof {
            assert(ss[k as int - 1] == starts@[k as int - 1] as int);
        }
        k = k - 1;
    }
    proof {
        lemma_prev_start_take(ss, col as int, k as int);
        if line@.len() > 0 {
            assert(ss[0] == starts@[0] as int);
            lemma_prev_start_element(ss, col as int);
        }
    }
    if k > 0 {
        let r = starts[k - 1];
        proof {
            assert(ss.take(k as int).last() == ss[k as int - 1]);
            assert(ss.contains(prev_start(ss, col as int)));
        }
        r
    } else {
        proof {
            assert(ss.take(0).len() == 0);
            if line@.len() > 0 {
                assert(ss.contains(prev_start(ss, col as int)));
            }
        }
        0
    }
}

/// Sum of the widths of the clusters that begin strictly before `col`.
pub open spec fn width_prefix(starts: Seq<int>, widths: Seq<int>, col: int) -> int
    decreases starts.len(),
{
    if starts.len() == 0 || widths.len() == 0 {
        0
    } else if starts[0] < col {
        widths[0] + width_prefix(starts.drop_first(), widths.drop_first(), col)
    } else {
        0
    }
}

/// Display width of the part of `s` that stands before byte offset `col`:
/// the summed widths of the clusters beginning before `col`.
pub open spec fn display_width_before(s: Seq<u8>, col: int) -> int {
    width_prefix(grapheme_starts_of(s), grapheme_widths_of(s), col)
}

proof fn lemma_width_prefix_step(starts: Seq<int>, widths: Seq<int>, col: int, k: int)
    requires
        0 <= k,
        k + 1 <= starts.len(),
        starts.len() == widths.len(),
        forall|j: int| 0 <= j <= k ==> starts[j] < col,
    ensures
        width_prefix(starts.skip(k), widths.skip(k), col) == widths[k] + width_prefix(
            starts.skip(k + 1),
            widths.skip(k + 1),
            col,
        ),
{
    assert(starts.skip(k)[0] == starts[k]);
    assert(widths.skip(k)[0] == widths[k]);
    assert(starts.skip(k).drop_first() =~= starts.skip(k + 1));
    assert(widths.skip(k).drop_first() =~= widths.skip(k + 1));
}

/// Display width of the line up to byte offset `col`, in terminal columns;
/// the count saturates at the top of `usize` rather than overflowing.
pub fn display_width_up_to(line: &Vec<u8>, col: usize) -> (r: usize)
    ensures
        r <= display_width_before(line@, col as int),
        display_width_before(line@, col as int) <= usize::MAX as int ==> r as int
            == display_width_before(line@, col as int),
        r as int == display_width_before(line@, col as int) || r == usize::MAX,
{
    let starts = grapheme_starts(line);
    let widths = grapheme_widths(line);
    let ghost ss = starts@.map_values(|v: usize| v as int);
    let ghost ws = widths@.map_values(|v: usize| v as int);
    let n = starts.len();
    let mut k: usize = 0;
    let mut acc: usize = 0;
    let ghost mut sk: int = 0;
    proof {
        assert(ss.skip(0) =~= ss);
        assert(ws.skip(0) =~= ws);
    }
    while k < n && starts[k] < col
        invariant
            0 <= k <= n,
            n == starts@.len(),
            n == widths@.len(),
            ss == starts@.map_values(|v: usize| v as int),
            ws == widths@.map_values(|v: usize| v as int),
            forall|j: int| 0 <= j < k ==> ss[j] < col,
            width_prefix(ss, ws, col as int) == sk + width_prefix(
                ss.skip(k as int),
                ws.skip(k as int),
                col as int,
            ),
            acc as int == sk || (acc == usize::MAX && sk >= usize::MAX as int),
            acc as int <= sk,
        decreases n - k,
    {
        let w = widths[k];
        proof {
            assert(ss[k as int] == starts@[k as int] as int);
            lemma_width_prefix_step(ss, ws, col as int, k as int);
            assert(ws[k as int] == widths@[k as int] as int);
            sk = sk + w as int;
        }
        if acc > usize::MAX - w {
            acc = usize::MAX;
        } else {
            acc = acc + w;
        }
        k = k + 1;
    }
    proof {
        if k < n {
            assert(ss.skip(k as int)[0] == ss[k as int]);
            assert(width_prefix(ss.skip(k as int), ws.skip(k as int), col as int) == 0);
        } else {
            assert(ss.skip(k as int).len() == 0);
            assert(width_prefix(ss.skip(k as int), ws.skip(k as int), col as int) == 0);
        }
    }
    acc
}


/// A grapheme boundary of `s`: the start of one of its clusters, or its end.
pub open spec fn is_grapheme_boundary(s: Seq<u8>, i: int) -> bool {
    i == s.len() || grapheme_starts_of(s).contains(i)
}

proof fn lemma_prev_start_element(starts: Seq<int>, col: int)
    requires
        starts.len() > 0,
        starts[0] == 0,
    ensures
        starts.contains(prev_start(starts, col)),
    decreases starts.len(),
{
    if starts.last() < col {
    } else if starts.len() == 1 {
        assert(prev_start(starts, col) == prev_start(starts.drop_last(), col));
        assert(starts.drop_last().len() == 0);
        assert(starts[0] == 0);
    } else {
        lemma_prev_start_element(starts.drop_last(), col);
        let v = prev_start(starts.drop_last(), col);
        assert(starts.drop_last().contains(v));
        let i = choose|i: int| 0 <= i < starts.drop_last().len() && starts.drop_last()[i] == v;
        assert(starts[i] == v);
    }
}

proof fn lemma_next_start_element(starts: Seq<int>, col: int, len: int)
    ensures
        next_start(starts, col, len) == len || starts.contains(next_start(starts, col, len)),
    decreases starts.len(),
{
    if starts.len() > 0 && !(starts[0] > col) {
        lemma_next_start_element(starts.drop_first(), col, len);
        let v = next_start(starts.drop_first(), col, len);
        if v != len {
            let i = choose|i: int|
                0 <= i < starts.drop_first().len() && starts.drop_first()[i] == v;
            assert(starts[i + 1] == v);
        }
    }
}

/// Number of clusters that begin strictly before `col` (for a sorted start
/// listing, the index of the cluster that starts at or after `col`).
pub open spec fn count_before(starts: Seq<int>, col: int) -> int
    decreases starts.len(),
{
    if starts.len() == 0 {
        0
    } else if starts[0] < col {
        1 + count_before(starts.drop_first(), col)
    } else {
        0
    }
}

proof fn lemma_count_before_skip(starts: Seq<int>, col: int, k: int)
    requires
        0 <= k <= starts.len(),
        forall|j: int| 0 <= j < k ==> starts[j] < col,
    ensures
        count_before(starts, col) == k + count_before(starts.skip(k), col),
    decreases k,
{
    if k > 0 {
        lemma_count_before_skip(starts.drop_first(), col, k - 1);
        assert(starts.drop_first().skip(k - 1) =~= starts.skip(k));
    } else {
        assert(starts.skip(0) =~= starts);
    }
}

/// Index (into the start listing) of the cluster whose start is `col`, or
/// of the first cluster starting after `col`.
pub fn cluster_index(line: &Vec<u8>, starts: &Vec<usize>, col: usize) -> (k: usize)
    requires
        starts_ok(line@, starts@),
    ensures
        k as int == count_before(grapheme_starts_of(line@), col as int),
        k <= starts@.len(),
        forall|j: int| 0 <= j < k ==> (#[trigger] starts@[j]) < col,
{
    let ghost ss = starts@.map_values(|v: usize| v as int);
    let n = starts.len();
    let mut k: usize = 0;
    while k < n && starts[k] < col
        invariant
            0 <= k <= n,
            n == starts@.len(),
            ss == starts@.map_values(|v: usize| v as int),
            ss.len() == n,
            forall|j: int| 0 <= j < k ==> ss[j] < col,
        decreases n - k,
    {
        proof {
            assert(ss[k as int] == starts@[k as int] as int);
        }
        k = k + 1;
    }
    proof {
        lemma_count_before_skip(ss, col as int, k as int);
        if k < n {
            assert(ss.skip(k as int)[0] == ss[k as int]);
            assert(count_before(ss.skip(k as int), col as int) == 0);
        } else {
            assert(ss.skip(k as int).len() == 0);
        }
        assert forall|j: int| 0 <= j < k implies (#[trigger] starts@[j]) < col by {
            assert(ss[j] == starts@[j] as int);
        }
    }
    k
}

/// The cluster at index `i` is a single space or tab byte.
pub open spec fn is_blank_cluster(line: Seq<u8>, starts: Seq<int>, i: int) -> bool {
    0 <= i < starts.len() && {
        let st = starts[i];
        let en = if i + 1 < starts.len() {
            starts[i + 1]
        } else {
            line.len() as int
        };
        en == st + 1 && 0 <= st < line.len() && (line[st] == 32 || line[st] == 9)
    }
}

fn blank_cluster_at(line: &Vec<u8>, starts: &Vec<usize>, i: usize) -> (r: bool)
    requires
        starts_ok(line@, starts@),
        i < starts@.len(),
    ensures
        r == is_blank_cluster(line@, starts@.map_values(|v: usize| v as int), i as int),
{
    let st = starts[i];
    let en = if i < starts.len() - 1 {
        starts[i + 1]
    } else {
        line.len()
    };
    let ghost ss = starts@.map_values(|v: usize| v as int);
    proof {
        assert(ss[i as int] == starts@[i as int] as int);
        if i as int + 1 < starts@.len() {
            assert(ss[i as int + 1] == starts@[i as int + 1] as int);
        }
    }
    en == st + 1 && (line[st] == 32 || line[st] == 9)
}

/// Index of the cluster where a leftward word move from cluster `i` lands:
/// the nearest blank cluster strictly before `i`, or the line start.
pub open spec fn word_left_idx(line: Seq<u8>, starts: Seq<int>, i: int) -> int
    decreases i,
{
    if i <= 0 {
        0
    } else if is_blank_cluster(line, starts, i - 1) {
        i - 1
    } else {
        word_left_idx(line, starts, i - 1)
    }
}

/// First cluster index at or after `j` that is not blank; the cluster count
/// when the rest of the line is blank.
pub open spec fn skip_blank_run(line: Seq<u8>, starts: Seq<int>, j: int) -> int
    recommends
        0 <= j,
    decreases starts.len() - j,
{
    if j >= starts.len() {
        starts.len() as int
    } else if is_blank_cluster(line, starts, j) {
        skip_blank_run(line, starts, j + 1)
    } else {
        j
    }
}

/// Index of the cluster where a rightward word move from cluster `i` lands:
/// just past the next run of blank clusters, or the cluster count when no
/// blank follows.
pub open spec fn word_right_idx(line: Seq<u8>, starts: Seq<int>, i: int) -> int
    recommends
        0 <= i,
    decreases starts.len() - i,
{
    if i + 1 >= starts.len() {
        starts.len() as int
    } else if is_blank_cluster(line, starts, i + 1) {
        skip_blank_run(line, starts, i + 1)
    } else {
        word_right_idx(line, starts, i + 1)
    }
}

/// Byte offset where a leftward word move from byte offset `col` lands.
pub open spec fn word_left_col(line: Seq<u8>, col: int) -> int {
    let starts = grapheme_starts_of(line);
    if starts.len() == 0 {
        0
    } else {
        let idx = word_left_idx(line, starts, count_before(starts, col));
        if 0 <= idx < starts.len() {
            starts[idx]
        } else {
            0
        }
    }
}

/// Byte offset where a rightward word move from byte offset `col` lands.
pub open spec fn word_right_col(line: Seq<u8>, col: int) -> int {
    let starts = grapheme_starts_of(line);
    let j = word_right_idx(line, starts, count_before(starts, col));
    if 0 <= j < starts.len() {
        starts[j]
    } else {
        line.len() as int
    }
}

/// Executable leftward word move within a line.
pub fn word_left_boundary(line: &Vec<u8>, col: usize) -> (r: usize)
    requires
        0 < col <= line@.len(),
    ensures
        r as int == word_left_col(line@, col as int),
        r < line@.len(),
{
    let starts = grapheme_starts(line);
    let ghost ss = starts@.map_values(|v: usize| v as int);
    let k = cluster_index(line, &starts, col);
    let mut i: usize = k;
    while i > 0 && !blank_cluster_at(line, &starts, i - 1)
        invariant
            0 <= i <= k,
            k <= starts@.len(),
            starts_ok(line@, starts@),
            ss == starts@.map_values(|v: usize| v as int),
            word_left_idx(line@, ss, k as int) == word_left_idx(line@, ss, i as int),
        decreases i,
    {
        i = i - 1;
    }
    let idx = if i > 0 {
        i - 1
    } else {
        0
    };
    proof {
        assert(starts@.len() > 0);
        assert(word_left_idx(line@, ss, i as int) == idx as int);
        assert(ss[idx as int] == starts@[idx as int] as int);
    }
    starts[idx]
}

/// Executable rightward word move within a line.
pub fn word_right_boundary(line: &Vec<u8>, col: usize) -> (r: usize)
    requires
        col < line@.len(),
    ensures
        r as int == word_right_col(line@, col as int),
        r <= line@.len(),
{
    let starts = grapheme_starts(line);
    let ghost ss = starts@.map_values(|v: usize| v as int);
    let k = cluster_index(line, &starts, col);
    let n = starts.len();
    let mut i: usize = k;
    while i < n - 1 && !blank_cluster_at(line, &starts, i + 1)
        invariant
            k <= i <= n,
            n >= 1,
            n == starts@.len(),
            starts_ok(line@, starts@),
            ss == starts@.map_values(|v: usize| v as int),
            word_right_idx(line@, ss, k as int) == word_right_idx(line@, ss, i as int),
        decreases n - i,
    {
        i = i + 1;
    }
    if i >= n - 1 {
        proof {
            assert(word_right_idx(line@, ss, i as int) == n as int);
        }
        line.len()
    } else {
        let mut m: usize = i + 1;
        proof {
            assert(word_right_idx(line@, ss, i as int) == skip_blank_run(line@, ss, m as int));
        }
        while m < n && blank_cluster_at(line, &starts, m)
            invariant
                0 < m <= n,
                n == starts@.len(),
                starts_ok(line@, starts@),
                ss == starts@.map_values(|v: usize| v as int),
                word_right_idx(line@, ss, k as int) == skip_blank_run(line@, ss, m as int),
            decreases n - m,
        {
            m = m + 1;
        }
        if m < n {
            proof {
                assert(skip_blank_run(line@, ss, m as int) == m as int);
                assert(ss[m as int] == starts@[m as int] as int);
            }
            starts[m]
        } else {
            proof {
                assert(skip_blank_run(line@, ss, m as int) == n as int);
            }
            line.len()
        }
    }
}

} // verus!
