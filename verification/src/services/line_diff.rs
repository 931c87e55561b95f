//! Side-by-side, line-level diff of two texts based on a longest common
//! subsequence of their lines.
use vstd::prelude::*;
use crate::text::{split_lines, lines_of};

verus! {

/// One side of a row of the side-by-side diff.
#[derive(Debug, Clone, PartialEq, Eq)]
pub enum DiffLine {
    Same(String),
    Added(String),
    Removed(String),
}

/// The mathematical value of a [`DiffLine`].
pub enum DiffLineView {
    Same(Seq<char>),
    Added(Seq<char>),
    Removed(Seq<char>),
}

impl View for DiffLine {
    type V = DiffLineView;

    open spec fn view(&self) -> DiffLineView {
        match self {
            DiffLine::Same(s) => DiffLineView::Same(s@),
            DiffLine::Added(s) => DiffLineView::Added(s@),
            DiffLine::Removed(s) => DiffLineView::Removed(s@),
        }
    }
}

/// A row of the diff: (current side, snapshot side).
pub type DiffRow = (DiffLineView, DiffLineView);

/// The rows of a diff as mathematical values.
pub open spec fn rows_view(r: Seq<(DiffLine, DiffLine)>) -> Seq<DiffRow> {
    r.map_values(|p: (DiffLine, DiffLine)| (p.0@, p.1@))
}

// ---------------------------------------------------------------------------
// Longest common subsequence
// ---------------------------------------------------------------------------

/// Length of a longest common subsequence of `a[..i]` and `b[..j]`
/// (the usual dynamic-programming recurrence).
pub open spec fn lcs_len(a: Seq<Seq<char>>, b: Seq<Seq<char>>, i: nat, j: nat) -> nat
    decreases i + j,
{
    if i == 0 || j == 0 {
        0
    } else if a[i - 1] == b[j - 1] {
        lcs_len(a, b, (i - 1) as nat, (j - 1) as nat) + 1
    } else {
        let x = lcs_len(a, b, (i - 1) as nat, j);
        let y = lcs_len(a, b, i, (j - 1) as nat);
        if x >= y { x } else { y }
    }
}

/// The common subsequence that the trace-back through the table picks:
/// matching lines are taken, otherwise the step goes up when that keeps a
/// strictly longer subsequence and left otherwise.
pub open spec fn lcs_trace(a: Seq<Seq<char>>, b: Seq<Seq<char>>, i: nat, j: nat) -> Seq<(int, int)>
    decreases i + j,
{
    if i == 0 || j == 0 {
        seq![]
    } else if a[i - 1] == b[j - 1] {
        lcs_trace(a, b, (i - 1) as nat, (j - 1) as nat).push(((i - 1) as int, (j - 1) as int))
    } else if lcs_len(a, b, (i - 1) as nat, j) > lcs_len(a, b, i, (j - 1) as nat) {
        lcs_trace(a, b, (i - 1) as nat, j)
    } else {
        lcs_trace(a, b, i, (j - 1) as nat)
    }
}

/// `ps` lists index pairs of equal lines of `a[..i]` and `b[..j]`,
/// strictly increasing in both coordinates.
pub open spec fn is_common_subseq(
    a: Seq<Seq<char>>,
    b: Seq<Seq<char>>,
    i: int,
    j: int,
    ps: Seq<(int, int)>,
) -> bool {
    &&& forall|k: int|
        0 <= k < ps.len() ==> {
            &&& 0 <= #[trigger] ps[k].0 < i
            &&& 0 <= ps[k].1 < j
            &&& a[ps[k].0] == b[ps[k].1]
        }
    &&& forall|k: int, l: int|
        0 <= k < l < ps.len() ==> #[trigger] ps[k].0 < #[trigger] ps[l].0 && ps[k].1 < ps[l].1
}

pub proof fn lemma_lcs_len_le(a: Seq<Seq<char>>, b: Seq<Seq<char>>, i: nat, j: nat)
    ensures
        lcs_len(a, b, i, j) <= i,
        lcs_len(a, b, i, j) <= j,
    decreases i + j,
{
    if i > 0 && j > 0 {
        lemma_lcs_len_le(a, b, (i - 1) as nat, (j - 1) as nat);
        lemma_lcs_len_le(a, b, (i - 1) as nat, j);
        lemma_lcs_len_le(a, b, i, (j - 1) as nat);
    }
}

/// One more line changes the length by at most one, and never decreases it.
pub proof fn lemma_lcs_len_step(a: Seq<Seq<char>>, b: Seq<Seq<char>>, i: nat, j: nat)
    ensures
        i > 0 ==> lcs_len(a, b, (i - 1) as nat, j) <= lcs_len(a, b, i, j),
        j > 0 ==> lcs_len(a, b, i, (j - 1) as nat) <= lcs_len(a, b, i, j),
        i > 0 ==> lcs_len(a, b, i, j) <= lcs_len(a, b, (i - 1) as nat, j) + 1,
        j > 0 ==> lcs_len(a, b, i, j) <= lcs_len(a, b, i, (j - 1) as nat) + 1,
    decreases i + j,
{
    if i > 0 && j > 0 {
        lemma_lcs_len_step(a, b, (i - 1) as nat, j);
        lemma_lcs_len_step(a, b, i, (j - 1) as nat);
        lemma_lcs_len_step(a, b, (i - 1) as nat, (j - 1) as nat);
    }
}

pub proof fn lemma_lcs_len_mono(a: Seq<Seq<char>>, b: Seq<Seq<char>>, i: nat, j: nat, i2: nat, j2: nat)
    requires
        i <= i2,
        j <= j2,
    ensures
        lcs_len(a, b, i, j) <= lcs_len(a, b, i2, j2),
    decreases i2 + j2,
{
    if i < i2 {
        lemma_lcs_len_step(a, b, i2, j2);
        lemma_lcs_len_mono(a, b, i, j, (i2 - 1) as nat, j2);
    } else if j < j2 {
        lemma_lcs_len_step(a, b, i2, j2);
        lemma_lcs_len_mono(a, b, i, j, i2, (j2 - 1) as nat);
    }
}

/// The trace is a common subsequence of `lcs_len` elements.
pub proof fn lemma_lcs_trace(a: Seq<Seq<char>>, b: Seq<Seq<char>>, i: nat, j: nat)
    requires
        i <= a.len(),
        j <= b.len(),
    ensures
        is_common_subseq(a, b, i as int, j as int, lcs_trace(a, b, i, j)),
        lcs_trace(a, b, i, j).len() == lcs_len(a, b, i, j),
    decreases i + j,
{
    if i > 0 && j > 0 {
        lemma_lcs_len_step(a, b, i, j);
        if a[i - 1] == b[j - 1] {
            lemma_lcs_trace(a, b, (i - 1) as nat, (j - 1) as nat);
        } else if lcs_len(a, b, (i - 1) as nat, j) > lcs_len(a, b, i, (j - 1) as nat) {
            lemma_lcs_trace(a, b, (i - 1) as nat, j);
        } else {
            lemma_lcs_trace(a, b, i, (j - 1) as nat);
        }
    }
}

/// No common subsequence of `a[..i]` and `b[..j]` is longer than `lcs_len`.
pub proof fn lemma_lcs_len_upper(
    a: Seq<Seq<char>>,
    b: Seq<Seq<char>>,
    i: nat,
    j: nat,
    ps: Seq<(int, int)>,
)
    requires
        is_common_subseq(a, b, i as int, j as int, ps),
    ensures
        ps.len() <= lcs_len(a, b, i, j),
    decreases i + j,
{
    if ps.len() > 0 {
        let last = ps.last();
        let rest = ps.drop_last();
        assert(0 <= ps[ps.len() - 1].0 < i);
        lemma_lcs_len_step(a, b, i, j);
        if last.0 == i - 1 && last.1 == j - 1 {
            assert(is_common_subseq(a, b, i - 1, j - 1, rest)) by {
                assert forall|k: int| 0 <= k < rest.len() implies {
                    &&& 0 <= #[trigger] rest[k].0 < i - 1
                    &&& 0 <= rest[k].1 < j - 1
                    &&& a[rest[k].0] == b[rest[k].1]
                } by {
                    assert(ps[k].0 < ps[ps.len() - 1].0);
                }
            }
            lemma_lcs_len_upper(a, b, (i - 1) as nat, (j - 1) as nat, rest);
        } else if last.0 < i - 1 {
            assert(is_common_subseq(a, b, i - 1, j as int, ps)) by {
                assert forall|k: int| 0 <= k < ps.len() implies {
                    &&& 0 <= #[trigger] ps[k].0 < i - 1
                    &&& 0 <= ps[k].1 < j
                    &&& a[ps[k].0] == b[ps[k].1]
                } by {
                    if k < ps.len() - 1 {
                        assert(ps[k].0 < ps[ps.len() - 1].0);
                    }
                }
            }
            lemma_lcs_len_upper(a, b, (i - 1) as nat, j, ps);
        } else {
            assert(last.1 < j - 1);
            assert(is_common_subseq(a, b, i as int, j - 1, ps)) by {
                assert forall|k: int| 0 <= k < ps.len() implies {
                    &&& 0 <= #[trigger] ps[k].0 < i
                    &&& 0 <= ps[k].1 < j - 1
                    &&& a[ps[k].0] == b[ps[k].1]
                } by {
                    if k < ps.len() - 1 {
                        assert(ps[k].0 < ps[ps.len() - 1].0);
                    }
                }
            }
            lemma_lcs_len_upper(a, b, i, (j - 1) as nat, ps);
        }
    }
}

/// The trace-back yields a longest common subsequence: it is a common
/// subsequence, and no common subsequence of the two line sequences is
/// longer.
pub proof fn lemma_lcs_trace_is_longest(a: Seq<Seq<char>>, b: Seq<Seq<char>>, ps: Seq<(int, int)>)
    requires
        is_common_subseq(a, b, a.len() as int, b.len() as int, ps),
    ensures
        is_common_subseq(a, b, a.len() as int, b.len() as int, lcs_trace(a, b, a.len(), b.len())),
        ps.len() <= lcs_trace(a, b, a.len(), b.len()).len(),
{
    lemma_lcs_trace(a, b, a.len(), b.len());
    lemma_lcs_len_upper(a, b, a.len(), b.len(), ps);
}

/// The pairs of indices `(i, j)` of a longest common subsequence of the
/// lines `a` and `b`, in increasing order.
pub fn compute_lcs(a: &Vec<String>, b: &Vec<String>) -> (r: Vec<(usize, usize)>)
    ensures
        r@.len() == lcs_trace(a.deep_view(), b.deep_view(), a@.len(), b@.len()).len(),
        forall|k: int|
            0 <= k < r@.len() ==> (#[trigger] r@[k].0 as int, r@[k].1 as int) == lcs_trace(
                a.deep_view(),
                b.deep_view(),
                a@.len(),
                b@.len(),
            )[k],
{
    let ghost av = a.deep_view();
    let ghost bv = b.deep_view();
    let m = a.len();
    let n = b.len();
    // dp[i][j] == lcs_len(av, bv, i, j)
    let mut dp: Vec<Vec<usize>> = Vec::new();
    let mut row0: Vec<usize> = Vec::new();
    let mut j: usize = 0;
    row0.push(0);
    while j < n
        invariant
            j <= n,
            row0@.len() == j + 1,
            forall|k: int| 0 <= k <= j ==> #[trigger] row0@[k] == 0,
        decreases n - j,
    {
        row0.push(0);
        j = j + 1;
    }
    dp.push(row0);
    let mut i: usize = 0;
    while i < m
        invariant
            m == a@.len(),
            n == b@.len(),
            av == a.deep_view(),
            bv == b.deep_view(),
            i <= m,
            dp@.len() == i + 1,
            forall|x: int| 0 <= x <= i ==> (#[trigger] dp@[x])@.len() == n + 1,
            forall|x: int, y: int|
                0 <= x <= i && 0 <= y <= n ==> #[trigger] dp@[x]@[y] == lcs_len(av, bv, x as nat, y as nat),
        decreases m - i,
    {
        let mut row: Vec<usize> = Vec::new();
        row.push(0);
        let mut j: usize = 0;
        while j < n
            invariant
                m == a@.len(),
                n == b@.len(),
                av == a.deep_view(),
                bv == b.deep_view(),
                i < m,
                j <= n,
                dp@.len() == i + 1,
                forall|x: int| 0 <= x <= i ==> (#[trigger] dp@[x])@.len() == n + 1,
                forall|x: int, y: int|
                    0 <= x <= i && 0 <= y <= n ==> #[trigger] dp@[x]@[y] == lcs_len(av, bv, x as nat, y as nat),
                row@.len() == j + 1,
                forall|y: int| 0 <= y <= j ==> #[trigger] row@[y] == lcs_len(av, bv, (i + 1) as nat, y as nat),
            decreases n - j,
        {
            proof {
                lemma_lcs_len_le(av, bv, (i + 1) as nat, (j + 1) as nat);
                assert(av[i as int] == a@[i as int]@);
                assert(bv[j as int] == b@[j as int]@);
            }
            let v = if a[i] == b[j] {
                dp[i][j] + 1
            } else {
                let x = dp[i][j + 1];
                let y = row[j];
                if x >= y { x } else { y }
            };
            row.push(v);
            j = j + 1;
        }
        dp.push(row);
        i = i + 1;
    }
    // Trace back from (m, n), collecting pairs in decreasing order.
    let mut rev: Vec<(usize, usize)> = Vec::new();
    let mut i = m;
    let mut j = n;
    let ghost full = lcs_trace(av, bv, m as nat, n as nat);
    while i > 0 && j > 0
        invariant
            m == a@.len(),
            n == b@.len(),
            av == a.deep_view(),
            bv == b.deep_view(),
            i <= m,
            j <= n,
            dp@.len() == m + 1,
            forall|x: int| 0 <= x <= m ==> (#[trigger] dp@[x])@.len() == n + 1,
            forall|x: int, y: int|
                0 <= x <= m && 0 <= y <= n ==> #[trigger] dp@[x]@[y] == lcs_len(av, bv, x as nat, y as nat),
            full == lcs_trace(av, bv, i as nat, j as nat) + rev@.reverse().map_values(
                |p: (usize, usize)| (p.0 as int, p.1 as int),
            ),
        decreases i + j,
    {
        proof {
            assert(av[i - 1] == a@[i - 1]@);
            assert(bv[j - 1] == b@[j - 1]@);
        }
        if a[i - 1] == b[j - 1] {
            let ghost old_rev = rev@;
            let pr: (usize, usize) = (i - 1, j - 1);
            rev.push(pr);
            proof {
                assert(rev@.reverse() =~= seq![pr] + old_rev.reverse());
                assert(rev@.reverse().map_values(|p: (usize, usize)| (p.0 as int, p.1 as int))
                    =~= seq![((i - 1) as int, (j - 1) as int)] + old_rev.reverse().map_values(
                    |p: (usize, usize)| (p.0 as int, p.1 as int),
                ));
                let t = lcs_trace(av, bv, (i - 1) as nat, (j - 1) as nat);
                assert(t.push(((i - 1) as int, (j - 1) as int)) + old_rev.reverse().map_values(
                    |p: (usize, usize)| (p.0 as int, p.1 as int),
                ) =~= t + rev@.reverse().map_values(|p: (usize, usize)| (p.0 as int, p.1 as int)));
            }
            i = i - 1;
            j = j - 1;
        } else if dp[i - 1][j] > dp[i][j - 1] {
            i = i - 1;
        } else {
            j = j - 1;
        }
    }
    proof {
        assert(lcs_trace(av, bv, i as nat, j as nat) =~= Seq::<(int, int)>::empty());
        assert(full =~= rev@.reverse().map_values(|p: (usize, usize)| (p.0 as int, p.1 as int)));
    }
    let mut r: Vec<(usize, usize)> = Vec::new();
    let mut k = rev.len();
    while k > 0
        invariant
            k <= rev@.len(),
            r@.len() == rev@.len() - k,
            full == rev@.reverse().map_values(|p: (usize, usize)| (p.0 as int, p.1 as int)),
            forall|x: int|
                0 <= x < r@.len() ==> (#[trigger] r@[x].0 as int, r@[x].1 as int) == full[x],
        decreases k,
    {
        k = k - 1;
        let p = rev[k];
        proof {
            assert(full[r@.len() as int] == (rev@[k as int].0 as int, rev@[k as int].1 as int));
        }
        r.push(p);
    }
    r
}


// ---------------------------------------------------------------------------
// The side-by-side diff
// ---------------------------------------------------------------------------

pub open spec fn imax(x: int, y: int) -> int {
    if x >= y { x } else { y }
}

/// The rows for a stretch of unmatched lines: row `k` pairs the `k`-th
/// removed line of `a` with the `k`-th added line of `b`; the shorter side
/// is padded with empty lines.
pub open spec fn gap_rows(a: Seq<Seq<char>>, b: Seq<Seq<char>>) -> Seq<DiffRow> {
    Seq::new(
        imax(a.len() as int, b.len() as int) as nat,
        |k: int|
            (
                DiffLineView::Removed(if k < a.len() { a[k] } else { seq![] }),
                DiffLineView::Added(if k < b.len() { b[k] } else { seq![] }),
            ),
    )
}

/// The rows of the diff of `a[ci..]` and `b[si..]` along the matched pairs
/// `ps`: before each pair the unmatched lines in between, then the pair
/// itself as a `Same` row; after the last pair the remaining lines.
pub open spec fn diff_rows(
    a: Seq<Seq<char>>,
    b: Seq<Seq<char>>,
    ps: Seq<(int, int)>,
    ci: int,
    si: int,
) -> Seq<DiffRow>
    decreases ps.len(),
{
    if ps.len() == 0 {
        gap_rows(a.subrange(ci, a.len() as int), b.subrange(si, b.len() as int))
    } else {
        let cl = ps[0].0;
        let sl = ps[0].1;
        gap_rows(a.subrange(ci, cl), b.subrange(si, sl)) + seq![
            (DiffLineView::Same(a[cl]), DiffLineView::Same(b[sl])),
        ] + diff_rows(a, b, ps.drop_first(), cl + 1, sl + 1)
    }
}

/// The diff of two texts: their lines aligned along the longest common
/// subsequence that [`compute_lcs`] picks.
pub open spec fn diff_spec(current: Seq<char>, snapshot: Seq<char>) -> Seq<DiffRow> {
    let a = lines_of(current);
    let b = lines_of(snapshot);
    diff_rows(a, b, lcs_trace(a, b, a.len(), b.len()), 0, 0)
}

fn push_gap(
    out: &mut Vec<(DiffLine, DiffLine)>,
    a: &Vec<String>,
    b: &Vec<String>,
    ci: usize,
    cl: usize,
    si: usize,
    sl: usize,
)
    requires
        ci <= cl <= a@.len(),
        si <= sl <= b@.len(),
    ensures
        rows_view(final(out)@) == rows_view(old(out)@) + gap_rows(
            a.deep_view().subrange(ci as int, cl as int),
            b.deep_view().subrange(si as int, sl as int),
        ),
{
    let ghost base = rows_view(out@);
    let ghost ga = a.deep_view().subrange(ci as int, cl as int);
    let ghost gb = b.deep_view().subrange(si as int, sl as int);
    let ghost g = gap_rows(ga, gb);
    let mut c = ci;
    let mut s = si;
    assert(rows_view(out@) =~= base + g.take(0));
    while c < cl
        invariant
            ci <= c <= cl <= a@.len(),
            si <= s <= sl <= b@.len(),
            s - si == if c - ci <= sl - si { c - ci } else { sl - si },
            ga == a.deep_view().subrange(ci as int, cl as int),
            gb == b.deep_view().subrange(si as int, sl as int),
            g == gap_rows(ga, gb),
            rows_view(out@) == base + g.take(c - ci),
        decreases cl - c,
    {
        let left = DiffLine::Removed(a[c].clone());
        let right = if s < sl {
            let l = DiffLine::Added(b[s].clone());
            s = s + 1;
            l
        } else {
            DiffLine::Added(String::new())
        };
        let ghost before = out@;
        out.push((left, right));
        proof {
            assert(ga[c - ci] == a@[c as int]@);
            assert(rows_view(out@) =~= rows_view(before).push((left@, right@)));
            if s - si > c - ci {
                assert(gb[c - ci] == b@[s - 1]@);
            }
            assert(g.take(c - ci + 1) =~= g.take(c - ci).push(g[c - ci]));
        }
        c = c + 1;
    }
    while s < sl
        invariant
            c == cl,
            ci <= cl <= a@.len(),
            si <= s <= sl <= b@.len(),
            s < sl ==> s - si >= cl - ci,
            ga == a.deep_view().subrange(ci as int, cl as int),
            gb == b.deep_view().subrange(si as int, sl as int),
            g == gap_rows(ga, gb),
            rows_view(out@) == base + g.take(imax(cl - ci, s - si)),
        decreases sl - s,
    {
        let ghost before = out@;
        let row = (DiffLine::Removed(String::new()), DiffLine::Added(b[s].clone()));
        out.push(row);
        proof {
            assert(gb[s - si] == b@[s as int]@);
            assert(rows_view(out@) =~= rows_view(before).push((row.0@, row.1@)));
            assert(g.take(s - si + 1) =~= g.take(s - si).push(g[s - si]));
        }
        s = s + 1;
    }
    assert(g.take(imax(cl - ci, s - si)) =~= g);
}

/// Side-by-side diff of two texts, line by line: each row pairs a line of
/// `current` with a line of `snapshot`.  Lines of a longest common
/// subsequence appear as `Same` rows; in between, removed lines of `current`
/// face added lines of `snapshot`, padded with empty lines.
pub fn diff_lines(current: &str, snapshot: &str) -> (r: Vec<(DiffLine, DiffLine)>)
    ensures
        rows_view(r@) == diff_spec(current@, snapshot@),
{
    let cur = split_lines(current);
    let snap = split_lines(snapshot);
    let lcs = compute_lcs(&cur, &snap);
    let ghost a = cur.deep_view();
    let ghost b = snap.deep_view();
    let ghost ps = lcs_trace(a, b, a.len(), b.len());
    proof {
        lemma_lcs_trace(a, b, a.len(), b.len());
        assert(ps.skip(0) =~= ps);
    }
    let mut result: Vec<(DiffLine, DiffLine)> = Vec::new();
    let mut ci: usize = 0;
    let mut si: usize = 0;
    let mut k: usize = 0;
    while k < lcs.len()
        invariant
            a == cur.deep_view(),
            b == snap.deep_view(),
            ps == lcs_trace(a, b, a.len(), b.len()),
            is_common_subseq(a, b, a.len() as int, b.len() as int, ps),
            lcs@.len() == ps.len(),
            forall|x: int| 0 <= x < lcs@.len() ==> (#[trigger] lcs@[x].0 as int, lcs@[x].1 as int) == ps[x],
            k <= lcs@.len(),
            ci <= a.len(),
            si <= b.len(),
            k < lcs@.len() ==> ci <= ps[k as int].0 && si <= ps[k as int].1,
            rows_view(result@) + diff_rows(a, b, ps.skip(k as int), ci as int, si as int)
                == diff_rows(a, b, ps, 0, 0),
        decreases lcs.len() - k,
    {
        let (cl, sl) = lcs[k];
        proof {
            assert(lcs@[k as int].0 as int == ps[k as int].0);
            assert(0 <= ps[k as int].0 < a.len() && 0 <= ps[k as int].1 < b.len());
            assert(a.len() == cur@.len() && b.len() == snap@.len());
            assert(cl < cur@.len() && sl < snap@.len());
            assert(ps.skip(k as int)[0] == ps[k as int]);
            assert(ps.skip(k as int).drop_first() =~= ps.skip(k + 1));
        }
        let ghost before = rows_view(result@);
        push_gap(&mut result, &cur, &snap, ci, cl, si, sl);
        let ghost mid = result@;
        let row = (DiffLine::Same(cur[cl].clone()), DiffLine::Same(snap[sl].clone()));
        result.push(row);
        proof {
            assert(rows_view(result@) =~= rows_view(mid).push((row.0@, row.1@)));
            assert(a[cl as int] == cur@[cl as int]@);
            assert(b[sl as int] == snap@[sl as int]@);
            if k + 1 < lcs@.len() {
                assert(ps[k as int].0 < ps[k + 1].0);
            }
        }
        assert(cl < cur.len());
        assert(sl < snap.len());
        ci = cl + 1;
        si = sl + 1;
        k = k + 1;
    }
    proof {
        assert(ps.skip(k as int) =~= Seq::<(int, int)>::empty());
    }
    push_gap(&mut result, &cur, &snap, ci, cur.len(), si, snap.len());
    result
}


// ---------------------------------------------------------------------------
// Laws of the diff
// ---------------------------------------------------------------------------

/// A row is either a removed line facing an added line, or the same line on
/// both sides.
pub open spec fn well_formed_row(r: DiffRow) -> bool {
    ||| (r.0 is Removed && r.1 is Added)
    ||| (r.0 is Same && r.1 == r.0)
}

proof fn lemma_diff_rows_well_formed(
    a: Seq<Seq<char>>,
    b: Seq<Seq<char>>,
    ps: Seq<(int, int)>,
    ci: int,
    si: int,
)
    requires
        forall|k: int| 0 <= k < ps.len() ==> a[#[trigger] ps[k].0] == b[ps[k].1],
    ensures
        forall|k: int| 0 <= k < diff_rows(a, b, ps, ci, si).len()
            ==> well_formed_row(#[trigger] diff_rows(a, b, ps, ci, si)[k]),
    decreases ps.len(),
{
    if ps.len() > 0 {
        let t = ps.drop_first();
        assert forall|k: int| 0 <= k < t.len() implies a[#[trigger] t[k].0] == b[t[k].1] by {
            assert(t[k] == ps[k + 1]);
        }
        lemma_diff_rows_well_formed(a, b, t, ps[0].0 + 1, ps[0].1 + 1);
        assert(a[ps[0].0] == b[ps[0].1]);
        let g = gap_rows(a.subrange(ci, ps[0].0), b.subrange(si, ps[0].1));
        let mid = seq![(DiffLineView::Same(a[ps[0].0]), DiffLineView::Same(b[ps[0].1]))];
        let rest = diff_rows(a, b, t, ps[0].0 + 1, ps[0].1 + 1);
        let all = diff_rows(a, b, ps, ci, si);
        assert(all == g + mid + rest);
        assert forall|k: int| 0 <= k < all.len() implies well_formed_row(#[trigger] all[k]) by {
            if k < g.len() {
                assert(all[k] == g[k]);
            } else if k == g.len() {
                assert(all[k] == mid[0]);
            } else {
                assert(all[k] == rest[k - g.len() - 1]);
            }
        }
    } else {
        let all = diff_rows(a, b, ps, ci, si);
        assert forall|k: int| 0 <= k < all.len() implies well_formed_row(#[trigger] all[k]) by {}
    }
}

/// Every row of a diff pairs a removed line of the current text with an
/// added line of the snapshot, or shows one and the same line on both sides.
pub proof fn law_diff_rows_are_well_formed(current: Seq<char>, snapshot: Seq<char>)
    ensures
        forall|k: int| 0 <= k < diff_spec(current, snapshot).len()
            ==> well_formed_row(#[trigger] diff_spec(current, snapshot)[k]),
{
    let a = lines_of(current);
    let b = lines_of(snapshot);
    lemma_lcs_trace(a, b, a.len(), b.len());
    let ps = lcs_trace(a, b, a.len(), b.len());
    assert forall|k: int| 0 <= k < ps.len() implies a[#[trigger] ps[k].0] == b[ps[k].1] by {}
    lemma_diff_rows_well_formed(a, b, ps, 0, 0);
}

proof fn lemma_trace_diagonal(a: Seq<Seq<char>>, i: nat)
    ensures
        lcs_len(a, a, i, i) == i,
        lcs_trace(a, a, i, i) == Seq::new(i, |k: int| (k, k)),
    decreases i,
{
    if i > 0 {
        lemma_trace_diagonal(a, (i - 1) as nat);
        assert(lcs_trace(a, a, i, i) =~= Seq::new(i, |k: int| (k, k)));
    }
}

proof fn lemma_diff_rows_diagonal(a: Seq<Seq<char>>, k: int)
    requires
        0 <= k <= a.len(),
    ensures
        diff_rows(a, a, Seq::new(a.len(), |x: int| (x, x)).skip(k), k, k) == Seq::new(
            (a.len() - k) as nat,
            |x: int| (DiffLineView::Same(a[k + x]), DiffLineView::Same(a[k + x])),
        ),
    decreases a.len() - k,
{
    let ps = Seq::new(a.len(), |x: int| (x, x)).skip(k);
    let empty: Seq<Seq<char>> = seq![];
    assert(a.subrange(k, k) =~= empty);
    assert(gap_rows(empty, empty) =~= Seq::<DiffRow>::empty());
    if k < a.len() {
        lemma_diff_rows_diagonal(a, k + 1);
        assert(ps.drop_first() =~= Seq::new(a.len(), |x: int| (x, x)).skip(k + 1));
        assert(ps[0] == (k, k));
        assert(diff_rows(a, a, ps, k, k) =~= Seq::new(
            (a.len() - k) as nat,
            |x: int| (DiffLineView::Same(a[k + x]), DiffLineView::Same(a[k + x])),
        ));
    } else {
        assert(ps =~= Seq::<(int, int)>::empty());
        assert(a.subrange(k, a.len() as int) =~= empty);
        assert(diff_rows(a, a, ps, k, k) =~= Seq::new(
            (a.len() - k) as nat,
            |x: int| (DiffLineView::Same(a[k + x]), DiffLineView::Same(a[k + x])),
        ));
    }
}

/// Comparing a text with itself gives one `Same` row per line, in order.
pub proof fn law_diff_of_identical_texts(t: Seq<char>)
    ensures
        diff_spec(t, t) == lines_of(t).map_values(
            |l: Seq<char>| (DiffLineView::Same(l), DiffLineView::Same(l)),
        ),
{
    let a = lines_of(t);
    lemma_trace_diagonal(a, a.len());
    lemma_diff_rows_diagonal(a, 0);
    assert(Seq::new(a.len(), |x: int| (x, x)).skip(0) =~= Seq::new(a.len(), |x: int| (x, x)));
    assert(diff_spec(t, t) =~= lines_of(t).map_values(
        |l: Seq<char>| (DiffLineView::Same(l), DiffLineView::Same(l)),
    ));
}

/// The lines of the `Same` rows, in order.
pub open spec fn same_lines(rows: Seq<DiffRow>) -> Seq<Seq<char>>
    decreases rows.len(),
{
    if rows.len() == 0 {
        seq![]
    } else {
        same_lines(rows.drop_last()) + match rows.last().0 {
            DiffLineView::Same(l) => seq![l],
            _ => Seq::<Seq<char>>::empty(),
        }
    }
}

proof fn lemma_same_lines_concat(x: Seq<DiffRow>, y: Seq<DiffRow>)
    ensures
        same_lines(x + y) == same_lines(x) + same_lines(y),
    decreases y.len(),
{
    if y.len() == 0 {
        assert(x + y =~= x);
        assert(same_lines(x) + same_lines(y) =~= same_lines(x));
    } else {
        lemma_same_lines_concat(x, y.drop_last());
        assert((x + y).drop_last() =~= x + y.drop_last());
        assert((x + y).last() == y.last());
        assert(same_lines(x + y) =~= same_lines(x) + same_lines(y));
    }
}

proof fn lemma_same_lines_gap(a: Seq<Seq<char>>, b: Seq<Seq<char>>, n: nat)
    requires
        n <= gap_rows(a, b).len(),
    ensures
        same_lines(gap_rows(a, b).take(n as int)) == Seq::<Seq<char>>::empty(),
    decreases n,
{
    if n > 0 {
        lemma_same_lines_gap(a, b, (n - 1) as nat);
        assert(gap_rows(a, b).take(n as int).drop_last() =~= gap_rows(a, b).take(n - 1));
    } else {
        assert(gap_rows(a, b).take(0) =~= Seq::<DiffRow>::empty());
    }
}

proof fn lemma_same_lines_rows(a: Seq<Seq<char>>, b: Seq<Seq<char>>, ps: Seq<(int, int)>, ci: int, si: int)
    ensures
        same_lines(diff_rows(a, b, ps, ci, si)) == ps.map_values(|p: (int, int)| a[p.0]),
    decreases ps.len(),
{
    if ps.len() == 0 {
        let g = gap_rows(a.subrange(ci, a.len() as int), b.subrange(si, b.len() as int));
        lemma_same_lines_gap(a.subrange(ci, a.len() as int), b.subrange(si, b.len() as int), g.len());
        assert(g.take(g.len() as int) =~= g);
        assert(ps.map_values(|p: (int, int)| a[p.0]) =~= Seq::<Seq<char>>::empty());
    } else {
        let g = gap_rows(a.subrange(ci, ps[0].0), b.subrange(si, ps[0].1));
        let mid: Seq<DiffRow> = seq![(DiffLineView::Same(a[ps[0].0]), DiffLineView::Same(b[ps[0].1]))];
        let rest = diff_rows(a, b, ps.drop_first(), ps[0].0 + 1, ps[0].1 + 1);
        lemma_same_lines_rows(a, b, ps.drop_first(), ps[0].0 + 1, ps[0].1 + 1);
        lemma_same_lines_gap(a.subrange(ci, ps[0].0), b.subrange(si, ps[0].1), g.len());
        assert(g.take(g.len() as int) =~= g);
        lemma_same_lines_concat(g, mid);
        lemma_same_lines_concat(g + mid, rest);
        assert(mid.drop_last() =~= Seq::<DiffRow>::empty());
        assert(same_lines(mid.drop_last()) == Seq::<Seq<char>>::empty());
        assert(mid.last().0 == DiffLineView::Same(a[ps[0].0]));
        assert(same_lines(mid) =~= seq![a[ps[0].0]]);
        assert(ps.map_values(|p: (int, int)| a[p.0]) =~= seq![a[ps[0].0]] + ps.drop_first().map_values(
            |p: (int, int)| a[p.0],
        ));
        assert(same_lines(diff_rows(a, b, ps, ci, si)) =~= ps.map_values(|p: (int, int)| a[p.0]));
    }
}

/// The `Same` rows of a diff are the lines of a longest common
/// subsequence of the two texts' lines: the matched index pairs increase
/// on both sides and pair equal lines, and no common subsequence is
/// longer.
pub proof fn law_same_rows_are_longest_common(current: Seq<char>, snapshot: Seq<char>)
    ensures
        ({
            let a = lines_of(current);
            let b = lines_of(snapshot);
            let ps = lcs_trace(a, b, a.len(), b.len());
            &&& is_common_subseq(a, b, a.len() as int, b.len() as int, ps)
            &&& same_lines(diff_spec(current, snapshot)) == ps.map_values(|p: (int, int)| a[p.0])
            &&& forall|qs: Seq<(int, int)>| #[trigger] is_common_subseq(a, b, a.len() as int, b.len() as int, qs)
                ==> qs.len() <= ps.len()
        }),
{
    let a = lines_of(current);
    let b = lines_of(snapshot);
    lemma_lcs_trace(a, b, a.len(), b.len());
    lemma_same_lines_rows(a, b, lcs_trace(a, b, a.len(), b.len()), 0, 0);
    assert forall|qs: Seq<(int, int)>| #[trigger] is_common_subseq(a, b, a.len() as int, b.len() as int, qs)
        implies qs.len() <= lcs_trace(a, b, a.len(), b.len()).len() by {
        lemma_lcs_trace_is_longest(a, b, qs);
    }
}

/// The text shown on one side of a row.
pub open spec fn view_text(v: DiffLineView) -> Seq<char> {
    match v {
        DiffLineView::Same(l) => l,
        DiffLineView::Added(l) => l,
        DiffLineView::Removed(l) => l,
    }
}

/// The non-empty texts of one side of the rows (the current side when
/// `left`), in order: the side's lines without the padding.
pub open spec fn side_lines(rows: Seq<DiffRow>, left: bool) -> Seq<Seq<char>>
    decreases rows.len(),
{
    if rows.len() == 0 {
        seq![]
    } else {
        let t = view_text(if left { rows.last().0 } else { rows.last().1 });
        side_lines(rows.drop_last(), left) + if t.len() > 0 { seq![t] } else { Seq::<Seq<char>>::empty() }
    }
}

/// No line is empty.
pub open spec fn no_empty_lines(ls: Seq<Seq<char>>) -> bool {
    forall|k: int| 0 <= k < ls.len() ==> (#[trigger] ls[k]).len() > 0
}

proof fn lemma_side_lines_concat(x: Seq<DiffRow>, y: Seq<DiffRow>, left: bool)
    ensures
        side_lines(x + y, left) == side_lines(x, left) + side_lines(y, left),
    decreases y.len(),
{
    if y.len() == 0 {
        assert(x + y =~= x);
        assert(side_lines(x, left) + side_lines(y, left) =~= side_lines(x, left));
    } else {
        lemma_side_lines_concat(x, y.drop_last(), left);
        assert((x + y).drop_last() =~= x + y.drop_last());
        assert((x + y).last() == y.last());
        assert(side_lines(x + y, left) =~= side_lines(x, left) + side_lines(y, left));
    }
}

proof fn lemma_side_lines_gap(a: Seq<Seq<char>>, b: Seq<Seq<char>>, left: bool, n: nat)
    requires
        n <= gap_rows(a, b).len(),
        left ==> no_empty_lines(a),
        !left ==> no_empty_lines(b),
    ensures
        side_lines(gap_rows(a, b).take(n as int), left) == (if left { a } else { b }).take(
            if n <= (if left { a } else { b }).len() { n as int } else { (if left { a } else { b }).len() as int },
        ),
    decreases n,
{
    let s = if left { a } else { b };
    if n > 0 {
        lemma_side_lines_gap(a, b, left, (n - 1) as nat);
        let g = gap_rows(a, b).take(n as int);
        assert(g.drop_last() =~= gap_rows(a, b).take(n - 1));
        if n - 1 < s.len() {
            assert(s[n - 1].len() > 0);
            assert(s.take(n - 1).push(s[n - 1]) =~= s.take(n as int));
        }
    } else {
        assert(gap_rows(a, b).take(0) =~= Seq::<DiffRow>::empty());
        assert(s.take(0) =~= Seq::<Seq<char>>::empty());
    }
}

proof fn lemma_side_lines_rows(a: Seq<Seq<char>>, b: Seq<Seq<char>>, ps: Seq<(int, int)>, ci: int, si: int, left: bool)
    requires
        is_common_subseq(a, b, a.len() as int, b.len() as int, ps),
        0 <= ci <= a.len(),
        0 <= si <= b.len(),
        forall|k: int| 0 <= k < ps.len() ==> ci <= (#[trigger] ps[k]).0 && si <= ps[k].1,
        left ==> no_empty_lines(a),
        !left ==> no_empty_lines(b),
    ensures
        side_lines(diff_rows(a, b, ps, ci, si), left) == if left {
            a.subrange(ci, a.len() as int)
        } else {
            b.subrange(si, b.len() as int)
        },
    decreases ps.len(),
{
    if ps.len() == 0 {
        let ga = a.subrange(ci, a.len() as int);
        let gb = b.subrange(si, b.len() as int);
        let g = gap_rows(ga, gb);
        assert(no_empty_lines(ga) || !left);
        assert(no_empty_lines(gb) || left);
        lemma_side_lines_gap(ga, gb, left, g.len());
        assert(g.take(g.len() as int) =~= g);
        assert(ga.take(ga.len() as int) =~= ga);
        assert(gb.take(gb.len() as int) =~= gb);
    } else {
        let p = ps[0];
        let t = ps.drop_first();
        assert forall|k: int| 0 <= k < t.len() implies p.0 + 1 <= (#[trigger] t[k]).0 && p.1 + 1 <= t[k].1 by {
            assert(t[k] == ps[k + 1]);
        }
        assert(is_common_subseq(a, b, a.len() as int, b.len() as int, t)) by {
            assert forall|k: int| 0 <= k < t.len() implies {
                &&& 0 <= #[trigger] t[k].0 < a.len()
                &&& 0 <= t[k].1 < b.len()
                &&& a[t[k].0] == b[t[k].1]
            } by {
                assert(t[k] == ps[k + 1]);
            }
            assert forall|k: int, l: int| 0 <= k < l < t.len() implies #[trigger] t[k].0 < #[trigger] t[l].0 && t[k].1 < t[l].1 by {
                assert(t[k] == ps[k + 1]);
                assert(t[l] == ps[l + 1]);
            }
        }
        lemma_side_lines_rows(a, b, t, p.0 + 1, p.1 + 1, left);
        let ga = a.subrange(ci, p.0);
        let gb = b.subrange(si, p.1);
        let g = gap_rows(ga, gb);
        let mid: Seq<DiffRow> = seq![(DiffLineView::Same(a[p.0]), DiffLineView::Same(b[p.1]))];
        let rest = diff_rows(a, b, t, p.0 + 1, p.1 + 1);
        assert(no_empty_lines(ga) || !left);
        assert(no_empty_lines(gb) || left);
        lemma_side_lines_gap(ga, gb, left, g.len());
        assert(g.take(g.len() as int) =~= g);
        assert(ga.take(ga.len() as int) =~= ga);
        assert(gb.take(gb.len() as int) =~= gb);
        lemma_side_lines_concat(g, mid, left);
        lemma_side_lines_concat(g + mid, rest, left);
        assert(mid.drop_last() =~= Seq::<DiffRow>::empty());
        assert(side_lines(mid.drop_last(), left) == Seq::<Seq<char>>::empty());
        if left {
            assert(a[p.0].len() > 0);
            assert(side_lines(mid, left) =~= seq![a[p.0]]);
            assert(a.subrange(ci, a.len() as int) =~= ga + seq![a[p.0]] + a.subrange(p.0 + 1, a.len() as int));
        } else {
            assert(b[p.1].len() > 0);
            assert(side_lines(mid, left) =~= seq![b[p.1]]);
            assert(b.subrange(si, b.len() as int) =~= gb + seq![b[p.1]] + b.subrange(p.1 + 1, b.len() as int));
        }
    }
}

/// When no line of either text is empty, the non-empty texts on each side
/// of the diff, in order, are that text's lines: the current text's on the
/// left, the snapshot's on the right.
pub proof fn law_diff_sides_give_back_the_texts(current: Seq<char>, snapshot: Seq<char>)
    requires
        no_empty_lines(lines_of(current)),
        no_empty_lines(lines_of(snapshot)),
    ensures
        side_lines(diff_spec(current, snapshot), true) == lines_of(current),
        side_lines(diff_spec(current, snapshot), false) == lines_of(snapshot),
{
    let a = lines_of(current);
    let b = lines_of(snapshot);
    lemma_lcs_trace(a, b, a.len(), b.len());
    let ps = lcs_trace(a, b, a.len(), b.len());
    lemma_side_lines_rows(a, b, ps, 0, 0, true);
    lemma_side_lines_rows(a, b, ps, 0, 0, false);
    assert(a.subrange(0, a.len() as int) =~= a);
    assert(b.subrange(0, b.len() as int) =~= b);
}

} // verus!
