//! The outline of a markdown text: its level 1 to 3 headings.
use vstd::prelude::*;
use crate::models::outline_item::OutlineItem;
use crate::services::word_extractor::is_fence;
use crate::text::{
    count_leading_ws, from_chars, has_at, leading_ws, lines_of, matches_at, split_lines_chars,
    to_chars, trim, trim_bounds, lemma_chars_deep_view, is_ws, lemma_leading_ws_prefixed,
};

verus! {

/// The heading level of a line: after its leading whitespace it starts with
/// `"### "`, `"## "` or `"# "`; 0 for other lines.
pub open spec fn heading_level(l: Seq<char>) -> u8 {
    let w = leading_ws(l) as int;
    if matches_at(l, w, seq!['#', '#', '#', ' ']) {
        3
    } else if matches_at(l, w, seq!['#', '#', ' ']) {
        2
    } else if matches_at(l, w, seq!['#', ' ']) {
        1
    } else {
        0
    }
}

/// The title of a heading line of level `level`: the rest after the `#`
/// signs, trimmed.
pub open spec fn heading_title(l: Seq<char>, level: u8) -> Seq<char> {
    trim(l.skip(leading_ws(l) + level))
}

/// An outline entry as a value: (title, level, line number, source file).
pub type OutlineView = (Seq<char>, u8, int, Option<Seq<char>>);

pub open spec fn outline_view(i: OutlineItem) -> OutlineView {
    (
        i.title@,
        i.level,
        i.line_number as int,
        match i.source_file_path {
            Some(s) => Some(s@),
            None => None,
        },
    )
}

/// The outline entries of the lines `ls[k..]`; `in_block` says whether
/// line `k` starts inside a fenced code block, whose lines are no headings.
pub open spec fn outline_from(ls: Seq<Seq<char>>, k: int, source: Option<Seq<char>>, in_block: bool) -> Seq<OutlineView>
    decreases ls.len() - k,
{
    if k < 0 || k >= ls.len() {
        seq![]
    } else if is_fence(ls[k]) {
        outline_from(ls, k + 1, source, !in_block)
    } else {
        let lv = heading_level(ls[k]);
        (if lv > 0 && !in_block {
            seq![(heading_title(ls[k], lv), lv, k, source)]
        } else {
            seq![]
        }) + outline_from(ls, k + 1, source, in_block)
    }
}

/// The headings of `text` outside fenced code blocks, in order, with
/// their levels and line numbers.
pub fn extract_outline(text: &str, source_file: Option<&str>) -> (items: Vec<OutlineItem>)
    ensures
        items@.map_values(|i: OutlineItem| outline_view(i)) == outline_from(
            lines_of(text@),
            0,
            match source_file {
                Some(s) => Some(s@),
                None => None,
            },
            false,
        ),
{
    let ghost src = match source_file {
        Some(s) => Some(s@),
        None => None,
    };
    let chars = to_chars(text);
    let lines = split_lines_chars(&chars);
    let ghost ls = lines.deep_view();
    let mut items: Vec<OutlineItem> = Vec::new();
    let mut in_block = false;
    let mut k: usize = 0;
    proof {
        assert(items@.map_values(|i: OutlineItem| outline_view(i)) + outline_from(ls, 0, src, false)
            =~= outline_from(ls, 0, src, false));
    }
    while k < lines.len()
        invariant
            ls == lines.deep_view(),
            ls == lines_of(text@),
            src == match source_file {
                Some(s) => Some(s@),
                None => None::<Seq<char>>,
            },
            k <= lines@.len(),
            items@.map_values(|i: OutlineItem| outline_view(i)) + outline_from(ls, k as int, src, in_block)
                == outline_from(ls, 0, src, false),
        decreases lines.len() - k,
    {
        let line = &lines[k];
        proof {
            lemma_chars_deep_view(line);
            assert(ls[k as int] == line@);
            assert(line@.skip(0) =~= line@);
        }
        let w = count_leading_ws(line, 0);
        if has_at(line, w, &['`', '`', '`']) {
            in_block = !in_block;
            k = k + 1;
            continue;
        }
        let level: u8 = if in_block {
            0
        } else if has_at(line, w, &['#', '#', '#', ' ']) {
            3
        } else if has_at(line, w, &['#', '#', ' ']) {
            2
        } else if has_at(line, w, &['#', ' ']) {
            1
        } else {
            0
        };
        let ghost before = items@;
        proof {
            assert(!in_block ==> level == heading_level(line@));
            assert(level > 0 ==> w + level <= line@.len());
        }
        assert(level > 0 ==> w + (level as usize) <= line.len());
        if level > 0 {
            let rest_start = w + level as usize;
            let mut rest: Vec<char> = Vec::new();
            let mut j = rest_start;
            while j < line.len()
                invariant
                    rest_start <= j <= line@.len(),
                    rest@ == line@.subrange(rest_start as int, j as int),
                decreases line.len() - j,
            {
                rest.push(line[j]);
                j = j + 1;
            }
            proof {
                assert(rest@ =~= line@.skip(rest_start as int));
            }
            let (lo, hi) = trim_bounds(&rest);
            let title = from_chars(&rest, lo, hi);
            let src_s = match source_file {
                Some(s) => Some(String::from_str(s)),
                None => None,
            };
            let item = OutlineItem { title, level, line_number: k, source_file_path: src_s };
            items.push(item);
            proof {
                assert(outline_view(item) == (heading_title(ls[k as int], level), level, k as int, src));
                assert(items@.map_values(|i: OutlineItem| outline_view(i)) =~= before.map_values(
                    |i: OutlineItem| outline_view(i),
                ).push(outline_view(item)));
            }
        }
        proof {
            assert(items@.map_values(|i: OutlineItem| outline_view(i)) + outline_from(ls, k + 1, src, in_block)
                =~= outline_from(ls, 0, src, false));
        }
        k = k + 1;
    }
    proof {
        assert(items@.map_values(|i: OutlineItem| outline_view(i)) =~= items@.map_values(
            |i: OutlineItem| outline_view(i),
        ) + outline_from(ls, k as int, src, in_block));
    }
    items
}

/// The number of fence lines among `ls[..k]`.
pub open spec fn fences_before(ls: Seq<Seq<char>>, k: int) -> int
    decreases k,
{
    if k <= 0 {
        0
    } else {
        fences_before(ls, k - 1) + if is_fence(ls[k - 1]) { 1int } else { 0int }
    }
}

/// Line `k` lies inside a fenced code block: an odd number of fence lines
/// come before it.
pub open spec fn in_fence_at(ls: Seq<Seq<char>>, k: int) -> bool {
    fences_before(ls, k) % 2 == 1
}

/// Line `m` is a heading the outline lists: a heading line, no fence, and
/// outside any fenced code block.
pub open spec fn listed_heading(ls: Seq<Seq<char>>, m: int) -> bool {
    &&& 0 <= m < ls.len()
    &&& !is_fence(ls[m])
    &&& heading_level(ls[m]) > 0
    &&& !in_fence_at(ls, m)
}

proof fn lemma_outline_from(ls: Seq<Seq<char>>, k: int, source: Option<Seq<char>>)
    requires
        0 <= k <= ls.len(),
    ensures
        ({
            let r = outline_from(ls, k, source, in_fence_at(ls, k));
            &&& forall|j: int| 0 <= j < r.len() ==> {
                &&& k <= (#[trigger] r[j]).2
                &&& listed_heading(ls, r[j].2)
                &&& r[j].1 == heading_level(ls[r[j].2])
                &&& r[j].0 == heading_title(ls[r[j].2], r[j].1)
                &&& r[j].3 == source
            }
            &&& forall|i: int, j: int| 0 <= i < j < r.len() ==> (#[trigger] r[i]).2 < (#[trigger] r[j]).2
            &&& forall|m: int| k <= m && #[trigger] listed_heading(ls, m) ==> exists|j: int| 0 <= j < r.len() && (#[trigger] r[j]).2 == m
        }),
    decreases ls.len() - k,
{
    let ib = in_fence_at(ls, k);
    let r = outline_from(ls, k, source, ib);
    if k < ls.len() {
        lemma_outline_from(ls, k + 1, source);
        let t = outline_from(ls, k + 1, source, in_fence_at(ls, k + 1));
        if is_fence(ls[k]) {
            assert(in_fence_at(ls, k + 1) == !ib);
            assert(r == t);
            assert forall|m: int| k <= m && #[trigger] listed_heading(ls, m) implies exists|j: int| 0 <= j < r.len() && (#[trigger] r[j]).2 == m by {
                assert(m != k);
            }
        } else {
            assert(in_fence_at(ls, k + 1) == ib);
            let lv = heading_level(ls[k]);
            let head: Seq<OutlineView> = if lv > 0 && !ib {
                seq![(heading_title(ls[k], lv), lv, k, source)]
            } else {
                seq![]
            };
            assert(r == head + t);
            assert forall|j: int| 0 <= j < r.len() implies {
                &&& k <= (#[trigger] r[j]).2
                &&& listed_heading(ls, r[j].2)
                &&& r[j].1 == heading_level(ls[r[j].2])
                &&& r[j].0 == heading_title(ls[r[j].2], r[j].1)
                &&& r[j].3 == source
            } by {
                if j >= head.len() {
                    assert(r[j] == t[j - head.len()]);
                }
            }
            assert forall|i: int, j: int| 0 <= i < j < r.len() implies (#[trigger] r[i]).2 < (#[trigger] r[j]).2 by {
                if i >= head.len() {
                    assert(r[i] == t[i - head.len()]);
                }
                assert(r[j] == t[j - head.len()]);
            }
            assert forall|m: int| k <= m && #[trigger] listed_heading(ls, m) implies exists|j: int| 0 <= j < r.len() && (#[trigger] r[j]).2 == m by {
                if m == k {
                    assert(r[0].2 == m);
                } else {
                    let j = choose|j: int| 0 <= j < t.len() && (#[trigger] t[j]).2 == m;
                    assert(r[j + head.len()] == t[j]);
                }
            }
        }
    }
}

/// The outline lists, in line order, exactly the heading lines outside
/// fenced code blocks, each with its level and title.
pub proof fn law_outline_lists_the_headings(text: Seq<char>, source: Option<Seq<char>>)
    ensures
        ({
            let ls = lines_of(text);
            let r = outline_from(ls, 0, source, false);
            &&& forall|j: int| 0 <= j < r.len() ==> {
                &&& listed_heading(ls, (#[trigger] r[j]).2)
                &&& r[j].1 == heading_level(ls[r[j].2])
                &&& r[j].0 == heading_title(ls[r[j].2], r[j].1)
            }
            &&& forall|i: int, j: int| 0 <= i < j < r.len() ==> (#[trigger] r[i]).2 < (#[trigger] r[j]).2
            &&& forall|m: int| #[trigger] listed_heading(ls, m) ==> exists|j: int| 0 <= j < r.len() && (#[trigger] r[j]).2 == m
        }),
{
    let ls = lines_of(text);
    assert(!in_fence_at(ls, 0));
    lemma_outline_from(ls, 0, source);
}

/// A line that starts, after any whitespace, with one to three `#` and a
/// space, outside fenced code blocks, is in the outline: at its line
/// number, with that many `#` as its level, and the rest of the line,
/// trimmed, as its title.
pub proof fn law_indented_headings_are_listed(
    text: Seq<char>,
    source: Option<Seq<char>>,
    m: int,
    ws: Seq<char>,
    n: int,
    rest: Seq<char>,
)
    requires
        0 <= m < lines_of(text).len(),
        forall|j: int| 0 <= j < ws.len() ==> is_ws(#[trigger] ws[j]),
        1 <= n <= 3,
        lines_of(text)[m] == ws + Seq::new(n as nat, |_i: int| '#') + seq![' '] + rest,
        !in_fence_at(lines_of(text), m),
    ensures
        exists|j: int| 0 <= j < outline_from(lines_of(text), 0, source, false).len()
            && #[trigger] outline_from(lines_of(text), 0, source, false)[j]
                == (trim(seq![' '] + rest), n as u8, m, source),
{
    let ls = lines_of(text);
    let l = ls[m];
    let t = Seq::new(n as nat, |_i: int| '#') + seq![' '] + rest;
    assert(l =~= ws + t);
    assert(t[0] == '#');
    lemma_leading_ws_prefixed(ws, t);
    let w = ws.len() as int;
    assert(l.skip(w) =~= t);
    if n == 1 {
        assert(t.subrange(0, 2) =~= seq!['#', ' ']);
        assert(l.subrange(w, w + 2) =~= seq!['#', ' ']);
        assert(!matches_at(l, w, seq!['#', '#', ' ']));
        assert(!matches_at(l, w, seq!['#', '#', '#', ' ']));
        assert(!matches_at(l, w, seq!['`', '`', '`']));
    } else if n == 2 {
        assert(l.subrange(w, w + 3) =~= seq!['#', '#', ' ']);
        assert(!matches_at(l, w, seq!['#', '#', '#', ' ']));
        assert(!matches_at(l, w, seq!['`', '`', '`']));
    } else {
        assert(l.subrange(w, w + 4) =~= seq!['#', '#', '#', ' ']);
        assert(!matches_at(l, w, seq!['`', '`', '`']));
    }
    assert(heading_level(l) == n);
    assert(!is_fence(l));
    assert(listed_heading(ls, m));
    assert(!in_fence_at(ls, 0));
    lemma_outline_from(ls, 0, source);
    let r = outline_from(ls, 0, source, false);
    let j = choose|j: int| 0 <= j < r.len() && (#[trigger] r[j]).2 == m;
    assert(l.skip(w + n) =~= seq![' '] + rest);
    assert(r[j].1 == heading_level(l));
    assert(r[j].1 == n as u8);
    assert(leading_ws(l) + (n as u8) == w + n);
    assert(heading_title(l, n as u8) == trim(l.skip(w + n)));
    assert(r[j].0 == trim(seq![' '] + rest));
    assert(r[j] == (trim(seq![' '] + rest), n as u8, m, source));
}

} // verus!
