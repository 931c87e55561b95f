//! Formatting commands: wrapping the selection in emphasis markers and
//! cycling a line through the heading levels.
use vstd::prelude::*;
use crate::editor::block::{byte_slice, slice_bytes};
use crate::text::{
    blen, count_leading_ws, from_chars, has_at, is_boundary, join_with, matches_at, str_blen, to_chars,
    trim_start,
};

verus! {

// ---------------------------------------------------------------------------
// Headings
// ---------------------------------------------------------------------------

/// A line after one step of the heading cycle (normal, `#`, `##`, `###`,
/// normal): the indentation is dropped and the marker advanced.
pub open spec fn cycled_heading(line: Seq<char>) -> Seq<char> {
    let t = trim_start(line);
    if matches_at(t, 0, seq!['#', '#', '#', ' ']) {
        t.skip(4)
    } else if matches_at(t, 0, seq!['#', '#', ' ']) {
        seq!['#', '#', '#', ' '] + t.skip(3)
    } else if matches_at(t, 0, seq!['#', ' ']) {
        seq!['#', '#', ' '] + t.skip(2)
    } else {
        seq!['#', ' '] + t
    }
}

/// The line with its heading level advanced: normal text becomes a level 1
/// heading, level 1 becomes 2, 2 becomes 3, and 3 becomes normal text.
pub fn cycle_heading(line: &str) -> (r: String)
    ensures
        r@ == cycled_heading(line@),
{
    let v = to_chars(line);
    let lo = count_leading_ws(&v, 0);
    proof {
        assert(v@.skip(0) =~= v@);
    }
    let t = from_chars(&v, lo, v.len());
    let tv = to_chars(t.as_str());
    assert(tv@ =~= trim_start(line@));
    let r = if has_at(&tv, 0, &['#', '#', '#', ' ']) {
        from_chars(&tv, 4, tv.len())
    } else if has_at(&tv, 0, &['#', '#', ' ']) {
        let mut r = String::from_str("### ");
        let rest = from_chars(&tv, 3, tv.len());
        r.append(rest.as_str());
        proof {
            reveal_strlit("### ");
        }
        r
    } else if has_at(&tv, 0, &['#', ' ']) {
        let mut r = String::from_str("## ");
        let rest = from_chars(&tv, 2, tv.len());
        r.append(rest.as_str());
        proof {
            reveal_strlit("## ");
        }
        r
    } else {
        let mut r = String::from_str("# ");
        r.append(t.as_str());
        proof {
            reveal_strlit("# ");
        }
        r
    };
    assert(r@ =~= cycled_heading(line@));
    r
}

/// Four steps of the heading cycle bring an unindented normal line back.
pub proof fn law_heading_cycle_returns(line: Seq<char>)
    requires
        trim_start(line) == line,
        !matches_at(line, 0, seq!['#', '#', '#', ' ']),
        !matches_at(line, 0, seq!['#', '#', ' ']),
        !matches_at(line, 0, seq!['#', ' ']),
    ensures
        cycled_heading(cycled_heading(cycled_heading(cycled_heading(line)))) == line,
{
    let c1 = cycled_heading(line);
    assert(c1 == seq!['#', ' '] + line);
    lemma_trim_start_hash(c1);
    assert(c1.subrange(0, 2) =~= seq!['#', ' ']);
    assert(c1[1] == ' ');
    let c2 = cycled_heading(c1);
    assert(c2 =~= seq!['#', '#', ' '] + line);
    lemma_trim_start_hash(c2);
    assert(c2.subrange(0, 3) =~= seq!['#', '#', ' ']);
    assert(c2[2] == ' ');
    let c3 = cycled_heading(c2);
    assert(c3 =~= seq!['#', '#', '#', ' '] + line);
    lemma_trim_start_hash(c3);
    assert(c3.subrange(0, 4) =~= seq!['#', '#', '#', ' ']);
    let c4 = cycled_heading(c3);
    assert(c4 =~= line);
}

proof fn lemma_trim_start_hash(s: Seq<char>)
    requires
        s.len() > 0,
        s[0] == '#',
    ensures
        trim_start(s) == s,
{
    assert(s.skip(0) =~= s);
}

// ---------------------------------------------------------------------------
// Emphasis
// ---------------------------------------------------------------------------

/// What a formatting command does to the text.
#[derive(Debug, Clone, PartialEq, Eq)]
pub enum WrapEdit {
    /// Replace the selection with this text.
    Replace(String),
    /// With nothing selected: insert the delimiter twice at the cursor and
    /// step back over the second one.
    InsertPair(String),
}

/// `s` begins with `d`.
pub open spec fn starts_with(s: Seq<char>, d: Seq<char>) -> bool {
    d.len() <= s.len() && s.take(d.len() as int) == d
}

/// `s` ends with `d`.
pub open spec fn ends_with(s: Seq<char>, d: Seq<char>) -> bool {
    d.len() <= s.len() && s.skip(s.len() - d.len()) == d
}

/// The replacement for a selection: without its delimiters when it is
/// already wrapped in them, otherwise wrapped in them.
pub open spec fn toggled(sel: Seq<char>, d: Seq<char>) -> Seq<char> {
    if starts_with(sel, d) && ends_with(sel, d) {
        sel.subrange(d.len() as int, sel.len() - d.len())
    } else {
        d + sel + d
    }
}

/// A selection whose unwrapping would cut it before its start: it begins
/// and ends with the delimiter, but the two overlap.
pub open spec fn overlapping_delimiters(sel: Seq<char>, d: Seq<char>) -> bool {
    starts_with(sel, d) && ends_with(sel, d) && sel.len() < 2 * d.len()
}

fn chars_starts_with(s: &Vec<char>, d: &Vec<char>) -> (r: bool)
    ensures
        r == starts_with(s@, d@),
{
    if d.len() > s.len() {
        return false;
    }
    let mut i: usize = 0;
    while i < d.len()
        invariant
            d@.len() <= s@.len(),
            i <= d@.len(),
            forall|j: int| 0 <= j < i ==> s@[j] == d@[j],
        decreases d.len() - i,
    {
        if s[i] != d[i] {
            assert(s@.take(d@.len() as int)[i as int] != d@[i as int]);
            return false;
        }
        i = i + 1;
    }
    assert(s@.take(d@.len() as int) =~= d@);
    true
}

fn chars_ends_with(s: &Vec<char>, d: &Vec<char>) -> (r: bool)
    ensures
        r == ends_with(s@, d@),
{
    if d.len() > s.len() {
        return false;
    }
    let off = s.len() - d.len();
    let mut i: usize = 0;
    while i < d.len()
        invariant
            d@.len() <= s@.len(),
            off == s@.len() - d@.len(),
            i <= d@.len(),
            forall|j: int| 0 <= j < i ==> s@[off + j] == d@[j],
        decreases d.len() - i,
    {
        assert(off + i < s.len());
        if s[off + i] != d[i] {
            assert(s@.skip(off as int)[i as int] != d@[i as int]);
            return false;
        }
        i = i + 1;
    }
    assert(s@.skip(off as int) =~= d@);
    true
}

/// Wraps the selection in `delimiter`, or unwraps it when it is already
/// wrapped; with no selection, asks for a pair of delimiters at the cursor.
pub fn toggle_wrap(selection: Option<&str>, delimiter: &str) -> (r: WrapEdit)
    requires
        selection matches Some(sel) ==> !overlapping_delimiters(sel@, delimiter@),
    ensures
        match selection {
            Some(sel) => r matches WrapEdit::Replace(t) && t@ == toggled(sel@, delimiter@),
            None => r matches WrapEdit::InsertPair(d) && d@ == delimiter@,
        },
{
    match selection {
        Some(sel) => {
            let s = to_chars(sel);
            let d = to_chars(delimiter);
            if chars_starts_with(&s, &d) && chars_ends_with(&s, &d) {
                WrapEdit::Replace(from_chars(&s, d.len(), s.len() - d.len()))
            } else {
                let mut t = String::from_str(delimiter);
                t.append(sel);
                t.append(delimiter);
                WrapEdit::Replace(t)
            }
        },
        None => WrapEdit::InsertPair(String::from_str(delimiter)),
    }
}

/// Bold: `**`.
pub fn toggle_bold(selection: Option<&str>) -> (r: WrapEdit)
    requires
        selection matches Some(sel) ==> !overlapping_delimiters(sel@, seq!['*', '*']),
    ensures
        match selection {
            Some(sel) => r matches WrapEdit::Replace(t) && t@ == toggled(sel@, seq!['*', '*']),
            None => r matches WrapEdit::InsertPair(d) && d@ == seq!['*', '*'],
        },
{
    let d = "**";
    proof {
        reveal_strlit("**");
    }
    assert(d@ =~= seq!['*', '*']);
    toggle_wrap(selection, d)
}

/// Italic: `*`.
pub fn toggle_italic(selection: Option<&str>) -> (r: WrapEdit)
    requires
        selection matches Some(sel) ==> !overlapping_delimiters(sel@, seq!['*']),
    ensures
        match selection {
            Some(sel) => r matches WrapEdit::Replace(t) && t@ == toggled(sel@, seq!['*']),
            None => r matches WrapEdit::InsertPair(d) && d@ == seq!['*'],
        },
{
    let d = "*";
    proof {
        reveal_strlit("*");
    }
    assert(d@ =~= seq!['*']);
    toggle_wrap(selection, d)
}

/// Underline: `++`.
pub fn toggle_underline(selection: Option<&str>) -> (r: WrapEdit)
    requires
        selection matches Some(sel) ==> !overlapping_delimiters(sel@, seq!['+', '+']),
    ensures
        match selection {
            Some(sel) => r matches WrapEdit::Replace(t) && t@ == toggled(sel@, seq!['+', '+']),
            None => r matches WrapEdit::InsertPair(d) && d@ == seq!['+', '+'],
        },
{
    let d = "++";
    proof {
        reveal_strlit("++");
    }
    assert(d@ =~= seq!['+', '+']);
    toggle_wrap(selection, d)
}

/// Wrapping a selection and toggling again gives the selection back.
pub proof fn law_toggle_twice_restores(sel: Seq<char>, d: Seq<char>)
    requires
        !(starts_with(sel, d) && ends_with(sel, d)),
    ensures
        toggled(toggled(sel, d), d) == sel,
{
    let w = d + sel + d;
    assert(w.take(d.len() as int) =~= d);
    assert(w.skip(w.len() - d.len()) =~= d);
    assert(w.subrange(d.len() as int, w.len() - d.len()) =~= sel);
}

// ---------------------------------------------------------------------------
// The selected text
// ---------------------------------------------------------------------------

/// Where the selection's part of line `k` starts and ends (byte positions).
pub open spec fn sel_bounds(lines: Seq<Seq<char>>, start: (usize, usize), end: (usize, usize), k: int) -> (int, int) {
    (
        if k == start.0 { start.1 as int } else { 0 },
        if k == end.0 { end.1 as int } else { blen(lines[k]) as int },
    )
}

/// The selection's part of each line from `start.0` up to line `k`.
pub open spec fn sel_pieces(lines: Seq<Seq<char>>, start: (usize, usize), end: (usize, usize), k: int) -> Seq<Seq<char>>
    decreases k - start.0,
{
    if k <= start.0 {
        seq![]
    } else {
        sel_pieces(lines, start, end, k - 1).push(
            byte_slice(lines[k - 1], sel_bounds(lines, start, end, k - 1).0, sel_bounds(lines, start, end, k - 1).1),
        )
    }
}

/// Each line of the selection can be cut where it says.
pub open spec fn selection_fits(lines: Seq<Seq<char>>, start: (usize, usize), end: (usize, usize)) -> bool {
    &&& start.0 <= end.0 < lines.len()
    &&& forall|k: int| start.0 <= k <= end.0 ==> {
        let (s, e) = #[trigger] sel_bounds(lines, start, end, k);
        &&& s <= e <= blen(lines[k])
        &&& is_boundary(lines[k], s)
        &&& is_boundary(lines[k], e)
    }
}

/// The selected text: the selected part of each line, joined with line
/// breaks.
pub fn selection_text(lines: &Vec<String>, start: (usize, usize), end: (usize, usize)) -> (r: String)
    requires
        selection_fits(lines.deep_view(), start, end),
    ensures
        r@ == join_with(sel_pieces(lines.deep_view(), start, end, end.0 + 1), seq!['\n']),
{
    let ghost ls = lines.deep_view();
    let mut r = String::new();
    let mut k = start.0;
    assert(sel_pieces(ls, start, end, k as int) =~= Seq::<Seq<char>>::empty());
    while k <= end.0
        invariant
            ls == lines.deep_view(),
            selection_fits(ls, start, end),
            start.0 <= k <= end.0 + 1,
            end.0 < lines.len(),
            r@ == join_with(sel_pieces(ls, start, end, k as int), seq!['\n']),
        decreases end.0 + 1 - k,
    {
        let line = &lines[k];
        assert(line@ == ls[k as int]);
        let len = str_blen(line.as_str());
        let s = if k == start.0 { start.1 } else { 0 };
        let e = if k == end.0 { end.1 } else { len };
        let ghost b = sel_bounds(ls, start, end, k as int);
        assert(b == (s as int, e as int));
        let piece = slice_bytes(line.as_str(), s, e);
        let ghost before = sel_pieces(ls, start, end, k as int);
        if k > start.0 {
            r.append("\n");
            proof {
                reveal_strlit("\n");
            }
        }
        r.append(piece.as_str());
        proof {
            let now = sel_pieces(ls, start, end, k + 1);
            assert(now == before.push(piece@));
            if before.len() == 0 {
                assert(now =~= seq![piece@]);
            } else {
                assert(now.drop_last() == before);
            }
            assert(r@ =~= join_with(now, seq!['\n']));
        }
        k = k + 1;
    }
    r
}

} // verus!
