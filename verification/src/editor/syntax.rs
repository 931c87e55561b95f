//! Markdown highlighting of one line for the terminal: heading markers,
//! `***bold italic***`, `**bold**`, `*italic*` and `++underline++`, with
//! the markup itself dimmed.
//!
//! Positions are byte offsets into the line.  The delimiters are ASCII, so
//! the scan works on the line's UTF-8 bytes.
use vstd::prelude::*;
use vstd::utf8::{encode_scalar, encode_utf8, has_width_1_encoding};
use crate::services::word_extractor::lemma_blen_ge_len;
use crate::text::{
    blen, char_blen, count_leading_ws, is_boundary, is_ws, lemma_leading_ws_prefixed, lemma_blen_push, from_chars, has_at, leading_ws, lemma_blen_add, matches_at, str_blen,
    to_chars, trim_start,
};

verus! {

/// How a stretch of a line is shown.
#[derive(Debug, Clone, Copy, PartialEq, Eq, Structural)]
pub enum SpanStyle {
    /// Markup characters (`#`, `**`, `*`, `++`), dimmed.
    Markup,
    /// The text of a level 1 or 2 heading.
    Heading,
    /// The text of a level 3 heading.
    MinorHeading,
    Bold,
    Italic,
    /// Bold and italic (`***text***`).
    BoldItalic,
    Underline,
    /// Text with no markup.
    Plain,
}

/// The bytes `start..end` of a line, shown in `style`.
#[derive(Debug, Clone, Copy, PartialEq, Eq, Structural)]
pub struct StyledSpan {
    pub start: usize,
    pub end: usize,
    pub style: SpanStyle,
}

pub open spec fn span(start: int, end: int, style: SpanStyle) -> StyledSpan {
    StyledSpan { start: start as usize, end: end as usize, style }
}

pub open spec fn star() -> u8 {
    42u8
}

pub open spec fn plus() -> u8 {
    43u8
}

/// The first `p >= start` where two bytes `d` follow each other.
pub open spec fn find_pair(b: Seq<u8>, start: int, d: u8) -> Option<int>
    decreases b.len() - start,
{
    if start < 0 || start + 1 >= b.len() {
        None
    } else if b[start] == d && b[start + 1] == d {
        Some(start)
    } else {
        find_pair(b, start + 1, d)
    }
}

/// The first `p >= start` where three bytes `d` follow each other.
pub open spec fn find_triple(b: Seq<u8>, start: int, d: u8) -> Option<int>
    decreases b.len() - start,
{
    if start < 0 || start + 2 >= b.len() {
        None
    } else if b[start] == d && b[start + 1] == d && b[start + 2] == d {
        Some(start)
    } else {
        find_triple(b, start + 1, d)
    }
}

pub proof fn lemma_find_triple(b: Seq<u8>, start: int, d: u8)
    ensures
        find_triple(b, start, d) matches Some(p) ==> start <= p && p + 2 < b.len() && b[p] == d && b[p + 1] == d
            && b[p + 2] == d,
    decreases b.len() - start,
{
    if !(start < 0 || start + 2 >= b.len()) && !(b[start] == d && b[start + 1] == d && b[start + 2] == d) {
        lemma_find_triple(b, start + 1, d);
    }
}

/// The first `p >= start` where the byte is `d`.
pub open spec fn find_byte(b: Seq<u8>, start: int, d: u8) -> Option<int>
    decreases b.len() - start,
{
    if start < 0 || start >= b.len() {
        None
    } else if b[start] == d {
        Some(start)
    } else {
        find_byte(b, start + 1, d)
    }
}

pub proof fn lemma_find_pair(b: Seq<u8>, start: int, d: u8)
    ensures
        find_pair(b, start, d) matches Some(p) ==> start <= p && p + 1 < b.len() && b[p] == d && b[p + 1] == d,
    decreases b.len() - start,
{
    if !(start < 0 || start + 1 >= b.len()) && !(b[start] == d && b[start + 1] == d) {
        lemma_find_pair(b, start + 1, d);
    }
}

pub proof fn lemma_find_byte(b: Seq<u8>, start: int, d: u8)
    ensures
        find_byte(b, start, d) matches Some(p) ==> start <= p < b.len() && b[p] == d,
    decreases b.len() - start,
{
    if !(start < 0 || start >= b.len()) && b[start] != d {
        lemma_find_byte(b, start + 1, d);
    }
}

/// The emphasis spans of the bytes from `i` on: at each position, in this
/// order, `***` with a closing `***` gives bold italic, `**` with a closing
/// `**` gives bold, a single `*` with a closing
/// `*` gives italic, `++` with a closing `++` gives underline; otherwise
/// the scan moves one byte on.
pub open spec fn emphasis_spans(b: Seq<u8>, i: int) -> Seq<StyledSpan>
    decreases b.len() - i,
{
    if i < 0 || i >= b.len() {
        seq![]
    } else if i + 2 < b.len() && b[i] == star() && b[i + 1] == star() && b[i + 2] == star()
        && find_triple(b, i + 3, star()) is Some {
        let e = find_triple(b, i + 3, star())->0;
        proof {
            lemma_find_triple(b, i + 3, star());
        }
        seq![span(i, i + 3, SpanStyle::Markup), span(i + 3, e, SpanStyle::BoldItalic), span(e, e + 3, SpanStyle::Markup)]
            + emphasis_spans(b, e + 3)
    } else if i + 1 < b.len() && b[i] == star() && b[i + 1] == star() && find_pair(b, i + 2, star()) is Some {
        let e = find_pair(b, i + 2, star())->0;
        proof {
            lemma_find_pair(b, i + 2, star());
        }
        seq![span(i, i + 2, SpanStyle::Markup), span(i + 2, e, SpanStyle::Bold), span(e, e + 2, SpanStyle::Markup)]
            + emphasis_spans(b, e + 2)
    } else if b[i] == star() && (i + 1 >= b.len() || b[i + 1] != star()) && find_byte(b, i + 1, star()) is Some {
        let e = find_byte(b, i + 1, star())->0;
        proof {
            lemma_find_byte(b, i + 1, star());
        }
        seq![span(i, i + 1, SpanStyle::Markup), span(i + 1, e, SpanStyle::Italic), span(e, e + 1, SpanStyle::Markup)]
            + emphasis_spans(b, e + 1)
    } else if i + 1 < b.len() && b[i] == plus() && b[i + 1] == plus() && find_pair(b, i + 2, plus()) is Some {
        let e = find_pair(b, i + 2, plus())->0;
        proof {
            lemma_find_pair(b, i + 2, plus());
        }
        seq![span(i, i + 2, SpanStyle::Markup), span(i + 2, e, SpanStyle::Underline), span(e, e + 2, SpanStyle::Markup)]
            + emphasis_spans(b, e + 2)
    } else {
        emphasis_spans(b, i + 1)
    }
}

/// The heading marker that the line starts with after its indentation, as
/// (marker length, style of the heading text).
pub open spec fn heading_marker(line: Seq<char>) -> Option<(int, SpanStyle)> {
    let t = trim_start(line);
    if matches_at(t, 0, seq!['#', '#', '#', ' ']) {
        Some((4, SpanStyle::MinorHeading))
    } else if matches_at(t, 0, seq!['#', '#', ' ']) {
        Some((3, SpanStyle::Heading))
    } else if matches_at(t, 0, seq!['#', ' ']) {
        Some((2, SpanStyle::Heading))
    } else {
        None
    }
}

/// The highlighted spans of a line: a heading is its indentation and marker
/// dimmed and the rest in the heading's style; any other line gets its
/// emphasis spans.
pub open spec fn line_spans(line: Seq<char>) -> Seq<StyledSpan> {
    match heading_marker(line) {
        Some((n, style)) => {
            let off = blen(line) - blen(trim_start(line));
            seq![span(0, off + n, SpanStyle::Markup), span(off + n, blen(line) as int, style)]
        },
        None => emphasis_spans(encode_utf8(line), 0),
    }
}

/// The first `p >= start` with `b[p] == b[p + 1] == d` (`str::find` of a
/// doubled ASCII delimiter).
fn find_closing(b: &[u8], start: usize, d: u8) -> (r: Option<usize>)
    ensures
        r == match find_pair(b@, start as int, d) {
            Some(p) => Some(p as usize),
            None => None::<usize>,
        },
{
    let mut p = start;
    while p < b.len() && p + 1 < b.len()
        invariant
            start <= p,
            find_pair(b@, p as int, d) == find_pair(b@, start as int, d),
        decreases b.len() - p,
    {
        if b[p] == d && b[p + 1] == d {
            return Some(p);
        }
        p = p + 1;
    }
    None
}

/// The first `p >= start` with `b[p] == b[p + 1] == b[p + 2] == d`.
fn find_closing_triple(b: &[u8], start: usize, d: u8) -> (r: Option<usize>)
    ensures
        r == match find_triple(b@, start as int, d) {
            Some(p) => Some(p as usize),
            None => None::<usize>,
        },
{
    let mut p = start;
    while p < b.len() && b.len() - p > 2
        invariant
            start <= p,
            find_triple(b@, p as int, d) == find_triple(b@, start as int, d),
        decreases b.len() - p,
    {
        if b[p] == d && b[p + 1] == d && b[p + 2] == d {
            return Some(p);
        }
        p = p + 1;
    }
    None
}

/// The first `p >= start` with `b[p] == d`.
fn find_closing_single(b: &[u8], start: usize, d: u8) -> (r: Option<usize>)
    ensures
        r == match find_byte(b@, start as int, d) {
            Some(p) => Some(p as usize),
            None => None::<usize>,
        },
{
    let mut p = start;
    while p < b.len()
        invariant
            start <= p,
            find_byte(b@, p as int, d) == find_byte(b@, start as int, d),
        decreases b.len() - p,
    {
        if b[p] == d {
            return Some(p);
        }
        p = p + 1;
    }
    None
}

/// Appends the three spans of an emphasis: opening markup, text, closing
/// markup.
fn push_emphasis(spans: &mut Vec<StyledSpan>, i: usize, open: usize, e: usize, close: usize, style: SpanStyle)
    requires
        i + open <= e,
        e + close <= usize::MAX,
    ensures
        final(spans)@ == old(spans)@ + seq![
            span(i as int, i + open, SpanStyle::Markup),
            span(i + open, e as int, style),
            span(e as int, e + close, SpanStyle::Markup),
        ],
{
    spans.push(StyledSpan { start: i, end: i + open, style: SpanStyle::Markup });
    spans.push(StyledSpan { start: i + open, end: e, style });
    spans.push(StyledSpan { start: e, end: e + close, style: SpanStyle::Markup });
}

/// The highlighted spans of a markdown line.
#[verifier::rlimit(40)]
pub fn highlight_markdown_line(line: &str) -> (spans: Vec<StyledSpan>)
    ensures
        spans@ == line_spans(line@),
{
    let chars = to_chars(line);
    let lo = count_leading_ws(&chars, 0);
    let len = str_blen(line);
    let trimmed = from_chars(&chars, lo, chars.len());
    let tl = str_blen(trimmed.as_str());
    proof {
        assert(chars@.skip(0) =~= chars@);
        assert(trimmed@ =~= trim_start(line@));
        assert(line@ =~= line@.take(lo as int) + trimmed@);
        lemma_blen_add(line@.take(lo as int), trimmed@);
        lemma_blen_ge_len(trimmed@);
        assert(trimmed@.skip(0) =~= trimmed@);
    }
    let tv = to_chars(trimmed.as_str());
    let marker: Option<(usize, SpanStyle)> = if has_at(&tv, 0, &['#', '#', '#', ' ']) {
        Some((4, SpanStyle::MinorHeading))
    } else if has_at(&tv, 0, &['#', '#', ' ']) {
        Some((3, SpanStyle::Heading))
    } else if has_at(&tv, 0, &['#', ' ']) {
        Some((2, SpanStyle::Heading))
    } else {
        None
    };
    if let Some((n, style)) = marker {
        let off = len - tl;
        let mut spans: Vec<StyledSpan> = Vec::new();
        spans.push(StyledSpan { start: 0, end: off + n, style: SpanStyle::Markup });
        spans.push(StyledSpan { start: off + n, end: len, style });
        assert(spans@ =~= line_spans(line@));
        return spans;
    }
    let b = line.as_bytes();
    let ghost bs = b@;
    let mut spans: Vec<StyledSpan> = Vec::new();
    let mut i: usize = 0;
    assert(spans@ + emphasis_spans(bs, 0) =~= emphasis_spans(bs, 0));
    while i < b.len()
        invariant
            bs == b@,
            bs == encode_utf8(line@),
            spans@ + emphasis_spans(bs, i as int) == emphasis_spans(bs, 0),
        decreases b.len() - i,
    {
        let ghost before = spans@;
        if b.len() - i > 2 && b[i] == 42u8 && b[i + 1] == 42u8 && b[i + 2] == 42u8 {
            if let Some(e) = find_closing_triple(b, i + 3, 42u8) {
                proof {
                    lemma_find_triple(bs, i + 3, star());
                }
                push_emphasis(&mut spans, i, 3, e, 3, SpanStyle::BoldItalic);
                proof {
                    assert(spans@ + emphasis_spans(bs, e + 3) =~= before + emphasis_spans(bs, i as int));
                }
                i = e + 3;
                continue;
            }
        }
        if i + 1 < b.len() && b[i] == 42u8 && b[i + 1] == 42u8 {
            if let Some(e) = find_closing(b, i + 2, 42u8) {
                proof {
                    lemma_find_pair(bs, i + 2, star());
                }
                push_emphasis(&mut spans, i, 2, e, 2, SpanStyle::Bold);
                proof {
                    assert(spans@ + emphasis_spans(bs, e + 2) =~= before + emphasis_spans(bs, i as int));
                }
                i = e + 2;
                continue;
            }
        }
        if b[i] == 42u8 && (i + 1 >= b.len() || b[i + 1] != 42u8) {
            if let Some(e) = find_closing_single(b, i + 1, 42u8) {
                proof {
                    lemma_find_byte(bs, i + 1, star());
                }
                push_emphasis(&mut spans, i, 1, e, 1, SpanStyle::Italic);
                proof {
                    assert(spans@ + emphasis_spans(bs, e + 1) =~= before + emphasis_spans(bs, i as int));
                }
                i = e + 1;
                continue;
            }
        }
        if i + 1 < b.len() && b[i] == 43u8 && b[i + 1] == 43u8 {
            if let Some(e) = find_closing(b, i + 2, 43u8) {
                proof {
                    lemma_find_pair(bs, i + 2, plus());
                }
                push_emphasis(&mut spans, i, 2, e, 2, SpanStyle::Underline);
                proof {
                    assert(spans@ + emphasis_spans(bs, e + 2) =~= before + emphasis_spans(bs, i as int));
                }
                i = e + 2;
                continue;
            }
        }
        i = i + 1;
    }
    assert(emphasis_spans(bs, i as int) == Seq::<StyledSpan>::empty());
    assert(spans@ =~= emphasis_spans(bs, 0));
    spans
}

/// The spans with plain stretches put into the gaps before, between and
/// after them, from byte `last` to byte `len`.
pub open spec fn fill_gaps(spans: Seq<StyledSpan>, last: int, len: int) -> Seq<StyledSpan>
    decreases spans.len(),
{
    if spans.len() == 0 {
        if last < len {
            seq![span(last, len, SpanStyle::Plain)]
        } else {
            seq![]
        }
    } else {
        let s = spans[0];
        (if s.start > last {
            seq![span(last, s.start as int, SpanStyle::Plain)]
        } else {
            seq![]
        }) + seq![s] + fill_gaps(spans.drop_first(), s.end as int, len)
    }
}

/// The stretches in which a line is drawn: its highlighted spans with the
/// text between them plain, or the whole line plain when nothing is
/// highlighted.
pub open spec fn line_segments(line: Seq<char>) -> Seq<StyledSpan> {
    if line_spans(line).len() == 0 {
        seq![span(0, blen(line) as int, SpanStyle::Plain)]
    } else {
        fill_gaps(line_spans(line), 0, blen(line) as int)
    }
}

/// The stretches in which a markdown line is drawn, in order.
pub fn apply_syntax_highlighting(line: &str) -> (segments: Vec<StyledSpan>)
    ensures
        segments@ == line_segments(line@),
{
    let spans = highlight_markdown_line(line);
    let len = str_blen(line);
    let mut out: Vec<StyledSpan> = Vec::new();
    if spans.len() == 0 {
        out.push(StyledSpan { start: 0, end: len, style: SpanStyle::Plain });
        assert(out@ =~= line_segments(line@));
        return out;
    }
    let ghost ss = spans@;
    let mut last: usize = 0;
    let mut k: usize = 0;
    assert(ss.skip(0) =~= ss);
    assert(out@ + fill_gaps(ss.skip(0), 0, len as int) =~= fill_gaps(ss, 0, len as int));
    while k < spans.len()
        invariant
            ss == spans@,
            k <= ss.len(),
            len == blen(line@),
            out@ + fill_gaps(ss.skip(k as int), last as int, len as int) == fill_gaps(ss, 0, len as int),
        decreases spans.len() - k,
    {
        let s = spans[k];
        let ghost before = out@;
        proof {
            assert(ss.skip(k as int)[0] == s);
            assert(ss.skip(k as int).drop_first() =~= ss.skip(k + 1));
        }
        if s.start > last {
            out.push(StyledSpan { start: last, end: s.start, style: SpanStyle::Plain });
        }
        out.push(s);
        proof {
            assert(out@ + fill_gaps(ss.skip(k + 1), s.end as int, len as int)
                =~= before + fill_gaps(ss.skip(k as int), last as int, len as int));
        }
        last = s.end;
        k = k + 1;
    }
    let ghost before = out@;
    if last < len {
        out.push(StyledSpan { start: last, end: len, style: SpanStyle::Plain });
    }
    proof {
        assert(ss.skip(k as int) =~= Seq::<StyledSpan>::empty());
        assert(out@ =~= before + fill_gaps(ss.skip(k as int), last as int, len as int));
    }
    out
}

/// The spans lie within `lo..hi`, each with its start before its end, one
/// after another.
pub open spec fn ordered_within(spans: Seq<StyledSpan>, lo: int, hi: int) -> bool {
    &&& forall|k: int| 0 <= k < spans.len() ==> lo <= (#[trigger] spans[k]).start <= spans[k].end <= hi
    &&& forall|j: int, k: int| 0 <= j < k < spans.len() ==> (#[trigger] spans[j]).end <= (#[trigger] spans[k]).start
}

/// The segments cover `lo..hi` exactly: each begins where the one before it
/// ended.
pub open spec fn tiles(segs: Seq<StyledSpan>, lo: int, hi: int) -> bool {
    if segs.len() == 0 {
        lo == hi
    } else {
        &&& segs[0].start == lo
        &&& segs.last().end == hi
        &&& forall|k: int| 0 <= k < segs.len() ==> (#[trigger] segs[k]).start <= segs[k].end
        &&& forall|j: int, k: int| 0 <= j && k == j + 1 && k < segs.len() ==> (#[trigger] segs[j]).end == (#[trigger] segs[k]).start
    }
}

proof fn lemma_emphasis_step(t: Seq<StyledSpan>, i: int, open: int, e: int, close: int, len: int, style: SpanStyle)
    requires
        0 <= i,
        i + open <= e,
        0 < open,
        0 < close,
        e + close <= len,
        len <= usize::MAX,
        ordered_within(t, e + close, len),
    ensures
        ordered_within(
            seq![span(i, i + open, SpanStyle::Markup), span(i + open, e, style), span(e, e + close, SpanStyle::Markup)] + t,
            i,
            len,
        ),
{
    let r = seq![span(i, i + open, SpanStyle::Markup), span(i + open, e, style), span(e, e + close, SpanStyle::Markup)] + t;
    assert forall|j: int, k: int| 0 <= j < k < r.len() implies (#[trigger] r[j]).end <= (#[trigger] r[k]).start by {
        if k >= 3 {
            assert(r[k] == t[k - 3]);
        }
        if j >= 3 {
            assert(r[j] == t[j - 3]);
        }
    }
    assert forall|k: int| 0 <= k < r.len() implies i <= (#[trigger] r[k]).start <= r[k].end <= len by {
        if k >= 3 {
            assert(r[k] == t[k - 3]);
        }
    }
}

proof fn lemma_emphasis_ordered(b: Seq<u8>, i: int)
    requires
        0 <= i,
        b.len() <= usize::MAX,
    ensures
        ordered_within(emphasis_spans(b, i), i, b.len() as int),
    decreases b.len() - i,
{
    if i < b.len() {
        if i + 2 < b.len() && b[i] == star() && b[i + 1] == star() && b[i + 2] == star()
            && find_triple(b, i + 3, star()) is Some {
            let e = find_triple(b, i + 3, star())->0;
            lemma_find_triple(b, i + 3, star());
            lemma_emphasis_ordered(b, e + 3);
            lemma_emphasis_step(emphasis_spans(b, e + 3), i, 3, e, 3, b.len() as int, SpanStyle::BoldItalic);
        } else if i + 1 < b.len() && b[i] == star() && b[i + 1] == star() && find_pair(b, i + 2, star()) is Some {
            let e = find_pair(b, i + 2, star())->0;
            lemma_find_pair(b, i + 2, star());
            lemma_emphasis_ordered(b, e + 2);
            lemma_emphasis_step(emphasis_spans(b, e + 2), i, 2, e, 2, b.len() as int, SpanStyle::Bold);
        } else if b[i] == star() && (i + 1 >= b.len() || b[i + 1] != star()) && find_byte(b, i + 1, star()) is Some {
            let e = find_byte(b, i + 1, star())->0;
            lemma_find_byte(b, i + 1, star());
            lemma_emphasis_ordered(b, e + 1);
            lemma_emphasis_step(emphasis_spans(b, e + 1), i, 1, e, 1, b.len() as int, SpanStyle::Italic);
        } else if i + 1 < b.len() && b[i] == plus() && b[i + 1] == plus() && find_pair(b, i + 2, plus()) is Some {
            let e = find_pair(b, i + 2, plus())->0;
            lemma_find_pair(b, i + 2, plus());
            lemma_emphasis_ordered(b, e + 2);
            lemma_emphasis_step(emphasis_spans(b, e + 2), i, 2, e, 2, b.len() as int, SpanStyle::Underline);
        } else {
            lemma_emphasis_ordered(b, i + 1);
        }
    }
}

/// The highlighted spans of a line lie within it, in order and without
/// overlapping.
pub proof fn law_spans_are_ordered(line: Seq<char>)
    requires
        blen(line) <= usize::MAX,
    ensures
        ordered_within(line_spans(line), 0, blen(line) as int),
{
    match heading_marker(line) {
        Some((n, style)) => {
            let t = trim_start(line);
            crate::text::lemma_leading_ws_bound(line);
            assert(line =~= line.take(leading_ws(line) as int) + t);
            lemma_blen_add(line.take(leading_ws(line) as int), t);
            lemma_blen_ge_len(t);
        },
        None => {
            lemma_emphasis_ordered(encode_utf8(line), 0);
        },
    }
}

proof fn lemma_fill_gaps_tiles(spans: Seq<StyledSpan>, last: int, len: int)
    requires
        0 <= last <= len <= usize::MAX,
        ordered_within(spans, last, len),
    ensures
        tiles(fill_gaps(spans, last, len), last, len),
    decreases spans.len(),
{
    if spans.len() > 0 {
        let s = spans[0];
        let rest = spans.drop_first();
        assert forall|k: int| 0 <= k < rest.len() implies s.end <= (#[trigger] rest[k]).start <= rest[k].end <= len by {
            assert(rest[k] == spans[k + 1]);
        }
        assert forall|j: int, k: int| 0 <= j < k < rest.len() implies (#[trigger] rest[j]).end <= (#[trigger] rest[k]).start by {
            assert(rest[j] == spans[j + 1]);
            assert(rest[k] == spans[k + 1]);
        }
        lemma_fill_gaps_tiles(rest, s.end as int, len);
        let t = fill_gaps(rest, s.end as int, len);
        if s.start > last {
            lemma_tiles_cons(seq![span(last, s.start as int, SpanStyle::Plain), s], t, last, s.end as int, len);
            assert(fill_gaps(spans, last, len) =~= seq![span(last, s.start as int, SpanStyle::Plain), s] + t);
        } else {
            lemma_tiles_cons(seq![s], t, last, s.end as int, len);
            assert(fill_gaps(spans, last, len) =~= seq![s] + t);
        }
    }
}

proof fn lemma_tiles_cons(h: Seq<StyledSpan>, t: Seq<StyledSpan>, lo: int, mid: int, hi: int)
    requires
        h.len() > 0,
        tiles(h, lo, mid),
        tiles(t, mid, hi),
    ensures
        tiles(h + t, lo, hi),
{
    let r = h + t;
    let n = h.len() as int;
    assert forall|k: int| 0 <= k < r.len() implies (#[trigger] r[k]).start <= r[k].end by {
        if k >= n {
            assert(r[k] == t[k - n]);
        } else {
            assert(r[k] == h[k]);
        }
    }
    assert forall|j: int, k: int| 0 <= j && k == j + 1 && k < r.len() implies (#[trigger] r[j]).end == (#[trigger] r[k]).start by {
        if j >= n {
            assert(r[j] == t[j - n]);
            assert(r[k] == t[k - n]);
        } else if j == n - 1 {
            assert(r[j] == h[j]);
            assert(r[k] == t[0]);
        } else {
            assert(r[j] == h[j]);
            assert(r[k] == h[k]);
        }
    }
    if t.len() > 0 {
        assert(r.last() == t.last());
    } else {
        assert(r =~= h);
    }
    assert(r[0] == h[0]);
}

/// The segments of a line cover it exactly, one after another.
pub proof fn law_segments_cover_line(line: Seq<char>)
    requires
        blen(line) <= usize::MAX,
    ensures
        tiles(line_segments(line), 0, blen(line) as int),
{
    law_spans_are_ordered(line);
    if line_spans(line).len() > 0 {
        lemma_fill_gaps_tiles(line_spans(line), 0, blen(line) as int);
    }
}

// ---------------------------------------------------------------------------
// Spans fall on character boundaries
// ---------------------------------------------------------------------------

proof fn lemma_wide_bytes_high(c: u32, k: int)
    requires
        !has_width_1_encoding(c),
        0 <= k < encode_scalar(c).len(),
    ensures
        encode_scalar(c)[k] >= 0x80,
{
    let a: u8 = (c & 0x3F) as u8;
    let b2: u8 = ((c >> 6) & 0x3F) as u8;
    let b3: u8 = ((c >> 12) & 0x3F) as u8;
    let l2: u8 = ((c >> 6) & 0x1F) as u8;
    let l3: u8 = ((c >> 12) & 0x0F) as u8;
    let l4: u8 = ((c >> 18) & 0x7) as u8;
    assert(0x80u8 | a >= 0x80) by (bit_vector);
    assert(0x80u8 | b2 >= 0x80) by (bit_vector);
    assert(0x80u8 | b3 >= 0x80) by (bit_vector);
    assert(0xC0u8 | l2 >= 0x80) by (bit_vector);
    assert(0xE0u8 | l3 >= 0x80) by (bit_vector);
    assert(0xF0u8 | l4 >= 0x80) by (bit_vector);
}

/// A byte below 0x80 in the encoding of a line is a whole character: the
/// positions before and after it are character boundaries.
proof fn lemma_ascii_byte_boundary(line: Seq<char>, p: int)
    requires
        0 <= p < encode_utf8(line).len(),
        encode_utf8(line)[p] < 0x80,
    ensures
        is_boundary(line, p),
        is_boundary(line, p + 1),
    decreases line.len(),
{
    let c = line[0];
    let head = encode_scalar(c as u32);
    let rest = line.drop_first();
    assert(encode_utf8(line) == head + encode_utf8(rest));
    assert(line.take(0) =~= Seq::<char>::empty());
    assert(blen(line.take(0)) == 0);
    if p < head.len() {
        assert(encode_utf8(line)[p] == head[p]);
        if !has_width_1_encoding(c as u32) {
            lemma_wide_bytes_high(c as u32, p);
        }
        assert(head.len() == 1);
        assert(p == 0);
        assert(line.take(1) =~= seq![c]);
        assert(seq![c][0] == c);
        assert(seq![c].drop_first() =~= Seq::<char>::empty());
        assert(encode_utf8(Seq::<char>::empty()) =~= Seq::<u8>::empty());
        assert(encode_utf8(seq![c]) == head + encode_utf8(Seq::<char>::empty()));
        assert(encode_utf8(seq![c]) =~= head);
        assert(blen(line.take(1)) == 1);
    } else {
        let q = p - head.len();
        assert(encode_utf8(line)[p] == encode_utf8(rest)[q]);
        lemma_ascii_byte_boundary(rest, q);
        let k1 = choose|k: int| 0 <= k <= rest.len() && blen(rest.take(k)) == q;
        let k2 = choose|k: int| 0 <= k <= rest.len() && blen(rest.take(k)) == q + 1;
        assert(line.take(k1 + 1) =~= seq![c] + rest.take(k1));
        assert(line.take(k2 + 1) =~= seq![c] + rest.take(k2));
        crate::text::lemma_blen_add(seq![c], rest.take(k1));
        crate::text::lemma_blen_add(seq![c], rest.take(k2));
        assert(seq![c][0] == c);
        assert(seq![c].drop_first() =~= Seq::<char>::empty());
        assert(encode_utf8(Seq::<char>::empty()) =~= Seq::<u8>::empty());
        assert(encode_utf8(seq![c]) == head + encode_utf8(Seq::<char>::empty()));
        assert(encode_utf8(seq![c]) =~= head);
        assert(blen(line.take(k1 + 1)) == p);
        assert(blen(line.take(k2 + 1)) == p + 1);
    }
}

/// Every span starts and ends on a character boundary of the line.
pub open spec fn on_boundaries(line: Seq<char>, spans: Seq<StyledSpan>) -> bool {
    forall|k: int| 0 <= k < spans.len() ==> is_boundary(line, (#[trigger] spans[k]).start as int)
        && is_boundary(line, spans[k].end as int)
}

proof fn lemma_boundary_step(
    line: Seq<char>,
    t: Seq<StyledSpan>,
    i: int,
    open: int,
    e: int,
    close: int,
    style: SpanStyle,
)
    requires
        0 <= i,
        0 < open,
        0 < close,
        i + open <= e,
        e + close <= encode_utf8(line).len() <= usize::MAX,
        encode_utf8(line)[i] < 0x80,
        encode_utf8(line)[i + open - 1] < 0x80,
        encode_utf8(line)[e] < 0x80,
        encode_utf8(line)[e + close - 1] < 0x80,
        on_boundaries(line, t),
    ensures
        on_boundaries(
            line,
            seq![span(i, i + open, SpanStyle::Markup), span(i + open, e, style), span(e, e + close, SpanStyle::Markup)] + t,
        ),
{
    lemma_ascii_byte_boundary(line, i);
    lemma_ascii_byte_boundary(line, i + open - 1);
    lemma_ascii_byte_boundary(line, e);
    lemma_ascii_byte_boundary(line, e + close - 1);
    let r = seq![span(i, i + open, SpanStyle::Markup), span(i + open, e, style), span(e, e + close, SpanStyle::Markup)] + t;
    assert forall|k: int| 0 <= k < r.len() implies is_boundary(line, (#[trigger] r[k]).start as int)
        && is_boundary(line, r[k].end as int) by {
        if k >= 3 {
            assert(r[k] == t[k - 3]);
        }
    }
}

proof fn lemma_emphasis_boundaries(line: Seq<char>, i: int)
    requires
        0 <= i,
        encode_utf8(line).len() <= usize::MAX,
    ensures
        on_boundaries(line, emphasis_spans(encode_utf8(line), i)),
    decreases encode_utf8(line).len() - i,
{
    let b = encode_utf8(line);
    if i < b.len() {
        if i + 2 < b.len() && b[i] == star() && b[i + 1] == star() && b[i + 2] == star()
            && find_triple(b, i + 3, star()) is Some {
            let e = find_triple(b, i + 3, star())->0;
            lemma_find_triple(b, i + 3, star());
            lemma_emphasis_boundaries(line, e + 3);
            lemma_boundary_step(line, emphasis_spans(b, e + 3), i, 3, e, 3, SpanStyle::BoldItalic);
        } else if i + 1 < b.len() && b[i] == star() && b[i + 1] == star() && find_pair(b, i + 2, star()) is Some {
            let e = find_pair(b, i + 2, star())->0;
            lemma_find_pair(b, i + 2, star());
            lemma_emphasis_boundaries(line, e + 2);
            lemma_boundary_step(line, emphasis_spans(b, e + 2), i, 2, e, 2, SpanStyle::Bold);
        } else if b[i] == star() && (i + 1 >= b.len() || b[i + 1] != star()) && find_byte(b, i + 1, star()) is Some {
            let e = find_byte(b, i + 1, star())->0;
            lemma_find_byte(b, i + 1, star());
            lemma_emphasis_boundaries(line, e + 1);
            lemma_boundary_step(line, emphasis_spans(b, e + 1), i, 1, e, 1, SpanStyle::Italic);
        } else if i + 1 < b.len() && b[i] == plus() && b[i + 1] == plus() && find_pair(b, i + 2, plus()) is Some {
            let e = find_pair(b, i + 2, plus())->0;
            lemma_find_pair(b, i + 2, plus());
            lemma_emphasis_boundaries(line, e + 2);
            lemma_boundary_step(line, emphasis_spans(b, e + 2), i, 2, e, 2, SpanStyle::Underline);
        } else {
            lemma_emphasis_boundaries(line, i + 1);
        }
    }
}

proof fn lemma_ascii_blen(s: Seq<char>)
    requires
        forall|j: int| 0 <= j < s.len() ==> #[trigger] s[j] == '#' || s[j] == ' ',
    ensures
        blen(s) == s.len(),
    decreases s.len(),
{
    if s.len() > 0 {
        let d = s.drop_last();
        assert forall|j: int| 0 <= j < d.len() implies #[trigger] d[j] == '#' || d[j] == ' ' by {
            assert(d[j] == s[j]);
        }
        lemma_ascii_blen(d);
        assert(s =~= d.push(s.last()));
        lemma_blen_push(d, s.last());
        assert(s.last() == '#' || s.last() == ' ');
        assert(('#' as u32) == 35u32);
        assert((' ' as u32) == 32u32);
        assert(char_blen(s.last()) == 1);
    }
}

/// Every highlighted span of a line starts and ends on a character
/// boundary, so the line can be cut at its ends.
pub proof fn law_spans_on_char_boundaries(line: Seq<char>)
    requires
        blen(line) <= usize::MAX,
    ensures
        on_boundaries(line, line_spans(line)),
{
    match heading_marker(line) {
        Some((n, style)) => {
            let t = trim_start(line);
            let w = leading_ws(line) as int;
            crate::text::lemma_leading_ws_bound(line);
            assert(line =~= line.take(w) + t);
            lemma_blen_add(line.take(w), t);
            lemma_blen_ge_len(t);
            assert(n <= t.len());
            let m = t.take(n);
            assert forall|j: int| 0 <= j < m.len() implies #[trigger] m[j] == '#' || m[j] == ' ' by {
                assert(m[j] == t[j]);
            }
            lemma_ascii_blen(m);
            assert(line.take(w + n) =~= line.take(w) + m);
            lemma_blen_add(line.take(w), m);
            let off = blen(line) - blen(t);
            assert(blen(line.take(w + n)) == off + n);
            assert(line.take(0) =~= Seq::<char>::empty());
            assert(blen(line.take(0)) == 0);
            assert(line.take(line.len() as int) =~= line);
            assert(is_boundary(line, 0));
            assert(is_boundary(line, off + n));
            assert(is_boundary(line, blen(line) as int));
        },
        None => {
            lemma_emphasis_boundaries(line, 0);
        },
    }
}

/// A line that starts, after any whitespace, with one to three `#` and a
/// space is a heading: its whitespace and marker are dimmed, and the rest
/// of the line is in the heading style (minor for three `#`).
pub proof fn law_headings_are_highlighted(ws: Seq<char>, n: int, rest: Seq<char>)
    requires
        forall|j: int| 0 <= j < ws.len() ==> is_ws(#[trigger] ws[j]),
        1 <= n <= 3,
    ensures
        ({
            let line = ws + Seq::new(n as nat, |_i: int| '#') + seq![' '] + rest;
            line_spans(line) == seq![
                span(0, blen(ws) + n + 1, SpanStyle::Markup),
                span(
                    blen(ws) + n + 1,
                    blen(line) as int,
                    if n == 3 { SpanStyle::MinorHeading } else { SpanStyle::Heading },
                ),
            ]
        }),
{
    let marker = Seq::new(n as nat, |_i: int| '#') + seq![' '];
    let t = marker + rest;
    let line = ws + Seq::new(n as nat, |_i: int| '#') + seq![' '] + rest;
    assert(line =~= ws + t);
    assert(t[0] == '#');
    lemma_leading_ws_prefixed(ws, t);
    assert forall|j: int| 0 <= j < marker.len() implies #[trigger] marker[j] == '#' || marker[j] == ' ' by {}
    lemma_ascii_blen(marker);
    lemma_blen_add(marker, rest);
    lemma_blen_add(ws, t);
    if n == 1 {
        assert(t.subrange(0, 2) =~= seq!['#', ' ']);
        assert(!matches_at(t, 0, seq!['#', '#', ' ']));
        assert(!matches_at(t, 0, seq!['#', '#', '#', ' ']));
    } else if n == 2 {
        assert(t.subrange(0, 3) =~= seq!['#', '#', ' ']);
        assert(!matches_at(t, 0, seq!['#', '#', '#', ' ']));
    } else {
        assert(t.subrange(0, 4) =~= seq!['#', '#', '#', ' ']);
    }
}

} // verus!
