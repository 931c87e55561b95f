//! Extraction of the words of a markdown text that spell checking looks at:
//! code blocks, inline code, link targets and HTML tags are skipped.
use vstd::prelude::*;
use crate::text::{
    alphabetic, blen, char_blen, from_chars, is_alphabetic, len_utf8, lemma_blen_push,
    lemma_char_blen_range, lines_of, trim_start, leading_ws, count_leading_ws, matches_at, has_at,
    to_chars, split_lines_chars, lemma_chars_deep_view,
};

verus! {

/// Characters that make up words: letters and the hyphen.
pub open spec fn word_char(c: char) -> bool {
    alphabetic(c) || c == '-'
}

/// Whether `c` can be part of a word.
pub fn is_word_char(c: char) -> (r: bool)
    ensures
        r == word_char(c),
{
    is_alphabetic(c) || c == '-'
}

/// Number of trailing apostrophes of `s`.
pub open spec fn trailing_apos(s: Seq<char>) -> nat
    decreases s.len(),
{
    if s.len() == 0 || s.last() != '\'' {
        0
    } else {
        1 + trailing_apos(s.drop_last())
    }
}

/// `s` without its trailing apostrophes.
pub open spec fn trim_apos(s: Seq<char>) -> Seq<char> {
    s.take(s.len() - trailing_apos(s))
}

/// Position of the first `')'` at or after `i`, or `line.len()`.
pub open spec fn close_paren(line: Seq<char>, i: int) -> int
    decreases line.len() - i,
{
    if i >= line.len() || i < 0 {
        line.len() as int
    } else if line[i] == ')' {
        i
    } else {
        close_paren(line, i + 1)
    }
}

/// Position of the first `c` at or after `i`, or `line.len()`.
pub open spec fn next_of(line: Seq<char>, i: int, c: char) -> int
    decreases line.len() - i,
{
    if i >= line.len() || i < 0 {
        line.len() as int
    } else if line[i] == c {
        i
    } else {
        next_of(line, i + 1, c)
    }
}

pub proof fn lemma_next_of(line: Seq<char>, i: int, c: char)
    requires
        0 <= i,
    ensures
        i <= line.len() ==> i <= next_of(line, i, c) <= line.len(),
        next_of(line, i, c) < line.len() ==> line[next_of(line, i, c)] == c,
        forall|j: int| i <= j < next_of(line, i, c) ==> #[trigger] line[j] != c,
    decreases line.len() - i,
{
    if i < line.len() && line[i] != c {
        lemma_next_of(line, i + 1, c);
    }
}

pub proof fn lemma_close_paren(line: Seq<char>, i: int)
    requires
        0 <= i,
    ensures
        i <= line.len() ==> i <= close_paren(line, i) <= line.len(),
        close_paren(line, i) < line.len() ==> line[close_paren(line, i)] == ')',
        forall|j: int| i <= j < close_paren(line, i) ==> #[trigger] line[j] != ')',
    decreases line.len() - i,
{
    if i < line.len() && line[i] != ')' {
        lemma_close_paren(line, i + 1);
    }
}

/// The word that a pending word buffer yields when a separator ends it:
/// trailing apostrophes are dropped, and words of fewer than two characters
/// are not kept.
pub open spec fn flush(start: Option<int>, buf: Seq<char>) -> Seq<(int, Seq<char>)> {
    match start {
        Some(s) => if trim_apos(buf).len() >= 2 {
            seq![(s, trim_apos(buf))]
        } else {
            seq![]
        },
        None => seq![],
    }
}

/// The words of `line` from position `i` on, given the scanner state: inside
/// inline code or not, and the start and characters of the word being read.
/// The result pairs the character index where each word starts with the word.
///
/// A backtick ends the pending word and toggles inline code; inside inline
/// code nothing is read; a `'('` right after `']'` skips a link target up to
/// and including the next `')'`; a `'<'` with a `'>'` later on the line ends
/// the pending word and skips the HTML tag up to and including that `'>'`;
/// word characters extend the word, apostrophes too once a word has
/// started; any other character ends the pending word.
pub open spec fn scan_line(
    line: Seq<char>,
    i: int,
    in_code: bool,
    start: Option<int>,
    buf: Seq<char>,
) -> Seq<(int, Seq<char>)>
    decreases line.len() + 1 - i,
    when 0 <= i
{
    if i >= line.len() {
        flush(start, buf)
    } else {
        let ch = line[i];
        if ch == '`' {
            flush(start, buf) + scan_line(line, i + 1, !in_code, None, seq![])
        } else if in_code {
            scan_line(line, i + 1, in_code, start, buf)
        } else if ch == '(' && i > 0 && line[i - 1] == ']' {
            proof {
                lemma_close_paren(line, i);
            }
            scan_line(line, close_paren(line, i) + 1, in_code, start, buf)
        } else if ch == '<' && next_of(line, i + 1, '>') < line.len() {
            proof {
                lemma_next_of(line, i + 1, '>');
            }
            flush(start, buf) + scan_line(line, next_of(line, i + 1, '>') + 1, in_code, None, seq![])
        } else if word_char(ch) {
            scan_line(line, i + 1, in_code, if start is None { Some(i) } else { start }, buf.push(ch))
        } else if ch == '\'' && start is Some {
            scan_line(line, i + 1, in_code, start, buf.push(ch))
        } else {
            flush(start, buf) + scan_line(line, i + 1, in_code, None, seq![])
        }
    }
}

/// The words of one line with their byte offsets (`line_offset` plus the
/// byte position of the word in the line).
pub open spec fn line_words(line: Seq<char>, line_offset: int) -> Seq<(int, Seq<char>)> {
    scan_line(line, 0, false, None, seq![]).map_values(
        |p: (int, Seq<char>)| (line_offset + blen(line.take(p.0)), p.1),
    )
}

pub open spec fn opt_int(o: Option<usize>) -> Option<int> {
    match o {
        Some(x) => Some(x as int),
        None => None,
    }
}

/// Words with byte offsets, as mathematical values.
pub open spec fn words_view(w: Seq<(usize, String)>) -> Seq<(int, Seq<char>)> {
    w.map_values(|p: (usize, String)| (p.0 as int, p.1@))
}

pub proof fn lemma_trailing_apos_is(s: Seq<char>, k: int)
    requires
        0 <= k <= s.len(),
        forall|j: int| k <= j < s.len() ==> #[trigger] s[j] == '\'',
        k > 0 ==> s[k - 1] != '\'',
    ensures
        trailing_apos(s) == s.len() - k,
    decreases s.len() - k,
{
    if k < s.len() {
        let t = s.drop_last();
        assert forall|j: int| k <= j < t.len() implies #[trigger] t[j] == '\'' by {
            assert(t[j] == s[j]);
        }
        if k > 0 {
            assert(t[k - 1] == s[k - 1]);
        }
        lemma_trailing_apos_is(t, k);
    }
}

/// Ends the pending word: returns the kept word, if any.
fn flush_word(start: Option<usize>, start_b: usize, buf: &Vec<char>) -> (r: Option<(usize, String)>)
    ensures
        flush(opt_int(start), buf@).len() <= 1,
        r is Some <==> flush(opt_int(start), buf@).len() == 1,
        r matches Some(w) ==> w.1@ == flush(opt_int(start), buf@)[0].1 && w.0 == start_b,
{
    match start {
        None => {
            assert(flush(opt_int(start), buf@) =~= Seq::<(int, Seq<char>)>::empty());
            None
        },
        Some(_) => {
            let mut end = buf.len();
            while end > 0 && buf[end - 1] == '\''
                invariant
                    end <= buf@.len(),
                    forall|j: int| end <= j < buf@.len() ==> #[trigger] buf@[j] == '\'',
                decreases end,
            {
                end = end - 1;
            }
            proof {
                lemma_trailing_apos_is(buf@, end as int);
            }
            let w = from_chars(buf, 0, end);
            assert(w@ == trim_apos(buf@));
            let long_enough = end >= 2;
            if long_enough {
                Some((start_b, w))
            } else {
                None
            }
        },
    }
}

pub proof fn lemma_close_paren_is(line: Seq<char>, i: int, j: int)
    requires
        0 <= i <= j <= line.len(),
        forall|k: int| i <= k < j ==> #[trigger] line[k] != ')',
        j < line.len() ==> line[j] == ')',
    ensures
        close_paren(line, i) == j,
    decreases j - i,
{
    if i < j {
        lemma_close_paren_is(line, i + 1, j);
    }
}

pub proof fn lemma_blen_ge_len(s: Seq<char>)
    ensures
        blen(s) >= s.len(),
    decreases s.len(),
{
    if s.len() > 0 {
        lemma_blen_ge_len(s.drop_last());
        assert(s =~= s.drop_last().push(s.last()));
        lemma_blen_push(s.drop_last(), s.last());
        lemma_char_blen_range(s.last());
    }
}

pub proof fn lemma_blen_prefix(s: Seq<char>, i: int)
    requires
        0 <= i <= s.len(),
    ensures
        blen(s.take(i)) <= blen(s),
{
    assert(s =~= s.take(i) + s.skip(i));
    crate::text::lemma_blen_add(s.take(i), s.skip(i));
}

/// The position of the first `c` in `line` at or after `from`, or the
/// line's length.
fn find_char_from(line: &Vec<char>, from: usize, c: char) -> (j: usize)
    requires
        from <= line@.len(),
    ensures
        j == next_of(line@, from as int, c),
{
    let mut j = from;
    while j < line.len() && line[j] != c
        invariant
            from <= j <= line@.len(),
            next_of(line@, j as int, c) == next_of(line@, from as int, c),
        decreases line.len() - j,
    {
        j = j + 1;
    }
    j
}

/// The byte length of `line[..to]`, from that of `line[..from]`.
fn advance_bytes(line: &Vec<char>, from: usize, to: usize, b: usize) -> (r: usize)
    requires
        from <= to <= line@.len(),
        b == blen(line@.take(from as int)),
        blen(line@) <= usize::MAX,
    ensures
        r == blen(line@.take(to as int)),
{
    let mut k = from;
    let mut r = b;
    while k < to
        invariant
            from <= k <= to <= line@.len(),
            r == blen(line@.take(k as int)),
            blen(line@) <= usize::MAX,
        decreases to - k,
    {
        proof {
            lemma_blen_prefix(line@, k + 1);
            lemma_blen_push(line@.take(k as int), line@[k as int]);
            assert(line@.take(k + 1) =~= line@.take(k as int).push(line@[k as int]));
        }
        r = r + len_utf8(line[k]);
        k = k + 1;
    }
    r
}

/// The words of one line (as characters) with their byte offsets:
/// `line_offset` plus the byte position of the word within the line.
pub fn extract_words_from_line(line: &Vec<char>, line_offset: usize) -> (words: Vec<(usize, String)>)
    requires
        line_offset + blen(line@) <= usize::MAX,
    ensures
        words_view(words@) == line_words(line@, line_offset as int),
{
    let ghost f = |p: (int, Seq<char>)| (line_offset + blen(line@.take(p.0)), p.1);
    let mut words: Vec<(usize, String)> = Vec::new();
    let ghost mut outc: Seq<(int, Seq<char>)> = seq![];
    let mut in_code = false;
    let mut start: Option<usize> = None;
    let mut start_b: usize = 0;
    let mut buf: Vec<char> = Vec::new();
    let n = line.len();
    let mut i: usize = 0;
    let mut bpos: usize = 0;
    proof {
        assert(line@.take(0) =~= Seq::<char>::empty());
        lemma_blen_prefix(line@, 0);
        assert(outc + scan_line(line@, 0, false, None, seq![]) =~= scan_line(line@, 0, false, None, seq![]));
        assert(words_view(words@) =~= outc.map_values(f));
    }
    while i < n
        invariant
            n == line@.len(),
            i <= n,
            bpos == blen(line@.take(i as int)),
            blen(line@.take(i as int)) <= blen(line@),
            line_offset + blen(line@) <= usize::MAX,
            start matches Some(s) ==> s < i && start_b == blen(line@.take(s as int)) && start_b <= blen(line@),
            scan_line(line@, 0, false, None, seq![]) == outc + scan_line(
                line@,
                i as int,
                in_code,
                opt_int(start),
                buf@,
            ),
            words_view(words@) == outc.map_values(f),
            f == (|p: (int, Seq<char>)| (line_offset + blen(line@.take(p.0)), p.1)),
        decreases n - i,
    {
        let ch = line[i];
        proof {
            lemma_blen_prefix(line@, i + 1);
            lemma_blen_push(line@.take(i as int), ch);
            assert(line@.take(i + 1) =~= line@.take(i as int).push(ch));
        }
        let ghost st = opt_int(start);
        let ghost b0 = buf@;
        let ghost w0 = words@;
        let ghost o0 = outc;
        let close: usize = if ch == '<' && !in_code { find_char_from(line, i + 1, '>') } else { n };
        if ch == '`' {
            let fw = flush_word(start, start_b, &buf);
            if let Some((b, w)) = fw {
                words.push((line_offset + b, w));
                proof {
                    outc = outc + flush(st, b0);
                    assert(words_view(words@) =~= words_view(w0).push(((line_offset + b) as int, flush(st, b0)[0].1)));
                    assert(outc.map_values(f) =~= o0.map_values(f).push(f(flush(st, b0)[0])));
                }
            } else {
                proof {
                    assert(outc =~= o0 + flush(st, b0));
                }
            }
            start = None;
            buf = Vec::new();
            in_code = !in_code;
            bpos = bpos + len_utf8(ch);
            i = i + 1;
        } else if in_code {
            bpos = bpos + len_utf8(ch);
            i = i + 1;
        } else if ch == '(' && i > 0 && line[i - 1] == ']' {
            let mut j = i;
            while j < n && line[j] != ')'
                invariant
                    n == line@.len(),
                    i <= j <= n,
                    bpos == blen(line@.take(j as int)),
                    blen(line@.take(j as int)) <= blen(line@),
                    line_offset + blen(line@) <= usize::MAX,
                    forall|k: int| i <= k < j ==> #[trigger] line@[k] != ')',
                decreases n - j,
            {
                proof {
                    lemma_blen_prefix(line@, j + 1);
                    lemma_blen_push(line@.take(j as int), line@[j as int]);
                    assert(line@.take(j + 1) =~= line@.take(j as int).push(line@[j as int]));
                }
                bpos = bpos + len_utf8(line[j]);
                j = j + 1;
            }
            proof {
                lemma_close_paren_is(line@, i as int, j as int);
            }
            if j < n {
                proof {
                    lemma_blen_prefix(line@, j + 1);
                    lemma_blen_push(line@.take(j as int), line@[j as int]);
                    assert(line@.take(j + 1) =~= line@.take(j as int).push(line@[j as int]));
                    lemma_char_blen_range(')');
                }
                bpos = bpos + 1;
                i = j + 1;
            } else {
                proof {
                    assert(scan_line(line@, n + 1, in_code, st, b0) == scan_line(line@, n as int, in_code, st, b0));
                }
                i = n;
            }
        } else if ch == '<' && close < n {
            let fw = flush_word(start, start_b, &buf);
            if let Some((b, w)) = fw {
                words.push((line_offset + b, w));
                proof {
                    outc = outc + flush(st, b0);
                    assert(words_view(words@) =~= words_view(w0).push(((line_offset + b) as int, flush(st, b0)[0].1)));
                    assert(outc.map_values(f) =~= o0.map_values(f).push(f(flush(st, b0)[0])));
                }
            } else {
                proof {
                    assert(outc =~= o0 + flush(st, b0));
                }
            }
            proof {
                lemma_next_of(line@, i + 1, '>');
                lemma_blen_prefix(line@, close + 1);
            }
            bpos = advance_bytes(line, i, close + 1, bpos);
            start = None;
            buf = Vec::new();
            i = close + 1;
        } else if is_word_char(ch) {
            if start.is_none() {
                start = Some(i);
                start_b = bpos;
            }
            buf.push(ch);
            bpos = bpos + len_utf8(ch);
            i = i + 1;
        } else if ch == '\'' && start.is_some() {
            buf.push(ch);
            bpos = bpos + len_utf8(ch);
            i = i + 1;
        } else {
            let fw = flush_word(start, start_b, &buf);
            if let Some((b, w)) = fw {
                words.push((line_offset + b, w));
                proof {
                    outc = outc + flush(st, b0);
                    assert(words_view(words@) =~= words_view(w0).push(((line_offset + b) as int, flush(st, b0)[0].1)));
                    assert(outc.map_values(f) =~= o0.map_values(f).push(f(flush(st, b0)[0])));
                }
            } else {
                proof {
                    assert(outc =~= o0 + flush(st, b0));
                }
            }
            start = None;
            buf = Vec::new();
            bpos = bpos + len_utf8(ch);
            i = i + 1;
        }
    }
    let ghost st = opt_int(start);
    let ghost b0 = buf@;
    let ghost w0 = words@;
    let ghost o0 = outc;
    let fw = flush_word(start, start_b, &buf);
    if let Some((b, w)) = fw {
        words.push((line_offset + b, w));
        proof {
            outc = outc + flush(st, b0);
            assert(words_view(words@) =~= words_view(w0).push(((line_offset + b) as int, flush(st, b0)[0].1)));
            assert(outc.map_values(f) =~= o0.map_values(f).push(f(flush(st, b0)[0])));
        }
    } else {
        proof {
            assert(outc =~= o0 + flush(st, b0));
        }
    }
    proof {
        assert(outc =~= scan_line(line@, 0, false, None, seq![]));
    }
    words
}

// ---------------------------------------------------------------------------
// Whole texts
// ---------------------------------------------------------------------------

/// A fenced code block delimiter: after its leading whitespace the line
/// starts with three backticks.
pub open spec fn is_fence(l: Seq<char>) -> bool {
    matches_at(l, leading_ws(l) as int, seq!['`', '`', '`'])
}

/// Byte position of line `k` when every line counts its bytes plus one
/// newline byte.
pub open spec fn line_pos(ls: Seq<Seq<char>>, k: int) -> int
    decreases k,
{
    if k <= 0 || ls.len() == 0 {
        0
    } else {
        blen(ls[0]) + 1 + line_pos(ls.drop_first(), k - 1)
    }
}

/// The words of lines `ls[k..]`, starting at byte position `pos`, with
/// fenced code blocks skipped.
pub open spec fn words_of_lines(ls: Seq<Seq<char>>, k: int, in_block: bool, pos: int) -> Seq<(int, Seq<char>)>
    decreases ls.len() - k,
{
    if k < 0 || k >= ls.len() {
        seq![]
    } else if is_fence(ls[k]) {
        words_of_lines(ls, k + 1, !in_block, pos + blen(ls[k]) + 1)
    } else {
        (if in_block { seq![] } else { line_words(ls[k], pos) }) + words_of_lines(
            ls,
            k + 1,
            in_block,
            pos + blen(ls[k]) + 1,
        )
    }
}

/// The words of a markdown text with their byte offsets.
pub open spec fn text_words(text: Seq<char>) -> Seq<(int, Seq<char>)> {
    words_of_lines(lines_of(text), 0, false, 0)
}

proof fn lemma_line_pos_step(ls: Seq<Seq<char>>, k: int)
    requires
        0 <= k < ls.len(),
    ensures
        line_pos(ls, k + 1) == line_pos(ls, k) + blen(ls[k]) + 1,
    decreases k,
{
    if k > 0 {
        lemma_line_pos_step(ls.drop_first(), k - 1);
        assert(ls.drop_first()[k - 1] == ls[k]);
    } else {
        assert(line_pos(ls.drop_first(), 0) == 0);
    }
}

proof fn lemma_line_pos_bound(s: Seq<char>, k: int)
    requires
        0 <= k <= lines_of(s).len(),
    ensures
        line_pos(lines_of(s), k) <= blen(s) + 1,
    decreases s.len(),
{
    let ls = lines_of(s);
    if k > 0 && s.len() > 0 {
        let n = crate::text::newline_index(s);
        crate::text::lemma_newline_index_bound(s);
        if n >= s.len() {
            assert(ls.drop_first() =~= Seq::<Seq<char>>::empty());
            assert(line_pos(ls.drop_first(), k - 1) == 0);
        } else {
            let head = s.take(n as int);
            let tail = s.skip((n + 1) as int);
            assert(ls.drop_first() =~= lines_of(tail));
            lemma_line_pos_bound(tail, k - 1);
            assert(s =~= head + seq!['\n'] + tail);
            crate::text::lemma_blen_add(head + seq!['\n'], tail);
            crate::text::lemma_blen_push(head, '\n');
            assert(head + seq!['\n'] =~= head.push('\n'));
            lemma_char_blen_range('\n');
            let h2 = crate::text::strip_cr(head);
            if h2 != head {
                assert(h2 =~= head.take(head.len() - 1));
                lemma_blen_prefix(head, head.len() - 1);
            }
        }
    }
}

/// Number of bytes of the UTF-8 encoding of `v`.
pub fn byte_len(v: &Vec<char>) -> (n: usize)
    requires
        blen(v@) <= usize::MAX,
    ensures
        n == blen(v@),
{
    let mut n: usize = 0;
    let mut i: usize = 0;
    proof {
        assert(v@.take(0) =~= Seq::<char>::empty());
    }
    while i < v.len()
        invariant
            i <= v@.len(),
            n == blen(v@.take(i as int)),
            blen(v@) <= usize::MAX,
        decreases v.len() - i,
    {
        proof {
            lemma_blen_prefix(v@, i + 1);
            lemma_blen_push(v@.take(i as int), v@[i as int]);
            assert(v@.take(i + 1) =~= v@.take(i as int).push(v@[i as int]));
        }
        n = n + len_utf8(v[i]);
        i = i + 1;
    }
    assert(v@.take(v@.len() as int) =~= v@);
    n
}

/// The words of a markdown text with their byte offsets, skipping fenced
/// code blocks, inline code, link targets and HTML tags.
pub fn extract_words(text: &str) -> (words: Vec<(usize, String)>)
    requires
        blen(text@) < usize::MAX,
    ensures
        words_view(words@) == text_words(text@),
{
    let chars = to_chars(text);
    let lines = split_lines_chars(&chars);
    let ghost ls = lines.deep_view();
    let mut words: Vec<(usize, String)> = Vec::new();
    let mut in_block = false;
    let mut pos: usize = 0;
    let mut k: usize = 0;
    proof {
        assert(words_view(words@) + words_of_lines(ls, 0, false, 0) =~= words_of_lines(ls, 0, false, 0));
    }
    while k < lines.len()
        invariant
            ls == lines.deep_view(),
            ls == lines_of(text@),
            blen(text@) < usize::MAX,
            k <= lines@.len(),
            pos == line_pos(ls, k as int),
            words_view(words@) + words_of_lines(ls, k as int, in_block, pos as int) == text_words(text@),
        decreases lines.len() - k,
    {
        let line = &lines[k];
        proof {
            lemma_chars_deep_view(line);
            assert(ls[k as int] == line@);
            lemma_line_pos_step(ls, k as int);
            lemma_line_pos_bound(text@, k + 1);
        }
        let lw = byte_len(line);
        let lo = count_leading_ws(line, 0);
        proof {
            assert(line@.skip(0) =~= line@);
        }
        let fence = has_at(line, lo, &['`', '`', '`']);
        let ghost before = words@;
        if fence {
            in_block = !in_block;
        } else if !in_block {
            let lwds = extract_words_from_line(line, pos);
            let mut x: usize = 0;
            while x < lwds.len()
                invariant
                    x <= lwds@.len(),
                    words_view(words@) == words_view(before) + words_view(lwds@).take(x as int),
                decreases lwds.len() - x,
            {
                let ghost w1 = words@;
                let item = (lwds[x].0, lwds[x].1.clone());
                words.push(item);
                proof {
                    assert(words_view(words@) =~= words_view(w1).push((item.0 as int, item.1@)));
                    assert(words_view(lwds@).take(x + 1) =~= words_view(lwds@).take(x as int).push(
                        words_view(lwds@)[x as int],
                    ));
                }
                x = x + 1;
            }
            proof {
                assert(words_view(lwds@).take(lwds@.len() as int) =~= words_view(lwds@));
            }
        }
        proof {
            assert(words_view(words@) + words_of_lines(ls, k + 1, in_block, pos + lw + 1) =~= text_words(text@));
        }
        pos = pos + lw + 1;
        k = k + 1;
    }
    proof {
        assert(words_view(words@) =~= words_view(words@) + words_of_lines(ls, k as int, in_block, pos as int));
    }
    words
}

/// The positions of a list of words increase strictly and lie in
/// `lo..hi`.
pub open spec fn positions_in(r: Seq<(int, Seq<char>)>, lo: int, hi: int) -> bool {
    &&& forall|k: int| 0 <= k < r.len() ==> lo <= (#[trigger] r[k]).0 < hi
    &&& forall|j: int, k: int| 0 <= j < k < r.len() ==> (#[trigger] r[j]).0 < (#[trigger] r[k]).0
}

proof fn lemma_positions_concat(x: Seq<(int, Seq<char>)>, y: Seq<(int, Seq<char>)>, lo: int, mid: int, hi: int)
    requires
        lo <= mid <= hi,
        positions_in(x, lo, mid),
        positions_in(y, mid, hi),
    ensures
        positions_in(x + y, lo, hi),
{
    let r = x + y;
    assert forall|k: int| 0 <= k < r.len() implies lo <= (#[trigger] r[k]).0 < hi by {
        if k >= x.len() {
            assert(r[k] == y[k - x.len()]);
        } else {
            assert(r[k] == x[k]);
        }
    }
    assert forall|j: int, k: int| 0 <= j < k < r.len() implies (#[trigger] r[j]).0 < (#[trigger] r[k]).0 by {
        if j >= x.len() {
            assert(r[j] == y[j - x.len()]);
        } else {
            assert(r[j] == x[j]);
        }
        if k >= x.len() {
            assert(r[k] == y[k - x.len()]);
        } else {
            assert(r[k] == x[k]);
        }
    }
}

proof fn lemma_flush_positions(start: Option<int>, buf: Seq<char>, hi: int)
    requires
        start matches Some(st) ==> 0 <= st < hi,
    ensures
        positions_in(flush(start, buf), if start is Some { start->0 } else { 0 }, hi),
        start matches Some(st) ==> positions_in(flush(start, buf), st, st + 1),
{
}

/// The words of a line come at increasing character positions within it.
proof fn lemma_scan_positions(line: Seq<char>, i: int, in_code: bool, start: Option<int>, buf: Seq<char>)
    requires
        0 <= i,
        start matches Some(st) ==> 0 <= st < i && st < line.len(),
    ensures
        positions_in(
            scan_line(line, i, in_code, start, buf),
            if start is Some { start->0 } else { i },
            line.len() as int,
        ),
    decreases line.len() + 1 - i,
{
    let lo = if start is Some { start->0 } else { i };
    let r = scan_line(line, i, in_code, start, buf);
    if i >= line.len() {
        lemma_flush_positions(start, buf, line.len() as int);
        if start is None {
            assert(r =~= Seq::<(int, Seq<char>)>::empty());
        }
    } else {
        let ch = line[i];
        let f = flush(start, buf);
        lemma_flush_positions(start, buf, line.len() as int);
        if ch == '`' {
            lemma_scan_positions(line, i + 1, !in_code, None, seq![]);
            if start is Some {
                lemma_positions_concat(f, scan_line(line, i + 1, !in_code, None, seq![]), lo, i + 1, line.len() as int);
            } else {
                assert(f =~= Seq::<(int, Seq<char>)>::empty());
                assert(r =~= scan_line(line, i + 1, !in_code, None, seq![]));
            }
        } else if in_code {
            lemma_scan_positions(line, i + 1, in_code, start, buf);
        } else if ch == '(' && i > 0 && line[i - 1] == ']' {
            lemma_close_paren(line, i);
            lemma_scan_positions(line, close_paren(line, i) + 1, in_code, start, buf);
        } else if ch == '<' && next_of(line, i + 1, '>') < line.len() {
            lemma_next_of(line, i + 1, '>');
            let e = next_of(line, i + 1, '>') + 1;
            lemma_scan_positions(line, e, in_code, None, seq![]);
            if start is Some {
                lemma_positions_concat(f, scan_line(line, e, in_code, None, seq![]), lo, e, line.len() as int);
            } else {
                assert(f =~= Seq::<(int, Seq<char>)>::empty());
                assert(r =~= scan_line(line, e, in_code, None, seq![]));
            }
        } else if word_char(ch) {
            lemma_scan_positions(line, i + 1, in_code, if start is None { Some(i) } else { start }, buf.push(ch));
        } else if ch == '\'' && start is Some {
            lemma_scan_positions(line, i + 1, in_code, start, buf.push(ch));
        } else {
            lemma_scan_positions(line, i + 1, in_code, None, seq![]);
            if start is Some {
                lemma_positions_concat(f, scan_line(line, i + 1, in_code, None, seq![]), lo, i + 1, line.len() as int);
            } else {
                assert(f =~= Seq::<(int, Seq<char>)>::empty());
                assert(r =~= scan_line(line, i + 1, in_code, None, seq![]));
            }
        }
    }
}

proof fn lemma_line_word_positions(line: Seq<char>, off: int)
    ensures
        positions_in(line_words(line, off), off, off + blen(line)),
{
    lemma_scan_positions(line, 0, false, None, seq![]);
    let r = scan_line(line, 0, false, None, seq![]);
    let m = line_words(line, off);
    assert forall|k: int| 0 <= k < m.len() implies off <= (#[trigger] m[k]).0 < off + blen(line) by {
        assert(m[k].0 == off + blen(line.take(r[k].0)));
        crate::text::lemma_blen_take_strict(line, r[k].0, line.len() as int);
        assert(line.take(line.len() as int) =~= line);
    }
    assert forall|j: int, k: int| 0 <= j < k < m.len() implies (#[trigger] m[j]).0 < (#[trigger] m[k]).0 by {
        crate::text::lemma_blen_take_strict(line, r[j].0, r[k].0);
    }
}

proof fn lemma_line_pos_nonneg(ls: Seq<Seq<char>>, k: int)
    ensures
        line_pos(ls, k) >= 0,
    decreases k,
{
    if k > 0 && ls.len() > 0 {
        lemma_line_pos_nonneg(ls.drop_first(), k - 1);
    }
}

proof fn lemma_lines_word_positions(ls: Seq<Seq<char>>, k: int, in_block: bool, pos: int)
    requires
        0 <= k,
    ensures
        positions_in(words_of_lines(ls, k, in_block, pos), pos, pos + line_pos(ls.skip(k), ls.len() - k) + 1),
    decreases ls.len() - k,
{
    if k < ls.len() {
        let t = ls.skip(k);
        assert(t.drop_first() =~= ls.skip(k + 1));
        assert(t[0] == ls[k]);
        let next = pos + blen(ls[k]) + 1;
        lemma_lines_word_positions(ls, k + 1, if is_fence(ls[k]) { !in_block } else { in_block }, next);
        assert(line_pos(t, ls.len() - k) == blen(ls[k]) + 1 + line_pos(ls.skip(k + 1), ls.len() - k - 1));
        let rest = words_of_lines(ls, k + 1, if is_fence(ls[k]) { !in_block } else { in_block }, next);
        let hi = pos + line_pos(t, ls.len() - k) + 1;
        lemma_line_pos_nonneg(ls.skip(k + 1), ls.len() - k - 1);
        if !is_fence(ls[k]) {
            let h = if in_block { Seq::<(int, Seq<char>)>::empty() } else { line_words(ls[k], pos) };
            lemma_line_word_positions(ls[k], pos);
            assert(positions_in(h, pos, next));
            lemma_positions_concat(h, rest, pos, next, hi);
        } else {
            assert forall|j: int| 0 <= j < rest.len() implies pos <= (#[trigger] rest[j]).0 < hi by {}
        }
    } else {
        assert(words_of_lines(ls, k, in_block, pos) =~= Seq::<(int, Seq<char>)>::empty());
    }
}

/// The words of a text come at strictly increasing byte offsets.
pub proof fn law_word_offsets_increase(text: Seq<char>)
    ensures
        forall|i: int, j: int| 0 <= i < j < text_words(text).len()
            ==> (#[trigger] text_words(text)[i]).0 < (#[trigger] text_words(text)[j]).0,
        forall|i: int| 0 <= i < text_words(text).len() ==> 0 <= (#[trigger] text_words(text)[i]).0,
{
    let ls = lines_of(text);
    lemma_lines_word_positions(ls, 0, false, 0);
}

/// `w` is a word of `line` at character `p`: two characters or more, no
/// apostrophe at either end, and the characters of the line from `p` on.
pub open spec fn word_at(line: Seq<char>, p: int, w: Seq<char>) -> bool {
    &&& w.len() >= 2
    &&& w[0] != '\''
    &&& w.last() != '\''
    &&& 0 <= p
    &&& p + w.len() <= line.len()
    &&& line.subrange(p, p + w.len()) == w
}

/// The scanner's state before position `i`: no pending word inside
/// inline code; a pending word is the characters read since its start, all
/// word characters or apostrophes, the first a word character.
pub open spec fn scan_state(line: Seq<char>, i: int, in_code: bool, start: Option<int>, buf: Seq<char>) -> bool {
    &&& in_code ==> start is None
    &&& start is None ==> buf.len() == 0
    &&& start matches Some(st) ==> {
        &&& 0 <= st < i <= line.len()
        &&& buf == line.subrange(st, i)
        &&& word_char(buf[0])
        &&& forall|k: int| 0 <= k < buf.len() ==> word_char(#[trigger] buf[k]) || buf[k] == '\''
    }
}

proof fn lemma_trailing_apos_bound(s: Seq<char>)
    ensures
        trailing_apos(s) <= s.len(),
        trailing_apos(s) < s.len() ==> s[s.len() - trailing_apos(s) - 1] != '\'',
        forall|k: int| s.len() - trailing_apos(s) <= k < s.len() ==> #[trigger] s[k] == '\'',
    decreases s.len(),
{
    if s.len() > 0 && s.last() == '\'' {
        lemma_trailing_apos_bound(s.drop_last());
        assert forall|k: int| s.len() - trailing_apos(s) <= k < s.len() implies #[trigger] s[k] == '\'' by {
            if k < s.len() - 1 {
                assert(s[k] == s.drop_last()[k]);
            }
        }
        if trailing_apos(s) < s.len() {
            assert(s[s.len() - trailing_apos(s) - 1] == s.drop_last()[s.len() - trailing_apos(s) - 1]);
        }
    }
}

proof fn lemma_flush_word_at(line: Seq<char>, i: int, in_code: bool, start: Option<int>, buf: Seq<char>)
    requires
        scan_state(line, i, in_code, start, buf),
        !alphabetic('\''),
    ensures
        forall|k: int| 0 <= k < flush(start, buf).len() ==> word_at(line, (#[trigger] flush(start, buf)[k]).0, flush(start, buf)[k].1),
{
    if start is Some && trim_apos(buf).len() >= 2 {
        let st = start->0;
        let w = trim_apos(buf);
        lemma_trailing_apos_bound(buf);
        assert(w[0] == buf[0]);
        assert(w.last() == buf[buf.len() - trailing_apos(buf) - 1]);
        assert(line.subrange(st, st + w.len()) =~= w);
        assert(flush(start, buf)[0] == (st, w));
    }
}

proof fn lemma_scan_words(line: Seq<char>, i: int, in_code: bool, start: Option<int>, buf: Seq<char>)
    requires
        0 <= i,
        scan_state(line, i, in_code, start, buf),
        !alphabetic('\''),
        !alphabetic(']'),
    ensures
        forall|k: int| 0 <= k < scan_line(line, i, in_code, start, buf).len() ==> word_at(
            line,
            (#[trigger] scan_line(line, i, in_code, start, buf)[k]).0,
            scan_line(line, i, in_code, start, buf)[k].1,
        ),
    decreases line.len() + 1 - i,
{
    let r = scan_line(line, i, in_code, start, buf);
    lemma_flush_word_at(line, i, in_code, start, buf);
    let f = flush(start, buf);
    if i >= line.len() {
        assert(r == f);
    } else {
        let ch = line[i];
        if ch == '`' {
            lemma_scan_words(line, i + 1, !in_code, None, seq![]);
            let t = scan_line(line, i + 1, !in_code, None, seq![]);
            assert(r == f + t);
            assert forall|k: int| 0 <= k < r.len() implies word_at(line, (#[trigger] r[k]).0, r[k].1) by {
                if k < f.len() {
                    assert(r[k] == f[k]);
                } else {
                    assert(r[k] == t[k - f.len()]);
                }
            }
        } else if in_code {
            lemma_scan_words(line, i + 1, in_code, start, buf);
            assert(r == scan_line(line, i + 1, in_code, start, buf));
        } else if ch == '(' && i > 0 && line[i - 1] == ']' {
            if start is Some {
                let st = start->0;
                assert(buf[buf.len() - 1] == line[i - 1]);
                assert(word_char(buf[buf.len() - 1]) || buf[buf.len() - 1] == '\'');
            }
            lemma_close_paren(line, i);
            lemma_scan_words(line, close_paren(line, i) + 1, in_code, start, buf);
            assert(r == scan_line(line, close_paren(line, i) + 1, in_code, start, buf));
        } else if ch == '<' && next_of(line, i + 1, '>') < line.len() {
            lemma_next_of(line, i + 1, '>');
            let e = next_of(line, i + 1, '>') + 1;
            lemma_scan_words(line, e, in_code, None, seq![]);
            let t = scan_line(line, e, in_code, None, seq![]);
            assert(r == f + t);
            assert forall|k: int| 0 <= k < r.len() implies word_at(line, (#[trigger] r[k]).0, r[k].1) by {
                if k < f.len() {
                    assert(r[k] == f[k]);
                } else {
                    assert(r[k] == t[k - f.len()]);
                }
            }
        } else if word_char(ch) {
            let st2 = if start is None { Some(i) } else { start };
            let b2 = buf.push(ch);
            assert(b2 =~= line.subrange(st2->0, i + 1));
            assert forall|k: int| 0 <= k < b2.len() implies word_char(#[trigger] b2[k]) || b2[k] == '\'' by {
                if k < buf.len() {
                    assert(b2[k] == buf[k]);
                }
            }
            lemma_scan_words(line, i + 1, in_code, st2, b2);
            assert(r == scan_line(line, i + 1, in_code, st2, b2));
        } else if ch == '\'' && start is Some {
            let b2 = buf.push(ch);
            assert(b2 =~= line.subrange(start->0, i + 1));
            assert(b2[0] == buf[0]);
            assert forall|k: int| 0 <= k < b2.len() implies word_char(#[trigger] b2[k]) || b2[k] == '\'' by {
                if k < buf.len() {
                    assert(b2[k] == buf[k]);
                }
            }
            lemma_scan_words(line, i + 1, in_code, start, b2);
            assert(r == scan_line(line, i + 1, in_code, start, b2));
        } else {
            lemma_scan_words(line, i + 1, in_code, None, seq![]);
            let t = scan_line(line, i + 1, in_code, None, seq![]);
            assert(r == f + t);
            assert forall|k: int| 0 <= k < r.len() implies word_at(line, (#[trigger] r[k]).0, r[k].1) by {
                if k < f.len() {
                    assert(r[k] == f[k]);
                } else {
                    assert(r[k] == t[k - f.len()]);
                }
            }
        }
    }
}

/// The words of a line are words of it: each of two characters or more,
/// with no apostrophe at either end, found in the line at its place (the
/// byte offset of word `k` is `off` plus the bytes before its character
/// position `p`); their offsets increase and lie in the line.  (A `'` and
/// a `]` are no letters, so neither starts a word nor continues one.)
pub proof fn law_line_words_are_words(line: Seq<char>, off: int)
    requires
        !alphabetic('\''),
        !alphabetic(']'),
    ensures
        forall|k: int| 0 <= k < line_words(line, off).len() ==> {
            let p = scan_line(line, 0, false, None, seq![])[k].0;
            &&& (#[trigger] line_words(line, off)[k]).0 == off + blen(line.take(p))
            &&& word_at(line, p, line_words(line, off)[k].1)
        },
        positions_in(line_words(line, off), off, off + blen(line)),
{
    lemma_scan_words(line, 0, false, None, seq![]);
    lemma_line_word_positions(line, off);
}

/// Byte offset `p` lies in line `m` of `ls`, and that line is prose: not a
/// fence line and not inside a fenced code block.
pub open spec fn in_prose_line(ls: Seq<Seq<char>>, m: int, p: int) -> bool {
    &&& 0 <= m < ls.len()
    &&& !is_fence(ls[m])
    &&& !crate::services::markdown_parser::in_fence_at(ls, m)
    &&& line_pos(ls, m) <= p < line_pos(ls, m) + blen(ls[m])
}

/// Byte offset `p` lies in a prose line of `ls` at index `k` or later.
pub open spec fn in_prose_from(ls: Seq<Seq<char>>, k: int, p: int) -> bool {
    exists|m: int| k <= m && #[trigger] in_prose_line(ls, m, p)
}

proof fn lemma_words_outside_fences(ls: Seq<Seq<char>>, k: int, pos: int)
    requires
        0 <= k <= ls.len(),
        pos == line_pos(ls, k),
    ensures
        forall|j: int| 0 <= j < words_of_lines(ls, k, crate::services::markdown_parser::in_fence_at(ls, k), pos).len()
            ==> in_prose_from(ls, k, #[trigger] words_of_lines(ls, k, crate::services::markdown_parser::in_fence_at(ls, k), pos)[j].0),
    decreases ls.len() - k,
{
    let ib = crate::services::markdown_parser::in_fence_at(ls, k);
    let r = words_of_lines(ls, k, ib, pos);
    if k < ls.len() {
        lemma_line_pos_step(ls, k);
        let next = pos + blen(ls[k]) + 1;
        lemma_words_outside_fences(ls, k + 1, next);
        let ib2 = crate::services::markdown_parser::in_fence_at(ls, k + 1);
        let t = words_of_lines(ls, k + 1, ib2, next);
        if is_fence(ls[k]) {
            assert(ib2 == !ib);
            assert(r == t);
            assert forall|j: int| 0 <= j < r.len() implies in_prose_from(ls, k, #[trigger] r[j].0) by {
                assert(in_prose_from(ls, k + 1, t[j].0));
                let m = choose|m: int| k + 1 <= m && #[trigger] in_prose_line(ls, m, t[j].0);
                assert(in_prose_line(ls, m, r[j].0));
            }
        } else {
            assert(ib2 == ib);
            let h = if ib { Seq::<(int, Seq<char>)>::empty() } else { line_words(ls[k], pos) };
            assert(r == h + t);
            lemma_line_word_positions(ls[k], pos);
            assert forall|j: int| 0 <= j < r.len() implies in_prose_from(ls, k, #[trigger] r[j].0) by {
                if j < h.len() {
                    assert(r[j] == h[j]);
                    assert(!ib);
                    assert(line_pos(ls, k) <= r[j].0 < line_pos(ls, k) + blen(ls[k]));
                    assert(in_prose_line(ls, k, r[j].0));
                } else {
                    assert(r[j] == t[j - h.len()]);
                    assert(in_prose_from(ls, k + 1, t[j - h.len()].0));
                    let m = choose|m: int| k + 1 <= m && #[trigger] in_prose_line(ls, m, t[j - h.len()].0);
                    assert(in_prose_line(ls, m, r[j].0));
                }
            }
        }
    }
}

/// No word of a text comes from a fenced code block: each lies within a
/// line that is neither a fence line nor inside a fenced block.
pub proof fn law_no_words_from_code_blocks(text: Seq<char>)
    ensures
        forall|j: int| 0 <= j < text_words(text).len()
            ==> in_prose_from(lines_of(text), 0, #[trigger] text_words(text)[j].0),
{
    let ls = lines_of(text);
    assert(!crate::services::markdown_parser::in_fence_at(ls, 0));
    assert(line_pos(ls, 0) == 0);
    lemma_words_outside_fences(ls, 0, 0);
    assert(text_words(text) == words_of_lines(ls, 0, crate::services::markdown_parser::in_fence_at(ls, 0), 0));
}

/// A line of plain prose: no backtick, no `<`, no apostrophe, and no `(`
/// right after a `]` (so no inline code, HTML tag or link target).
pub open spec fn plain_prose(line: Seq<char>) -> bool {
    forall|i: int| 0 <= i < line.len() ==> {
        &&& #[trigger] line[i] != '`'
        &&& line[i] != '<'
        &&& line[i] != '\''
        &&& (line[i] == '(' && i > 0 ==> line[i - 1] != ']')
    }
}

/// `line[p..q]` is a maximal run of word characters.
pub open spec fn word_run(line: Seq<char>, p: int, q: int) -> bool {
    &&& 0 <= p < q <= line.len()
    &&& forall|j: int| p <= j < q ==> word_char(#[trigger] line[j])
    &&& (p == 0 || !word_char(line[p - 1]))
    &&& (q == line.len() || !word_char(line[q]))
}

/// `e` is the word `line[p..q]` at character `p`, a maximal run of two word
/// characters or more.
pub open spec fn run_word(line: Seq<char>, p: int, q: int, e: (int, Seq<char>)) -> bool {
    &&& word_run(line, p, q)
    &&& q - p >= 2
    &&& e == (p, line.subrange(p, q))
}

/// `e` is a maximal run of two word characters or more of `line`, starting
/// at character `lo` or later, paired with its character position.
pub open spec fn run_from(line: Seq<char>, lo: int, e: (int, Seq<char>)) -> bool {
    exists|p: int, q: int| lo <= p && #[trigger] run_word(line, p, q, e)
}

/// `e` is a maximal run of two word characters or more of `line`, paired
/// with its byte offset counted from `off`.
pub open spec fn run_at(line: Seq<char>, off: int, e: (int, Seq<char>)) -> bool {
    exists|p: int, q: int| #[trigger] word_run(line, p, q) && q - p >= 2
        && e == (off + blen(line.take(p)), line.subrange(p, q))
}

proof fn lemma_word_run_end(line: Seq<char>, p: int, q: int, e: int)
    requires
        word_run(line, p, q),
        p < e <= line.len(),
        forall|j: int| p <= j < e ==> word_char(#[trigger] line[j]),
        e == line.len() || !word_char(line[e]),
    ensures
        q == e,
{
    if q < e {
        assert(word_char(line[q]));
    } else if q > e {
        assert(word_char(line[e]));
    }
}

#[verifier::rlimit(40)]
proof fn lemma_plain_scan(line: Seq<char>, i: int, start: Option<int>, buf: Seq<char>)
    requires
        plain_prose(line),
        0 <= i <= line.len(),
        start is None ==> buf.len() == 0 && (i == 0 || !word_char(line[i - 1])),
        start matches Some(st) ==> {
            &&& 0 <= st < i
            &&& buf == line.subrange(st, i)
            &&& forall|j: int| st <= j < i ==> word_char(#[trigger] line[j])
            &&& (st == 0 || !word_char(line[st - 1]))
        },
    ensures
        forall|k: int| 0 <= k < scan_line(line, i, false, start, buf).len() ==> run_from(
            line,
            match start { Some(st) => st, None => i },
            #[trigger] scan_line(line, i, false, start, buf)[k],
        ),
        forall|p: int, q: int| #[trigger] word_run(line, p, q) && q - p >= 2 && (p >= i || start == Some(p))
            ==> scan_line(line, i, false, start, buf).contains((p, line.subrange(p, q))),
    decreases line.len() + 1 - i,
{
    let r = scan_line(line, i, false, start, buf);
    let lo = match start { Some(st) => st, None => i };
    let f = flush(start, buf);
    if let Some(st) = start {
        if buf.len() > 0 {
            assert(buf.last() == line[i - 1]);
        }
        assert(trailing_apos(buf) == 0);
        assert(trim_apos(buf) =~= buf);
        if i - st >= 2 {
            assert(f.len() == 1 && f[0] == (st, line.subrange(st, i)));
        } else {
            assert(f.len() == 0);
        }
    } else {
        assert(f.len() == 0);
    }
    if i >= line.len() {
        assert(r == f);
        if let Some(st) = start {
            if i - st >= 2 {
                assert(run_word(line, st, i, r[0]));
            }
            assert forall|p: int, q: int| #[trigger] word_run(line, p, q) && q - p >= 2 && (p >= i || start == Some(p))
                implies r.contains((p, line.subrange(p, q))) by {
                lemma_word_run_end(line, p, q, i);
                assert(r[0] == (p, line.subrange(p, q)));
            }
        }
    } else {
        let ch = line[i];
        assert(ch != '`' && ch != '<' && ch != '\'');
        assert(!(ch == '(' && i > 0 && line[i - 1] == ']'));
        if word_char(ch) {
            let st2 = if start is None { Some(i) } else { start };
            let b2 = buf.push(ch);
            assert(b2 =~= line.subrange(st2->0, i + 1));
            lemma_plain_scan(line, i + 1, st2, b2);
            let t = scan_line(line, i + 1, false, st2, b2);
            assert(r == t);
            assert(st2->0 == lo);
            assert forall|p: int, q: int| #[trigger] word_run(line, p, q) && q - p >= 2 && (p >= i || start == Some(p))
                implies r.contains((p, line.subrange(p, q))) by {
                if start is Some && p == i {
                    assert(word_char(line[i - 1]));
                }
                assert(p >= i + 1 || st2 == Some(p));
            }
        } else {
            lemma_plain_scan(line, i + 1, None, seq![]);
            let t = scan_line(line, i + 1, false, None, seq![]);
            assert(r == f + t);
            assert forall|k: int| 0 <= k < r.len() implies run_from(line, lo, #[trigger] r[k]) by {
                if k < f.len() {
                    assert(r[k] == f[k]);
                    let st = start->0;
                    assert(run_word(line, st, i, r[k]));
                } else {
                    assert(r[k] == t[k - f.len()]);
                    assert(run_from(line, i + 1, t[k - f.len()]));
                    let (p, q) = choose|p: int, q: int| i + 1 <= p && #[trigger] run_word(line, p, q, t[k - f.len()]);
                    assert(run_word(line, p, q, r[k]));
                }
            }
            assert forall|p: int, q: int| #[trigger] word_run(line, p, q) && q - p >= 2 && (p >= i || start == Some(p))
                implies r.contains((p, line.subrange(p, q))) by {
                if start == Some(p) {
                    lemma_word_run_end(line, p, q, i);
                    assert(r[0] == f[0]);
                    assert(r[0] == (p, line.subrange(p, q)));
                } else {
                    if p == i {
                        assert(word_char(line[i]));
                    }
                    assert(t.contains((p, line.subrange(p, q))));
                    let k = choose|k: int| 0 <= k < t.len() && t[k] == (p, line.subrange(p, q));
                    assert(r[k + f.len()] == t[k]);
                }
            }
        }
    }
}

/// In a line of plain prose the words are exactly its maximal runs of two
/// word characters or more, each at the byte offset where it starts.
pub proof fn law_plain_prose_words_are_its_runs(line: Seq<char>, off: int)
    requires
        plain_prose(line),
    ensures
        forall|k: int| 0 <= k < line_words(line, off).len() ==> run_at(line, off, #[trigger] line_words(line, off)[k]),
        forall|p: int, q: int| #[trigger] word_run(line, p, q) && q - p >= 2
            ==> line_words(line, off).contains((off + blen(line.take(p)), line.subrange(p, q))),
{
    lemma_plain_scan(line, 0, None, seq![]);
    let r = scan_line(line, 0, false, None, seq![]);
    let lw = line_words(line, off);
    assert forall|k: int| 0 <= k < lw.len() implies run_at(line, off, #[trigger] lw[k]) by {
        assert(run_from(line, 0, r[k]));
        let (p, q) = choose|p: int, q: int| 0 <= p && #[trigger] run_word(line, p, q, r[k]);
        assert(lw[k] == (off + blen(line.take(r[k].0)), r[k].1));
        assert(word_run(line, p, q));
    }
    assert forall|p: int, q: int| #[trigger] word_run(line, p, q) && q - p >= 2
        implies lw.contains((off + blen(line.take(p)), line.subrange(p, q))) by {
        assert(r.contains((p, line.subrange(p, q))));
        let k = choose|k: int| 0 <= k < r.len() && r[k] == (p, line.subrange(p, q));
        assert(lw[k] == (off + blen(line.take(r[k].0)), r[k].1));
    }
}

/// A character that can be in a word as read: a word character or an
/// apostrophe, but never a backtick.
pub open spec fn tok(c: char) -> bool {
    c != '`' && (word_char(c) || c == '\'')
}

/// The number of backticks among `line[..p]`.
pub open spec fn backticks(line: Seq<char>, p: int) -> int
    decreases p,
{
    if p <= 0 {
        0
    } else {
        backticks(line, p - 1) + if line[p - 1] == '`' { 1int } else { 0int }
    }
}

/// Position `p` of `line` is inside inline code: an odd number of
/// backticks come before it.
pub open spec fn in_inline_code(line: Seq<char>, p: int) -> bool {
    backticks(line, p) % 2 == 1
}

/// No word is being read at `p`: `p` is at the line's start or after a
/// character that cannot be in a word, with at most apostrophes (that
/// are no word characters) in between.
pub open spec fn no_word_before(line: Seq<char>, p: int) -> bool
    decreases p,
{
    if p <= 0 {
        true
    } else {
        !tok(line[p - 1]) || (!word_char(line[p - 1]) && no_word_before(line, p - 1))
    }
}

/// `line[p..q]` is a token of prose: it starts with a word character where
/// no word is being read, outside inline code, and runs over word
/// characters and apostrophes as far as they go.
pub open spec fn prose_token(line: Seq<char>, p: int, q: int) -> bool {
    &&& 0 <= p < q <= line.len()
    &&& word_char(line[p]) && tok(line[p])
    &&& forall|j: int| p <= j < q ==> tok(#[trigger] line[j])
    &&& (q == line.len() || !tok(line[q]))
    &&& no_word_before(line, p)
    &&& !in_inline_code(line, p)
}

/// `line[p..e]` is `line[p..q]` without its trailing apostrophes.
pub open spec fn apostrophes_trimmed(line: Seq<char>, p: int, q: int, e: int) -> bool {
    &&& p <= e <= q
    &&& forall|j: int| e <= j < q ==> #[trigger] line[j] == '\''
    &&& (e == p || line[e - 1] != '\'')
}

/// `w` is the word of the token `line[p..q]`: without its trailing
/// apostrophes and of two characters or more, paired with its character
/// position.
pub open spec fn token_word(line: Seq<char>, p: int, q: int, e: int, w: (int, Seq<char>)) -> bool {
    &&& prose_token(line, p, q)
    &&& apostrophes_trimmed(line, p, q, e)
    &&& e - p >= 2
    &&& w == (p, line.subrange(p, e))
}

/// A line without HTML tags or link targets: no `<`, and no `(` right
/// after a `]`.
pub open spec fn no_tags_or_links(line: Seq<char>) -> bool {
    forall|i: int| 0 <= i < line.len() ==> {
        &&& #[trigger] line[i] != '<'
        &&& (line[i] == '(' && i > 0 ==> line[i - 1] != ']')
    }
}

proof fn lemma_token_end(line: Seq<char>, p: int, q: int, e: int)
    requires
        prose_token(line, p, q),
        p < e <= line.len(),
        forall|j: int| p <= j < e ==> tok(#[trigger] line[j]),
        e == line.len() || !tok(line[e]),
    ensures
        q == e,
{
    if q < e {
        assert(tok(line[q]));
    } else if q > e {
        assert(tok(line[e]));
    }
}

proof fn lemma_trimmed_unique(line: Seq<char>, p: int, q: int, e1: int, e2: int)
    requires
        apostrophes_trimmed(line, p, q, e1),
        apostrophes_trimmed(line, p, q, e2),
    ensures
        e1 == e2,
{
    if e1 < e2 {
        assert(line[e2 - 1] == '\'');
    } else if e2 < e1 {
        assert(line[e1 - 1] == '\'');
    }
}

proof fn lemma_word_being_read(line: Seq<char>, st: int, j: int)
    requires
        0 <= st < j <= line.len(),
        word_char(line[st]) && tok(line[st]),
        forall|x: int| st <= x < j ==> tok(#[trigger] line[x]),
    ensures
        !no_word_before(line, j),
    decreases j - st,
{
    if j - 1 > st {
        lemma_word_being_read(line, st, j - 1);
    }
    assert(tok(line[j - 1]));
}

/// The word that ends being read at `i`, started at `st`.
proof fn lemma_flush_token(line: Seq<char>, i: int, st: int, buf: Seq<char>)
    requires
        0 <= st < i <= line.len(),
        buf == line.subrange(st, i),
    ensures
        apostrophes_trimmed(line, st, i, st + trim_apos(buf).len()),
        trim_apos(buf) == line.subrange(st, st + trim_apos(buf).len()),
{
    lemma_trailing_apos_bound(buf);
    let e = st + buf.len() - trailing_apos(buf);
    assert(trim_apos(buf) =~= line.subrange(st, e));
    assert forall|j: int| e <= j < i implies #[trigger] line[j] == '\'' by {
        assert(line[j] == buf[j - st]);
    }
    if e > st {
        assert(line[e - 1] == buf[e - 1 - st]);
    }
}

/// `w` is the word of a prose token starting at character `lo` or later.
pub open spec fn token_from(line: Seq<char>, lo: int, w: (int, Seq<char>)) -> bool {
    exists|p: int, q: int, e: int| lo <= p && #[trigger] token_word(line, p, q, e, w)
}

/// Where the word being read started, or `i` when none is.
pub open spec fn start_or(start: Option<int>, i: int) -> int {
    match start {
        Some(st) => st,
        None => i,
    }
}

#[verifier::rlimit(100)]
#[verifier::spinoff_prover]
proof fn lemma_prose_scan_sound(line: Seq<char>, i: int, in_code: bool, start: Option<int>, buf: Seq<char>)
    requires
        no_tags_or_links(line),
        0 <= i <= line.len(),
        in_code == in_inline_code(line, i),
        in_code ==> start is None,
        start is None ==> buf.len() == 0 && (in_code || no_word_before(line, i)),
        start matches Some(st) ==> {
            &&& 0 <= st < i
            &&& buf == line.subrange(st, i)
            &&& word_char(line[st]) && tok(line[st])
            &&& forall|j: int| st <= j < i ==> tok(#[trigger] line[j])
            &&& no_word_before(line, st)
            &&& backticks(line, st) == backticks(line, i)
        },
    ensures
        forall|k: int| 0 <= k < scan_line(line, i, in_code, start, buf).len()
            ==> token_from(line, start_or(start, i), #[trigger] scan_line(line, i, in_code, start, buf)[k]),
    decreases line.len() + 1 - i,
{
    let r = scan_line(line, i, in_code, start, buf);
    let f = flush(start, buf);
    if start is Some {
        let st = start->0;
        lemma_flush_token(line, i, st, buf);
    }
    if i >= line.len() {
        assert(r == f);
        if start is None {
            assert(r.len() == 0);
            assert(scan_line(line, i, in_code, start, buf).len() == 0);
        }
        if start is Some {
            let st = start->0;
            let e0 = st + trim_apos(buf).len();
            assert(prose_token(line, st, i));
            assert forall|k: int| 0 <= k < r.len() implies token_from(line, start_or(start, i), #[trigger] r[k]) by {
                assert(token_word(line, st, i, e0, r[k]));
            }
        }
    } else {
        let ch = line[i];
        assert(ch != '<');
        assert(!(ch == '(' && i > 0 && line[i - 1] == ']'));
        assert(backticks(line, i + 1) == backticks(line, i) + if ch == '`' { 1int } else { 0int });
        if ch == '`' {
            lemma_prose_scan_sound(line, i + 1, !in_code, None, seq![]);
            let t = scan_line(line, i + 1, !in_code, None, seq![]);
            assert(r == f + t);
            if start is Some {
                let st = start->0;
                let e = st + trim_apos(buf).len();
                assert(prose_token(line, st, i));
                assert(f.len() > 0 ==> token_word(line, st, i, e, f[0]));
            }
            assert forall|k: int| 0 <= k < r.len() implies token_from(line, start_or(start, i), #[trigger] r[k]) by {
                if k < f.len() {
                    assert(r[k] == f[k]);
                    let st = start->0;
                    assert(token_word(line, st, i, st + trim_apos(buf).len(), r[k]));
                } else {
                    assert(r[k] == t[k - f.len()]);
                    assert(token_from(line, i + 1, t[k - f.len()]));
                    let (p, q, e) = choose|p: int, q: int, e: int| i + 1 <= p && #[trigger] token_word(line, p, q, e, t[k - f.len()]);
                    assert(token_word(line, p, q, e, r[k]));
                }
            }
        } else if in_code {
            lemma_prose_scan_sound(line, i + 1, in_code, start, buf);
            let t = scan_line(line, i + 1, in_code, start, buf);
            assert(r == t);
            assert forall|k: int| 0 <= k < r.len() implies token_from(line, start_or(start, i), #[trigger] r[k]) by {
                assert(token_from(line, i + 1, t[k]));
                let (p, q, e) = choose|p: int, q: int, e: int| i + 1 <= p && #[trigger] token_word(line, p, q, e, t[k]);
                assert(token_word(line, p, q, e, r[k]));
            }
        } else if word_char(ch) {
            let st2 = if start is None { Some(i) } else { start };
            let b2 = buf.push(ch);
            assert(b2 =~= line.subrange(st2->0, i + 1));
            assert(tok(ch));
            lemma_prose_scan_sound(line, i + 1, in_code, st2, b2);
            let t = scan_line(line, i + 1, in_code, st2, b2);
            assert(r == t);
            assert(st2->0 == start_or(start, i));
            assert forall|k: int| 0 <= k < r.len() implies token_from(line, start_or(start, i), #[trigger] r[k]) by {
                assert(token_from(line, st2->0, t[k]));
                let (p, q, e) = choose|p: int, q: int, e: int| st2->0 <= p && #[trigger] token_word(line, p, q, e, t[k]);
                assert(token_word(line, p, q, e, r[k]));
            }
        } else if ch == '\'' && start is Some {
            let b2 = buf.push(ch);
            assert(b2 =~= line.subrange(start->0, i + 1));
            assert(tok(ch));
            lemma_prose_scan_sound(line, i + 1, in_code, start, b2);
            let t = scan_line(line, i + 1, in_code, start, b2);
            assert(r == t);
            assert forall|k: int| 0 <= k < r.len() implies token_from(line, start_or(start, i), #[trigger] r[k]) by {
                assert(token_from(line, start->0, t[k]));
                let (p, q, e) = choose|p: int, q: int, e: int| start->0 <= p && #[trigger] token_word(line, p, q, e, t[k]);
                assert(token_word(line, p, q, e, r[k]));
            }
        } else {
            assert(no_word_before(line, i + 1));
            lemma_prose_scan_sound(line, i + 1, in_code, None, seq![]);
            let t = scan_line(line, i + 1, in_code, None, seq![]);
            assert(r == f + t);
            if start is Some {
                let st = start->0;
                assert(!tok(ch));
                let e = st + trim_apos(buf).len();
                assert(prose_token(line, st, i));
                assert(f.len() > 0 ==> token_word(line, st, i, e, f[0]));
            }
            assert forall|k: int| 0 <= k < r.len() implies token_from(line, start_or(start, i), #[trigger] r[k]) by {
                if k < f.len() {
                    assert(r[k] == f[k]);
                    let st = start->0;
                    assert(token_word(line, st, i, st + trim_apos(buf).len(), r[k]));
                } else {
                    assert(r[k] == t[k - f.len()]);
                    assert(token_from(line, i + 1, t[k - f.len()]));
                    let (p, q, e) = choose|p: int, q: int, e: int| i + 1 <= p && #[trigger] token_word(line, p, q, e, t[k - f.len()]);
                    assert(token_word(line, p, q, e, r[k]));
                }
            }
        }
    }
}

#[verifier::rlimit(100)]
#[verifier::spinoff_prover]
proof fn lemma_prose_scan_complete(line: Seq<char>, i: int, in_code: bool, start: Option<int>, buf: Seq<char>)
    requires
        no_tags_or_links(line),
        0 <= i <= line.len(),
        in_code == in_inline_code(line, i),
        in_code ==> start is None,
        start is None ==> buf.len() == 0 && (in_code || no_word_before(line, i)),
        start matches Some(st) ==> {
            &&& 0 <= st < i
            &&& buf == line.subrange(st, i)
            &&& word_char(line[st]) && tok(line[st])
            &&& forall|j: int| st <= j < i ==> tok(#[trigger] line[j])
            &&& no_word_before(line, st)
            &&& backticks(line, st) == backticks(line, i)
        },
    ensures
        forall|p: int, q: int, e: int| #[trigger] token_word(line, p, q, e, (p, line.subrange(p, e)))
            && (p >= i || start == Some(p))
            ==> scan_line(line, i, in_code, start, buf).contains((p, line.subrange(p, e))),
    decreases line.len() + 1 - i,
{
    let r = scan_line(line, i, in_code, start, buf);
    let lo = start_or(start, i);
    let f = flush(start, buf);
    if start is Some {
        let st = start->0;
        lemma_flush_token(line, i, st, buf);
    }
    if i >= line.len() {
        assert(r == f);
        if start is None {
            assert(r.len() == 0);
            assert(scan_line(line, i, in_code, start, buf).len() == 0);
        }
        if start is Some {
            let st = start->0;
            let e0 = st + trim_apos(buf).len();
            assert(prose_token(line, st, i));
            assert forall|p: int, q: int, e2: int| #[trigger] token_word(line, p, q, e2, (p, line.subrange(p, e2)))
                && (p >= i || start == Some(p)) implies r.contains((p, line.subrange(p, e2))) by {
                lemma_token_end(line, p, q, i);
                lemma_trimmed_unique(line, p, q, e0, e2);
                assert(r[0] == (p, line.subrange(p, e2)));
            }
        }
    } else {
        let ch = line[i];
        assert(ch != '<');
        assert(!(ch == '(' && i > 0 && line[i - 1] == ']'));
        assert(backticks(line, i + 1) == backticks(line, i) + if ch == '`' { 1int } else { 0int });
        if ch == '`' {
            lemma_prose_scan_complete(line, i + 1, !in_code, None, seq![]);
            let t = scan_line(line, i + 1, !in_code, None, seq![]);
            assert(r == f + t);
            if start is Some {
                let st = start->0;
                let e = st + trim_apos(buf).len();
                assert(prose_token(line, st, i));
                assert(f.len() > 0 ==> token_word(line, st, i, e, f[0]));
            }
            assert forall|p: int, q: int, e2: int| #[trigger] token_word(line, p, q, e2, (p, line.subrange(p, e2)))
                && (p >= i || start == Some(p)) implies r.contains((p, line.subrange(p, e2))) by {
                if start == Some(p) {
                    lemma_token_end(line, p, q, i);
                    lemma_trimmed_unique(line, p, q, p + trim_apos(buf).len(), e2);
                    assert(r[0] == (p, line.subrange(p, e2)));
                } else {
                    assert(p != i);
                    assert(t.contains((p, line.subrange(p, e2))));
                    let k = choose|k: int| 0 <= k < t.len() && t[k] == (p, line.subrange(p, e2));
                    assert(r[k + f.len()] == t[k]);
                }
            }
        } else if in_code {
            lemma_prose_scan_complete(line, i + 1, in_code, start, buf);
            let t = scan_line(line, i + 1, in_code, start, buf);
            assert(r == t);
            assert forall|p: int, q: int, e2: int| #[trigger] token_word(line, p, q, e2, (p, line.subrange(p, e2)))
                && (p >= i || start == Some(p)) implies r.contains((p, line.subrange(p, e2))) by {
                assert(p != i);
            }
        } else if word_char(ch) {
            let st2 = if start is None { Some(i) } else { start };
            let b2 = buf.push(ch);
            assert(b2 =~= line.subrange(st2->0, i + 1));
            assert(tok(ch));
            lemma_prose_scan_complete(line, i + 1, in_code, st2, b2);
            let t = scan_line(line, i + 1, in_code, st2, b2);
            assert(r == t);
            assert(st2->0 == lo);
            assert forall|p: int, q: int, e2: int| #[trigger] token_word(line, p, q, e2, (p, line.subrange(p, e2)))
                && (p >= i || start == Some(p)) implies r.contains((p, line.subrange(p, e2))) by {
                if start is Some && p == i {
                    lemma_word_being_read(line, start->0, i);
                }
                assert(p >= i + 1 || st2 == Some(p));
            }
        } else if ch == '\'' && start is Some {
            let b2 = buf.push(ch);
            assert(b2 =~= line.subrange(start->0, i + 1));
            assert(tok(ch));
            lemma_prose_scan_complete(line, i + 1, in_code, start, b2);
            let t = scan_line(line, i + 1, in_code, start, b2);
            assert(r == t);
            assert forall|p: int, q: int, e2: int| #[trigger] token_word(line, p, q, e2, (p, line.subrange(p, e2)))
                && (p >= i || start == Some(p)) implies r.contains((p, line.subrange(p, e2))) by {
                assert(p != i);
            }
        } else {
            assert(no_word_before(line, i + 1));
            lemma_prose_scan_complete(line, i + 1, in_code, None, seq![]);
            let t = scan_line(line, i + 1, in_code, None, seq![]);
            assert(r == f + t);
            if start is Some {
                let st = start->0;
                assert(!tok(ch));
                let e = st + trim_apos(buf).len();
                assert(prose_token(line, st, i));
                assert(f.len() > 0 ==> token_word(line, st, i, e, f[0]));
            }
            assert forall|p: int, q: int, e2: int| #[trigger] token_word(line, p, q, e2, (p, line.subrange(p, e2)))
                && (p >= i || start == Some(p)) implies r.contains((p, line.subrange(p, e2))) by {
                if start == Some(p) {
                    lemma_token_end(line, p, q, i);
                    lemma_trimmed_unique(line, p, q, p + trim_apos(buf).len(), e2);
                    assert(r[0] == (p, line.subrange(p, e2)));
                } else {
                    assert(p != i);
                    assert(t.contains((p, line.subrange(p, e2))));
                    let k = choose|k: int| 0 <= k < t.len() && t[k] == (p, line.subrange(p, e2));
                    assert(r[k + f.len()] == t[k]);
                }
            }
        }
    }
}

/// `w` is the word of a prose token of `line` with its byte offset counted
/// from `off`.
pub open spec fn token_at(line: Seq<char>, off: int, w: (int, Seq<char>)) -> bool {
    exists|p: int, q: int, e: int| #[trigger] token_word(line, p, q, e, (p, line.subrange(p, e)))
        && w == (off + blen(line.take(p)), line.subrange(p, e))
}

/// In a line without HTML tags or link targets, the words are exactly those
/// of its prose tokens: outside inline code, a run of word characters and
/// apostrophes that starts with a word character where no word is being
/// read, without its trailing apostrophes, when two characters or more
/// remain; each at the byte offset where it starts.
pub proof fn law_words_are_the_prose_tokens(line: Seq<char>, off: int)
    requires
        no_tags_or_links(line),
    ensures
        forall|k: int| 0 <= k < line_words(line, off).len() ==> token_at(line, off, #[trigger] line_words(line, off)[k]),
        forall|p: int, q: int, e: int| #[trigger] token_word(line, p, q, e, (p, line.subrange(p, e)))
            ==> line_words(line, off).contains((off + blen(line.take(p)), line.subrange(p, e))),
{
    assert(backticks(line, 0) == 0);
    lemma_prose_scan_sound(line, 0, false, None, seq![]);
    lemma_prose_scan_complete(line, 0, false, None, seq![]);
    let r = scan_line(line, 0, false, None, seq![]);
    let lw = line_words(line, off);
    assert forall|k: int| 0 <= k < lw.len() implies token_at(line, off, #[trigger] lw[k]) by {
        assert(token_from(line, 0, r[k]));
        let (p, q, e) = choose|p: int, q: int, e: int| 0 <= p && #[trigger] token_word(line, p, q, e, r[k]);
        assert(lw[k] == (off + blen(line.take(r[k].0)), r[k].1));
        assert(token_word(line, p, q, e, (p, line.subrange(p, e))));
    }
    assert forall|p: int, q: int, e: int| #[trigger] token_word(line, p, q, e, (p, line.subrange(p, e)))
        implies lw.contains((off + blen(line.take(p)), line.subrange(p, e))) by {
        assert(r.contains((p, line.subrange(p, e))));
        let k = choose|k: int| 0 <= k < r.len() && r[k] == (p, line.subrange(p, e));
        assert(lw[k] == (off + blen(line.take(r[k].0)), r[k].1));
    }
}

} // verus!
