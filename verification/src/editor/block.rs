//! WordStar blocks: the text between a begin marker and an end marker.
//!
//! A marker is a (line, column) pair.  For reading a block's text
//! ([`get_block_text`]) the column is a byte offset into its line; the
//! block edits (delete, copy, move) work, like the editor's cursor, in
//! characters.
use vstd::prelude::*;
use crate::text::{
    blen, char_index_at, char_pos, chars_since_newline, from_chars, is_boundary, join_lines, join_with,
    lemma_char_pos, lemma_blen_take_strict, lemma_chars_deep_view, newline_count, string_of, to_chars, str_blen,
};

verus! {

/// The two markers in document order.
pub open spec fn ordered(begin: (usize, usize), end: (usize, usize)) -> ((usize, usize), (usize, usize)) {
    if begin.0 < end.0 || (begin.0 == end.0 && begin.1 <= end.1) {
        (begin, end)
    } else {
        (end, begin)
    }
}

/// The two markers in document order: the earlier first.
pub fn normalize_range(begin: (usize, usize), end: (usize, usize)) -> (r: ((usize, usize), (usize, usize)))
    ensures
        r == ordered(begin, end),
{
    if begin.0 < end.0 || (begin.0 == end.0 && begin.1 <= end.1) {
        (begin, end)
    } else {
        (end, begin)
    }
}

/// The characters of `s` between the byte positions `a` and `b`.
pub open spec fn byte_slice(s: Seq<char>, a: int, b: int) -> Seq<char> {
    s.subrange(char_pos(s, a), char_pos(s, b))
}

/// `&s[a..b]`.
pub fn slice_bytes(s: &str, a: usize, b: usize) -> (r: String)
    requires
        a <= b,
        is_boundary(s@, a as int),
        is_boundary(s@, b as int),
    ensures
        r@ == byte_slice(s@, a as int, b as int),
{
    let v = to_chars(s);
    let i = char_index_at(&v, a);
    let j = char_index_at(&v, b);
    proof {
        lemma_char_pos(v@, a as int);
        lemma_char_pos(v@, b as int);
        if j < i {
            lemma_blen_take_strict(v@, j as int, i as int);
        }
    }
    from_chars(&v, i, j)
}

/// Where the block's part of line `i` starts.
pub open spec fn piece_start(i: int, start: (usize, usize)) -> int {
    if i == start.0 {
        start.1 as int
    } else {
        0
    }
}

/// Where the block's part of line `i` ends.
pub open spec fn piece_end(line: Seq<char>, i: int, finish: (usize, usize)) -> int {
    if i == finish.0 {
        if finish.1 <= blen(line) {
            finish.1 as int
        } else {
            blen(line) as int
        }
    } else {
        blen(line) as int
    }
}

/// The block's part of line `i`, followed by a line break unless the block
/// ends on this line.
pub open spec fn block_piece(line: Seq<char>, i: int, start: (usize, usize), finish: (usize, usize)) -> Seq<char> {
    let s = piece_start(i, start);
    let e = piece_end(line, i, finish);
    (if s <= e { byte_slice(line, s, e) } else { seq![] }) + (if i < finish.0 { seq!['\n'] } else { seq![] })
}

/// The block's text from the first `n` lines.
pub open spec fn block_text(lines: Seq<Seq<char>>, start: (usize, usize), finish: (usize, usize), n: int) -> Seq<char>
    decreases n,
{
    if n <= 0 {
        seq![]
    } else {
        block_text(lines, start, finish, n - 1) + if start.0 <= n - 1 <= finish.0 {
            block_piece(lines[n - 1], n - 1, start, finish)
        } else {
            seq![]
        }
    }
}

/// Every byte position where the block cuts a line is a character boundary.
pub open spec fn cuts_at_boundaries(lines: Seq<Seq<char>>, start: (usize, usize), finish: (usize, usize)) -> bool {
    forall|i: int|
        0 <= i < lines.len() && start.0 <= i <= finish.0
            && piece_start(i, start) <= piece_end(#[trigger] lines[i], i, finish)
        ==> is_boundary(lines[i], piece_start(i, start)) && is_boundary(lines[i], piece_end(lines[i], i, finish))
}

/// The text of the block between two markers (in either order): from the
/// earlier marker to the later one, lines joined by line breaks.
pub fn get_block_text(lines: &Vec<String>, begin: (usize, usize), end: (usize, usize)) -> (r: String)
    requires
        cuts_at_boundaries(lines.deep_view(), ordered(begin, end).0, ordered(begin, end).1),
    ensures
        r@ == block_text(lines.deep_view(), ordered(begin, end).0, ordered(begin, end).1, lines@.len() as int),
{
    let (start, finish) = normalize_range(begin, end);
    let ghost ls = lines.deep_view();
    let mut result = String::new();
    let mut i: usize = 0;
    while i < lines.len()
        invariant
            ls == lines.deep_view(),
            (start, finish) == ordered(begin, end),
            cuts_at_boundaries(ls, start, finish),
            i <= ls.len(),
            result@ == block_text(ls, start, finish, i as int),
        decreases lines.len() - i,
    {
        let line = &lines[i];
        assert(line@ == ls[i as int]);
        let ghost before = result@;
        if i >= start.0 && i <= finish.0 {
            let len = str_blen(line.as_str());
            let s = if i == start.0 { start.1 } else { 0 };
            let e = if i == finish.0 {
                if finish.1 <= len { finish.1 } else { len }
            } else {
                len
            };
            if s <= e {
                let piece = slice_bytes(line.as_str(), s, e);
                result.append(piece.as_str());
            }
            if i < finish.0 {
                result.append("\n");
                proof {
                    reveal_strlit("\n");
                }
            }
            proof {
                assert(result@ =~= before + block_piece(ls[i as int], i as int, start, finish));
            }
        } else {
            proof {
                assert(result@ =~= before + Seq::<char>::empty());
            }
        }
        i = i + 1;
    }
    result
}

// ---------------------------------------------------------------------------
// Block edits on the buffer's lines
// ---------------------------------------------------------------------------

/// The lines joined with line breaks: the buffer's text.
pub open spec fn text_of(ls: Seq<Seq<char>>) -> Seq<char> {
    join_with(ls, seq!['\n'])
}

/// Where line `r` starts in [`text_of`], in characters.
pub open spec fn line_start(ls: Seq<Seq<char>>, r: int) -> int
    decreases r,
{
    if r <= 0 {
        0
    } else {
        line_start(ls, r - 1) + ls[r - 1].len() + 1
    }
}

/// The position (line, column in characters) is in the lines.
pub open spec fn valid_pos(ls: Seq<Seq<char>>, p: (usize, usize)) -> bool {
    p.0 < ls.len() && p.1 <= ls[p.0 as int].len()
}

/// Where a position is in [`text_of`].
pub open spec fn pos_offset(ls: Seq<Seq<char>>, p: (usize, usize)) -> int {
    line_start(ls, p.0 as int) + p.1
}

/// No line holds a line break.
pub open spec fn no_breaks(ls: Seq<Seq<char>>) -> bool {
    forall|i: int, j: int| 0 <= i < ls.len() && 0 <= j < ls[i].len() ==> #[trigger] ls[i][j] != '\n'
}

/// `r` are the lines of the text `t`: joined with line breaks they give
/// `t`, and none holds a break.
pub open spec fn lines_of_text(r: Seq<Seq<char>>, t: Seq<char>) -> bool {
    &&& text_of(r) == t
    &&& no_breaks(r)
    &&& r.len() >= 1
}

/// The cursor position (line, column in characters) at character `o` of
/// `t`.
pub open spec fn cursor_at(t: Seq<char>, o: int) -> (int, int) {
    (newline_count(t.take(o)), chars_since_newline(t.take(o)))
}

/// Where the block starts and ends in [`text_of`], its markers taken in
/// document order.
pub open spec fn block_bounds(ls: Seq<Seq<char>>, begin: (usize, usize), end: (usize, usize)) -> (int, int) {
    (pos_offset(ls, ordered(begin, end).0), pos_offset(ls, ordered(begin, end).1))
}

/// The text without the block.
pub open spec fn without_block(ls: Seq<Seq<char>>, begin: (usize, usize), end: (usize, usize)) -> Seq<char> {
    let (a, b) = block_bounds(ls, begin, end);
    text_of(ls).take(a) + text_of(ls).skip(b)
}

/// The block's text.
pub open spec fn block_chars(ls: Seq<Seq<char>>, begin: (usize, usize), end: (usize, usize)) -> Seq<char> {
    let (a, b) = block_bounds(ls, begin, end);
    text_of(ls).subrange(a, b)
}

/// Where the cursor at character `c` is once the block `a..b` is taken
/// out: unchanged before it, moved back by the block's length after it,
/// at the block's place inside it.
pub open spec fn after_removal(c: int, a: int, b: int) -> int {
    if c <= a {
        c
    } else if c >= b {
        c - (b - a)
    } else {
        a
    }
}

/// The text after the block is moved to the cursor.
pub open spec fn moved_text(ls: Seq<Seq<char>>, cursor: (usize, usize), begin: (usize, usize), end: (usize, usize)) -> Seq<char> {
    let (a, b) = block_bounds(ls, begin, end);
    let rest = without_block(ls, begin, end);
    let c = after_removal(pos_offset(ls, cursor), a, b);
    rest.take(c) + block_chars(ls, begin, end) + rest.skip(c)
}

/// The text after the block is copied to the cursor.
pub open spec fn copied_text(ls: Seq<Seq<char>>, cursor: (usize, usize), begin: (usize, usize), end: (usize, usize)) -> Seq<char> {
    let c = pos_offset(ls, cursor);
    text_of(ls).take(c) + block_chars(ls, begin, end) + text_of(ls).skip(c)
}

proof fn lemma_line_start_prefix(ls: Seq<Seq<char>>, n: int, r: int)
    requires
        0 <= r <= n <= ls.len(),
    ensures
        line_start(ls.take(n), r) == line_start(ls, r),
    decreases r,
{
    if r > 0 {
        lemma_line_start_prefix(ls, n, r - 1);
    }
}

proof fn lemma_line_start_mono(ls: Seq<Seq<char>>, r1: int, r2: int)
    requires
        0 <= r1 < r2,
    ensures
        line_start(ls, r1) + ls[r1].len() < line_start(ls, r2),
    decreases r2,
{
    if r2 > r1 + 1 {
        lemma_line_start_mono(ls, r1, r2 - 1);
    }
}

/// The joined text ends where the last line ends.
proof fn lemma_text_len(ls: Seq<Seq<char>>)
    requires
        ls.len() >= 1,
    ensures
        text_of(ls).len() == line_start(ls, ls.len() - 1) + ls.last().len(),
    decreases ls.len(),
{
    if ls.len() > 1 {
        let d = ls.drop_last();
        lemma_text_len(d);
        assert(d =~= ls.take(ls.len() - 1));
        lemma_line_start_prefix(ls, ls.len() - 1, ls.len() - 2);
    }
}

/// A position in the lines is a place in the text, and positions in
/// document order are places in that order.
proof fn lemma_pos_offset(ls: Seq<Seq<char>>, p: (usize, usize), q: (usize, usize))
    requires
        valid_pos(ls, p),
        valid_pos(ls, q),
        p.0 < q.0 || (p.0 == q.0 && p.1 <= q.1),
    ensures
        0 <= pos_offset(ls, p) <= pos_offset(ls, q) <= text_of(ls).len(),
{
    lemma_text_len(ls);
    if q.0 < ls.len() - 1 {
        lemma_line_start_mono(ls, q.0 as int, ls.len() - 1);
    }
    if p.0 < q.0 {
        lemma_line_start_mono(ls, p.0 as int, q.0 as int);
    }
    lemma_line_start_nonneg(ls, p.0 as int);
}

proof fn lemma_line_start_nonneg(ls: Seq<Seq<char>>, r: int)
    ensures
        line_start(ls, r) >= 0,
    decreases r,
{
    if r > 0 {
        lemma_line_start_nonneg(ls, r - 1);
    }
}

/// Where position `p` is in the joined text of `lines`, whose length is
/// `total`.
fn offset_of(lines: &Vec<String>, p: (usize, usize), total: usize) -> (o: usize)
    requires
        valid_pos(lines.deep_view(), p),
        total == text_of(lines.deep_view()).len(),
    ensures
        o == pos_offset(lines.deep_view(), p),
{
    let ghost ls = lines.deep_view();
    proof {
        lemma_pos_offset(ls, p, p);
    }
    let mut o: usize = 0;
    let mut r: usize = 0;
    while r < p.0
        invariant
            ls == lines.deep_view(),
            valid_pos(ls, p),
            r <= p.0,
            o == line_start(ls, r as int),
            line_start(ls, p.0 as int) + p.1 <= total,
        decreases p.0 - r,
    {
        let n = to_chars(lines[r].as_str()).len();
        proof {
            assert(lines[r as int]@ == ls[r as int]);
            if r + 1 < p.0 {
                lemma_line_start_mono(ls, r + 1, p.0 as int);
            }
            lemma_line_start_nonneg(ls, r + 1);
        }
        o = o + n + 1;
        r = r + 1;
    }
    o + p.1
}

/// Appends `v[a..b]` to `out`.
fn push_range(out: &mut Vec<char>, v: &Vec<char>, a: usize, b: usize)
    requires
        a <= b <= v@.len(),
    ensures
        final(out)@ == old(out)@ + v@.subrange(a as int, b as int),
{
    let mut k = a;
    while k < b
        invariant
            a <= k <= b <= v@.len(),
            out@ == old(out)@ + v@.subrange(a as int, k as int),
        decreases b - k,
    {
        out.push(v[k]);
        k = k + 1;
        assert(out@ =~= old(out)@ + v@.subrange(a as int, k as int));
    }
}

proof fn lemma_join_push(d: Seq<Seq<char>>, x: Seq<char>, c: char)
    ensures
        text_of(d.push(x.push(c))) == text_of(d.push(x)).push(c),
{
    if d.len() == 0 {
        assert(d.push(x.push(c)) =~= seq![x.push(c)]);
        assert(d.push(x) =~= seq![x]);
    } else {
        assert(d.push(x.push(c)).drop_last() =~= d);
        assert(d.push(x).drop_last() =~= d);
        assert(text_of(d.push(x.push(c))) =~= text_of(d.push(x)).push(c));
    }
}

/// The lines of `v`, split at its line breaks.
fn split_at_breaks(v: &Vec<char>) -> (r: Vec<String>)
    ensures
        lines_of_text(r.deep_view(), v@),
{
    let mut done: Vec<String> = Vec::new();
    let mut cur: Vec<char> = Vec::new();
    let mut i: usize = 0;
    proof {
        assert(done.deep_view().push(cur@) =~= seq![Seq::<char>::empty()]);
        assert(v@.take(0) =~= Seq::<char>::empty());
    }
    while i < v.len()
        invariant
            i <= v@.len(),
            text_of(done.deep_view().push(cur@)) == v@.take(i as int),
            no_breaks(done.deep_view().push(cur@)),
        decreases v.len() - i,
    {
        let ghost d = done.deep_view();
        let ghost x = cur@;
        let c = v[i];
        assert(v@.take(i + 1) =~= v@.take(i as int).push(c));
        if c == '\n' {
            let s = string_of(&cur);
            done.push(s);
            cur = Vec::new();
            proof {
                assert(done.deep_view() =~= d.push(x));
                assert(d.push(x).push(Seq::<char>::empty()).drop_last() =~= d.push(x));
                assert(text_of(d.push(x).push(Seq::<char>::empty())) =~= text_of(d.push(x)) + seq!['\n']);
                let n = d.push(x).push(Seq::<char>::empty());
                assert forall|a: int, b: int| 0 <= a < n.len() && 0 <= b < n[a].len() implies #[trigger] n[a][b] != '\n' by {
                    assert(n[a] == d.push(x)[a]);
                }
            }
        } else {
            cur.push(c);
            proof {
                lemma_join_push(d, x, c);
                let n = d.push(x.push(c));
                assert forall|a: int, b: int| 0 <= a < n.len() && 0 <= b < n[a].len() implies #[trigger] n[a][b] != '\n' by {
                    if a < d.len() {
                        assert(n[a] == d.push(x)[a]);
                    } else {
                        assert(n[a] == x.push(c));
                        if b < x.len() {
                            assert(d.push(x)[a][b] == x[b]);
                        }
                    }
                }
            }
        }
        i = i + 1;
    }
    let ghost d = done.deep_view();
    let s = string_of(&cur);
    done.push(s);
    proof {
        assert(done.deep_view() =~= d.push(cur@));
        assert(v@.take(v@.len() as int) =~= v@);
    }
    done
}

/// The cursor position at character `o` of `v`.
fn cursor_of(v: &Vec<char>, o: usize) -> (r: (usize, usize))
    requires
        o <= v@.len(),
    ensures
        r.0 == cursor_at(v@, o as int).0,
        r.1 == cursor_at(v@, o as int).1,
{
    let mut line: usize = 0;
    let mut col: usize = 0;
    let mut i: usize = 0;
    while i < o
        invariant
            o <= v@.len(),
            i <= o,
            line == newline_count(v@.take(i as int)),
            col == chars_since_newline(v@.take(i as int)),
            line <= i,
            col <= i,
        decreases o - i,
    {
        assert(v@.take(i + 1).drop_last() =~= v@.take(i as int));
        if v[i] == '\n' {
            line = line + 1;
            col = 0;
        } else {
            col = col + 1;
        }
        i = i + 1;
    }
    (line, col)
}

/// The position moved into the lines: the last line when it is below
/// them, the end of its line when it is past it.
pub fn clamp_position(lines: &Vec<String>, p: (usize, usize)) -> (r: (usize, usize))
    requires
        lines@.len() >= 1,
    ensures
        valid_pos(lines.deep_view(), r),
        r.0 == if p.0 < lines@.len() { p.0 as int } else { lines@.len() - 1 },
        r.1 == if p.1 <= lines.deep_view()[r.0 as int].len() { p.1 as int } else { lines.deep_view()[r.0 as int].len() as int },
{
    let row = if p.0 < lines.len() { p.0 } else { lines.len() - 1 };
    let n = to_chars(lines[row].as_str()).len();
    assert(lines[row as int]@ == lines.deep_view()[row as int]);
    let col = if p.1 <= n { p.1 } else { n };
    (row, col)
}

/// Deletes the block between the markers (in either order); the cursor
/// goes to where the block was.  Returns the new lines and cursor.
pub fn delete_block(lines: &Vec<String>, begin: (usize, usize), end: (usize, usize)) -> (r: (Vec<String>, (usize, usize)))
    requires
        valid_pos(lines.deep_view(), begin),
        valid_pos(lines.deep_view(), end),
    ensures
        lines_of_text(r.0.deep_view(), without_block(lines.deep_view(), begin, end)),
        r.1.0 == cursor_at(without_block(lines.deep_view(), begin, end), block_bounds(lines.deep_view(), begin, end).0).0,
        r.1.1 == cursor_at(without_block(lines.deep_view(), begin, end), block_bounds(lines.deep_view(), begin, end).0).1,
{
    let ghost ls = lines.deep_view();
    let t = to_chars(join_lines(lines).as_str());
    let (s, f) = normalize_range(begin, end);
    proof {
        lemma_pos_offset(ls, s, f);
    }
    let a = offset_of(lines, s, t.len());
    let b = offset_of(lines, f, t.len());
    let mut out: Vec<char> = Vec::new();
    push_range(&mut out, &t, 0, a);
    push_range(&mut out, &t, b, t.len());
    assert(out@ =~= without_block(ls, begin, end));
    let cur = cursor_of(&out, a);
    (split_at_breaks(&out), cur)
}

/// Copies the block between the markers (in either order) to the cursor;
/// the cursor ends after the copy.  Returns the new lines and cursor.
pub fn copy_block(lines: &Vec<String>, cursor: (usize, usize), begin: (usize, usize), end: (usize, usize)) -> (r: (Vec<String>, (usize, usize)))
    requires
        valid_pos(lines.deep_view(), cursor),
        valid_pos(lines.deep_view(), begin),
        valid_pos(lines.deep_view(), end),
    ensures
        lines_of_text(r.0.deep_view(), copied_text(lines.deep_view(), cursor, begin, end)),
        r.1.0 == cursor_at(
            copied_text(lines.deep_view(), cursor, begin, end),
            pos_offset(lines.deep_view(), cursor) + block_chars(lines.deep_view(), begin, end).len(),
        ).0,
        r.1.1 == cursor_at(
            copied_text(lines.deep_view(), cursor, begin, end),
            pos_offset(lines.deep_view(), cursor) + block_chars(lines.deep_view(), begin, end).len(),
        ).1,
{
    let ghost ls = lines.deep_view();
    let t = to_chars(join_lines(lines).as_str());
    let (s, f) = normalize_range(begin, end);
    proof {
        lemma_pos_offset(ls, s, f);
        lemma_pos_offset(ls, cursor, cursor);
    }
    let a = offset_of(lines, s, t.len());
    let b = offset_of(lines, f, t.len());
    let c = offset_of(lines, cursor, t.len());
    let mut out: Vec<char> = Vec::new();
    push_range(&mut out, &t, 0, c);
    push_range(&mut out, &t, a, b);
    push_range(&mut out, &t, c, t.len());
    assert(out@ =~= copied_text(ls, cursor, begin, end));
    assert(out@.len() == c + (b - a) + (t@.len() - c));
    let total = out.len();
    assert(c + (b - a) <= total);
    let cur = cursor_of(&out, c + (b - a));
    (split_at_breaks(&out), cur)
}

/// Moves the block between the markers (in either order) to the cursor:
/// the block is taken out and put in where the cursor is then (a cursor
/// inside the block puts it back in place); the cursor ends after it.
/// Returns the new lines and cursor.
pub fn move_block(lines: &Vec<String>, cursor: (usize, usize), begin: (usize, usize), end: (usize, usize)) -> (r: (Vec<String>, (usize, usize)))
    requires
        valid_pos(lines.deep_view(), cursor),
        valid_pos(lines.deep_view(), begin),
        valid_pos(lines.deep_view(), end),
    ensures
        lines_of_text(r.0.deep_view(), moved_text(lines.deep_view(), cursor, begin, end)),
        r.1.0 == cursor_at(
            moved_text(lines.deep_view(), cursor, begin, end),
            after_removal(
                pos_offset(lines.deep_view(), cursor),
                block_bounds(lines.deep_view(), begin, end).0,
                block_bounds(lines.deep_view(), begin, end).1,
            ) + block_chars(lines.deep_view(), begin, end).len(),
        ).0,
        r.1.1 == cursor_at(
            moved_text(lines.deep_view(), cursor, begin, end),
            after_removal(
                pos_offset(lines.deep_view(), cursor),
                block_bounds(lines.deep_view(), begin, end).0,
                block_bounds(lines.deep_view(), begin, end).1,
            ) + block_chars(lines.deep_view(), begin, end).len(),
        ).1,
{
    let ghost ls = lines.deep_view();
    let t = to_chars(join_lines(lines).as_str());
    let (s, f) = normalize_range(begin, end);
    proof {
        lemma_pos_offset(ls, s, f);
        lemma_pos_offset(ls, cursor, cursor);
    }
    let a = offset_of(lines, s, t.len());
    let b = offset_of(lines, f, t.len());
    let c = offset_of(lines, cursor, t.len());
    let mut rest: Vec<char> = Vec::new();
    push_range(&mut rest, &t, 0, a);
    push_range(&mut rest, &t, b, t.len());
    assert(rest@ =~= without_block(ls, begin, end));
    let c2 = if c <= a { c } else if c >= b { c - (b - a) } else { a };
    let mut out: Vec<char> = Vec::new();
    push_range(&mut out, &rest, 0, c2);
    push_range(&mut out, &t, a, b);
    push_range(&mut out, &rest, c2, rest.len());
    assert(out@ =~= moved_text(ls, cursor, begin, end));
    let cur = cursor_of(&out, c2 + (b - a));
    (split_at_breaks(&out), cur)
}

/// Moving a block to a cursor within it (its ends included) leaves the
/// text as it was; deleting a block leaves the text before and after it.
pub proof fn law_block_edits(ls: Seq<Seq<char>>, cursor: (usize, usize), begin: (usize, usize), end: (usize, usize))
    requires
        valid_pos(ls, cursor),
        valid_pos(ls, begin),
        valid_pos(ls, end),
    ensures
        block_bounds(ls, begin, end).0 <= pos_offset(ls, cursor) <= block_bounds(ls, begin, end).1
            ==> moved_text(ls, cursor, begin, end) == text_of(ls),
        without_block(ls, begin, end).len() == text_of(ls).len() - block_chars(ls, begin, end).len(),
        copied_text(ls, cursor, begin, end).len() == text_of(ls).len() + block_chars(ls, begin, end).len(),
{
    let (s, f) = ordered(begin, end);
    lemma_pos_offset(ls, s, f);
    lemma_pos_offset(ls, cursor, cursor);
    let t = text_of(ls);
    let (a, b) = block_bounds(ls, begin, end);
    let c = pos_offset(ls, cursor);
    if a <= c <= b {
        let rest = without_block(ls, begin, end);
        assert(after_removal(c, a, b) == a);
        assert(rest.take(a) =~= t.take(a));
        assert(rest.skip(a) =~= t.skip(b));
        assert(t.take(a) + t.subrange(a, b) + t.skip(b) =~= t);
    }
}

} // verus!
