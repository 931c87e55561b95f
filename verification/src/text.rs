//! Character-level text utilities shared by the rest of the library.
//!
//! Strings are modelled by their `Seq<char>` views; byte offsets (as used by
//! `str` slicing) are the lengths of the UTF-8 encodings of prefixes.
use vstd::prelude::*;
use vstd::utf8::*;

verus! {

broadcast use vstd::utf8::char_is_scalar;

// ---------------------------------------------------------------------------
// Building strings
// ---------------------------------------------------------------------------

/// Appends one character to a `String` (`String::push`).
#[verifier::external_body]
pub(crate) fn push_char(s: &mut String, c: char)
    ensures
        final(s)@ == old(s)@.push(c),
{
    s.push(c);
}

/// The characters of `s`, in order.
pub fn to_chars(s: &str) -> (v: Vec<char>)
    ensures
        v@ == s@,
{
    let mut v: Vec<char> = Vec::new();
    for c in it: s.chars()
        invariant
            v@ == it.seq().take(it.index() as int),
            it.seq() == s@,
    {
        v.push(c);
    }
    v
}

/// The string made of the characters `v[lo..hi]`.
pub fn from_chars(v: &Vec<char>, lo: usize, hi: usize) -> (s: String)
    requires
        lo <= hi <= v@.len(),
    ensures
        s@ == v@.subrange(lo as int, hi as int),
{
    let mut s = String::new();
    let mut i = lo;
    while i < hi
        invariant
            lo <= i <= hi <= v@.len(),
            s@ == v@.subrange(lo as int, i as int),
        decreases hi - i,
    {
        push_char(&mut s, v[i]);
        i = i + 1;
    }
    s
}

/// The string made of all characters of `v`.
pub fn string_of(v: &Vec<char>) -> (s: String)
    ensures
        s@ == v@,
{
    from_chars(v, 0, v.len())
}

/// The deep view of a character vector is its view.
pub proof fn lemma_chars_deep_view(v: &Vec<char>)
    ensures
        v.deep_view() == v@,
{
    assert(v.deep_view() =~= v@);
}

// ---------------------------------------------------------------------------
// Prefixes
// ---------------------------------------------------------------------------

/// `s` holds the characters `p` starting at position `i`.
pub open spec fn matches_at(s: Seq<char>, i: int, p: Seq<char>) -> bool {
    0 <= i && i + p.len() <= s.len() && s.subrange(i, i + p.len()) == p
}

/// Whether `v[i..]` starts with `p`.
pub fn has_at(v: &Vec<char>, i: usize, p: &[char]) -> (r: bool)
    ensures
        r == matches_at(v@, i as int, p@),
{
    if i > v.len() || p.len() > v.len() - i {
        return false;
    }
    let mut k: usize = 0;
    while k < p.len()
        invariant
            i + p@.len() <= v@.len(),
            i + p.len() <= v.len(),
            k <= p@.len(),
            forall|j: int| 0 <= j < k ==> v@[i + j] == p@[j],
        decreases p.len() - k,
    {
        if v[i + k] != p[k] {
            assert(v@.subrange(i as int, i + p@.len())[k as int] != p@[k as int]);
            return false;
        }
        k = k + 1;
    }
    assert(v@.subrange(i as int, i + p@.len()) =~= p@);
    true
}

// ---------------------------------------------------------------------------
// Character classes
// ---------------------------------------------------------------------------

/// Whether `c` has the Unicode `Alphabetic` property, as `char::is_alphabetic`
/// decides it from the Unicode tables.
pub uninterp spec fn alphabetic(c: char) -> bool;

/// `char::is_alphabetic`.  The contract names the result: it depends on the
/// character alone; the Unicode tables themselves are not restated.
#[verifier::external_body]
pub(crate) fn is_alphabetic(c: char) -> (r: bool)
    ensures
        r == alphabetic(c),
{
    c.is_alphabetic()
}

/// The lower-case form of `s`, as `str::to_lowercase` computes it from the
/// Unicode case tables (one character may become several).
pub uninterp spec fn lowercase(s: Seq<char>) -> Seq<char>;

/// `str::to_lowercase`.  The contract names the result: it depends on the
/// text alone; the Unicode case mapping itself is not restated.
#[verifier::external_body]
pub(crate) fn to_lowercase(s: &str) -> (r: String)
    ensures
        r@ == lowercase(s@),
{
    s.to_lowercase()
}

// ---------------------------------------------------------------------------
// Numbers
// ---------------------------------------------------------------------------

/// The decimal digits of `n`, without leading zeros (`"0"` for zero).
pub open spec fn decimal(n: nat) -> Seq<char>
    decreases n,
{
    if n < 10 {
        seq![('0' as int + n) as char]
    } else {
        decimal(n / 10) + seq![('0' as int + n % 10) as char]
    }
}

/// `n` written in decimal (`n.to_string()`).
pub fn decimal_string(n: usize) -> (s: String)
    ensures
        s@ == decimal(n as nat),
    decreases n,
{
    let mut s = if n < 10 { String::new() } else { decimal_string(n / 10) };
    let d: u8 = (n % 10) as u8;
    push_char(&mut s, (48u8 + d) as char);
    proof {
        if n < 10 {
            assert(s@ =~= decimal(n as nat));
        }
    }
    s
}

/// `n` spaces.
pub fn spaces(n: usize) -> (s: String)
    ensures
        s@ == Seq::new(n as nat, |i: int| ' '),
{
    let mut s = String::new();
    let mut i: usize = 0;
    while i < n
        invariant
            i <= n,
            s@ == Seq::new(i as nat, |j: int| ' '),
        decreases n - i,
    {
        push_char(&mut s, ' ');
        i = i + 1;
        assert(s@ =~= Seq::new(i as nat, |j: int| ' '));
    }
    s
}

// ---------------------------------------------------------------------------
// Whitespace
// ---------------------------------------------------------------------------

/// The Unicode `White_Space` property (the characters for which
/// `char::is_whitespace` holds).
pub open spec fn is_ws(c: char) -> bool {
    ||| '\t' <= c <= '\r'
    ||| c == ' '
    ||| c == '\u{85}'
    ||| c == '\u{a0}'
    ||| c == '\u{1680}'
    ||| '\u{2000}' <= c <= '\u{200a}'
    ||| c == '\u{2028}'
    ||| c == '\u{2029}'
    ||| c == '\u{202f}'
    ||| c == '\u{205f}'
    ||| c == '\u{3000}'
}

/// Whether `c` is a Unicode whitespace character.
pub fn is_whitespace(c: char) -> (r: bool)
    ensures
        r == is_ws(c),
{
    ('\t' <= c && c <= '\r') || c == ' ' || c == '\u{85}' || c == '\u{a0}' || c == '\u{1680}'
        || ('\u{2000}' <= c && c <= '\u{200a}') || c == '\u{2028}' || c == '\u{2029}'
        || c == '\u{202f}' || c == '\u{205f}' || c == '\u{3000}'
}

/// Number of leading whitespace characters of `s`.
pub open spec fn leading_ws(s: Seq<char>) -> nat
    decreases s.len(),
{
    if s.len() == 0 || !is_ws(s[0]) {
        0
    } else {
        1 + leading_ws(s.drop_first())
    }
}

/// `str::trim_start`: `s` without its leading whitespace.
pub open spec fn trim_start(s: Seq<char>) -> Seq<char> {
    s.skip(leading_ws(s) as int)
}

/// Whitespace `ws` put before a text that starts with no whitespace is
/// exactly its leading whitespace.
pub proof fn lemma_leading_ws_prefixed(ws: Seq<char>, t: Seq<char>)
    requires
        forall|j: int| 0 <= j < ws.len() ==> is_ws(#[trigger] ws[j]),
        t.len() > 0,
        !is_ws(t[0]),
    ensures
        leading_ws(ws + t) == ws.len(),
        trim_start(ws + t) == t,
    decreases ws.len(),
{
    if ws.len() == 0 {
        assert(ws + t =~= t);
    } else {
        let d = ws.drop_first();
        assert forall|j: int| 0 <= j < d.len() implies is_ws(#[trigger] d[j]) by {
            assert(d[j] == ws[j + 1]);
        }
        lemma_leading_ws_prefixed(d, t);
        assert((ws + t).drop_first() =~= d + t);
        assert((ws + t)[0] == ws[0]);
    }
    assert((ws + t).skip(ws.len() as int) =~= t);
}

pub proof fn lemma_leading_ws_bound(s: Seq<char>)
    ensures
        leading_ws(s) <= s.len(),
        forall|j: int| 0 <= j < leading_ws(s) ==> is_ws(#[trigger] s[j]),
        leading_ws(s) < s.len() ==> !is_ws(s[leading_ws(s) as int]),
    decreases s.len(),
{
    if s.len() > 0 && is_ws(s[0]) {
        lemma_leading_ws_bound(s.drop_first());
        assert forall|j: int| 0 <= j < leading_ws(s) implies is_ws(#[trigger] s[j]) by {
            if j > 0 {
                assert(s[j] == s.drop_first()[j - 1]);
            }
        }
    }
}

/// Characterises `leading_ws` by the first non-whitespace position.
pub proof fn lemma_leading_ws_is(s: Seq<char>, k: int)
    requires
        0 <= k <= s.len(),
        forall|j: int| 0 <= j < k ==> is_ws(#[trigger] s[j]),
        k < s.len() ==> !is_ws(s[k]),
    ensures
        leading_ws(s) == k,
    decreases k,
{
    if k > 0 {
        let t = s.drop_first();
        assert forall|j: int| 0 <= j < k - 1 implies is_ws(#[trigger] t[j]) by {
            assert(t[j] == s[j + 1]);
        }
        if k - 1 < t.len() {
            assert(t[k - 1] == s[k]);
        }
        lemma_leading_ws_is(t, k - 1);
    }
}

/// Number of leading whitespace characters of `v[from..]`.
pub fn count_leading_ws(v: &Vec<char>, from: usize) -> (n: usize)
    requires
        from <= v@.len(),
    ensures
        n == leading_ws(v@.skip(from as int)),
        from + n <= v@.len(),
{
    let mut i = from;
    while i < v.len() && is_whitespace(v[i])
        invariant
            from <= i <= v@.len(),
            forall|j: int| from <= j < i ==> is_ws(#[trigger] v@[j]),
        decreases v.len() - i,
    {
        i = i + 1;
    }
    proof {
        let t = v@.skip(from as int);
        assert forall|j: int| 0 <= j < i - from implies is_ws(#[trigger] t[j]) by {
            assert(t[j] == v@[from + j]);
        }
        if i - from < t.len() {
            assert(t[i - from] == v@[i as int]);
        }
        lemma_leading_ws_is(t, i - from);
    }
    i - from
}

/// Number of trailing whitespace characters of `s`.
pub open spec fn trailing_ws(s: Seq<char>) -> nat
    decreases s.len(),
{
    if s.len() == 0 || !is_ws(s.last()) {
        0
    } else {
        1 + trailing_ws(s.drop_last())
    }
}

/// `str::trim`: `s` without leading and trailing whitespace.
pub open spec fn trim(s: Seq<char>) -> Seq<char> {
    let t = trim_start(s);
    t.take(t.len() - trailing_ws(t))
}

pub proof fn lemma_trailing_ws_is(s: Seq<char>, k: int)
    requires
        0 <= k <= s.len(),
        forall|j: int| k <= j < s.len() ==> is_ws(#[trigger] s[j]),
        k > 0 ==> !is_ws(s[k - 1]),
    ensures
        trailing_ws(s) == s.len() - k,
    decreases s.len() - k,
{
    if k < s.len() {
        let t = s.drop_last();
        assert forall|j: int| k <= j < t.len() implies is_ws(#[trigger] t[j]) by {
            assert(t[j] == s[j]);
        }
        if k > 0 {
            assert(t[k - 1] == s[k - 1]);
        }
        lemma_trailing_ws_is(t, k);
    }
}

/// The bounds `[lo, hi)` of `trim(v@)` within `v`.
pub fn trim_bounds(v: &Vec<char>) -> (r: (usize, usize))
    ensures
        r.0 <= r.1 <= v@.len(),
        v@.subrange(r.0 as int, r.1 as int) == trim(v@),
        r.0 == leading_ws(v@),
{
    let lo = count_leading_ws(v, 0);
    let mut hi = v.len();
    while hi > lo && is_whitespace(v[hi - 1])
        invariant
            lo <= hi <= v@.len(),
            forall|j: int| hi <= j < v@.len() ==> is_ws(#[trigger] v@[j]),
        decreases hi,
    {
        hi = hi - 1;
    }
    proof {
        assert(v@.skip(0) =~= v@);
        let t = trim_start(v@);
        assert(t =~= v@.skip(lo as int));
        assert forall|j: int| hi - lo <= j < t.len() implies is_ws(#[trigger] t[j]) by {
            assert(t[j] == v@[lo + j]);
        }
        if hi - lo > 0 {
            assert(t[hi - lo - 1] == v@[hi - 1]);
        }
        lemma_trailing_ws_is(t, hi - lo);
        assert(v@.subrange(lo as int, hi as int) =~= t.take(t.len() - trailing_ws(t)));
    }
    (lo, hi)
}

// ---------------------------------------------------------------------------
// Lines (`str::lines`)
// ---------------------------------------------------------------------------

/// Position of the first `'\n'` in `s`, or `s.len()` when there is none.
pub open spec fn newline_index(s: Seq<char>) -> nat
    decreases s.len(),
{
    if s.len() == 0 || s[0] == '\n' {
        0
    } else {
        1 + newline_index(s.drop_first())
    }
}

pub proof fn lemma_newline_index_is(s: Seq<char>, k: int)
    requires
        0 <= k <= s.len(),
        forall|j: int| 0 <= j < k ==> #[trigger] s[j] != '\n',
        k < s.len() ==> s[k] == '\n',
    ensures
        newline_index(s) == k,
    decreases k,
{
    if k > 0 {
        let t = s.drop_first();
        assert forall|j: int| 0 <= j < k - 1 implies #[trigger] t[j] != '\n' by {
            assert(t[j] == s[j + 1]);
        }
        if k - 1 < t.len() {
            assert(t[k - 1] == s[k]);
        }
        lemma_newline_index_is(t, k - 1);
    }
}

pub proof fn lemma_newline_index_bound(s: Seq<char>)
    ensures
        newline_index(s) <= s.len(),
        newline_index(s) < s.len() ==> s[newline_index(s) as int] == '\n',
        forall|j: int| 0 <= j < newline_index(s) ==> #[trigger] s[j] != '\n',
    decreases s.len(),
{
    if s.len() > 0 && s[0] != '\n' {
        let t = s.drop_first();
        lemma_newline_index_bound(t);
        assert forall|j: int| 0 <= j < newline_index(s) implies #[trigger] s[j] != '\n' by {
            if j > 0 {
                assert(s[j] == t[j - 1]);
            }
        }
    }
}

/// A line terminated by `"\r\n"` loses its `'\r'`.
pub open spec fn strip_cr(l: Seq<char>) -> Seq<char> {
    if l.len() > 0 && l.last() == '\r' {
        l.drop_last()
    } else {
        l
    }
}

/// The lines of `s` as `str::lines` yields them: split at `'\n'`, a `'\r'`
/// before the `'\n'` dropped, and no empty line after a final `'\n'`.
pub open spec fn lines_of(s: Seq<char>) -> Seq<Seq<char>>
    decreases s.len(),
{
    if s.len() == 0 {
        seq![]
    } else {
        let k = newline_index(s);
        if k >= s.len() {
            seq![s]
        } else {
            seq![strip_cr(s.take(k as int))] + lines_of(s.skip((k + 1) as int))
        }
    }
}

/// The lines of the character vector `v` (see [`lines_of`]).
pub fn split_lines_chars(v: &Vec<char>) -> (out: Vec<Vec<char>>)
    ensures
        out.deep_view() == lines_of(v@),
{
    let mut out: Vec<Vec<char>> = Vec::new();
    let mut cur: Vec<char> = Vec::new();
    let mut i: usize = 0;
    let mut st: usize = 0;
    assert(v@.skip(0) =~= v@);
    while i < v.len()
        invariant
            st <= i <= v@.len(),
            lines_of(v@) =~= out.deep_view() + lines_of(v@.skip(st as int)),
            cur@ == v@.subrange(st as int, i as int),
            forall|j: int| st <= j < i ==> #[trigger] v@[j] != '\n',
        decreases v.len() - i,
    {
        if v[i] == '\n' {
            proof {
                let t = v@.skip(st as int);
                assert forall|j: int| 0 <= j < i - st implies #[trigger] t[j] != '\n' by {
                    assert(t[j] == v@[st + j]);
                }
                lemma_newline_index_is(t, i - st);
                assert(t.take(i - st) =~= cur@);
                assert(t.skip(i - st + 1) =~= v@.skip(i + 1));
            }
            let mut line = cur;
            if line.len() > 0 && line[line.len() - 1] == '\r' {
                line.pop();
            }
            let ghost before = out.deep_view();
            let ghost lv = line@;
            proof {
                assert(lv =~= strip_cr(cur@));
                lemma_chars_deep_view(&line);
            }
            out.push(line);
            proof {
                assert(out.deep_view() =~= before + seq![lv]);
            }
            cur = Vec::new();
            st = i + 1;
        } else {
            cur.push(v[i]);
        }
        i = i + 1;
    }
    proof {
        let t = v@.skip(st as int);
        assert forall|j: int| 0 <= j < t.len() implies #[trigger] t[j] != '\n' by {
            assert(t[j] == v@[st + j]);
        }
        lemma_newline_index_is(t, t.len() as int);
    }
    if st < v.len() {
        let ghost before = out.deep_view();
        let ghost cv = cur@;
        proof {
            assert(v@.skip(st as int) =~= cv);
            lemma_chars_deep_view(&cur);
        }
        out.push(cur);
        proof {
            assert(out.deep_view() =~= before + seq![cv]);
        }
    } else {
        proof {
            assert(v@.skip(st as int) =~= Seq::<char>::empty());
            assert(out.deep_view() + Seq::<Seq<char>>::empty() =~= out.deep_view());
        }
    }
    out
}


/// The strings of a vector of character vectors.
pub fn strings_of(v: &Vec<Vec<char>>) -> (out: Vec<String>)
    ensures
        out.deep_view() == v.deep_view(),
{
    let mut out: Vec<String> = Vec::new();
    let mut i: usize = 0;
    while i < v.len()
        invariant
            i <= v@.len(),
            out.deep_view() =~= v.deep_view().take(i as int),
        decreases v.len() - i,
    {
        let s = string_of(&v[i]);
        let ghost before = out.deep_view();
        proof {
            lemma_chars_deep_view(&v@[i as int]);
        }
        out.push(s);
        proof {
            assert(out.deep_view() =~= before.push(v.deep_view()[i as int]));
            assert(v.deep_view().take(i + 1) =~= v.deep_view().take(i as int).push(v.deep_view()[i as int]));
        }
        i = i + 1;
    }
    assert(v.deep_view().take(v@.len() as int) =~= v.deep_view());
    out
}

/// The lines of `s`, as `str::lines` yields them.
pub fn split_lines(s: &str) -> (out: Vec<String>)
    ensures
        out.deep_view() == lines_of(s@),
{
    let v = to_chars(s);
    let ls = split_lines_chars(&v);
    strings_of(&ls)
}

/// `ls` joined with `sep` between consecutive elements (`[T]::join`).
pub open spec fn join_with(ls: Seq<Seq<char>>, sep: Seq<char>) -> Seq<char>
    decreases ls.len(),
{
    if ls.len() == 0 {
        seq![]
    } else if ls.len() == 1 {
        ls[0]
    } else {
        join_with(ls.drop_last(), sep) + sep + ls.last()
    }
}

/// The number of line breaks in `s`.
pub open spec fn newline_count(s: Seq<char>) -> int
    decreases s.len(),
{
    if s.len() == 0 {
        0
    } else {
        newline_count(s.drop_last()) + if s.last() == '\n' { 1int } else { 0int }
    }
}

/// The number of characters of `s` after its last line break (all of them
/// when there is none).
pub open spec fn chars_since_newline(s: Seq<char>) -> int
    decreases s.len(),
{
    if s.len() == 0 {
        0
    } else if s.last() == '\n' {
        0
    } else {
        chars_since_newline(s.drop_last()) + 1
    }
}

/// The lines joined with `'\n'` between them.
pub fn join_lines(lines: &Vec<String>) -> (r: String)
    ensures
        r@ == join_with(lines.deep_view(), seq!['\n']),
{
    let mut r = String::new();
    let mut i: usize = 0;
    while i < lines.len()
        invariant
            i <= lines@.len(),
            r@ == join_with(lines.deep_view().take(i as int), seq!['\n']),
        decreases lines.len() - i,
    {
        proof {
            assert(lines.deep_view().take(i + 1).drop_last() =~= lines.deep_view().take(i as int));
        }
        if i > 0 {
            push_char(&mut r, '\n');
        }
        r.append(lines[i].as_str());
        i = i + 1;
        proof {
            let t = lines.deep_view().take(i as int);
            if i == 1 {
                assert(r@ =~= t[0]);
            } else {
                assert(r@ =~= join_with(t.drop_last(), seq!['\n']) + seq!['\n'] + t.last());
            }
        }
    }
    assert(lines.deep_view().take(lines@.len() as int) =~= lines.deep_view());
    r
}

// ---------------------------------------------------------------------------
// UTF-8 byte lengths
// ---------------------------------------------------------------------------

/// Number of bytes of the UTF-8 encoding of `s` (`str::len`).
pub open spec fn blen(s: Seq<char>) -> nat {
    encode_utf8(s).len()
}

/// The length of `s` in bytes (`str::len`).
pub fn str_blen(s: &str) -> (n: usize)
    ensures
        n == blen(s@),
{
    s.as_bytes().len()
}

/// Number of bytes of the UTF-8 encoding of `c` (`char::len_utf8`).
pub open spec fn char_blen(c: char) -> nat {
    encode_scalar(c as u32).len()
}

pub proof fn lemma_encode_utf8_add(a: Seq<char>, b: Seq<char>)
    ensures
        encode_utf8(a + b) == encode_utf8(a) + encode_utf8(b),
    decreases a.len(),
{
    if a.len() == 0 {
        assert(a + b =~= b);
        assert(encode_utf8(a) + encode_utf8(b) =~= encode_utf8(b));
    } else {
        assert((a + b).drop_first() =~= a.drop_first() + b);
        lemma_encode_utf8_add(a.drop_first(), b);
        assert((a + b)[0] == a[0]);
        assert(encode_utf8(a + b) =~= encode_scalar(a[0] as u32) + encode_utf8(a.drop_first() + b));
    }
}

pub proof fn lemma_blen_add(a: Seq<char>, b: Seq<char>)
    ensures
        blen(a + b) == blen(a) + blen(b),
{
    lemma_encode_utf8_add(a, b);
}

pub proof fn lemma_blen_push(a: Seq<char>, c: char)
    ensures
        blen(a.push(c)) == blen(a) + char_blen(c),
{
    assert(a.push(c) =~= a + seq![c]);
    lemma_encode_utf8_add(a, seq![c]);
    assert(seq![c].drop_first() =~= Seq::<char>::empty());
    assert(encode_utf8(seq![c]) =~= encode_scalar(c as u32) + encode_utf8(Seq::<char>::empty()));
}

pub proof fn lemma_char_blen_range(c: char)
    ensures
        1 <= char_blen(c) <= 4,
        (c as u32) < 0x80 ==> char_blen(c) == 1,
{
}

/// The number of bytes of the UTF-8 encoding of `c`.
pub fn len_utf8(c: char) -> (n: usize)
    ensures
        n == char_blen(c),
{
    let u = c as u32;
    if u <= 0x7f {
        1
    } else if u <= 0x7ff {
        2
    } else if u <= 0xffff {
        3
    } else {
        4
    }
}


// ---------------------------------------------------------------------------
// Byte positions within strings
// ---------------------------------------------------------------------------

/// `b` is a character boundary of `s`: the byte length of some prefix.
pub open spec fn is_boundary(s: Seq<char>, b: int) -> bool {
    exists|k: int| 0 <= k <= s.len() && blen(s.take(k)) == b
}

/// The number of characters before the byte position `b`.
pub open spec fn char_pos(s: Seq<char>, b: int) -> int {
    choose|k: int| 0 <= k <= s.len() && blen(s.take(k)) == b
}

pub proof fn lemma_blen_take_step(s: Seq<char>, k: int)
    requires
        0 <= k < s.len(),
    ensures
        blen(s.take(k + 1)) == blen(s.take(k)) + char_blen(s[k]),
        char_blen(s[k]) >= 1,
{
    assert(s.take(k + 1) =~= s.take(k).push(s[k]));
    lemma_blen_push(s.take(k), s[k]);
    lemma_char_blen_range(s[k]);
}

pub proof fn lemma_blen_take_strict(s: Seq<char>, i: int, j: int)
    requires
        0 <= i < j <= s.len(),
    ensures
        blen(s.take(i)) < blen(s.take(j)),
    decreases j - i,
{
    lemma_blen_take_step(s, j - 1);
    if i < j - 1 {
        lemma_blen_take_strict(s, i, j - 1);
    }
}

pub proof fn lemma_char_pos(s: Seq<char>, b: int)
    requires
        is_boundary(s, b),
    ensures
        0 <= char_pos(s, b) <= s.len(),
        blen(s.take(char_pos(s, b))) == b,
        forall|k: int| 0 <= k <= s.len() && blen(s.take(k)) == b ==> k == char_pos(s, b),
{
    let k0 = char_pos(s, b);
    assert forall|k: int| 0 <= k <= s.len() && blen(s.take(k)) == b implies k == k0 by {
        if k < k0 {
            lemma_blen_take_strict(s, k, k0);
        } else if k > k0 {
            lemma_blen_take_strict(s, k0, k);
        }
    }
}

/// The character index of the byte position `b` in `v`.
pub fn char_index_at(v: &Vec<char>, b: usize) -> (k: usize)
    requires
        is_boundary(v@, b as int),
    ensures
        k == char_pos(v@, b as int),
{
    proof {
        lemma_char_pos(v@, b as int);
        assert(v@.take(0) =~= Seq::<char>::empty());
    }
    let ghost k0 = char_pos(v@, b as int);
    let mut i: usize = 0;
    let mut bpos: usize = 0;
    while bpos < b
        invariant
            i <= k0 <= v@.len(),
            bpos == blen(v@.take(i as int)),
            blen(v@.take(k0)) == b,
        decreases b - bpos,
    {
        proof {
            if i == k0 {
                assert(false);
            }
            lemma_blen_take_step(v@, i as int);
            if i + 1 < k0 {
                lemma_blen_take_strict(v@, i + 1, k0);
            }
        }
        assert(i < v.len());
        bpos = bpos + len_utf8(v[i]);
        i = i + 1;
    }
    proof {
        if i < k0 {
            lemma_blen_take_strict(v@, i as int, k0);
        }
    }
    i
}


/// `s` with `c` inserted at the byte position `b` (`String::insert`).
pub open spec fn insert_at(s: Seq<char>, b: int, c: char) -> Seq<char> {
    let k = char_pos(s, b);
    s.take(k).push(c) + s.skip(k)
}

/// `s` without the character that ends at the byte position `b`.
pub open spec fn remove_before(s: Seq<char>, b: int) -> Seq<char> {
    let k = char_pos(s, b);
    s.take(k - 1) + s.skip(k)
}

/// Byte length of the character just before the byte position `b`
/// (0 at the start).
pub open spec fn prev_char_blen(s: Seq<char>, b: int) -> nat {
    let k = char_pos(s, b);
    if k > 0 { char_blen(s[k - 1]) } else { 0 }
}

/// Byte length of the character just after the byte position `b`
/// (0 at the end).
pub open spec fn next_char_blen(s: Seq<char>, b: int) -> nat {
    let k = char_pos(s, b);
    if k < s.len() { char_blen(s[k]) } else { 0 }
}

pub proof fn lemma_blen_take_le(s: Seq<char>, i: int)
    requires
        0 <= i <= s.len(),
    ensures
        blen(s.take(i)) <= blen(s),
{
    assert(s =~= s.take(i) + s.skip(i));
    lemma_blen_add(s.take(i), s.skip(i));
}

/// Inserts `c` at the byte position `b` of `s`; returns the new string and
/// the byte position after the inserted character.
pub fn insert_char_at(s: &String, b: usize, c: char) -> (r: (String, usize))
    requires
        is_boundary(s@, b as int),
        blen(s@) + 4 <= usize::MAX,
    ensures
        r.0@ == insert_at(s@, b as int, c),
        r.1 == b + char_blen(c),
        is_boundary(r.0@, r.1 as int),
        blen(r.0@) == blen(s@) + char_blen(c),
{
    let v = to_chars(s.as_str());
    let k = char_index_at(&v, b);
    proof {
        lemma_char_pos(s@, b as int);
        lemma_blen_take_le(s@, k as int);
        lemma_char_blen_range(c);
    }
    let mut r = from_chars(&v, 0, k);
    push_char(&mut r, c);
    let mut i = k;
    while i < v.len()
        invariant
            k <= i <= v@.len(),
            r@ == v@.take(k as int).push(c) + v@.subrange(k as int, i as int),
        decreases v.len() - i,
    {
        push_char(&mut r, v[i]);
        i = i + 1;
        proof {
            assert(r@ =~= v@.take(k as int).push(c) + v@.subrange(k as int, i as int));
        }
    }
    proof {
        let t = r@;
        assert(v@.subrange(k as int, v@.len() as int) =~= v@.skip(k as int));
        assert(t.take(k + 1) =~= v@.take(k as int).push(c));
        lemma_blen_push(v@.take(k as int), c);
        assert(is_boundary(t, b + char_blen(c)));
        assert(v@ =~= v@.take(k as int) + v@.skip(k as int));
        lemma_blen_add(v@.take(k as int), v@.skip(k as int));
        lemma_blen_add(v@.take(k as int).push(c), v@.skip(k as int));
    }
    let nb = b + len_utf8(c);
    (r, nb)
}

/// Removes the character before the byte position `b` of `s` (nothing at the
/// start); returns the new string and the new byte position.
pub fn remove_char_before(s: &String, b: usize) -> (r: (String, usize))
    requires
        is_boundary(s@, b as int),
    ensures
        b == 0 ==> r.0@ == s@ && r.1 == 0,
        b > 0 ==> r.0@ == remove_before(s@, b as int) && r.1 == b - prev_char_blen(s@, b as int),
        is_boundary(r.0@, r.1 as int),
{
    proof {
        lemma_char_pos(s@, b as int);
        assert(s@.take(0) =~= Seq::<char>::empty());
    }
    if b == 0 {
        proof {
            assert(is_boundary(s@, 0));
        }
        return (s.clone(), 0);
    }
    let v = to_chars(s.as_str());
    let k = char_index_at(&v, b);
    proof {
        if k == 0 {
            assert(false);
        }
        lemma_blen_take_step(v@, k - 1);
        assert(v@.take(k - 1) + v@.skip(k as int) =~= v@.take(k - 1) + v@.skip(k as int));
    }
    let mut r = from_chars(&v, 0, k - 1);
    let mut i = k;
    while i < v.len()
        invariant
            1 <= k <= i <= v@.len(),
            r@ == v@.take(k - 1) + v@.subrange(k as int, i as int),
        decreases v.len() - i,
    {
        push_char(&mut r, v[i]);
        i = i + 1;
        proof {
            assert(r@ =~= v@.take(k - 1) + v@.subrange(k as int, i as int));
        }
    }
    proof {
        assert(v@.subrange(k as int, v@.len() as int) =~= v@.skip(k as int));
        assert(r@.take(k - 1) =~= v@.take(k - 1));
    }
    let nb = b - len_utf8(v[k - 1]);
    (r, nb)
}

/// The byte position one character to the left of `b` (or 0).
pub fn step_left(s: &String, b: usize) -> (nb: usize)
    requires
        is_boundary(s@, b as int),
    ensures
        nb == b - prev_char_blen(s@, b as int),
        is_boundary(s@, nb as int),
{
    proof {
        lemma_char_pos(s@, b as int);
        assert(s@.take(0) =~= Seq::<char>::empty());
    }
    if b == 0 {
        return 0;
    }
    let v = to_chars(s.as_str());
    let k = char_index_at(&v, b);
    proof {
        if k == 0 {
            assert(false);
        }
        lemma_blen_take_step(v@, k - 1);
    }
    b - len_utf8(v[k - 1])
}

/// The byte position one character to the right of `b` (or `b` at the end).
pub fn step_right(s: &String, b: usize) -> (nb: usize)
    requires
        is_boundary(s@, b as int),
        blen(s@) <= usize::MAX,
    ensures
        nb == b + next_char_blen(s@, b as int),
        is_boundary(s@, nb as int),
{
    let v = to_chars(s.as_str());
    let k = char_index_at(&v, b);
    proof {
        lemma_char_pos(s@, b as int);
    }
    if k < v.len() {
        proof {
            lemma_blen_take_step(v@, k as int);
            lemma_blen_take_le(v@, k + 1);
        }
        b + len_utf8(v[k])
    } else {
        b
    }
}

} // verus!
