//! The find and find-and-replace dialog: the search and replacement texts,
//! finding the next match, and replacing matches.
//!
//! Unless the search is case-sensitive, matching works on the lower-case
//! forms of the search text and of the document, and the offsets found are
//! offsets into the lower-case document.
use vstd::prelude::*;
use crate::editor::block::{byte_slice, slice_bytes};
use crate::text::{
    blen, char_blen, char_pos, from_chars, insert_at, insert_char_at, is_boundary, lemma_blen_take_step,
    lemma_blen_take_strict, lemma_blen_take_le, lemma_char_pos, len_utf8, lowercase, matches_at, prev_char_blen,
    remove_before, remove_char_before, str_blen, to_chars, to_lowercase, string_of,
};

verus! {

#[derive(Debug, Clone, Copy, PartialEq, Eq, Structural)]
pub enum FindMode {
    Find,
    Replace,
}

#[derive(Debug, Clone, Copy, PartialEq, Eq, Structural)]
pub enum FindField {
    Search,
    Replace,
}

pub struct FindDialogState {
    pub mode: FindMode,
    pub search_term: String,
    pub replace_term: String,
    pub search_cursor: usize,
    pub replace_cursor: usize,
    pub active_field: FindField,
    pub case_sensitive: bool,
    pub last_match_offset: Option<usize>,
}

/// The first character index `k' >= k` where `needle` occurs in `h`.
pub open spec fn first_match(h: Seq<char>, k: int, needle: Seq<char>) -> Option<int>
    decreases h.len() + 1 - k,
{
    if k < 0 || k + needle.len() > h.len() {
        None
    } else if matches_at(h, k, needle) {
        Some(k)
    } else {
        first_match(h, k + 1, needle)
    }
}

/// The byte offset in `h` of the first occurrence of `needle` at or after
/// byte `start` (`h[start..].find(needle)`, as an offset into `h`).
pub open spec fn find_from(h: Seq<char>, start: int, needle: Seq<char>) -> Option<int> {
    match first_match(h, char_pos(h, start), needle) {
        Some(k) => Some(blen(h.take(k)) as int),
        None => None,
    }
}

/// `t` with every occurrence of `s` replaced by `r`, left to right, as
/// `str::replace` does (an empty `s` occurs before every character and at
/// the end).
pub open spec fn replaced(t: Seq<char>, s: Seq<char>, r: Seq<char>) -> Seq<char>
    decreases t.len(),
{
    if s.len() == 0 {
        if t.len() == 0 {
            r
        } else {
            r + seq![t[0]] + replaced(t.drop_first(), s, r)
        }
    } else if matches_at(t, 0, s) {
        r + replaced(t.skip(s.len() as int), s, r)
    } else if t.len() == 0 {
        seq![]
    } else {
        seq![t[0]] + replaced(t.drop_first(), s, r)
    }
}

/// The case-insensitive replacement scan, from byte `pos` of the lower-case
/// text `lt` with the text `t` copied from byte `last` on: each match of
/// the lower-case search `ls` is replaced by `r` and the scan jumps `n`
/// bytes (the length of the search text as typed); other characters are
/// passed one byte at a time.  `None` where the scan would cut a string
/// inside a character.
pub open spec fn ci_replaced(lt: Seq<char>, t: Seq<char>, ls: Seq<char>, r: Seq<char>, n: int, pos: int, last: int) -> Option<Seq<char>>
    decreases blen(lt) + 1 - pos,
{
    if n <= 0 || pos < 0 || last < 0 {
        None
    } else if pos >= blen(lt) {
        if last <= blen(t) && is_boundary(t, last) {
            Some(byte_slice(t, last, blen(t) as int))
        } else {
            None
        }
    } else if !is_boundary(lt, pos) {
        None
    } else if matches_at(lt, char_pos(lt, pos), ls) {
        if pos + n > usize::MAX {
            None
        } else if last <= pos <= blen(t) && is_boundary(t, last) && is_boundary(t, pos) {
            let next = if pos + n >= blen(lt) { blen(lt) as int } else { pos + n };
            match ci_replaced(lt, t, ls, r, n, next, pos + n) {
                Some(rest) => Some(byte_slice(t, last, pos) + r + rest),
                None => None,
            }
        } else {
            None
        }
    } else if char_blen(lt[char_pos(lt, pos)]) > 1 {
        None
    } else {
        ci_replaced(lt, t, ls, r, n, pos + 1, last)
    }
}

/// `t` with every occurrence of `s` replaced by `r`.
fn replace_plain(t: &Vec<char>, s: &Vec<char>, r: &str) -> (out: String)
    ensures
        out@ == replaced(t@, s@, r@),
{
    let mut out = String::new();
    let mut i: usize = 0;
    proof {
        assert(t@.skip(0) =~= t@);
    }
    while i < t.len()
        invariant
            i <= t@.len(),
            out@ + replaced(t@.skip(i as int), s@, r@) == replaced(t@, s@, r@),
        decreases t.len() - i,
    {
        let ghost before = out@;
        let ghost rest = t@.skip(i as int);
        proof {
            assert(rest.drop_first() =~= t@.skip(i + 1));
            assert(rest[0] == t@[i as int]);
        }
        if s.len() == 0 {
            out.append(r);
            crate::text::push_char(&mut out, t[i]);
            proof {
                assert(out@ + replaced(t@.skip(i + 1), s@, r@) =~= before + replaced(rest, s@, r@));
            }
            i = i + 1;
        } else if crate::text::has_at(t, i, s.as_slice()) {
            out.append(r);
            proof {
                assert(matches_at(rest, 0, s@)) by {
                    assert(rest.subrange(0, s@.len() as int) =~= t@.subrange(i as int, i + s@.len()));
                }
                assert(rest.skip(s@.len() as int) =~= t@.skip(i + s@.len()));
                assert(out@ + replaced(t@.skip(i + s@.len()), s@, r@) =~= before + replaced(rest, s@, r@));
            }
            i = i + s.len();
        } else {
            crate::text::push_char(&mut out, t[i]);
            proof {
                assert(!matches_at(rest, 0, s@)) by {
                    if matches_at(rest, 0, s@) {
                        assert(rest.subrange(0, s@.len() as int) =~= t@.subrange(i as int, i + s@.len()));
                    }
                }
                assert(out@ + replaced(t@.skip(i + 1), s@, r@) =~= before + replaced(rest, s@, r@));
            }
            i = i + 1;
        }
    }
    let ghost before = out@;
    if s.len() == 0 {
        out.append(r);
    }
    proof {
        assert(t@.skip(i as int) =~= Seq::<char>::empty());
        assert(out@ =~= before + replaced(t@.skip(i as int), s@, r@));
    }
    out
}

/// `text` with every occurrence of `from` replaced by `to` (`str::replace`).
pub fn replace_text(text: &str, from: &str, to: &str) -> (r: String)
    ensures
        r@ == replaced(text@, from@, to@),
{
    let t = to_chars(text);
    let f = to_chars(from);
    replace_plain(&t, &f, to)
}

/// The case-insensitive replacement scan ([`ci_replaced`]) from the start.
fn replace_folded(lt: &Vec<char>, ltlen: usize, t: &str, ls: &Vec<char>, r: &str, n: usize) -> (out: Option<String>)
    requires
        ltlen == blen(lt@),
    ensures
        match ci_replaced(lt@, t@, ls@, r@, n as int, 0, 0) {
            Some(x) => out matches Some(o) && o@ == x,
            None => out is None,
        },
{
    if n == 0 {
        return None;
    }
    let tv = to_chars(t);
    let tlen = str_blen(t);
    let mut out = String::new();
    let mut pos: usize = 0;
    let mut p: usize = 0;
    let mut last: usize = 0;
    proof {
        assert(lt@.take(0) =~= Seq::<char>::empty());
        if ltlen > 0 {
            lemma_char_pos(lt@, 0);
        }
    }
    while pos < ltlen
        invariant
            ltlen == blen(lt@),
            tv@ == t@,
            tlen == blen(t@),
            n > 0,
            pos <= ltlen,
            pos < ltlen ==> is_boundary(lt@, pos as int) && p == char_pos(lt@, pos as int) && p < lt@.len(),
            ci_replaced(lt@, t@, ls@, r@, n as int, 0, 0) == match ci_replaced(lt@, t@, ls@, r@, n as int, pos as int, last as int) {
                Some(rest) => Some(out@ + rest),
                None => None::<Seq<char>>,
            },
        decreases ltlen - pos,
    {
        let ghost before = out@;
        let ghost cur = ci_replaced(lt@, t@, ls@, r@, n as int, pos as int, last as int);
        if crate::text::has_at(lt, p, ls.as_slice()) {
            if n > usize::MAX - pos {
                assert(cur is None);
                return None;
            }
            if !(last <= pos && pos <= tlen) {
                assert(cur is None);
                return None;
            }
            let bl = boundary_index(&tv, last);
            let bp = boundary_index(&tv, pos);
            if bl.is_none() || bp.is_none() {
                assert(cur is None);
                return None;
            }
            let piece = slice_bytes(t, last, pos);
            out.append(piece.as_str());
            out.append(r);
            let next = pos + n;
            last = next;
            if next >= ltlen {
                pos = ltlen;
            } else {
                match boundary_index(lt, next) {
                    Some(k) => {
                        pos = next;
                        p = k;
                        proof {
                            lemma_char_pos(lt@, pos as int);
                            assert(p < lt@.len()) by {
                                if p >= lt@.len() {
                                    assert(lt@.take(p as int) =~= lt@);
                                }
                            }
                        }
                    },
                    None => {
                        assert(ci_replaced(lt@, t@, ls@, r@, n as int, next as int, next as int) is None);
                        assert(cur is None);
                        return None;
                    },
                }
            }
            proof {
                assert(out@ =~= before + piece@ + r@);
            }
        } else {
            let w = len_utf8(lt[p]);
            if w > 1 {
                assert(cur is None);
                return None;
            }
            proof {
                lemma_char_pos(lt@, pos as int);
                lemma_blen_take_step(lt@, p as int);
                assert(blen(lt@.take(p + 1)) == pos + 1);
            }
            assert(p < lt.len());
            pos = pos + 1;
            p = p + 1;
            proof {
                assert(blen(lt@.take(p as int)) == pos);
                if pos < ltlen {
                    assert(p < lt@.len()) by {
                        if p >= lt@.len() {
                            assert(lt@.take(p as int) =~= lt@);
                        }
                    }
                    assert(is_boundary(lt@, pos as int));
                    lemma_char_pos(lt@, pos as int);
                }
                assert(cur == ci_replaced(lt@, t@, ls@, r@, n as int, pos as int, last as int));
            }
        }
    }
    if last > tlen {
        return None;
    }
    if boundary_index(&tv, last).is_none() {
        return None;
    }
    proof {
        assert(is_boundary(t@, tlen as int)) by {
            assert(t@.take(t@.len() as int) =~= t@);
        }
    }
    let tail = slice_bytes(t, last, tlen);
    out.append(tail.as_str());
    Some(out)
}

impl FindDialogState {
    /// The text after replacing every match, or `None` where replacing
    /// would cut a text inside a character or never end: the
    /// case-sensitive replacement of [`replaced`], or the case-insensitive
    /// scan of [`ci_replaced`].
    pub open spec fn replace_all_result(&self, text: Seq<char>) -> Option<Seq<char>> {
        if self.case_sensitive {
            Some(replaced(text, self.search_term@, self.replace_term@))
        } else {
            ci_replaced(lowercase(text), text, lowercase(self.search_term@), self.replace_term@,
                blen(self.search_term@) as int, 0, 0)
        }
    }

    fn replace_scan(&self, text: &str) -> (r: Option<String>)
        ensures
            match self.replace_all_result(text@) {
                Some(x) => r matches Some(o) && o@ == x,
                None => r is None,
            },
    {
        if self.case_sensitive {
            let tv = to_chars(text);
            let sv = to_chars(self.search_term.as_str());
            Some(replace_plain(&tv, &sv, self.replace_term.as_str()))
        } else {
            let lower_text = to_lowercase(text);
            let lower_search = to_lowercase(self.search_term.as_str());
            let lt = to_chars(lower_text.as_str());
            let ls = to_chars(lower_search.as_str());
            let ltlen = str_blen(lower_text.as_str());
            let n = str_blen(self.search_term.as_str());
            replace_folded(&lt, ltlen, text, &ls, self.replace_term.as_str(), n)
        }
    }

    /// The text with every match replaced by the replacement text.
    pub fn replace_all(&self, text: &str) -> (r: String)
        requires
            self.replace_all_result(text@) is Some,
        ensures
            Some(r@) == self.replace_all_result(text@),
    {
        match self.replace_scan(text) {
            Some(s) => s,
            None => String::new(),
        }
    }

    /// [`Self::replace_all`], or `None` where replacing would cut a text
    /// inside a character or never end.
    pub fn try_replace_all(&self, text: &str) -> (r: Option<String>)
        ensures
            match self.replace_all_result(text@) {
                Some(x) => r matches Some(o) && o@ == x,
                None => r is None,
            },
    {
        if self.replace_scan(text).is_some() {
            Some(self.replace_all(text))
        } else {
            None
        }
    }

    /// The text searched in: the document, in lower case unless the search
    /// is case-sensitive.
    pub open spec fn haystack(&self, text: Seq<char>) -> Seq<char> {
        if self.case_sensitive { text } else { lowercase(text) }
    }

    /// The text searched for.
    pub open spec fn needle(&self) -> Seq<char> {
        if self.case_sensitive { self.search_term@ } else { lowercase(self.search_term@) }
    }

    /// Where the next search starts: just after the last match.
    pub open spec fn search_start(&self) -> int {
        match self.last_match_offset {
            Some(o) => o + 1,
            None => 0,
        }
    }

    /// The cursors lie on character boundaries of their texts.
    pub open spec fn cursors_ok(&self) -> bool {
        is_boundary(self.search_term@, self.search_cursor as int)
            && is_boundary(self.replace_term@, self.replace_cursor as int)
    }

    /// An empty find dialog, on the search field, not case-sensitive.
    pub fn new_find() -> (s: Self)
        ensures
            s.mode == FindMode::Find,
            s.search_term@.len() == 0,
            s.replace_term@.len() == 0,
            s.search_cursor == 0,
            s.replace_cursor == 0,
            s.active_field == FindField::Search,
            !s.case_sensitive,
            s.last_match_offset is None,
            s.cursors_ok(),
    {
        let s = FindDialogState {
            mode: FindMode::Find,
            search_term: String::new(),
            replace_term: String::new(),
            search_cursor: 0,
            replace_cursor: 0,
            active_field: FindField::Search,
            case_sensitive: false,
            last_match_offset: None,
        };
        assert(s.search_term@.take(0) =~= s.search_term@);
        assert(s.replace_term@.take(0) =~= s.replace_term@);
        s
    }

    /// An empty find-and-replace dialog.
    pub fn new_replace() -> (s: Self)
        ensures
            s.mode == FindMode::Replace,
            s.search_term@.len() == 0,
            s.replace_term@.len() == 0,
            s.search_cursor == 0,
            s.replace_cursor == 0,
            s.active_field == FindField::Search,
            !s.case_sensitive,
            s.last_match_offset is None,
            s.cursors_ok(),
    {
        let s = Self::new_find();
        FindDialogState { mode: FindMode::Replace, ..s }
    }

    /// Inserts `c` at the cursor of the active field.
    pub fn insert_char(&mut self, c: char)
        requires
            old(self).cursors_ok(),
            blen(old(self).search_term@) + 4 <= usize::MAX,
            blen(old(self).replace_term@) + 4 <= usize::MAX,
        ensures
            final(self).cursors_ok(),
            final(self).mode == old(self).mode,
            final(self).active_field == old(self).active_field,
            final(self).case_sensitive == old(self).case_sensitive,
            final(self).last_match_offset == old(self).last_match_offset,
            old(self).active_field == FindField::Search ==> {
                &&& final(self).search_term@ == insert_at(old(self).search_term@, old(self).search_cursor as int, c)
                &&& final(self).search_cursor == old(self).search_cursor + char_blen(c)
                &&& final(self).replace_term == old(self).replace_term
                &&& final(self).replace_cursor == old(self).replace_cursor
            },
            old(self).active_field == FindField::Replace ==> {
                &&& final(self).replace_term@ == insert_at(old(self).replace_term@, old(self).replace_cursor as int, c)
                &&& final(self).replace_cursor == old(self).replace_cursor + char_blen(c)
                &&& final(self).search_term == old(self).search_term
                &&& final(self).search_cursor == old(self).search_cursor
            },
    {
        match self.active_field {
            FindField::Search => {
                let (s, b) = insert_char_at(&self.search_term, self.search_cursor, c);
                self.search_term = s;
                self.search_cursor = b;
            },
            FindField::Replace => {
                let (s, b) = insert_char_at(&self.replace_term, self.replace_cursor, c);
                self.replace_term = s;
                self.replace_cursor = b;
            },
        }
    }

    /// Deletes the character before the cursor of the active field, if any.
    pub fn backspace(&mut self)
        requires
            old(self).cursors_ok(),
        ensures
            final(self).cursors_ok(),
            final(self).mode == old(self).mode,
            final(self).active_field == old(self).active_field,
            final(self).case_sensitive == old(self).case_sensitive,
            final(self).last_match_offset == old(self).last_match_offset,
            old(self).active_field == FindField::Search ==> {
                &&& old(self).search_cursor == 0 ==> final(self).search_term@ == old(self).search_term@
                    && final(self).search_cursor == 0
                &&& old(self).search_cursor > 0 ==> final(self).search_term@ == remove_before(
                    old(self).search_term@,
                    old(self).search_cursor as int,
                ) && final(self).search_cursor == old(self).search_cursor - prev_char_blen(
                    old(self).search_term@,
                    old(self).search_cursor as int,
                )
                &&& final(self).replace_term == old(self).replace_term
                &&& final(self).replace_cursor == old(self).replace_cursor
            },
            old(self).active_field == FindField::Replace ==> {
                &&& old(self).replace_cursor == 0 ==> final(self).replace_term@ == old(self).replace_term@
                    && final(self).replace_cursor == 0
                &&& old(self).replace_cursor > 0 ==> final(self).replace_term@ == remove_before(
                    old(self).replace_term@,
                    old(self).replace_cursor as int,
                ) && final(self).replace_cursor == old(self).replace_cursor - prev_char_blen(
                    old(self).replace_term@,
                    old(self).replace_cursor as int,
                )
                &&& final(self).search_term == old(self).search_term
                &&& final(self).search_cursor == old(self).search_cursor
            },
    {
        match self.active_field {
            FindField::Search => {
                let (s, b) = remove_char_before(&self.search_term, self.search_cursor);
                self.search_term = s;
                self.search_cursor = b;
            },
            FindField::Replace => {
                let (s, b) = remove_char_before(&self.replace_term, self.replace_cursor);
                self.replace_term = s;
                self.replace_cursor = b;
            },
        }
    }

    /// The next match at or after the search start (after the last match),
    /// or, when there is none after it, the first match from the
    /// beginning.
    pub open spec fn next_match(&self, text: Seq<char>) -> Option<usize> {
        match find_from(self.haystack(text), self.search_start(), self.needle()) {
            Some(p) => Some(p as usize),
            None => if self.search_start() > 0 {
                match find_from(self.haystack(text), 0, self.needle()) {
                    Some(p) => Some(p as usize),
                    None => None::<usize>,
                }
            } else {
                None::<usize>
            },
        }
    }

    /// The next match at or after the search start (after the last match),
    /// going round to the beginning when there is none after it; records
    /// the match found.
    pub fn find_next(&mut self, text: &str) -> (r: Option<usize>)
        requires
            old(self).search_start() <= usize::MAX,
            is_boundary(old(self).haystack(text@), old(self).search_start()),
        ensures
            r == old(self).next_match(text@),
            final(self).last_match_offset == if r is Some { r } else { old(self).last_match_offset },
            *final(self) == (FindDialogState { last_match_offset: final(self).last_match_offset, ..*old(self) }),
    {
        let start: usize = match self.last_match_offset {
            Some(o) => o + 1,
            None => 0,
        };
        let (hay, needle) = if self.case_sensitive {
            (String::from_str(text), self.search_term.clone())
        } else {
            (to_lowercase(text), to_lowercase(self.search_term.as_str()))
        };
        let hv = to_chars(hay.as_str());
        let nv = to_chars(needle.as_str());
        let found = match find_in(&hv, start, &nv) {
            Some(p) => Some(p),
            None => if start > 0 {
                proof {
                    assert(hv@.take(0) =~= Seq::<char>::empty());
                }
                find_in(&hv, 0, &nv)
            } else {
                None
            },
        };
        if found.is_some() {
            self.last_match_offset = found;
        }
        found
    }

    /// [`Self::find_next`], or `None` when the search start is not a
    /// character boundary of the text searched in (where the search would
    /// cut the text inside a character).
    pub fn try_find_next(&mut self, text: &str) -> (r: Option<Option<usize>>)
        ensures
            r is None <==> !(old(self).search_start() <= usize::MAX
                && is_boundary(old(self).haystack(text@), old(self).search_start())),
            r is None ==> *final(self) == *old(self),
            r matches Some(x) ==> {
                &&& x == old(self).next_match(text@)
                &&& final(self).last_match_offset == if x is Some { x } else { old(self).last_match_offset }
                &&& *final(self) == (FindDialogState { last_match_offset: final(self).last_match_offset, ..*old(self) })
            },
    {
        let start_ok = match self.last_match_offset {
            Some(o) => o < usize::MAX,
            None => true,
        };
        if !start_ok {
            return None;
        }
        let start: usize = match self.last_match_offset {
            Some(o) => o + 1,
            None => 0,
        };
        let hay = if self.case_sensitive { String::from_str(text) } else { to_lowercase(text) };
        let hv = to_chars(hay.as_str());
        if !boundary_index(&hv, start).is_some() {
            return None;
        }
        Some(self.find_next(text))
    }

    /// The text with the last match (its length taken from the search text)
    /// replaced by the replacement text, if there was a match.
    pub fn replace_current(&self, text: &str) -> (r: Option<String>)
        requires
            self.last_match_offset matches Some(o) ==> {
                &&& o + blen(self.search_term@) <= blen(text@)
                &&& is_boundary(text@, o as int)
                &&& is_boundary(text@, o + blen(self.search_term@))
            },
        ensures
            r is Some <==> self.last_match_offset is Some,
            r matches Some(s) ==> (self.last_match_offset matches Some(o) && s@ == byte_slice(text@, 0, o as int)
                + self.replace_term@ + byte_slice(text@, o + blen(self.search_term@), blen(text@) as int)),
    {
        match self.last_match_offset {
            Some(o) => {
                let n = str_blen(self.search_term.as_str());
                let len = str_blen(text);
                proof {
                    assert(is_boundary(text@, 0)) by {
                        assert(text@.take(0) =~= Seq::<char>::empty());
                    }
                    assert(is_boundary(text@, len as int)) by {
                        assert(text@.take(text@.len() as int) =~= text@);
                    }
                }
                let mut result = slice_bytes(text, 0, o);
                result.append(self.replace_term.as_str());
                let tail = slice_bytes(text, o + n, len);
                result.append(tail.as_str());
                Some(result)
            },
            None => None,
        }
    }
}

/// The character index of byte `b` of `v`, if `b` is a character boundary.
pub fn boundary_index(v: &Vec<char>, b: usize) -> (r: Option<usize>)
    ensures
        r is Some <==> is_boundary(v@, b as int),
        r matches Some(k) ==> k == char_pos(v@, b as int),
{
    let mut i: usize = 0;
    let mut pos: usize = 0;
    proof {
        assert(v@.take(0) =~= Seq::<char>::empty());
    }
    while pos < b && i < v.len()
        invariant
            i <= v@.len(),
            pos == blen(v@.take(i as int)),
            forall|k: int| 0 <= k < i ==> blen(v@.take(k)) < b,
        decreases v.len() - i,
    {
        proof {
            lemma_blen_take_step(v@, i as int);
        }
        let w = len_utf8(v[i]);
        if w > b - pos {
            proof {
                assert forall|k: int| 0 <= k <= v@.len() implies blen(v@.take(k)) != b by {
                    if k > i + 1 {
                        lemma_blen_take_strict(v@, i + 1, k);
                    }
                }
            }
            return None;
        }
        pos = pos + w;
        i = i + 1;
    }
    if pos == b {
        proof {
            lemma_char_pos(v@, b as int);
        }
        Some(i)
    } else {
        proof {
            assert forall|k: int| 0 <= k <= v@.len() implies blen(v@.take(k)) != b by {
                if k > i {
                    lemma_blen_take_strict(v@, i as int, k);
                }
            }
        }
        None
    }
}

/// The byte offset of the first occurrence of `needle` in `h` at or after
/// byte `start`.
pub fn find_in(h: &Vec<char>, start: usize, needle: &Vec<char>) -> (r: Option<usize>)
    requires
        is_boundary(h@, start as int),
    ensures
        r == match find_from(h@, start as int, needle@) {
            Some(p) => Some(p as usize),
            None => None::<usize>,
        },
        r matches Some(p) ==> find_from(h@, start as int, needle@) == Some(p as int),
{
    let k0 = boundary_index(h, start).unwrap();
    let mut k = k0;
    proof {
        lemma_char_pos(h@, start as int);
    }
    while k <= h.len() && needle.len() <= h.len() - k
        invariant
            k0 <= k,
            k0 == char_pos(h@, start as int),
            first_match(h@, k0 as int, needle@) == first_match(h@, k as int, needle@),
        decreases h.len() - k,
    {
        if crate::text::has_at(h, k, needle.as_slice()) {
            let prefix = from_chars(h, 0, k);
            let p = str_blen(prefix.as_str());
            proof {
                assert(prefix@ =~= h@.take(k as int));
                assert(first_match(h@, k as int, needle@) == Some(k as int));
            }
            return Some(p);
        }
        proof {
            if k == h.len() {
                assert(h@.subrange(k as int, k as int) =~= needle@);
            }
        }
        k = k + 1;
    }
    assert(first_match(h@, k as int, needle@) is None);
    None
}

/// `s` occurs in `h` starting at byte `b`.
pub open spec fn occurs_at_byte(h: Seq<char>, b: int, s: Seq<char>) -> bool {
    exists|k: int| 0 <= k <= h.len() && blen(h.take(k)) == b && matches_at(h, k, s)
}

proof fn lemma_first_match(h: Seq<char>, k0: int, n: Seq<char>)
    requires
        0 <= k0,
    ensures
        first_match(h, k0, n) matches Some(k) ==> k0 <= k && matches_at(h, k, n)
            && forall|j: int| k0 <= j < k ==> !#[trigger] matches_at(h, j, n),
        first_match(h, k0, n) is None ==> forall|j: int| k0 <= j ==> !#[trigger] matches_at(h, j, n),
    decreases h.len() + 1 - k0,
{
    if k0 + n.len() <= h.len() && !matches_at(h, k0, n) {
        lemma_first_match(h, k0 + 1, n);
    }
}

/// What searching `h` for `n` from byte `start`, going round to the
/// beginning, gives: a place where `n` occurs, the first one at or after
/// `start` when there is one, else the first one of all; `None` only when
/// `n` occurs nowhere.
pub open spec fn finds_next(h: Seq<char>, n: Seq<char>, start: int, r: Option<usize>) -> bool {
    match r {
        Some(p) => {
            &&& occurs_at_byte(h, p as int, n)
            &&& forall|b: int| #[trigger] occurs_at_byte(h, b, n) && start <= b ==> start <= p <= b
            &&& (p < start ==> forall|b: int| #[trigger] occurs_at_byte(h, b, n) ==> p <= b)
        },
        None => forall|b: int| !#[trigger] occurs_at_byte(h, b, n),
    }
}

proof fn lemma_find_from(h: Seq<char>, start: int, n: Seq<char>)
    requires
        is_boundary(h, start),
    ensures
        find_from(h, start, n) matches Some(p) ==> occurs_at_byte(h, p, n) && start <= p
            && forall|b: int| #[trigger] occurs_at_byte(h, b, n) && start <= b ==> p <= b,
        find_from(h, start, n) is None ==> forall|b: int| #[trigger] occurs_at_byte(h, b, n) ==> b < start,
{
    lemma_char_pos(h, start);
    let ks = char_pos(h, start);
    lemma_first_match(h, ks, n);
    match first_match(h, ks, n) {
        Some(k1) => {
            let p = blen(h.take(k1)) as int;
            if k1 > ks {
                lemma_blen_take_strict(h, ks, k1);
            }
            assert forall|b: int| #[trigger] occurs_at_byte(h, b, n) && start <= b implies p <= b by {
                let k = choose|k: int| 0 <= k <= h.len() && blen(h.take(k)) == b && matches_at(h, k, n);
                if k < ks {
                    lemma_blen_take_strict(h, k, ks);
                }
                if k < k1 {
                    assert(!matches_at(h, k, n));
                } else if k > k1 {
                    lemma_blen_take_strict(h, k1, k);
                }
            }
        },
        None => {
            assert forall|b: int| #[trigger] occurs_at_byte(h, b, n) implies b < start by {
                let k = choose|k: int| 0 <= k <= h.len() && blen(h.take(k)) == b && matches_at(h, k, n);
                if k >= ks {
                    assert(!matches_at(h, k, n));
                } else {
                    lemma_blen_take_strict(h, k, ks);
                }
            }
        },
    }
}

/// Finding the next match looks for the search text in the document, both
/// in lower case unless the search is case-sensitive: the result is a
/// place where it occurs, the first at or after the search start (just
/// after the last match), else, going round, the first of all; `None` only
/// when it occurs nowhere.
pub proof fn law_find_next_finds_the_search_text(st: FindDialogState, text: Seq<char>)
    requires
        is_boundary(if st.case_sensitive { text } else { lowercase(text) }, st.search_start()),
        blen(if st.case_sensitive { text } else { lowercase(text) }) <= usize::MAX,
    ensures
        !st.case_sensitive ==> finds_next(lowercase(text), lowercase(st.search_term@), st.search_start(), st.next_match(text)),
        st.case_sensitive ==> finds_next(text, st.search_term@, st.search_start(), st.next_match(text)),
{
    let h = st.haystack(text);
    let n = st.needle();
    let start = st.search_start();
    lemma_find_from(h, start, n);
    assert(is_boundary(h, 0)) by {
        assert(h.take(0) =~= Seq::<char>::empty());
    }
    lemma_find_from(h, 0, n);
    let r = st.next_match(text);
    match find_from(h, start, n) {
        Some(p) => {
            let k = choose|k: int| 0 <= k <= h.len() && blen(h.take(k)) == p && matches_at(h, k, n);
            lemma_blen_take_le(h, k);
            assert(r == Some(p as usize));
            assert(finds_next(h, n, start, r));
        },
        None => {
            if start > 0 {
                match find_from(h, 0, n) {
                    Some(p) => {
                        let k = choose|k: int| 0 <= k <= h.len() && blen(h.take(k)) == p && matches_at(h, k, n);
                        lemma_blen_take_le(h, k);
                        assert(r == Some(p as usize));
                        assert(finds_next(h, n, start, r));
                    },
                    None => {
                        assert(finds_next(h, n, start, r));
                    },
                }
            } else {
                assert forall|b: int| !#[trigger] occurs_at_byte(h, b, n) by {
                    if occurs_at_byte(h, b, n) {
                        let k = choose|k: int| 0 <= k <= h.len() && blen(h.take(k)) == b && matches_at(h, k, n);
                        assert(b >= 0);
                    }
                }
                assert(finds_next(h, n, start, r));
            }
        },
    }
}

} // verus!
