//! Dictionary spell checking with edit-distance suggestions.
//!
//! A dictionary is a list of distinct lower-case words.  A word is spelled
//! correctly when its lower-case form is in the built-in dictionary or in the
//! user's dictionary.
use vstd::prelude::*;
use crate::models::spell::{MisspelledWord, WordLocation};
use crate::services::builtin_words::BUILTIN_WORDS;
use crate::services::word_extractor::{extract_words, law_word_offsets_increase, text_words, words_view};
use crate::text::{
    blen, lemma_chars_deep_view, push_char, lines_of, lowercase, split_lines_chars, str_blen, to_chars,
    to_lowercase, trim, trim_bounds, from_chars,
};

verus! {

// ---------------------------------------------------------------------------
// Edit distance
// ---------------------------------------------------------------------------

/// The least of three numbers.
pub open spec fn min3(a: nat, b: nat, c: nat) -> nat {
    if a <= b && a <= c {
        a
    } else if b <= c {
        b
    } else {
        c
    }
}

/// The Levenshtein distance between two character sequences: the least
/// number of single-character insertions, deletions and substitutions that
/// turn `a` into `b`.
pub open spec fn edit_distance(a: Seq<char>, b: Seq<char>) -> nat
    decreases a.len() + b.len(),
{
    if a.len() == 0 {
        b.len()
    } else if b.len() == 0 {
        a.len()
    } else {
        min3(
            edit_distance(a.drop_last(), b) + 1,
            edit_distance(a, b.drop_last()) + 1,
            edit_distance(a.drop_last(), b.drop_last()) + if a.last() == b.last() {
                0nat
            } else {
                1nat
            },
        )
    }
}

/// `levenshtein::levenshtein`: the Levenshtein distance between the
/// characters of `a` and of `b`, as the crate documents it.
#[verifier::external_body]
fn levenshtein_distance(a: &str, b: &str) -> (d: usize)
    ensures
        d == edit_distance(a@, b@),
{
    levenshtein::levenshtein(a, b)
}

// ---------------------------------------------------------------------------
// Dictionaries
// ---------------------------------------------------------------------------

/// The dictionary word that a line of a word list gives: the line trimmed
/// and in lower case.
pub open spec fn dictionary_entry(line: Seq<char>) -> Seq<char> {
    lowercase(trim(line))
}

/// A line gives a word when that word is at least two bytes long.
pub open spec fn gives_word(line: Seq<char>) -> bool {
    blen(dictionary_entry(line)) >= 2
}

/// The words of a word list text, one per line.
pub open spec fn dictionary_words(text: Seq<char>) -> Set<Seq<char>> {
    Set::new(
        |w: Seq<char>|
            exists|i: int|
                0 <= i < lines_of(text).len() && gives_word(#[trigger] lines_of(text)[i])
                    && w == dictionary_entry(lines_of(text)[i]),
    )
}

/// Whether the string `w` is among `ws`.
fn contains_word(ws: &Vec<String>, w: &String) -> (r: bool)
    ensures
        r == ws.deep_view().contains(w@),
{
    let mut i: usize = 0;
    while i < ws.len()
        invariant
            i <= ws@.len(),
            forall|j: int| 0 <= j < i ==> ws.deep_view()[j] != w@,
        decreases ws.len() - i,
    {
        if ws[i] == *w {
            assert(ws.deep_view()[i as int] == w@);
            return true;
        }
        i = i + 1;
    }
    false
}

/// The distinct words of a word list text: each line trimmed and put in
/// lower case, keeping those of at least two bytes.
pub fn load_dict_from_str(s: &str) -> (ws: Vec<String>)
    ensures
        ws.deep_view().to_set() == dictionary_words(s@),
        ws.deep_view().no_duplicates(),
{
    let chars = to_chars(s);
    let lines = split_lines_chars(&chars);
    let ghost ls = lines.deep_view();
    let mut ws: Vec<String> = Vec::new();
    let mut k: usize = 0;
    while k < lines.len()
        invariant
            ls == lines.deep_view(),
            ls == lines_of(s@),
            k <= ls.len(),
            ws.deep_view().no_duplicates(),
            forall|w: Seq<char>|
                ws.deep_view().contains(w) <==> (exists|i: int|
                    0 <= i < k && gives_word(#[trigger] ls[i]) && w == dictionary_entry(ls[i])),
        decreases lines.len() - k,
    {
        let line = &lines[k];
        proof {
            lemma_chars_deep_view(line);
        }
        let (lo, hi) = trim_bounds(line);
        let t = from_chars(line, lo, hi);
        let lower = to_lowercase(t.as_str());
        let n = str_blen(lower.as_str());
        let ghost before = ws.deep_view();
        let ghost e = dictionary_entry(ls[k as int]);
        assert(lower@ == e);
        let fresh = n >= 2 && !contains_word(&ws, &lower);
        if fresh {
            ws.push(lower);
        }
        proof {
            if fresh {
                assert(ws.deep_view() =~= before.push(e));
            } else {
                assert(ws.deep_view() =~= before);
            }
            assert forall|w: Seq<char>|
                ws.deep_view().contains(w) <==> (exists|i: int|
                    0 <= i < k + 1 && gives_word(#[trigger] ls[i]) && w == dictionary_entry(ls[i])) by {
                let old_has = before.contains(w);
                assert(old_has <==> (exists|i: int|
                    0 <= i < k && gives_word(#[trigger] ls[i]) && w == dictionary_entry(ls[i])));
                if old_has {
                    let j = choose|j: int| 0 <= j < before.len() && before[j] == w;
                    assert(ws.deep_view()[j] == w);
                }
                if fresh {
                    assert(ws.deep_view()[before.len() as int] == e);
                    if ws.deep_view().contains(w) && !old_has {
                        let j = choose|j: int| 0 <= j < ws.deep_view().len() && ws.deep_view()[j] == w;
                        if j < before.len() {
                            assert(before[j] == w);
                        }
                    }
                } else if gives_word(ls[k as int]) && w == e {
                    assert(before.contains(e));
                }
            }
        }
        k = k + 1;
    }
    proof {
        assert(ws.deep_view().to_set() =~= dictionary_words(s@)) by {
            assert forall|w: Seq<char>| ws.deep_view().to_set().contains(w) <==> dictionary_words(s@).contains(w) by {
                if ws.deep_view().contains(w) {
                    let i = choose|i: int| 0 <= i < k && gives_word(#[trigger] ls[i]) && w == dictionary_entry(ls[i]);
                    assert(0 <= i < lines_of(s@).len() && gives_word(lines_of(s@)[i])
                        && w == dictionary_entry(lines_of(s@)[i]));
                }
            }
        }
    }
    ws
}

// ---------------------------------------------------------------------------
// Suggestions
// ---------------------------------------------------------------------------

/// A dictionary word is offered for `lower` when it is at most two edits
/// away and its length in bytes differs by at most three.
pub open spec fn is_candidate(lower: Seq<char>, w: Seq<char>) -> bool {
    &&& edit_distance(lower, w) <= 2
    &&& blen(w) <= blen(lower) + 3
    &&& blen(lower) <= blen(w) + 3
}

/// The candidates at distance `d`, in dictionary order.
pub open spec fn candidates_at(dict: Seq<Seq<char>>, lower: Seq<char>, d: nat) -> Seq<Seq<char>> {
    dict.filter(|w: Seq<char>| is_candidate(lower, w) && edit_distance(lower, w) == d)
}

/// The candidates ordered by distance (nearest first, dictionary order
/// among equals), at most `max` of them.
pub open spec fn suggestion_list(dict: Seq<Seq<char>>, lower: Seq<char>, max: nat) -> Seq<Seq<char>> {
    let all = candidates_at(dict, lower, 0) + candidates_at(dict, lower, 1) + candidates_at(dict, lower, 2);
    if max <= all.len() { all.take(max as int) } else { all }
}

/// A string with the same text.
fn copy_string(s: &String) -> (r: String)
    ensures
        r@ == s@,
{
    s.clone()
}

// ---------------------------------------------------------------------------
// Checking text
// ---------------------------------------------------------------------------

/// Index of the last group whose word is `key`, or -1.
pub open spec fn key_index(keys: Seq<Seq<char>>, key: Seq<char>) -> int
    decreases keys.len(),
{
    if keys.len() == 0 {
        -1
    } else if keys.last() == key {
        keys.len() - 1
    } else {
        key_index(keys.drop_last(), key)
    }
}

/// The groups after one more occurrence of `key` at `loc`: appended to the
/// group of `key`, or a new group at the end.
pub open spec fn add_occurrence(
    keys: Seq<Seq<char>>,
    locs: Seq<Seq<(int, int)>>,
    key: Seq<char>,
    loc: (int, int),
) -> (Seq<Seq<char>>, Seq<Seq<(int, int)>>) {
    let i = key_index(keys, key);
    if i >= 0 {
        (keys, locs.update(i, locs[i].push(loc)))
    } else {
        (keys.push(key), locs.push(seq![loc]))
    }
}

/// The (offset, length) pairs of a list of locations.
pub open spec fn locations_view(ls: Seq<WordLocation>) -> Seq<(int, int)> {
    ls.map_values(|l: WordLocation| (l.offset as int, l.length as int))
}

/// The index of the last `key` in `keys`, if any.
fn find_key(keys: &Vec<String>, key: &String) -> (r: Option<usize>)
    ensures
        match r {
            Some(i) => i == key_index(keys.deep_view(), key@) && i < keys@.len(),
            None => key_index(keys.deep_view(), key@) == -1,
        },
{
    let ghost kv = keys.deep_view();
    let mut j = keys.len();
    proof {
        assert(kv.take(j as int) =~= kv);
    }
    while j > 0
        invariant
            kv == keys.deep_view(),
            j <= kv.len(),
            key_index(kv.take(j as int), key@) == key_index(kv, key@),
        decreases j,
    {
        proof {
            assert(kv.take(j as int).drop_last() =~= kv.take(j - 1));
            assert(kv.take(j as int).last() == kv[j - 1]);
        }
        if keys[j - 1] == *key {
            return Some(j - 1);
        }
        j = j - 1;
    }
    None
}

/// The user's word list after `word` is added to it: the old text, a line
/// break, and the word.
pub fn user_dictionary_text(existing: &str, word: &str) -> (r: String)
    ensures
        r@ == existing@ + seq!['\n'] + word@,
{
    let mut r = String::new();
    let e = to_chars(existing);
    let w = to_chars(word);
    let mut i: usize = 0;
    while i < e.len()
        invariant
            i <= e@.len(),
            r@ == e@.take(i as int),
        decreases e.len() - i,
    {
        push_char(&mut r, e[i]);
        proof {
            assert(e@.take(i + 1) =~= e@.take(i as int).push(e@[i as int]));
        }
        i = i + 1;
    }
    push_char(&mut r, '\n');
    let ghost head = r@;
    let mut j: usize = 0;
    proof {
        assert(e@.take(e@.len() as int) =~= e@);
        assert(w@.take(0) =~= Seq::<char>::empty());
        assert(head + w@.take(0) =~= head);
    }
    while j < w.len()
        invariant
            j <= w@.len(),
            r@ == head + w@.take(j as int),
        decreases w.len() - j,
    {
        push_char(&mut r, w[j]);
        proof {
            assert(w@.take(j + 1) =~= w@.take(j as int).push(w@[j as int]));
            assert(head + w@.take(j + 1) =~= (head + w@.take(j as int)).push(w@[j as int]));
        }
        j = j + 1;
    }
    proof {
        assert(w@.take(w@.len() as int) =~= w@);
    }
    r
}

pub struct SpellChecker {
    dictionary: Vec<String>,
    user_dictionary: Vec<String>,
}

impl SpellChecker {
    /// The words of the built-in dictionary.
    pub closed spec fn dictionary(&self) -> Seq<Seq<char>> {
        self.dictionary.deep_view()
    }

    /// The words of the user's dictionary.
    pub closed spec fn user_dictionary(&self) -> Seq<Seq<char>> {
        self.user_dictionary.deep_view()
    }

    /// No dictionary holds a word twice.
    pub open spec fn wf(&self) -> bool {
        self.dictionary().no_duplicates() && self.user_dictionary().no_duplicates()
    }

    /// Whether `w` (in lower case) is a known word.
    pub open spec fn knows(&self, w: Seq<char>) -> bool {
        self.dictionary().contains(w) || self.user_dictionary().contains(w)
    }

    /// The misspelled occurrences of `ws`, grouped by lower-case word in
    /// order of first occurrence: the words and, for each, its (offset,
    /// length) locations in order.
    pub open spec fn misspelled_groups(&self, ws: Seq<(int, Seq<char>)>) -> (Seq<Seq<char>>, Seq<Seq<(int, int)>>)
        decreases ws.len(),
    {
        if ws.len() == 0 {
            (seq![], seq![])
        } else {
            let g = self.misspelled_groups(ws.drop_last());
            let w = ws.last().1;
            if self.knows(lowercase(w)) {
                g
            } else {
                add_occurrence(g.0, g.1, lowercase(w), (ws.last().0, blen(w) as int))
            }
        }
    }

    /// `r` reports the misspelled words of `ws`: one entry per group of
    /// [`Self::misspelled_groups`], in order, with the group's word and
    /// locations and up to eight suggestions for it.
    pub open spec fn reports(&self, r: Seq<MisspelledWord>, ws: Seq<(int, Seq<char>)>) -> bool {
        let g = self.misspelled_groups(ws);
        &&& r.len() == g.0.len()
        &&& forall|i: int| 0 <= i < r.len() ==> {
            &&& #[trigger] r[i].word@ == g.0[i]
            &&& locations_view(r[i].locations@) == g.1[i]
            &&& r[i].suggestions.deep_view() == suggestion_list(self.dictionary(), lowercase(r[i].word@), 8)
        }
    }

    /// A checker with the built-in dictionary and an empty user dictionary.
    pub fn new() -> (c: SpellChecker)
        ensures
            c.wf(),
            c.dictionary().to_set() == dictionary_words(BUILTIN_WORDS@),
            c.user_dictionary() == Seq::<Seq<char>>::empty(),
    {
        proof {
            reveal_strlit("");
        }
        SpellChecker::with_user_dictionary("")
    }

    /// A checker with the built-in dictionary and the user dictionary read
    /// from the text of the user's word list.
    pub fn with_user_dictionary(user_words: &str) -> (c: SpellChecker)
        ensures
            c.wf(),
            c.dictionary().to_set() == dictionary_words(BUILTIN_WORDS@),
            c.user_dictionary().to_set() == dictionary_words(user_words@),
            user_words@.len() == 0 ==> c.user_dictionary() == Seq::<Seq<char>>::empty(),
    {
        let dictionary = load_dict_from_str(BUILTIN_WORDS);
        let user_dictionary = load_dict_from_str(user_words);
        proof {
            if user_words@.len() == 0 {
                assert(lines_of(user_words@).len() == 0);
                if user_dictionary.deep_view().len() > 0 {
                    assert(user_dictionary.deep_view().to_set().contains(user_dictionary.deep_view()[0]));
                }
            }
        }
        SpellChecker { dictionary, user_dictionary }
    }

    /// The misspelled words of a markdown text (the words that
    /// `extract_words` finds and neither dictionary knows), one entry per
    /// lower-case word in order of first occurrence, with the offset and
    /// length of each occurrence and up to eight suggestions.
    pub fn check_text(&self, text: &str) -> (r: Vec<MisspelledWord>)
        requires
            blen(text@) < usize::MAX,
        ensures
            self.reports(r@, text_words(text@)),
    {
        let words = extract_words(text);
        let ghost ws = words_view(words@);
        let mut keys: Vec<String> = Vec::new();
        let mut locs: Vec<Vec<WordLocation>> = Vec::new();
        let mut k: usize = 0;
        while k < words.len()
            invariant
                ws == words_view(words@),
                k <= ws.len(),
                keys.deep_view().len() == locs@.len(),
                keys.deep_view() == self.misspelled_groups(ws.take(k as int)).0,
                locs@.map_values(|v: Vec<WordLocation>| locations_view(v@))
                    == self.misspelled_groups(ws.take(k as int)).1,
            decreases words.len() - k,
        {
            let ghost gk = self.misspelled_groups(ws.take(k as int));
            proof {
                assert(ws.take(k + 1).drop_last() =~= ws.take(k as int));
                assert(ws.take(k + 1).last() == ws[k as int]);
            }
            let off = words[k].0;
            let w = &words[k].1;
            if !self.is_correct(w.as_str()) {
                let key = to_lowercase(w.as_str());
                let len = str_blen(w.as_str());
                let loc = WordLocation { offset: off, length: len };
                let ghost lv = locs@.map_values(|v: Vec<WordLocation>| locations_view(v@));
                match find_key(&keys, &key) {
                    Some(i) => {
                        let mut l: Vec<WordLocation> = Vec::new();
                        locs.set_and_swap(i, &mut l);
                        let ghost l0 = l@;
                        l.push(loc);
                        locs.set_and_swap(i, &mut l);
                        proof {
                            assert(locations_view(l0.push(loc)) =~= locations_view(l0).push((off as int, len as int)));
                            assert(locs@.map_values(|v: Vec<WordLocation>| locations_view(v@))
                                =~= lv.update(i as int, lv[i as int].push((off as int, len as int))));
                        }
                    },
                    None => {
                        let ghost kv = keys.deep_view();
                        let ghost ol = locs@;
                        keys.push(key);
                        let mut nv: Vec<WordLocation> = Vec::new();
                        nv.push(loc);
                        assert(nv@ == seq![loc]);
                        locs.push(nv);
                        assert(locs@ == ol.push(nv));
                        proof {
                            assert(keys.deep_view() =~= kv.push(key@));
                            assert(locations_view(seq![loc]) =~= seq![(off as int, len as int)]);
                            assert(locs@.map_values(|v: Vec<WordLocation>| locations_view(v@))
                                =~= lv.push(seq![(off as int, len as int)]));
                        }
                    },
                }
            }
            k = k + 1;
        }
        proof {
            assert(ws.take(ws.len() as int) =~= ws);
        }
        let ghost g = self.misspelled_groups(ws);
        proof {
            assert forall|x: int| 0 <= x < locs@.len() implies locations_view(#[trigger] locs@[x]@) == g.1[x] by {
                assert(locs@.map_values(|v: Vec<WordLocation>| locations_view(v@))[x] == locations_view(locs@[x]@));
            }
        }
        let mut r: Vec<MisspelledWord> = Vec::new();
        let mut i: usize = 0;
        while i < keys.len()
            invariant
                keys.deep_view() == g.0,
                keys.deep_view().len() == locs@.len(),
                i <= locs@.len(),
                forall|x: int| i <= x < locs@.len() ==> locations_view(#[trigger] locs@[x]@) == g.1[x],
                g.1.len() == g.0.len(),
                r@.len() == i,
                forall|x: int| 0 <= x < i ==> {
                    &&& #[trigger] r@[x].word@ == g.0[x]
                    &&& locations_view(r@[x].locations@) == g.1[x]
                    &&& r@[x].suggestions.deep_view() == suggestion_list(self.dictionary(), lowercase(r@[x].word@), 8)
                },
            decreases keys.len() - i,
        {
            let word = copy_string(&keys[i]);
            let mut l: Vec<WordLocation> = Vec::new();
            locs.set_and_swap(i, &mut l);
            let suggestions = self.suggestions(word.as_str(), 8);
            r.push(MisspelledWord { word, locations: l, suggestions });
            i = i + 1;
        }
        assert(self.reports(r@, ws));
        r
    }

    /// Adds the word, in lower case, to the user's dictionary and returns the
    /// word as added (for the caller to append to the user's word list).
    pub fn add_to_user_dictionary(&mut self, word: &str) -> (lower: String)
        requires
            old(self).wf(),
        ensures
            final(self).wf(),
            lower@ == lowercase(word@),
            final(self).dictionary() == old(self).dictionary(),
            final(self).user_dictionary().to_set() == old(self).user_dictionary().to_set().insert(lower@),
            final(self).knows(lower@),
    {
        let lower = to_lowercase(word);
        let ghost before = self.user_dictionary.deep_view();
        if !contains_word(&self.user_dictionary, &lower) {
            let copy = copy_string(&lower);
            self.user_dictionary.push(copy);
            proof {
                assert(self.user_dictionary.deep_view() =~= before.push(lower@));
                assert(self.user_dictionary.deep_view()[before.len() as int] == lower@);
                before.lemma_push_to_set_commute(lower@);
            }
        } else {
            proof {
                assert(before.to_set().contains(lower@));
                assert(before.to_set() =~= before.to_set().insert(lower@));
            }
        }
        lower
    }

    /// Whether the word, in lower case, is in either dictionary.
    pub fn is_correct(&self, word: &str) -> (r: bool)
        ensures
            r == self.knows(lowercase(word@)),
    {
        let lower = to_lowercase(word);
        self.is_known(&lower)
    }

    /// Whether the (lower-case) word is in either dictionary.
    pub fn is_known(&self, lower: &String) -> (r: bool)
        ensures
            r == self.knows(lower@),
    {
        contains_word(&self.dictionary, lower) || contains_word(&self.user_dictionary, lower)
    }

    /// Up to `max` dictionary words close to `word`, nearest first.
    pub fn suggestions(&self, word: &str, max: usize) -> (r: Vec<String>)
        ensures
            r.deep_view() == suggestion_list(self.dictionary(), lowercase(word@), max as nat),
    {
        let lower = to_lowercase(word);
        self.suggestions_for(&lower, max)
    }

    /// Up to `max` dictionary words close to the (lower-case) word, nearest
    /// first.
    pub fn suggestions_for(&self, lower: &String, max: usize) -> (r: Vec<String>)
        ensures
            r.deep_view() == suggestion_list(self.dictionary(), lower@, max as nat),
    {
        let ghost l = lower@;
        let ll = str_blen(lower.as_str());
        let ghost dict = self.dictionary();
        // The distance of each dictionary word, or 3 for one that is no candidate.
        let mut dist: Vec<usize> = Vec::new();
        let mut i: usize = 0;
        while i < self.dictionary.len()
            invariant
                dict == self.dictionary.deep_view(),
                l == lower@,
                ll == blen(l),
                i <= dict.len(),
                dist@.len() == i,
                forall|j: int| 0 <= j < i ==> #[trigger] dist@[j] == if is_candidate(l, dict[j]) {
                    edit_distance(l, dict[j])
                } else {
                    3
                },
            decreases self.dictionary.len() - i,
        {
            let w = &self.dictionary[i];
            let d = levenshtein_distance(lower.as_str(), w.as_str());
            let wl = str_blen(w.as_str());
            let gap = if wl >= ll { wl - ll } else { ll - wl };
            let close = d <= 2 && gap <= 3;
            assert(w@ == dict[i as int]);
            assert(d == edit_distance(l, dict[i as int]));
            assert(close == is_candidate(l, dict[i as int]));
            let ghost prev = dist@;
            dist.push(if close { d } else { 3 });
            assert(dist@ == prev.push(if close { d } else { 3 }));
            i = i + 1;
        }
        let mut out: Vec<String> = Vec::new();
        let mut d: usize = 0;
        while d < 3
            invariant
                dict == self.dictionary.deep_view(),
                dist@.len() == dict.len(),
                forall|j: int| 0 <= j < dict.len() ==> #[trigger] dist@[j] == if is_candidate(l, dict[j]) {
                    edit_distance(l, dict[j])
                } else {
                    3
                },
                d <= 3,
                out.deep_view() == if d == 0 {
                    Seq::<Seq<char>>::empty()
                } else if d == 1 {
                    candidates_at(dict, l, 0)
                } else if d == 2 {
                    candidates_at(dict, l, 0) + candidates_at(dict, l, 1)
                } else {
                    candidates_at(dict, l, 0) + candidates_at(dict, l, 1) + candidates_at(dict, l, 2)
                },
            decreases 3 - d,
        {
            let ghost start = out.deep_view();
            let mut j: usize = 0;
            while j < self.dictionary.len()
                invariant
                    dict == self.dictionary.deep_view(),
                    dist@.len() == dict.len(),
                    forall|x: int| 0 <= x < dict.len() ==> #[trigger] dist@[x] == if is_candidate(l, dict[x]) {
                        edit_distance(l, dict[x])
                    } else {
                        3
                    },
                    d < 3,
                    j <= dict.len(),
                    out.deep_view() == start + candidates_at(dict.take(j as int), l, d as nat),
                decreases self.dictionary.len() - j,
            {
                let ghost before = out.deep_view();
                proof {
                    reveal(Seq::filter);
                    assert(dict.take(j + 1).drop_last() =~= dict.take(j as int));
                    assert(dict.take(j + 1).last() == dict[j as int]);
                }
                if dist[j] == d {
                    let w = copy_string(&self.dictionary[j]);
                    assert(w@ == dict[j as int]);
                    out.push(w);
                    proof {
                        assert(out.deep_view() =~= before.push(dict[j as int]));
                    }
                } else {
                    proof {
                        assert(out.deep_view() =~= before);
                    }
                }
                j = j + 1;
            }
            proof {
                assert(dict.take(dict.len() as int) =~= dict);
            }
            d = d + 1;
        }
        let ghost all = out.deep_view();
        if max < out.len() {
            out.truncate(max);
            proof {
                assert(out.deep_view() =~= all.take(max as int));
            }
        }
        out
    }
}

proof fn lemma_key_index(keys: Seq<Seq<char>>, key: Seq<char>)
    ensures
        -1 <= key_index(keys, key) < keys.len(),
        key_index(keys, key) >= 0 ==> keys[key_index(keys, key)] == key,
        key_index(keys, key) == -1 <==> !keys.contains(key),
    decreases keys.len(),
{
    if keys.len() > 0 {
        lemma_key_index(keys.drop_last(), key);
        if keys.last() != key {
            if keys.contains(key) {
                let j = choose|j: int| 0 <= j < keys.len() && keys[j] == key;
                assert(keys.drop_last()[j] == key);
            }
            if key_index(keys.drop_last(), key) >= 0 {
                assert(keys[key_index(keys, key)] == keys.drop_last()[key_index(keys, key)]);
            }
        }
    }
}

/// Spell checking reports each misspelled word once: the groups' words are
/// distinct, none of them is known, and each group has at least one
/// occurrence.
pub proof fn law_misspelled_groups_are_distinct(c: SpellChecker, ws: Seq<(int, Seq<char>)>)
    ensures
        c.misspelled_groups(ws).0.len() == c.misspelled_groups(ws).1.len(),
        c.misspelled_groups(ws).0.no_duplicates(),
        forall|i: int| 0 <= i < c.misspelled_groups(ws).0.len()
            ==> !c.knows(#[trigger] c.misspelled_groups(ws).0[i]),
        forall|i: int| 0 <= i < c.misspelled_groups(ws).1.len()
            ==> (#[trigger] c.misspelled_groups(ws).1[i]).len() > 0,
    decreases ws.len(),
{
    if ws.len() > 0 {
        law_misspelled_groups_are_distinct(c, ws.drop_last());
        let g = c.misspelled_groups(ws.drop_last());
        let w = ws.last().1;
        let key = lowercase(w);
        if !c.knows(key) {
            lemma_key_index(g.0, key);
            let n = c.misspelled_groups(ws);
            if key_index(g.0, key) < 0 {
                assert(n.0 == g.0.push(key));
                assert forall|i: int, j: int| 0 <= i < j < n.0.len() implies n.0[i] != n.0[j] by {
                    if j == g.0.len() {
                        assert(g.0.contains(g.0[i]));
                    }
                }
                assert forall|i: int| 0 <= i < n.0.len() implies !c.knows(#[trigger] n.0[i]) by {
                    if i < g.0.len() {
                        assert(n.0[i] == g.0[i]);
                    }
                }
                assert forall|i: int| 0 <= i < n.1.len() implies (#[trigger] n.1[i]).len() > 0 by {
                    if i < g.1.len() {
                        assert(n.1[i] == g.1[i]);
                    }
                }
            } else {
                let k = key_index(g.0, key);
                assert forall|i: int| 0 <= i < n.1.len() implies (#[trigger] n.1[i]).len() > 0 by {
                    if i != k {
                        assert(n.1[i] == g.1[i]);
                    }
                }
            }
        }
    }
}

/// A word that the checker knows, such as one just added to the user's
/// dictionary, is not among the misspelled words it reports.
pub proof fn law_known_word_is_not_reported(c: SpellChecker, ws: Seq<(int, Seq<char>)>, lower: Seq<char>)
    requires
        c.knows(lower),
    ensures
        !c.misspelled_groups(ws).0.contains(lower),
{
    law_misspelled_groups_are_distinct(c, ws);
}

proof fn lemma_candidates_at(dict: Seq<Seq<char>>, lower: Seq<char>, d: nat)
    ensures
        forall|k: int| 0 <= k < candidates_at(dict, lower, d).len() ==> {
            &&& dict.contains(#[trigger] candidates_at(dict, lower, d)[k])
            &&& is_candidate(lower, candidates_at(dict, lower, d)[k])
            &&& edit_distance(lower, candidates_at(dict, lower, d)[k]) == d
        },
        forall|i: int| 0 <= i < dict.len() && is_candidate(lower, dict[i]) && edit_distance(lower, dict[i]) == d
            ==> candidates_at(dict, lower, d).contains(#[trigger] dict[i]),
{
    let pred = |w: Seq<char>| is_candidate(lower, w) && edit_distance(lower, w) == d;
    let c = candidates_at(dict, lower, d);
    assert forall|k: int| 0 <= k < c.len() implies {
        &&& dict.contains(#[trigger] c[k])
        &&& is_candidate(lower, c[k])
        &&& edit_distance(lower, c[k]) == d
    } by {
        dict.lemma_filter_pred(pred, k);
        assert(c.contains(c[k]));
        dict.lemma_filter_contains_rev(pred, c[k]);
    }
    assert forall|i: int| 0 <= i < dict.len() && is_candidate(lower, dict[i]) && edit_distance(lower, dict[i]) == d
        implies c.contains(#[trigger] dict[i]) by {
        dict.lemma_filter_contains(pred, i);
    }
}

/// The suggestions for a word are at most `max` dictionary words, each at
/// most two edits away (and of a close length), nearest first; when there
/// are fewer than `max`, every such dictionary word is among them.
pub proof fn law_suggestions_are_near_and_ordered(dict: Seq<Seq<char>>, lower: Seq<char>, max: nat)
    ensures
        suggestion_list(dict, lower, max).len() <= max,
        forall|k: int| 0 <= k < suggestion_list(dict, lower, max).len() ==> {
            &&& dict.contains(#[trigger] suggestion_list(dict, lower, max)[k])
            &&& is_candidate(lower, suggestion_list(dict, lower, max)[k])
        },
        forall|j: int, k: int| 0 <= j < k < suggestion_list(dict, lower, max).len() ==> edit_distance(
            lower,
            #[trigger] suggestion_list(dict, lower, max)[j],
        ) <= edit_distance(lower, #[trigger] suggestion_list(dict, lower, max)[k]),
        suggestion_list(dict, lower, max).len() < max ==> forall|i: int| 0 <= i < dict.len() && is_candidate(lower, dict[i])
            ==> suggestion_list(dict, lower, max).contains(#[trigger] dict[i]),
{
    let c0 = candidates_at(dict, lower, 0);
    let c1 = candidates_at(dict, lower, 1);
    let c2 = candidates_at(dict, lower, 2);
    lemma_candidates_at(dict, lower, 0);
    lemma_candidates_at(dict, lower, 1);
    lemma_candidates_at(dict, lower, 2);
    let all = c0 + c1 + c2;
    let r = suggestion_list(dict, lower, max);
    assert forall|k: int| 0 <= k < all.len() implies {
        &&& dict.contains(#[trigger] all[k])
        &&& is_candidate(lower, all[k])
        &&& edit_distance(lower, all[k]) == if k < c0.len() { 0int } else if k < c0.len() + c1.len() { 1int } else { 2int }
    } by {
        if k < c0.len() {
            assert(all[k] == c0[k]);
        } else if k < c0.len() + c1.len() {
            assert(all[k] == c1[k - c0.len()]);
        } else {
            assert(all[k] == c2[k - c0.len() - c1.len()]);
        }
    }
    assert forall|k: int| 0 <= k < r.len() implies {
        &&& dict.contains(#[trigger] r[k])
        &&& is_candidate(lower, r[k])
    } by {
        assert(r[k] == all[k]);
    }
    assert forall|j: int, k: int| 0 <= j < k < r.len() implies edit_distance(lower, #[trigger] r[j])
        <= edit_distance(lower, #[trigger] r[k]) by {
        assert(r[j] == all[j]);
        assert(r[k] == all[k]);
        assert(dict.contains(all[j]));
        assert(dict.contains(all[k]));
    }
    if r.len() < max {
        assert(r == all);
        assert forall|i: int| 0 <= i < dict.len() && is_candidate(lower, dict[i]) implies r.contains(#[trigger] dict[i]) by {
            let w = dict[i];
            if edit_distance(lower, w) == 0 {
                let k = choose|k: int| 0 <= k < c0.len() && c0[k] == w;
                assert(all[k] == w);
            } else if edit_distance(lower, w) == 1 {
                let k = choose|k: int| 0 <= k < c1.len() && c1[k] == w;
                assert(all[c0.len() + k] == w);
            } else {
                assert(edit_distance(lower, w) == 2);
                let k = choose|k: int| 0 <= k < c2.len() && c2[k] == w;
                assert(all[c0.len() + c1.len() + k] == w);
            }
        }
    }
}

/// Spell checking reports every misspelled occurrence, and nothing else:
/// each occurrence of a word the checker does not know is among the
/// locations of the group of its lower-case form, and each location of a
/// group is an occurrence of a word whose lower-case form is the group's.
pub proof fn law_every_misspelling_is_reported(c: SpellChecker, ws: Seq<(int, Seq<char>)>)
    ensures
        forall|i: int| 0 <= i < ws.len() && !c.knows(lowercase(#[trigger] ws[i].1)) ==> exists|j: int| {
            &&& 0 <= j < c.misspelled_groups(ws).0.len()
            &&& c.misspelled_groups(ws).0[j] == lowercase(ws[i].1)
            &&& (#[trigger] c.misspelled_groups(ws).1[j]).contains((ws[i].0, blen(ws[i].1) as int))
        },
        forall|j: int, l: int| 0 <= j < c.misspelled_groups(ws).1.len() && 0 <= l < c.misspelled_groups(ws).1[j].len()
            ==> exists|i: int| {
                &&& 0 <= i < ws.len()
                &&& (#[trigger] c.misspelled_groups(ws).1[j][l]) == (ws[i].0, blen(ws[i].1) as int)
                &&& lowercase(#[trigger] ws[i].1) == c.misspelled_groups(ws).0[j]
            },
    decreases ws.len(),
{
    law_misspelled_groups_are_distinct(c, ws);
    if ws.len() > 0 {
        let d = ws.drop_last();
        law_every_misspelling_is_reported(c, d);
        law_misspelled_groups_are_distinct(c, d);
        let g = c.misspelled_groups(d);
        let n = c.misspelled_groups(ws);
        let w = ws.last().1;
        let key = lowercase(w);
        let loc = (ws.last().0, blen(w) as int);
        lemma_key_index(g.0, key);
        let ki = key_index(g.0, key);
        assert forall|i: int| 0 <= i < ws.len() && !c.knows(lowercase(#[trigger] ws[i].1)) implies exists|j: int| {
            &&& 0 <= j < n.0.len()
            &&& n.0[j] == lowercase(ws[i].1)
            &&& (#[trigger] n.1[j]).contains((ws[i].0, blen(ws[i].1) as int))
        } by {
            if i == ws.len() - 1 {
                if ki >= 0 {
                    assert(n.1[ki] == g.1[ki].push(loc));
                    assert(n.1[ki][g.1[ki].len() as int] == loc);
                } else {
                    assert(n.1[g.0.len() as int] == seq![loc]);
                    assert(n.1[g.0.len() as int][0] == loc);
                }
            } else {
                assert(ws[i] == d[i]);
                let j = choose|j: int| {
                    &&& 0 <= j < g.0.len()
                    &&& g.0[j] == lowercase(d[i].1)
                    &&& (#[trigger] g.1[j]).contains((d[i].0, blen(d[i].1) as int))
                };
                let x = (d[i].0, blen(d[i].1) as int);
                let p = choose|p: int| 0 <= p < g.1[j].len() && g.1[j][p] == x;
                if c.knows(key) {
                    assert(n == g);
                } else if ki >= 0 && j == ki {
                    assert(n.1[j] == g.1[j].push(loc));
                    assert(n.1[j][p] == x);
                } else {
                    assert(n.0[j] == g.0[j]);
                    assert(n.1[j] == g.1[j]);
                }
            }
        }
        assert forall|j: int, l: int| 0 <= j < n.1.len() && 0 <= l < n.1[j].len() implies exists|i: int| {
            &&& 0 <= i < ws.len()
            &&& (#[trigger] n.1[j][l]) == (ws[i].0, blen(ws[i].1) as int)
            &&& lowercase(#[trigger] ws[i].1) == n.0[j]
        } by {
            let last = ws.len() - 1;
            if c.knows(key) {
                assert(n == g);
                let i = choose|i: int| {
                    &&& 0 <= i < d.len()
                    &&& (#[trigger] g.1[j][l]) == (d[i].0, blen(d[i].1) as int)
                    &&& lowercase(#[trigger] d[i].1) == g.0[j]
                };
                assert(ws[i] == d[i]);
            } else if ki >= 0 && j == ki && l == g.1[j].len() {
                assert(n.1[j] == g.1[j].push(loc));
                assert(ws[last].1 == w);
            } else if ki < 0 && j == g.0.len() {
                assert(n.1[j] == seq![loc]);
                assert(n.0[j] == key);
                assert(ws[last].1 == w);
            } else {
                assert(j < g.1.len());
                if ki >= 0 && j == ki {
                    assert(n.1[j] == g.1[j].push(loc));
                    assert(n.1[j][l] == g.1[j][l]);
                } else {
                    assert(n.1[j] == g.1[j]);
                }
                assert(n.0[j] == g.0[j]);
                let i = choose|i: int| {
                    &&& 0 <= i < d.len()
                    &&& (#[trigger] g.1[j][l]) == (d[i].0, blen(d[i].1) as int)
                    &&& lowercase(#[trigger] d[i].1) == g.0[j]
                };
                assert(ws[i] == d[i]);
            }
        }
    }
}

/// When the words come in increasing offsets, so do the locations of each
/// reported word, and the words are reported in the order of their first
/// occurrence.
pub proof fn law_reports_follow_the_text(c: SpellChecker, ws: Seq<(int, Seq<char>)>)
    requires
        forall|i: int, j: int| 0 <= i < j < ws.len() ==> (#[trigger] ws[i]).0 < (#[trigger] ws[j]).0,
    ensures
        forall|j: int, a: int, b: int| 0 <= j < c.misspelled_groups(ws).1.len() && 0 <= a < b < c.misspelled_groups(ws).1[j].len()
            ==> (#[trigger] c.misspelled_groups(ws).1[j][a]).0 < (#[trigger] c.misspelled_groups(ws).1[j][b]).0,
        forall|j: int, k: int| 0 <= j < k < c.misspelled_groups(ws).1.len()
            ==> (#[trigger] c.misspelled_groups(ws).1[j])[0].0 < (#[trigger] c.misspelled_groups(ws).1[k])[0].0,
    decreases ws.len(),
{
    law_misspelled_groups_are_distinct(c, ws);
    if ws.len() > 0 {
        let d = ws.drop_last();
        assert forall|i: int, j: int| 0 <= i < j < d.len() implies (#[trigger] d[i]).0 < (#[trigger] d[j]).0 by {
            assert(d[i] == ws[i]);
            assert(d[j] == ws[j]);
        }
        law_reports_follow_the_text(c, d);
        law_every_misspelling_is_reported(c, d);
        law_misspelled_groups_are_distinct(c, d);
        let g = c.misspelled_groups(d);
        let n = c.misspelled_groups(ws);
        let w = ws.last().1;
        let key = lowercase(w);
        let loc = (ws.last().0, blen(w) as int);
        lemma_key_index(g.0, key);
        let ki = key_index(g.0, key);
        // Every earlier location lies before the new one.
        assert forall|j: int, l: int| 0 <= j < g.1.len() && 0 <= l < g.1[j].len() implies (#[trigger] g.1[j][l]).0 < loc.0 by {
            let i = choose|i: int| {
                &&& 0 <= i < d.len()
                &&& (#[trigger] g.1[j][l]) == (d[i].0, blen(d[i].1) as int)
                &&& lowercase(#[trigger] d[i].1) == g.0[j]
            };
            assert(d[i] == ws[i]);
            assert(ws[i].0 < ws[ws.len() - 1].0);
        }
        if !c.knows(key) {
            if ki >= 0 {
                assert forall|j: int, a: int, b: int| 0 <= j < n.1.len() && 0 <= a < b < n.1[j].len()
                    implies (#[trigger] n.1[j][a]).0 < (#[trigger] n.1[j][b]).0 by {
                    if j == ki {
                        assert(n.1[j] == g.1[j].push(loc));
                        if b == g.1[j].len() {
                            assert(n.1[j][a] == g.1[j][a]);
                        } else {
                            assert(n.1[j][a] == g.1[j][a]);
                            assert(n.1[j][b] == g.1[j][b]);
                        }
                    } else {
                        assert(n.1[j] == g.1[j]);
                    }
                }
                assert forall|j: int, k: int| 0 <= j < k < n.1.len()
                    implies (#[trigger] n.1[j])[0].0 < (#[trigger] n.1[k])[0].0 by {
                    assert(g.1[j].len() > 0);
                    assert(g.1[k].len() > 0);
                    assert(n.1[j][0] == g.1[j][0]);
                    assert(n.1[k][0] == g.1[k][0]);
                }
            } else {
                assert forall|j: int, a: int, b: int| 0 <= j < n.1.len() && 0 <= a < b < n.1[j].len()
                    implies (#[trigger] n.1[j][a]).0 < (#[trigger] n.1[j][b]).0 by {
                    if j < g.1.len() {
                        assert(n.1[j] == g.1[j]);
                    } else {
                        assert(n.1[j] == seq![loc]);
                    }
                }
                assert forall|j: int, k: int| 0 <= j < k < n.1.len()
                    implies (#[trigger] n.1[j])[0].0 < (#[trigger] n.1[k])[0].0 by {
                    assert(n.1[j] == g.1[j]);
                    assert(g.1[j].len() > 0);
                    if k == g.1.len() {
                        assert(n.1[k] == seq![loc]);
                        assert(g.1[j][0].0 < loc.0);
                    } else {
                        assert(n.1[k] == g.1[k]);
                    }
                }
            }
        }
    }
}

/// The report of spell checking a text lists each misspelled word with
/// its places in increasing order, and the words in the order of their
/// first places.
pub proof fn law_check_text_follows_the_text(c: SpellChecker, text: Seq<char>)
    ensures
        ({
            let g = c.misspelled_groups(text_words(text));
            &&& forall|j: int, a: int, b: int| 0 <= j < g.1.len() && 0 <= a < b < g.1[j].len()
                ==> (#[trigger] g.1[j][a]).0 < (#[trigger] g.1[j][b]).0
            &&& forall|j: int, k: int| 0 <= j < k < g.1.len() ==> (#[trigger] g.1[j])[0].0 < (#[trigger] g.1[k])[0].0
        }),
{
    law_word_offsets_increase(text);
    law_reports_follow_the_text(c, text_words(text));
}

proof fn lemma_filter_no_duplicates(s: Seq<Seq<char>>, pred: spec_fn(Seq<char>) -> bool)
    requires
        s.no_duplicates(),
    ensures
        s.filter(pred).no_duplicates(),
    decreases s.len(),
{
    reveal(Seq::filter);
    if s.len() > 0 {
        let d = s.drop_last();
        assert(d.no_duplicates()) by {
            assert forall|i: int, j: int| 0 <= i < d.len() && 0 <= j < d.len() && i != j implies d[i] != d[j] by {
                assert(s[i] != s[j]);
            }
        }
        lemma_filter_no_duplicates(d, pred);
        if pred(s.last()) {
            let f = d.filter(pred);
            if f.contains(s.last()) {
                d.lemma_filter_contains_rev(pred, s.last());
                let k = choose|k: int| 0 <= k < d.len() && d[k] == s.last();
                assert(s[k] == s[s.len() - 1]);
            }
            let g = f.push(s.last());
            assert forall|i: int, j: int| 0 <= i < g.len() && 0 <= j < g.len() && i != j implies g[i] != g[j] by {
                if i == f.len() {
                    assert(!f.contains(s.last()));
                    assert(f[j] == g[j]);
                } else if j == f.len() {
                    assert(!f.contains(s.last()));
                    assert(f[i] == g[i]);
                }
            }
        }
    }
}

/// A full list of suggestions leaves out no closer word: any close
/// dictionary word that is not offered is at least as far as the last one
/// offered, and the list is full.  With a dictionary that holds each word
/// once, no word is offered twice.
pub proof fn law_suggestions_leave_out_no_closer_word(dict: Seq<Seq<char>>, lower: Seq<char>, max: nat)
    ensures
        forall|i: int| 0 <= i < dict.len() && is_candidate(lower, dict[i])
            && !suggestion_list(dict, lower, max).contains(#[trigger] dict[i]) ==> {
            &&& suggestion_list(dict, lower, max).len() == max
            &&& max > 0 ==> edit_distance(lower, suggestion_list(dict, lower, max)[max - 1]) <= edit_distance(lower, dict[i])
        },
        dict.no_duplicates() ==> suggestion_list(dict, lower, max).no_duplicates(),
{
    law_suggestions_are_near_and_ordered(dict, lower, max);
    let c0 = candidates_at(dict, lower, 0);
    let c1 = candidates_at(dict, lower, 1);
    let c2 = candidates_at(dict, lower, 2);
    lemma_candidates_at(dict, lower, 0);
    lemma_candidates_at(dict, lower, 1);
    lemma_candidates_at(dict, lower, 2);
    let all = c0 + c1 + c2;
    let r = suggestion_list(dict, lower, max);
    let dist = |k: int| if k < c0.len() { 0int } else if k < c0.len() + c1.len() { 1int } else { 2int };
    assert forall|k: int| 0 <= k < all.len() implies edit_distance(lower, #[trigger] all[k]) == dist(k) by {
        if k < c0.len() {
            assert(all[k] == c0[k]);
        } else if k < c0.len() + c1.len() {
            assert(all[k] == c1[k - c0.len()]);
        } else {
            assert(all[k] == c2[k - c0.len() - c1.len()]);
        }
    }
    assert forall|i: int| 0 <= i < dict.len() && is_candidate(lower, dict[i])
        && !r.contains(#[trigger] dict[i]) implies {
        &&& r.len() == max
        &&& max > 0 ==> edit_distance(lower, r[max - 1]) <= edit_distance(lower, dict[i])
    } by {
        let w = dict[i];
        let p: int = if edit_distance(lower, w) == 0 {
            let k = choose|k: int| 0 <= k < c0.len() && c0[k] == w;
            assert(all[k] == w);
            k
        } else if edit_distance(lower, w) == 1 {
            let k = choose|k: int| 0 <= k < c1.len() && c1[k] == w;
            assert(all[c0.len() + k] == w);
            c0.len() + k
        } else {
            let k = choose|k: int| 0 <= k < c2.len() && c2[k] == w;
            assert(all[c0.len() + c1.len() + k] == w);
            c0.len() + c1.len() + k
        };
        assert(all[p] == w);
        if max > all.len() {
            assert(r == all);
            assert(r.contains(all[p]));
        } else {
            assert(r == all.take(max as int));
            if p < max {
                assert(r[p] == w);
            }
            if max > 0 {
                assert(r[max - 1] == all[max - 1]);
                assert(edit_distance(lower, all[max - 1]) == dist(max - 1));
                assert(edit_distance(lower, all[p]) == dist(p));
            }
        }
    }
    if dict.no_duplicates() {
        let pred0 = |w: Seq<char>| is_candidate(lower, w) && edit_distance(lower, w) == 0;
        let pred1 = |w: Seq<char>| is_candidate(lower, w) && edit_distance(lower, w) == 1;
        let pred2 = |w: Seq<char>| is_candidate(lower, w) && edit_distance(lower, w) == 2;
        lemma_filter_no_duplicates(dict, pred0);
        lemma_filter_no_duplicates(dict, pred1);
        lemma_filter_no_duplicates(dict, pred2);
        assert(c0 == dict.filter(pred0));
        assert(c1 == dict.filter(pred1));
        assert(c2 == dict.filter(pred2));
        assert forall|i: int, j: int| 0 <= i < r.len() && 0 <= j < r.len() && i != j implies r[i] != r[j] by {
            assert(r[i] == all[i]);
            assert(r[j] == all[j]);
            if dist(i) == dist(j) {
                if i < c0.len() && j < c0.len() {
                    assert(all[i] == c0[i] && all[j] == c0[j]);
                } else if i < c0.len() + c1.len() && j < c0.len() + c1.len() && i >= c0.len() && j >= c0.len() {
                    assert(all[i] == c1[i - c0.len()] && all[j] == c1[j - c0.len()]);
                } else {
                    assert(all[i] == c2[i - c0.len() - c1.len()] && all[j] == c2[j - c0.len() - c1.len()]);
                }
            }
        }
    }
}

/// What spell checking a text reports (`r`, from [`SpellChecker::check_text`]):
/// an occurrence of a word is among the places of the entry for its
/// lower-case form exactly when the checker does not know that form; every
/// place of an entry is such an occurrence; the entries' words are
/// distinct; each entry has places, in increasing order; the entries come
/// in the order of their first places; and each has at most eight
/// suggestions.
pub proof fn law_check_text_report(c: SpellChecker, r: Seq<MisspelledWord>, text: Seq<char>)
    requires
        c.reports(r, text_words(text)),
    ensures
        ({
            let ws = text_words(text);
            &&& forall|i: int| 0 <= i < ws.len() ==> (!c.knows(lowercase(#[trigger] ws[i].1)) <==> exists|j: int| {
                &&& 0 <= j < r.len()
                &&& r[j].word@ == lowercase(ws[i].1)
                &&& (#[trigger] locations_view(r[j].locations@)).contains((ws[i].0, blen(ws[i].1) as int))
            })
            &&& forall|j: int, l: int| 0 <= j < r.len() && 0 <= l < locations_view(r[j].locations@).len()
                ==> exists|i: int| {
                    &&& 0 <= i < ws.len()
                    &&& (#[trigger] locations_view(r[j].locations@)[l]) == (ws[i].0, blen(ws[i].1) as int)
                    &&& lowercase(#[trigger] ws[i].1) == r[j].word@
                }
            &&& forall|j: int, k: int| 0 <= j < k < r.len() ==> (#[trigger] r[j]).word@ != (#[trigger] r[k]).word@
            &&& forall|j: int| 0 <= j < r.len() ==> !c.knows((#[trigger] r[j]).word@)
                && locations_view(r[j].locations@).len() > 0 && r[j].suggestions@.len() <= 8
            &&& forall|j: int, a: int, b: int| 0 <= j < r.len() && 0 <= a < b < locations_view(r[j].locations@).len()
                ==> (#[trigger] locations_view(r[j].locations@)[a]).0 < (#[trigger] locations_view(r[j].locations@)[b]).0
            &&& forall|j: int, k: int| 0 <= j < k < r.len()
                ==> (#[trigger] locations_view(r[j].locations@))[0].0 < (#[trigger] locations_view(r[k].locations@))[0].0
        }),
{
    let ws = text_words(text);
    let g = c.misspelled_groups(ws);
    law_misspelled_groups_are_distinct(c, ws);
    law_every_misspelling_is_reported(c, ws);
    law_check_text_follows_the_text(c, text);
    assert forall|j: int| 0 <= j < r.len() implies #[trigger] r[j].word@ == g.0[j]
        && locations_view(r[j].locations@) == g.1[j] && r[j].suggestions@.len() <= 8 by {
        law_suggestions_are_near_and_ordered(c.dictionary(), lowercase(r[j].word@), 8);
        assert(r[j].suggestions@.len() == r[j].suggestions.deep_view().len());
    }
    assert forall|i: int| 0 <= i < ws.len() implies (!c.knows(lowercase(#[trigger] ws[i].1)) <==> exists|j: int| {
        &&& 0 <= j < r.len()
        &&& r[j].word@ == lowercase(ws[i].1)
        &&& (#[trigger] locations_view(r[j].locations@)).contains((ws[i].0, blen(ws[i].1) as int))
    }) by {
        if !c.knows(lowercase(ws[i].1)) {
            let j = choose|j: int| {
                &&& 0 <= j < g.0.len()
                &&& g.0[j] == lowercase(ws[i].1)
                &&& (#[trigger] g.1[j]).contains((ws[i].0, blen(ws[i].1) as int))
            };
            assert(r[j].word@ == g.0[j]);
        }
        if exists|j: int| {
            &&& 0 <= j < r.len()
            &&& r[j].word@ == lowercase(ws[i].1)
            &&& (#[trigger] locations_view(r[j].locations@)).contains((ws[i].0, blen(ws[i].1) as int))
        } {
            let j = choose|j: int| {
                &&& 0 <= j < r.len()
                &&& r[j].word@ == lowercase(ws[i].1)
                &&& (#[trigger] locations_view(r[j].locations@)).contains((ws[i].0, blen(ws[i].1) as int))
            };
            assert(r[j].word@ == g.0[j]);
            assert(!c.knows(g.0[j]));
        }
    }
    assert forall|j: int, l: int| 0 <= j < r.len() && 0 <= l < locations_view(r[j].locations@).len()
        implies exists|i: int| {
            &&& 0 <= i < ws.len()
            &&& (#[trigger] locations_view(r[j].locations@)[l]) == (ws[i].0, blen(ws[i].1) as int)
            &&& lowercase(#[trigger] ws[i].1) == r[j].word@
        } by {
        assert(r[j].word@ == g.0[j]);
        assert(locations_view(r[j].locations@) == g.1[j]);
        assert(g.1[j][l] == locations_view(r[j].locations@)[l]);
    }
    assert forall|j: int, k: int| 0 <= j < k < r.len() implies (#[trigger] r[j]).word@ != (#[trigger] r[k]).word@ by {
        assert(r[j].word@ == g.0[j]);
        assert(r[k].word@ == g.0[k]);
    }
    assert forall|j: int| 0 <= j < r.len() implies !c.knows((#[trigger] r[j]).word@)
        && locations_view(r[j].locations@).len() > 0 && r[j].suggestions@.len() <= 8 by {
        assert(r[j].word@ == g.0[j]);
        assert(locations_view(r[j].locations@) == g.1[j]);
    }
    assert forall|j: int, a: int, b: int| 0 <= j < r.len() && 0 <= a < b < locations_view(r[j].locations@).len()
        implies (#[trigger] locations_view(r[j].locations@)[a]).0 < (#[trigger] locations_view(r[j].locations@)[b]).0 by {
        assert(locations_view(r[j].locations@) == g.1[j]);
        assert(g.1[j][a] == locations_view(r[j].locations@)[a]);
        assert(g.1[j][b] == locations_view(r[j].locations@)[b]);
    }
    assert forall|j: int, k: int| 0 <= j < k < r.len()
        implies (#[trigger] locations_view(r[j].locations@))[0].0 < (#[trigger] locations_view(r[k].locations@))[0].0 by {
        assert(locations_view(r[j].locations@) == g.1[j]);
        assert(locations_view(r[k].locations@) == g.1[k]);
    }
}

/// Suggestions are the dictionary words at most two edits from the
/// word, whose length in bytes is within three of its own: every
/// suggestion is such a word, and when fewer than `max` come back, every
/// such word is offered; when one is left out, the list is full and no
/// offered word is farther than it.
pub proof fn law_words_two_edits_away_are_offered(dict: Seq<Seq<char>>, lower: Seq<char>, max: nat)
    ensures
        forall|k: int| 0 <= k < suggestion_list(dict, lower, max).len() ==> {
            &&& dict.contains(#[trigger] suggestion_list(dict, lower, max)[k])
            &&& edit_distance(lower, suggestion_list(dict, lower, max)[k]) <= 2
            &&& blen(suggestion_list(dict, lower, max)[k]) <= blen(lower) + 3
            &&& blen(lower) <= blen(suggestion_list(dict, lower, max)[k]) + 3
        },
        forall|i: int| 0 <= i < dict.len() && edit_distance(lower, dict[i]) <= 2
            && blen(dict[i]) <= blen(lower) + 3 && blen(lower) <= blen(dict[i]) + 3
            && !suggestion_list(dict, lower, max).contains(#[trigger] dict[i]) ==> {
            &&& suggestion_list(dict, lower, max).len() == max
            &&& forall|k: int| 0 <= k < max ==> edit_distance(lower, #[trigger] suggestion_list(dict, lower, max)[k])
                <= edit_distance(lower, dict[i])
        },
{
    law_suggestions_are_near_and_ordered(dict, lower, max);
    law_suggestions_leave_out_no_closer_word(dict, lower, max);
    let r = suggestion_list(dict, lower, max);
    assert forall|i: int| 0 <= i < dict.len() && edit_distance(lower, dict[i]) <= 2
        && blen(dict[i]) <= blen(lower) + 3 && blen(lower) <= blen(dict[i]) + 3
        && !r.contains(#[trigger] dict[i]) implies {
        &&& r.len() == max
        &&& forall|k: int| 0 <= k < max ==> edit_distance(lower, #[trigger] r[k]) <= edit_distance(lower, dict[i])
    } by {
        assert(is_candidate(lower, dict[i]));
        assert forall|k: int| 0 <= k < max implies edit_distance(lower, #[trigger] r[k]) <= edit_distance(lower, dict[i]) by {
            if k < max - 1 {
                assert(edit_distance(lower, r[k]) <= edit_distance(lower, r[max - 1]));
            }
        }
    }
}

} // verus!
