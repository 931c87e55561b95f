//! Going through the misspelled words of a document.
use vstd::prelude::*;
use crate::models::spell::{MisspelledWord, WordLocation};
use crate::services::spell_check::SpellChecker;
use crate::services::word_extractor::text_words;
use crate::text::{blen, is_boundary, to_chars};
use crate::editor::block::{byte_slice, slice_bytes};
use crate::ui::dialogs::find::boundary_index;
use crate::ui::selection::{next_sel, prev_sel, select_next, select_previous};

verus! {

/// Which list has the keyboard focus.
#[derive(Debug, Clone, Copy, PartialEq, Eq, Structural)]
pub enum SpellFocus {
    Words,
    Suggestions,
}

/// The misspelled words, the selected word and the selected suggestion.
pub struct SpellCheckDialogState {
    pub words: Vec<MisspelledWord>,
    pub word_selected: Option<usize>,
    pub suggestion_selected: Option<usize>,
    pub focus: SpellFocus,
}

/// The suggestions count of the selected word (0 without one).
pub open spec fn suggestion_count(words: Seq<MisspelledWord>, sel: Option<usize>) -> nat {
    match sel {
        Some(i) => if i < words.len() { words[i as int].suggestions@.len() } else { 0 },
        None => 0,
    }
}

/// The selected suggestion of the selected word, when both selections are
/// within their lists.
pub open spec fn selected_suggestion_of(
    words: Seq<MisspelledWord>,
    ws: Option<usize>,
    ss: Option<usize>,
) -> Option<String> {
    match ws {
        Some(i) => if i < words.len() {
            match ss {
                Some(j) => if j < words[i as int].suggestions@.len() {
                    Some(words[i as int].suggestions@[j as int])
                } else {
                    None
                },
                None => None,
            }
        } else {
            None
        },
        None => None,
    }
}

impl SpellCheckDialogState {
    /// The dialog with the first word selected, if there is one.
    pub fn new(words: Vec<MisspelledWord>) -> (s: Self)
        ensures
            s.words == words,
            s.word_selected == if words@.len() == 0 { None } else { Some(0usize) },
            s.suggestion_selected is None,
            s.focus == SpellFocus::Words,
    {
        let sel = if words.len() == 0 { None } else { Some(0) };
        SpellCheckDialogState { words, word_selected: sel, suggestion_selected: None, focus: SpellFocus::Words }
    }

    pub fn selected_word(&self) -> (r: Option<&MisspelledWord>)
        ensures
            r == match self.word_selected {
                Some(i) => if i < self.words@.len() { Some(&self.words@[i as int]) } else { None },
                None => None,
            },
    {
        match self.word_selected {
            Some(i) => if i < self.words.len() { Some(&self.words[i]) } else { None },
            None => None,
        }
    }

    /// The selected suggestion of the selected word.
    pub fn selected_suggestion(&self) -> (r: Option<String>)
        ensures
            r == selected_suggestion_of(self.words@, self.word_selected, self.suggestion_selected),
    {
        let word = match self.selected_word() {
            Some(w) => w,
            None => return None,
        };
        let j = match self.suggestion_selected {
            Some(j) => j,
            None => return None,
        };
        if j < word.suggestions.len() {
            Some(word.suggestions[j].clone())
        } else {
            None
        }
    }

    /// Selects the next word; no suggestion is selected afterwards.
    pub fn next_word(&mut self)
        ensures
            final(self).words == old(self).words,
            old(self).words@.len() == 0 ==> final(self).word_selected == old(self).word_selected
                && final(self).suggestion_selected == old(self).suggestion_selected,
            old(self).words@.len() > 0 ==> final(self).word_selected == next_sel(old(self).word_selected, old(self).words@.len())
                && final(self).suggestion_selected is None,
            final(self).focus == old(self).focus,
    {
        if self.words.len() == 0 {
            return;
        }
        self.word_selected = select_next(self.word_selected, self.words.len());
        self.suggestion_selected = None;
    }

    /// Selects the previous word; no suggestion is selected afterwards.
    pub fn previous_word(&mut self)
        ensures
            final(self).words == old(self).words,
            old(self).words@.len() == 0 ==> final(self).word_selected == old(self).word_selected
                && final(self).suggestion_selected == old(self).suggestion_selected,
            old(self).words@.len() > 0 ==> final(self).word_selected == prev_sel(old(self).word_selected, old(self).words@.len())
                && final(self).suggestion_selected is None,
            final(self).focus == old(self).focus,
    {
        if self.words.len() == 0 {
            return;
        }
        self.word_selected = select_previous(self.word_selected, self.words.len());
        self.suggestion_selected = None;
    }

    /// Selects the next suggestion of the selected word.
    pub fn next_suggestion(&mut self)
        ensures
            final(self).words == old(self).words,
            final(self).word_selected == old(self).word_selected,
            final(self).suggestion_selected == next_sel(
                old(self).suggestion_selected,
                suggestion_count(old(self).words@, old(self).word_selected),
            ),
            final(self).focus == old(self).focus,
    {
        let count = match self.selected_word() {
            Some(w) => w.suggestions.len(),
            None => 0,
        };
        self.suggestion_selected = select_next(self.suggestion_selected, count);
    }

    /// Selects the previous suggestion of the selected word.
    pub fn previous_suggestion(&mut self)
        ensures
            final(self).words == old(self).words,
            final(self).word_selected == old(self).word_selected,
            final(self).suggestion_selected == prev_sel(
                old(self).suggestion_selected,
                suggestion_count(old(self).words@, old(self).word_selected),
            ),
            final(self).focus == old(self).focus,
    {
        let count = match self.selected_word() {
            Some(w) => w.suggestions.len(),
            None => 0,
        };
        self.suggestion_selected = select_previous(self.suggestion_selected, count);
    }

    /// Removes the selected word; the selection stays at the same index, moves
    /// to the new last word when the last one was removed, and is cleared
    /// when no word is left.
    pub fn remove_selected_word(&mut self)
        ensures
            match old(self).word_selected {
                Some(i) => if i < old(self).words@.len() {
                    &&& final(self).words@ == old(self).words@.remove(i as int)
                    &&& final(self).word_selected == if i >= final(self).words@.len() && i > 0 {
                        Some((i - 1) as usize)
                    } else if final(self).words@.len() == 0 {
                        None
                    } else {
                        Some(i)
                    }
                } else {
                    final(self).words == old(self).words && final(self).word_selected == old(self).word_selected
                },
                None => final(self).words == old(self).words && final(self).word_selected is None,
            },
            final(self).suggestion_selected == old(self).suggestion_selected,
            final(self).focus == old(self).focus,
    {
        if let Some(i) = self.word_selected {
            if i < self.words.len() {
                self.words.remove(i);
                if i >= self.words.len() && i > 0 {
                    self.word_selected = Some(i - 1);
                } else if self.words.len() == 0 {
                    self.word_selected = None;
                }
            }
        }
    }
}

/// The locations lie in `text`, each from one character boundary to
/// another, in order and without overlapping.
pub open spec fn locations_fit(text: Seq<char>, locs: Seq<WordLocation>) -> bool {
    &&& forall|i: int| #![trigger locs[i]] 0 <= i < locs.len() ==> {
        &&& locs[i].offset + locs[i].length <= blen(text)
        &&& is_boundary(text, locs[i].offset as int)
        &&& is_boundary(text, locs[i].offset + locs[i].length)
    }
    &&& forall|i: int, j: int| #![trigger locs[i], locs[j]] 0 <= i < j < locs.len() ==> locs[i].offset + locs[i].length <= locs[j].offset
}

/// `text` from byte `start` on, with each of the locations (all at or
/// after `start`) replaced by `to`.
pub open spec fn replaced_at(text: Seq<char>, locs: Seq<WordLocation>, to: Seq<char>, start: int) -> Seq<char>
    decreases locs.len(),
{
    if locs.len() == 0 {
        byte_slice(text, start, blen(text) as int)
    } else {
        byte_slice(text, start, locs[0].offset as int) + to
            + replaced_at(text, locs.drop_first(), to, locs[0].offset + locs[0].length)
    }
}

/// `text` with exactly the given locations replaced by `to`, every other
/// byte kept; `None` when the locations do not fit the text (see
/// [`locations_fit`]).
pub fn replace_locations(text: &str, locations: &Vec<WordLocation>, to: &str) -> (r: Option<String>)
    ensures
        r is Some <==> locations_fit(text@, locations@),
        r matches Some(t) ==> t@ == replaced_at(text@, locations@, to@, 0),
{
    let v = to_chars(text);
    let n = crate::text::str_blen(text);
    let mut i: usize = 0;
    while i < locations.len()
        invariant
            v@ == text@,
            n == blen(text@),
            i <= locations@.len(),
            forall|k: int| #![trigger locations@[k]] 0 <= k < i ==> {
                &&& locations@[k].offset + locations@[k].length <= blen(text@)
                &&& is_boundary(text@, locations@[k].offset as int)
                &&& is_boundary(text@, locations@[k].offset + locations@[k].length)
            },
            forall|k: int, j: int| #![trigger locations@[k], locations@[j]] 0 <= k < j < i ==> locations@[k].offset + locations@[k].length
                <= locations@[j].offset,
        decreases locations.len() - i,
    {
        let l = locations[i];
        assert(l == locations@[i as int]);
        if l.length > n || l.offset > n - l.length {
            return None;
        }
        if boundary_index(&v, l.offset).is_none() || boundary_index(&v, l.offset + l.length).is_none() {
            return None;
        }
        if i > 0 {
            let p = locations[i - 1];
            assert(p == locations@[i - 1]);
            if p.offset + p.length > l.offset {
                return None;
            }
            assert forall|k: int| #![trigger locations@[k]] 0 <= k < i implies locations@[k].offset + locations@[k].length
                <= locations@[i as int].offset by {
                if k < i - 1 {
                    assert(locations@[k].offset + locations@[k].length <= locations@[i - 1].offset);
                }
            }
        }
        i = i + 1;
    }
    let ghost locs = locations@;
    let ghost full = replaced_at(text@, locs, to@, 0);
    proof {
        assert(is_boundary(text@, 0)) by {
            assert(text@.take(0) =~= Seq::<char>::empty());
        }
        assert(locs.skip(0) =~= locs);
    }
    let mut out = String::new();
    let mut pos: usize = 0;
    let mut k: usize = 0;
    while k < locations.len()
        invariant
            locs == locations@,
            locations_fit(text@, locs),
            n == blen(text@),
            k <= locs.len(),
            pos <= n,
            is_boundary(text@, pos as int),
            k < locs.len() ==> pos <= locs[k as int].offset,
            full == replaced_at(text@, locs, to@, 0),
            full == out@ + replaced_at(text@, locs.skip(k as int), to@, pos as int),
        decreases locations.len() - k,
    {
        let l = locations[k];
        let piece = slice_bytes(text, pos, l.offset);
        proof {
            let rest = locs.skip(k as int);
            assert(rest[0] == locs[k as int]);
            assert(rest.drop_first() =~= locs.skip(k + 1));
            if k + 1 < locs.len() {
                assert(locs[k as int].offset + locs[k as int].length <= locs[k + 1].offset);
            }
        }
        out.append(piece.as_str());
        out.append(to);
        pos = l.offset + l.length;
        k = k + 1;
        proof {
            assert(full =~= out@ + replaced_at(text@, locs.skip(k as int), to@, pos as int));
        }
    }
    proof {
        assert(locs.skip(k as int) =~= Seq::<WordLocation>::empty());
        assert(is_boundary(text@, n as int)) by {
            assert(text@.take(text@.len() as int) =~= text@);
            assert(blen(text@.take(text@.len() as int)) == n);
        }
    }
    let tail = slice_bytes(text, pos, n);
    out.append(tail.as_str());
    Some(out)
}

/// The text after replacing the selected word's places by the selected
/// suggestion, when both are selected.
pub open spec fn replacement_text(st: SpellCheckDialogState, text: Seq<char>) -> Option<Seq<char>> {
    match selected_suggestion_of(st.words@, st.word_selected, st.suggestion_selected) {
        Some(g) => {
            let locs = st.words@[st.word_selected->0 as int].locations@;
            if locations_fit(text, locs) {
                Some(replaced_at(text, locs, g@, 0))
            } else {
                None
            }
        },
        None => None,
    }
}

impl SpellCheckDialogState {
    /// Replaces the selected word at its places by the selected suggestion
    /// and checks the new text again (the other words' places have moved):
    /// returns the new text and the dialog over its misspelled words, the
    /// selection kept at the same index (or the last word).  `None` when no
    /// suggestion is selected, when the places do not fit the text, or when
    /// the new text is too long to check.
    pub fn replace_and_recheck(&self, checker: &SpellChecker, text: &str) -> (r: Option<(String, SpellCheckDialogState)>)
        ensures
            r is Some <==> (replacement_text(*self, text@) matches Some(t) && blen(t) < usize::MAX),
            r matches Some(p) ==> {
                &&& replacement_text(*self, text@) == Some(p.0@)
                &&& checker.reports(p.1.words@, text_words(p.0@))
                &&& p.1.word_selected == if p.1.words@.len() == 0 {
                    None
                } else if self.word_selected->0 < p.1.words@.len() {
                    self.word_selected
                } else {
                    Some((p.1.words@.len() - 1) as usize)
                }
                &&& p.1.suggestion_selected is None
                &&& p.1.focus == SpellFocus::Words
            },
    {
        let suggestion = match self.selected_suggestion() {
            Some(g) => g,
            None => return None,
        };
        let index = match self.word_selected {
            Some(i) => i,
            None => return None,
        };
        let new_text = match replace_locations(text, &self.words[index].locations, suggestion.as_str()) {
            Some(t) => t,
            None => return None,
        };
        if crate::text::str_blen(new_text.as_str()) == usize::MAX {
            return None;
        }
        let words = checker.check_text(new_text.as_str());
        let mut fresh = SpellCheckDialogState::new(words);
        let n = fresh.words.len();
        if n > 0 {
            fresh.word_selected = Some(if index < n { index } else { n - 1 });
        }
        Some((new_text, fresh))
    }
}

} // verus!
