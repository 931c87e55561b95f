//! A prompt for a file path, with completion of the path.
use vstd::prelude::*;
use crate::text::{
    blen, char_blen, insert_at, insert_char_at, is_boundary, next_char_blen, prev_char_blen,
    remove_before, remove_char_before, step_left, step_right, to_chars,
};
use crate::services::word_extractor::byte_len;

verus! {

/// The path typed so far, its cursor (a byte position), and the completions
/// that the last completion request found.
pub struct FileDialogState {
    pub input: String,
    pub cursor_pos: usize,
    pub title: String,
    pub completions: Vec<String>,
    pub selected_completion: usize,
}

impl FileDialogState {
    /// The cursor lies on a character boundary of the input.
    pub open spec fn cursor_ok(&self) -> bool {
        is_boundary(self.input@, self.cursor_pos as int)
    }

    pub fn new(title: &str) -> (s: Self)
        ensures
            s.input@.len() == 0,
            s.cursor_pos == 0,
            s.title@ == title@,
            s.completions@.len() == 0,
            s.selected_completion == 0,
            s.cursor_ok(),
    {
        let s = FileDialogState {
            input: String::new(),
            cursor_pos: 0,
            title: String::from_str(title),
            completions: Vec::new(),
            selected_completion: 0,
        };
        assert(s.input@.take(0) =~= s.input@);
        s
    }

    /// A dialog holding `initial`, with the cursor at its end.
    pub fn with_initial(title: &str, initial: &str) -> (s: Self)
        requires
            blen(initial@) <= usize::MAX,
        ensures
            s.input@ == initial@,
            s.cursor_pos == blen(initial@),
            s.title@ == title@,
            s.completions@.len() == 0,
            s.selected_completion == 0,
            s.cursor_ok(),
    {
        let v = to_chars(initial);
        let n = byte_len(&v);
        let s = FileDialogState {
            input: String::from_str(initial),
            cursor_pos: n,
            title: String::from_str(title),
            completions: Vec::new(),
            selected_completion: 0,
        };
        assert(s.input@.take(s.input@.len() as int) =~= s.input@);
        s
    }

    /// Inserts `c` at the cursor and moves the cursor past it.
    pub fn insert_char(&mut self, c: char)
        requires
            old(self).cursor_ok(),
            blen(old(self).input@) + 4 <= usize::MAX,
        ensures
            final(self).input@ == insert_at(old(self).input@, old(self).cursor_pos as int, c),
            final(self).cursor_pos == old(self).cursor_pos + char_blen(c),
            final(self).cursor_ok(),
            final(self).title == old(self).title,
            final(self).completions == old(self).completions,
    {
        let (s, b) = insert_char_at(&self.input, self.cursor_pos, c);
        self.input = s;
        self.cursor_pos = b;
    }

    /// Deletes the character before the cursor, if any.
    pub fn backspace(&mut self)
        requires
            old(self).cursor_ok(),
        ensures
            old(self).cursor_pos == 0 ==> final(self).input@ == old(self).input@ && final(self).cursor_pos == 0,
            old(self).cursor_pos > 0 ==> final(self).input@ == remove_before(old(self).input@, old(self).cursor_pos as int)
                && final(self).cursor_pos == old(self).cursor_pos - prev_char_blen(old(self).input@, old(self).cursor_pos as int),
            final(self).cursor_ok(),
            final(self).title == old(self).title,
            final(self).completions == old(self).completions,
    {
        let (s, b) = remove_char_before(&self.input, self.cursor_pos);
        self.input = s;
        self.cursor_pos = b;
    }

    /// Moves the cursor one character to the left.
    pub fn move_left(&mut self)
        requires
            old(self).cursor_ok(),
        ensures
            final(self).cursor_pos == old(self).cursor_pos - prev_char_blen(old(self).input@, old(self).cursor_pos as int),
            final(self).input == old(self).input,
            final(self).cursor_ok(),
            final(self).title == old(self).title,
            final(self).completions == old(self).completions,
    {
        self.cursor_pos = step_left(&self.input, self.cursor_pos);
    }

    /// Moves the cursor one character to the right.
    pub fn move_right(&mut self)
        requires
            old(self).cursor_ok(),
            blen(old(self).input@) <= usize::MAX,
        ensures
            final(self).cursor_pos == old(self).cursor_pos + next_char_blen(old(self).input@, old(self).cursor_pos as int),
            final(self).input == old(self).input,
            final(self).cursor_ok(),
            final(self).title == old(self).title,
            final(self).completions == old(self).completions,
    {
        self.cursor_pos = step_right(&self.input, self.cursor_pos);
    }

    /// Takes the completions of the input path (found by listing the
    /// directory): a single completion replaces the input, with the cursor at
    /// its end.
    pub fn tab_complete(&mut self, completions: Vec<String>)
        requires
            completions@.len() == 1 ==> blen(completions@[0]@) <= usize::MAX,
        ensures
            final(self).completions == completions,
            completions@.len() == 1 ==> final(self).input@ == completions@[0]@
                && final(self).cursor_pos == blen(completions@[0]@),
            completions@.len() != 1 ==> final(self).input == old(self).input
                && final(self).cursor_pos == old(self).cursor_pos,
            old(self).cursor_ok() ==> final(self).cursor_ok(),
            final(self).title == old(self).title,
    {
        if completions.len() == 1 {
            let c = completions[0].clone();
            let v = to_chars(c.as_str());
            let n = byte_len(&v);
            self.input = c;
            self.cursor_pos = n;
            assert(self.input@.take(self.input@.len() as int) =~= self.input@);
        }
        self.completions = completions;
    }
}

} // verus!
