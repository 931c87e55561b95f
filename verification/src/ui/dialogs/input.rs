//! A one-line text prompt.
use vstd::prelude::*;
use crate::text::{blen, insert_at, insert_char_at, is_boundary, prev_char_blen, remove_before, remove_char_before};

verus! {

/// A prompt, the text typed so far and the cursor (a byte position).
pub struct InputDialogState {
    pub title: String,
    pub prompt: String,
    pub input: String,
    pub cursor_pos: usize,
}

impl InputDialogState {
    /// The cursor lies on a character boundary of the input.
    pub open spec fn cursor_ok(&self) -> bool {
        is_boundary(self.input@, self.cursor_pos as int)
    }

    pub fn new(title: &str, prompt: &str) -> (s: Self)
        ensures
            s.title@ == title@,
            s.prompt@ == prompt@,
            s.input@.len() == 0,
            s.cursor_pos == 0,
            s.cursor_ok(),
    {
        let s = InputDialogState {
            title: String::from_str(title),
            prompt: String::from_str(prompt),
            input: String::new(),
            cursor_pos: 0,
        };
        assert(s.input@.take(0) =~= s.input@);
        s
    }

    /// Inserts `c` at the cursor and moves the cursor past it.
    pub fn insert_char(&mut self, c: char)
        requires
            old(self).cursor_ok(),
            blen(old(self).input@) + 4 <= usize::MAX,
        ensures
            final(self).input@ == insert_at(old(self).input@, old(self).cursor_pos as int, c),
            final(self).cursor_pos == old(self).cursor_pos + crate::text::char_blen(c),
            final(self).cursor_ok(),
            final(self).title == old(self).title,
            final(self).prompt == old(self).prompt,
    {
        let (s, b) = insert_char_at(&self.input, self.cursor_pos, c);
        self.input = s;
        self.cursor_pos = b;
    }

    /// Deletes the character before the cursor, if any.
    pub fn backspace(&mut self)
        requires
            old(self).cursor_ok(),
        ensures
            old(self).cursor_pos == 0 ==> final(self).input@ == old(self).input@ && final(self).cursor_pos == 0,
            old(self).cursor_pos > 0 ==> final(self).input@ == remove_before(old(self).input@, old(self).cursor_pos as int)
                && final(self).cursor_pos == old(self).cursor_pos - prev_char_blen(old(self).input@, old(self).cursor_pos as int),
            final(self).cursor_ok(),
            final(self).title == old(self).title,
            final(self).prompt == old(self).prompt,
    {
        let (s, b) = remove_char_before(&self.input, self.cursor_pos);
        self.input = s;
        self.cursor_pos = b;
    }
}

} // verus!
