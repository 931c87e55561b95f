//! Comparing the current text with a snapshot before reverting to it.
use vstd::prelude::*;
use crate::editor::block::{byte_slice, slice_bytes};
use crate::services::line_diff::DiffLine;
use crate::text::{blen, is_boundary, push_char, spaces, str_blen, to_chars};

verus! {

pub struct DiffViewState {
    pub commit_id: String,
    pub commit_message: String,
    pub filename: String,
    pub current_content: String,
    pub snapshot_content: String,
    pub scroll: u16,
}

impl DiffViewState {
    pub fn new(
        commit_id: String,
        commit_message: String,
        filename: String,
        current_content: String,
        snapshot_content: String,
    ) -> (s: Self)
        ensures
            s.commit_id == commit_id,
            s.commit_message == commit_message,
            s.filename == filename,
            s.current_content == current_content,
            s.snapshot_content == snapshot_content,
            s.scroll == 0,
    {
        DiffViewState { commit_id, commit_message, filename, current_content, snapshot_content, scroll: 0 }
    }

    /// Scrolls three rows down, stopping at the largest offset.
    pub fn scroll_down(&mut self)
        ensures
            final(self).scroll == if old(self).scroll + 3 > u16::MAX { u16::MAX as int } else { old(self).scroll + 3 },
            final(self).commit_id == old(self).commit_id,
            final(self).snapshot_content == old(self).snapshot_content,
            final(self).current_content == old(self).current_content,
    {
        self.scroll = self.scroll.saturating_add(3);
    }

    /// Scrolls three rows up, stopping at the top.
    pub fn scroll_up(&mut self)
        ensures
            final(self).scroll == if old(self).scroll < 3 { 0 } else { old(self).scroll - 3 },
            final(self).commit_id == old(self).commit_id,
            final(self).snapshot_content == old(self).snapshot_content,
            final(self).current_content == old(self).current_content,
    {
        self.scroll = self.scroll.saturating_sub(3);
    }
}

/// How one side of a diff row is coloured.
#[derive(Debug, Clone, Copy, PartialEq, Eq, Structural)]
pub enum DiffStyle {
    Same,
    Removed,
    Added,
}

/// `s` cut to at most `max` bytes.
pub open spec fn truncated(s: Seq<char>, max: int) -> Seq<char> {
    if blen(s) <= max { s } else { byte_slice(s, 0, max) }
}

/// `s` padded with spaces on the right to `w` characters.
pub open spec fn padded(s: Seq<char>, w: int) -> Seq<char> {
    if s.len() < w { s + Seq::new((w - s.len()) as nat, |i: int| ' ') } else { s }
}

/// The text of one side of a diff row `width` columns wide: a marker
/// (`"  "`, `"- "` or `"+ "`) and the line, cut to `width` bytes and padded
/// to `width - 2` characters.
pub open spec fn diff_cell(marker: Seq<char>, text: Seq<char>, width: int) -> Seq<char> {
    marker + padded(truncated(text, width), if width >= 2 { width - 2 } else { 0 })
}

/// The line of a diff side can be cut at `width` bytes.
pub open spec fn cuttable(line: DiffLine, width: int) -> bool {
    let t = match line {
        DiffLine::Same(t) => t@,
        DiffLine::Removed(t) => t@,
        DiffLine::Added(t) => t@,
    };
    blen(t) > width ==> is_boundary(t, width)
}

/// The text and colour of one side of a diff row.
pub fn format_diff_line(line: &DiffLine, width: usize) -> (r: (String, DiffStyle))
    requires
        cuttable(*line, width as int),
    ensures
        r.0@ == match *line {
            DiffLine::Same(t) => diff_cell(seq![' ', ' '], t@, width as int),
            DiffLine::Removed(t) => diff_cell(seq!['-', ' '], t@, width as int),
            DiffLine::Added(t) => diff_cell(seq!['+', ' '], t@, width as int),
        },
        r.1 == match *line {
            DiffLine::Same(_) => DiffStyle::Same,
            DiffLine::Removed(_) => DiffStyle::Removed,
            DiffLine::Added(_) => DiffStyle::Added,
        },
{
    let (text, first, style) = match line {
        DiffLine::Same(t) => (t, ' ', DiffStyle::Same),
        DiffLine::Removed(t) => (t, '-', DiffStyle::Removed),
        DiffLine::Added(t) => (t, '+', DiffStyle::Added),
    };
    let n = str_blen(text.as_str());
    let cut = if n <= width {
        text.clone()
    } else {
        proof {
            assert(is_boundary(text@, 0)) by {
                assert(text@.take(0) =~= Seq::<char>::empty());
            }
        }
        slice_bytes(text.as_str(), 0, width)
    };
    assert(cut@ == truncated(text@, width as int));
    let w = if width >= 2 { width - 2 } else { 0 };
    let count = to_chars(cut.as_str()).len();
    let mut out = String::new();
    push_char(&mut out, first);
    push_char(&mut out, ' ');
    out.append(cut.as_str());
    if count < w {
        let pad = spaces(w - count);
        out.append(pad.as_str());
    }
    proof {
        assert(out@ =~= seq![first, ' '] + padded(truncated(text@, width as int), w as int));
    }
    (out, style)
}

} // verus!
