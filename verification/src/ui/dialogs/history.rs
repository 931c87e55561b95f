//! The list of commits of a file.
use vstd::prelude::*;
use crate::models::version::VersionCommit;
use crate::ui::selection::{next_sel, prev_sel, select_next, select_previous};

verus! {

pub struct HistoryDialogState {
    pub commits: Vec<VersionCommit>,
    pub selected: Option<usize>,
    pub filename: String,
}

impl HistoryDialogState {
    /// The dialog with the newest (last) commit selected.
    pub fn new(filename: &str, commits: Vec<VersionCommit>) -> (s: Self)
        ensures
            s.commits == commits,
            s.filename@ == filename@,
            s.selected == if commits@.len() == 0 { None } else { Some((commits@.len() - 1) as usize) },
    {
        let selected = if commits.len() == 0 { None } else { Some(commits.len() - 1) };
        HistoryDialogState { commits, selected, filename: String::from_str(filename) }
    }

    pub fn next(&mut self)
        ensures
            final(self).commits == old(self).commits,
            final(self).selected == next_sel(old(self).selected, old(self).commits@.len()),
    {
        self.selected = select_next(self.selected, self.commits.len());
    }

    pub fn previous(&mut self)
        ensures
            final(self).commits == old(self).commits,
            final(self).selected == prev_sel(old(self).selected, old(self).commits@.len()),
    {
        self.selected = select_previous(self.selected, self.commits.len());
    }

    pub fn selected_commit(&self) -> (r: Option<&VersionCommit>)
        ensures
            r == match self.selected {
                Some(i) => if i < self.commits@.len() { Some(&self.commits@[i as int]) } else { None },
                None => None,
            },
    {
        match self.selected {
            Some(i) => if i < self.commits.len() { Some(&self.commits[i]) } else { None },
            None => None,
        }
    }
}

} // verus!
