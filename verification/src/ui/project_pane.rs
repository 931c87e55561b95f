//! The project pane: the selected file of the project.
use vstd::prelude::*;
use crate::ui::selection::{next_sel, prev_sel, select_next, select_previous};

verus! {

/// The index of the selected project file.
pub struct ProjectPaneState {
    pub selected: Option<usize>,
}

impl ProjectPaneState {
    pub fn new() -> (s: Self)
        ensures
            s.selected is None,
    {
        ProjectPaneState { selected: None }
    }

    pub fn select(&mut self, index: usize)
        ensures
            final(self).selected == Some(index),
    {
        self.selected = Some(index);
    }

    pub fn next(&mut self, count: usize)
        ensures
            final(self).selected == next_sel(old(self).selected, count as nat),
    {
        self.selected = select_next(self.selected, count);
    }

    pub fn previous(&mut self, count: usize)
        ensures
            final(self).selected == prev_sel(old(self).selected, count as nat),
    {
        self.selected = select_previous(self.selected, count);
    }
}

} // verus!
