//! The outline pane: headings of the document and the selected one.
use vstd::prelude::*;
use crate::models::outline_item::OutlineItem;
use crate::ui::selection::{next_sel, prev_sel, select_next, select_previous};

verus! {

/// Outline entries and the index of the selected one.
pub struct OutlinePaneState {
    pub items: Vec<OutlineItem>,
    pub selected: Option<usize>,
}

impl OutlinePaneState {
    pub fn new() -> (s: Self)
        ensures
            s.items@.len() == 0,
            s.selected is None,
    {
        OutlinePaneState { items: Vec::new(), selected: None }
    }

    /// Replaces the entries; an empty outline has no selection, and a
    /// non-empty one keeps its selection or selects the first entry.
    pub fn update(&mut self, items: Vec<OutlineItem>)
        ensures
            final(self).items == items,
            final(self).selected == if items@.len() == 0 {
                None
            } else if old(self).selected is None {
                Some(0usize)
            } else {
                old(self).selected
            },
    {
        self.items = items;
        if self.items.len() == 0 {
            self.selected = None;
        } else if self.selected.is_none() {
            self.selected = Some(0);
        }
    }

    pub fn next(&mut self)
        ensures
            final(self).items == old(self).items,
            final(self).selected == next_sel(old(self).selected, old(self).items@.len()),
    {
        self.selected = select_next(self.selected, self.items.len());
    }

    pub fn previous(&mut self)
        ensures
            final(self).items == old(self).items,
            final(self).selected == prev_sel(old(self).selected, old(self).items@.len()),
    {
        self.selected = select_previous(self.selected, self.items.len());
    }

    /// The selected entry, if the selection is within the list.
    pub fn selected_item(&self) -> (r: Option<&OutlineItem>)
        ensures
            r == match self.selected {
                Some(i) => if i < self.items@.len() { Some(&self.items@[i as int]) } else { None },
                None => None,
            },
    {
        match self.selected {
            Some(i) => if i < self.items.len() { Some(&self.items[i]) } else { None },
            None => None,
        }
    }
}

} // verus!
