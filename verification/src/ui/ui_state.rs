//! The state of the panes and of the dialogs that keep their own.
use vstd::prelude::*;
use crate::ui::dialogs::diff_view::DiffViewState;
use crate::ui::dialogs::find::FindDialogState;
use crate::ui::dialogs::history::HistoryDialogState;
use crate::ui::dialogs::spell_check::SpellCheckDialogState;
use crate::ui::outline_pane::OutlinePaneState;
use crate::ui::project_pane::ProjectPaneState;

verus! {

pub struct UiState {
    pub outline_state: OutlinePaneState,
    pub project_state: ProjectPaneState,
    pub history_state: Option<HistoryDialogState>,
    pub diff_state: Option<DiffViewState>,
    pub spell_state: Option<SpellCheckDialogState>,
    pub find_state: Option<FindDialogState>,
}

impl UiState {
    /// Empty panes with nothing selected, and no dialog state.
    pub fn new() -> (s: Self)
        ensures
            s.outline_state.items@.len() == 0,
            s.outline_state.selected is None,
            s.project_state.selected is None,
            s.history_state is None,
            s.diff_state is None,
            s.spell_state is None,
            s.find_state is None,
    {
        UiState {
            outline_state: OutlinePaneState::new(),
            project_state: ProjectPaneState::new(),
            history_state: None,
            diff_state: None,
            spell_state: None,
            find_state: None,
        }
    }
}

} // verus!
