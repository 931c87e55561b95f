//! The state of panes and dialogs, and the list-selection rules they share.
pub mod dialogs;
pub mod outline_pane;
pub mod project_pane;
pub mod selection;
pub mod ruler;
pub mod status_line;
pub mod tab_bar;
pub mod editor_view;
pub mod layout;
pub mod ui_state;
pub use ui_state::UiState;
