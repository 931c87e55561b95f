//! Dialog states.
pub mod confirm;
pub mod diff_view;
pub mod file_dialog;
pub mod history;
pub mod input;
pub mod spell_check;
pub mod geometry;
pub mod find;
