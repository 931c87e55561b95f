//! The data model of documents, projects, tabs, outlines, spelling and
//! version history.
pub mod document;
pub mod editor_tab;
pub mod outline_item;
pub mod project;
pub mod project_file;
pub mod spell;
pub mod version;
