//! A WordStar-inspired markdown editor: the text processing, document model,
//! spell checking, versioning and key handling of the editor, with contracts.
pub mod text;
pub mod paths;
pub mod services;
pub mod models;
pub mod editor;
pub mod ui;
pub mod app;
pub mod keys;
pub mod controller;
pub mod config;
pub mod actions;
pub mod dialog_flow;
