//! Services: diffing, outline extraction, spell checking, versioning.
pub mod line_diff;
pub mod word_extractor;
pub mod markdown_parser;
pub mod print_service;
pub mod builtin_words;
pub mod spell_check;
pub mod project_service;
pub mod versioning;
pub mod file_service;
