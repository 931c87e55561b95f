//! An entry of the document outline.
use vstd::prelude::*;

verus! {

/// A heading of a document: its title, level (1 to 3) and 0-based line.
#[derive(Debug, Clone)]
pub struct OutlineItem {
    pub title: String,
    pub level: u8,
    pub line_number: usize,
    pub source_file_path: Option<String>,
}

} // verus!
