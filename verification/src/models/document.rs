//! A single document being edited.
use vstd::prelude::*;
use crate::paths::{file_name_of, path_file_name};

verus! {

/// A document, with the path of its file once it has one.
#[derive(Debug, Clone)]
pub struct Document {
    pub file_path: Option<String>,
}

/// The name shown for a file path: its final component, or `fallback`.
pub open spec fn name_or(path: Seq<char>, fallback: Seq<char>) -> Seq<char> {
    match file_name_of(path) {
        Some(n) => n,
        None => fallback,
    }
}

impl Document {
    /// The name shown for the document: its file's name, or `"Untitled"`.
    pub open spec fn shown_name(self) -> Seq<char> {
        match self.file_path {
            Some(p) => name_or(p@, "Untitled"@),
            None => "Untitled"@,
        }
    }

    /// A document without a file.
    pub fn new() -> (d: Self)
        ensures
            d.file_path is None,
    {
        Document { file_path: None }
    }

    /// A document for the file at `path`.
    pub fn from_path(path: &str) -> (d: Self)
        ensures
            d.file_path matches Some(p) && p@ == path@,
    {
        Document { file_path: Some(String::from_str(path)) }
    }

    /// The final component of the document's path, or `"Untitled"`.
    pub fn file_name(&self) -> (r: String)
        ensures
            r@ == self.shown_name(),
    {
        match &self.file_path {
            Some(p) => match path_file_name(p.as_str()) {
                Some(n) => n,
                None => String::from_str("Untitled"),
            },
            None => String::from_str("Untitled"),
        }
    }
}

} // verus!
