//! A file that belongs to a project.
use vstd::prelude::*;
use crate::paths::{file_name_of, join_path, join_spec, path_file_name};
use crate::models::document::name_or;

verus! {

/// A file of a project: its path relative to the project directory.
#[derive(Debug, Clone)]
pub struct ProjectFile {
    pub relative_path: String,
    pub project_dir: String,
}

impl ProjectFile {
    pub fn new(relative_path: &str, project_dir: &str) -> (f: Self)
        ensures
            f.relative_path@ == relative_path@,
            f.project_dir@ == project_dir@,
    {
        ProjectFile {
            relative_path: String::from_str(relative_path),
            project_dir: String::from_str(project_dir),
        }
    }

    /// The project directory joined with the relative path.
    pub fn absolute_path(&self) -> (r: String)
        ensures
            r@ == join_spec(self.project_dir@, self.relative_path@),
    {
        join_path(self.project_dir.as_str(), self.relative_path.as_str())
    }

    /// The final component of the relative path, or the relative path itself.
    pub fn file_name(&self) -> (r: String)
        ensures
            r@ == name_or(self.relative_path@, self.relative_path@),
    {
        match path_file_name(self.relative_path.as_str()) {
            Some(n) => n,
            None => self.relative_path.clone(),
        }
    }
}

} // verus!
