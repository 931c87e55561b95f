//! A writing project: a directory and the ordered list of its files.
use vstd::prelude::*;
use crate::paths::{join_path, join_spec, path_file_name};
use crate::models::document::name_or;

verus! {

/// A project: schema version, file order, and the project directory.
#[derive(Debug, Clone)]
pub struct Project {
    pub version: u32,
    pub file_order: Vec<String>,
    pub directory_path: String,
}

impl Project {
    /// An empty project (schema version 1) in `directory_path`.
    pub fn new(directory_path: String) -> (p: Self)
        ensures
            p.version == 1,
            p.file_order@.len() == 0,
            p.directory_path == directory_path,
    {
        Project { version: 1, file_order: Vec::new(), directory_path }
    }

    /// The directory's final component, or `"Project"`.
    pub fn name(&self) -> (r: String)
        ensures
            r@ == name_or(self.directory_path@, "Project"@),
    {
        match path_file_name(self.directory_path.as_str()) {
            Some(n) => n,
            None => String::from_str("Project"),
        }
    }

    /// Path of the project's `project.json`.
    pub fn project_json_path(&self) -> (r: String)
        ensures
            r@ == join_spec(self.directory_path@, "project.json"@),
    {
        join_path(self.directory_path.as_str(), "project.json")
    }
}

} // verus!
