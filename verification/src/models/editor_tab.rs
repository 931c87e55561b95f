//! An open file of a project, with its unsaved state.
use vstd::prelude::*;
use crate::models::project_file::ProjectFile;
use crate::models::document::name_or;
use crate::text::push_char;

verus! {

/// A tab of the editor: a project file and its current content.
#[derive(Debug, Clone)]
pub struct EditorTab {
    pub project_file: ProjectFile,
    pub content: String,
    pub caret_offset: usize,
    pub scroll_offset: usize,
    pub is_dirty: bool,
}

impl EditorTab {
    /// A clean tab at the start of its content.
    pub fn new(project_file: ProjectFile, content: String) -> (t: Self)
        ensures
            t.project_file == project_file,
            t.content == content,
            t.caret_offset == 0,
            t.scroll_offset == 0,
            !t.is_dirty,
    {
        EditorTab { project_file, content, caret_offset: 0, scroll_offset: 0, is_dirty: false }
    }

    /// The name shown for the tab: the file name, followed by `'*'` when
    /// there are unsaved changes.
    pub open spec fn display_name_spec(self) -> Seq<char> {
        if self.is_dirty {
            name_or(self.project_file.relative_path@, self.project_file.relative_path@).push('*')
        } else {
            name_or(self.project_file.relative_path@, self.project_file.relative_path@)
        }
    }

    /// The file name, followed by `'*'` when there are unsaved changes.
    pub fn display_name(&self) -> (r: String)
        ensures
            r@ == self.display_name_spec(),
    {
        let mut n = self.project_file.file_name();
        if self.is_dirty {
            push_char(&mut n, '*');
        }
        n
    }
}

} // verus!
