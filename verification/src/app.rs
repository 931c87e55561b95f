//! The editor's application state: mode, document, view toggles, pending
//! action requests and dialog state.
use vstd::prelude::*;
use crate::models::document::Document;
use crate::ui::dialogs::confirm::ConfirmDialogState;
use crate::ui::dialogs::file_dialog::FileDialogState;
use crate::ui::dialogs::input::InputDialogState;

verus! {

/// What keys currently do.
#[derive(Debug, Clone, Copy, PartialEq, Eq, Structural)]
pub enum AppMode {
    Editing,
    CommandPrefix(PrefixKey),
    Dialog(DialogKind),
    OutlineNav,
    ProjectNav,
}

/// The first key of a two-key command.
#[derive(Debug, Clone, Copy, PartialEq, Eq, Structural)]
pub enum PrefixKey {
    CtrlK,
    CtrlQ,
    CtrlO,
}

/// The dialog that is open.
#[derive(Debug, Clone, Copy, PartialEq, Eq, Structural)]
pub enum DialogKind {
    FileOpen,
    FileSaveAs,
    Confirm,
    Input,
    SpellCheck,
    History,
    DiffView,
    FindReplace,
    ExportPdf,
}

/// What a confirmation dialog asks about.
#[derive(Debug, Clone, Copy, PartialEq, Eq, Structural)]
pub enum ConfirmAction {
    SaveBeforeQuit,
    SaveBeforeNew,
    SaveBeforeOpen,
    SaveBeforeClose,
}

/// The application state.
pub struct App {
    pub mode: AppMode,
    pub document: Document,
    pub should_quit: bool,
    pub show_help: bool,
    pub insert_mode: bool,
    pub show_outline: bool,
    pub show_project: bool,
    pub show_ruler: bool,
    pub show_line_numbers: bool,
    pub word_wrap: bool,
    pub is_dirty: bool,
    pub cursor_line: usize,
    pub cursor_col: usize,
    pub project_name: Option<String>,
    pub status_message: Option<String>,
    // Block markers
    pub block_begin: Option<(usize, usize)>,
    pub block_end: Option<(usize, usize)>,
    pub show_block: bool,
    // Action requests, consumed by the main loop
    pub save_requested: bool,
    pub save_as_requested: bool,
    pub new_file_requested: bool,
    pub open_file_requested: bool,
    pub close_tab_requested: bool,
    pub export_pdf_requested: bool,
    pub spell_check_requested: bool,
    pub bold_requested: bool,
    pub italic_requested: bool,
    pub underline_requested: bool,
    pub heading_cycle_requested: bool,
    pub delete_line_requested: bool,
    pub find_requested: bool,
    pub replace_requested: bool,
    pub commit_requested: bool,
    pub history_requested: bool,
    pub revert_requested: bool,
    pub goto_start: bool,
    pub goto_end: bool,
    pub new_project_requested: bool,
    pub open_project_requested: bool,
    pub block_move_requested: bool,
    pub block_copy_requested: bool,
    pub block_delete_requested: bool,
    pub next_tab_requested: bool,
    pub tab_switch_requested: Option<usize>,
    // Dialog state
    pub dialog_input: String,
    pub dialog_title: String,
    pub dialog_message: String,
    pub confirm_action: Option<ConfirmAction>,
    pub file_dialog_state: Option<FileDialogState>,
    pub confirm_dialog_state: Option<ConfirmDialogState>,
    pub input_dialog_state: Option<InputDialogState>,
}

/// No action is requested.
pub open spec fn no_actions(a: App) -> bool {
    &&& !a.save_requested
    &&& !a.save_as_requested
    &&& !a.new_file_requested
    &&& !a.open_file_requested
    &&& !a.close_tab_requested
    &&& !a.export_pdf_requested
    &&& !a.spell_check_requested
    &&& !a.bold_requested
    &&& !a.italic_requested
    &&& !a.underline_requested
    &&& !a.heading_cycle_requested
    &&& !a.delete_line_requested
    &&& !a.find_requested
    &&& !a.replace_requested
    &&& !a.commit_requested
    &&& !a.history_requested
    &&& !a.revert_requested
    &&& !a.goto_start
    &&& !a.goto_end
    &&& !a.new_project_requested
    &&& !a.open_project_requested
    &&& !a.block_move_requested
    &&& !a.block_copy_requested
    &&& !a.block_delete_requested
    &&& !a.next_tab_requested
    &&& a.tab_switch_requested is None
}

/// `b` is `a` with its dialog closed: back to editing, the dialog texts
/// emptied, the dialog states and the pending confirmation dropped; no other
/// field differs.
pub open spec fn is_dialog_closed(a: App, b: App) -> bool {
    &&& b.dialog_input@.len() == 0
    &&& b.dialog_title@.len() == 0
    &&& b.dialog_message@.len() == 0
    &&& b == App {
        mode: AppMode::Editing,
        dialog_input: b.dialog_input,
        dialog_title: b.dialog_title,
        dialog_message: b.dialog_message,
        confirm_action: None,
        file_dialog_state: None,
        confirm_dialog_state: None,
        input_dialog_state: None,
        ..a
    }
}

/// `a` with every action request withdrawn.
pub open spec fn actions_cleared(a: App) -> App {
    App {
        save_requested: false,
        save_as_requested: false,
        new_file_requested: false,
        open_file_requested: false,
        close_tab_requested: false,
        export_pdf_requested: false,
        spell_check_requested: false,
        bold_requested: false,
        italic_requested: false,
        underline_requested: false,
        heading_cycle_requested: false,
        delete_line_requested: false,
        find_requested: false,
        replace_requested: false,
        commit_requested: false,
        history_requested: false,
        revert_requested: false,
        goto_start: false,
        goto_end: false,
        new_project_requested: false,
        open_project_requested: false,
        block_move_requested: false,
        block_copy_requested: false,
        block_delete_requested: false,
        next_tab_requested: false,
        tab_switch_requested: None,
        ..a
    }
}

impl App {
    /// The initial state: editing an untitled document, help and ruler
    /// shown, insert mode and word wrap on, nothing requested.
    pub fn new() -> (a: Self)
        ensures
            a.mode == AppMode::Editing,
            a.document.file_path is None,
            !a.should_quit,
            a.show_help,
            a.insert_mode,
            !a.show_outline,
            !a.show_project,
            a.show_ruler,
            !a.show_line_numbers,
            a.word_wrap,
            !a.is_dirty,
            a.cursor_line == 0,
            a.cursor_col == 0,
            a.project_name is None,
            a.status_message is None,
            a.block_begin is None,
            a.block_end is None,
            a.show_block,
            !a.save_requested,
            !a.save_as_requested,
            !a.new_file_requested,
            !a.open_file_requested,
            !a.close_tab_requested,
            !a.export_pdf_requested,
            !a.spell_check_requested,
            !a.bold_requested,
            !a.italic_requested,
            !a.underline_requested,
            !a.heading_cycle_requested,
            !a.delete_line_requested,
            !a.find_requested,
            !a.replace_requested,
            !a.commit_requested,
            !a.history_requested,
            !a.revert_requested,
            !a.goto_start,
            !a.goto_end,
            !a.new_project_requested,
            !a.open_project_requested,
            !a.block_move_requested,
            !a.block_copy_requested,
            !a.block_delete_requested,
            !a.next_tab_requested,
            a.tab_switch_requested is None,
            a.dialog_input@.len() == 0,
            a.dialog_title@.len() == 0,
            a.dialog_message@.len() == 0,
            a.confirm_action is None,
            a.file_dialog_state is None,
            a.confirm_dialog_state is None,
            a.input_dialog_state is None,
    {
        App {
            mode: AppMode::Editing,
            document: Document::new(),
            should_quit: false,
            show_help: true,
            insert_mode: true,
            show_outline: false,
            show_project: false,
            show_ruler: true,
            show_line_numbers: false,
            word_wrap: true,
            is_dirty: false,
            cursor_line: 0,
            cursor_col: 0,
            project_name: None,
            status_message: None,
            block_begin: None,
            block_end: None,
            show_block: true,
            save_requested: false,
            save_as_requested: false,
            new_file_requested: false,
            open_file_requested: false,
            close_tab_requested: false,
            export_pdf_requested: false,
            spell_check_requested: false,
            bold_requested: false,
            italic_requested: false,
            underline_requested: false,
            heading_cycle_requested: false,
            delete_line_requested: false,
            find_requested: false,
            replace_requested: false,
            commit_requested: false,
            history_requested: false,
            revert_requested: false,
            goto_start: false,
            goto_end: false,
            new_project_requested: false,
            open_project_requested: false,
            block_move_requested: false,
            block_copy_requested: false,
            block_delete_requested: false,
            next_tab_requested: false,
            tab_switch_requested: None,
            dialog_input: String::new(),
            dialog_title: String::new(),
            dialog_message: String::new(),
            confirm_action: None,
            file_dialog_state: None,
            confirm_dialog_state: None,
            input_dialog_state: None,
        }
    }

    /// Withdraws every action request; nothing else changes.
    pub fn clear_actions(&mut self)
        ensures
            *final(self) == actions_cleared(*old(self)),
            no_actions(*final(self)),
    {
        let mut a = App::new();
        std::mem::swap(&mut a, self);
        *self = App {
            save_requested: false,
            save_as_requested: false,
            new_file_requested: false,
            open_file_requested: false,
            close_tab_requested: false,
            export_pdf_requested: false,
            spell_check_requested: false,
            bold_requested: false,
            italic_requested: false,
            underline_requested: false,
            heading_cycle_requested: false,
            delete_line_requested: false,
            find_requested: false,
            replace_requested: false,
            commit_requested: false,
            history_requested: false,
            revert_requested: false,
            goto_start: false,
            goto_end: false,
            new_project_requested: false,
            open_project_requested: false,
            block_move_requested: false,
            block_copy_requested: false,
            block_delete_requested: false,
            next_tab_requested: false,
            tab_switch_requested: None,
            ..a
        };
    }

    /// Closes the open dialog and returns to editing.
    pub fn close_dialog(&mut self)
        ensures
            is_dialog_closed(*old(self), *final(self)),
    {
        let mut a = App::new();
        std::mem::swap(&mut a, self);
        *self = App {
            mode: AppMode::Editing,
            dialog_input: String::new(),
            dialog_title: String::new(),
            dialog_message: String::new(),
            confirm_action: None,
            file_dialog_state: None,
            confirm_dialog_state: None,
            input_dialog_state: None,
            ..a
        };
    }
}

} // verus!
