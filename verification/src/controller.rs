//! The editor's decisions between key presses and file work: what a key
//! does in each dialog, what a confirmation answer leads to, which dialog
//! a request opens, and how the active tab follows a reordering.  The main
//! loop performs the file work that these decisions ask for.
use vstd::prelude::*;
use crate::app::{App, AppMode, ConfirmAction, DialogKind};
use crate::keys::input::KeyCode;
use crate::models::document::Document;
use crate::text::{blen, chars_since_newline, is_boundary, newline_count};
use crate::editor::block::{byte_slice, slice_bytes};
use crate::ui::dialogs::confirm::ConfirmDialogState;
use crate::ui::dialogs::file_dialog::FileDialogState;
use crate::ui::dialogs::input::InputDialogState;

verus! {

// ---------------------------------------------------------------------------
// Keys in dialogs and panes
// ---------------------------------------------------------------------------

/// What a key asks of the open dialog.
#[derive(Debug, Clone, Copy, PartialEq, Eq, Structural)]
pub enum DialogCommand {
    /// Close the dialog.
    Close,
    /// Enter: accept the input, open the selection, or find the next match.
    Accept,
    /// Complete the typed path.
    Complete,
    Backspace,
    Left,
    Right,
    /// Type a character into the input.
    Type(char),
    /// Answer yes.
    Yes,
    /// Answer no.
    No,
    Up,
    Down,
    PageUp,
    PageDown,
    /// Revert to the shown snapshot.
    Revert,
    /// Switch between the word list and the suggestions.
    SwitchFocus,
    /// Replace the selected misspelled word by the selected suggestion.
    ReplaceWord,
    /// Skip the selected misspelled word.
    IgnoreWord,
    /// Add the selected misspelled word to the user's dictionary.
    AddWord,
    /// Switch between the search and the replacement field.
    SwitchField,
    /// Replace every match.
    ReplaceAll,
    /// The key does nothing here.
    Nothing,
}

/// The key is the letter `lower` or `upper`.
pub open spec fn letter(code: KeyCode, lower: char, upper: char) -> bool {
    code == KeyCode::Char(lower) || code == KeyCode::Char(upper)
}

/// The keys of a path prompt (open, save as, export).
pub open spec fn path_prompt_binding(code: KeyCode) -> DialogCommand {
    match code {
        KeyCode::Esc => DialogCommand::Close,
        KeyCode::Enter => DialogCommand::Accept,
        KeyCode::Tab => DialogCommand::Complete,
        KeyCode::Backspace => DialogCommand::Backspace,
        KeyCode::Left => DialogCommand::Left,
        KeyCode::Right => DialogCommand::Right,
        KeyCode::Char(c) => DialogCommand::Type(c),
        _ => DialogCommand::Nothing,
    }
}

/// What a key does in each kind of dialog.
pub open spec fn dialog_binding(kind: DialogKind, code: KeyCode) -> DialogCommand {
    match kind {
        DialogKind::FileOpen | DialogKind::FileSaveAs | DialogKind::ExportPdf => path_prompt_binding(code),
        DialogKind::Confirm => {
            if letter(code, 'y', 'Y') {
                DialogCommand::Yes
            } else if letter(code, 'n', 'N') {
                DialogCommand::No
            } else if letter(code, 'c', 'C') || code == KeyCode::Esc {
                DialogCommand::Close
            } else {
                DialogCommand::Nothing
            }
        },
        DialogKind::Input => match code {
            KeyCode::Esc => DialogCommand::Close,
            KeyCode::Enter => DialogCommand::Accept,
            KeyCode::Backspace => DialogCommand::Backspace,
            KeyCode::Char(c) => DialogCommand::Type(c),
            _ => DialogCommand::Nothing,
        },
        DialogKind::History => match code {
            KeyCode::Esc => DialogCommand::Close,
            KeyCode::Up => DialogCommand::Up,
            KeyCode::Down => DialogCommand::Down,
            KeyCode::Enter => DialogCommand::Accept,
            _ => DialogCommand::Nothing,
        },
        DialogKind::DiffView => {
            if code == KeyCode::Esc {
                DialogCommand::Close
            } else if code == KeyCode::PageDown {
                DialogCommand::PageDown
            } else if code == KeyCode::PageUp {
                DialogCommand::PageUp
            } else if letter(code, 'r', 'R') {
                DialogCommand::Revert
            } else {
                DialogCommand::Nothing
            }
        },
        DialogKind::SpellCheck => {
            if code == KeyCode::Esc {
                DialogCommand::Close
            } else if code == KeyCode::Up {
                DialogCommand::Up
            } else if code == KeyCode::Down {
                DialogCommand::Down
            } else if code == KeyCode::Tab {
                DialogCommand::SwitchFocus
            } else if letter(code, 'r', 'R') {
                DialogCommand::ReplaceWord
            } else if letter(code, 'i', 'I') {
                DialogCommand::IgnoreWord
            } else if letter(code, 'd', 'D') {
                DialogCommand::AddWord
            } else {
                DialogCommand::Nothing
            }
        },
        DialogKind::FindReplace => match code {
            KeyCode::Esc => DialogCommand::Close,
            KeyCode::Tab => DialogCommand::SwitchField,
            KeyCode::Enter => DialogCommand::Accept,
            KeyCode::Backspace => DialogCommand::Backspace,
            KeyCode::Char(c) => if c == 'a' || c == 'A' {
                DialogCommand::ReplaceAll
            } else {
                DialogCommand::Type(c)
            },
            _ => DialogCommand::Nothing,
        },
    }
}

/// Esc closes every dialog.
pub proof fn law_esc_closes_dialogs(kind: DialogKind)
    ensures
        dialog_binding(kind, KeyCode::Esc) == DialogCommand::Close,
{
}

/// In a path prompt and in the find dialog every character but the
/// find dialog's `a`/`A` is typed into the input.
pub proof fn law_prompts_take_characters(kind: DialogKind, c: char)
    ensures
        (kind == DialogKind::FileOpen || kind == DialogKind::FileSaveAs || kind == DialogKind::ExportPdf
            || kind == DialogKind::Input) ==> dialog_binding(kind, KeyCode::Char(c)) == DialogCommand::Type(c),
        kind == DialogKind::FindReplace && c != 'a' && c != 'A'
            ==> dialog_binding(kind, KeyCode::Char(c)) == DialogCommand::Type(c),
{
}

fn path_prompt_command(code: KeyCode) -> (r: DialogCommand)
    ensures
        r == path_prompt_binding(code),
{
    match code {
        KeyCode::Esc => DialogCommand::Close,
        KeyCode::Enter => DialogCommand::Accept,
        KeyCode::Tab => DialogCommand::Complete,
        KeyCode::Backspace => DialogCommand::Backspace,
        KeyCode::Left => DialogCommand::Left,
        KeyCode::Right => DialogCommand::Right,
        KeyCode::Char(c) => DialogCommand::Type(c),
        _ => DialogCommand::Nothing,
    }
}

/// What a key does in the open dialog.
pub fn dialog_command(kind: DialogKind, code: KeyCode) -> (r: DialogCommand)
    ensures
        r == dialog_binding(kind, code),
{
    match kind {
        DialogKind::FileOpen | DialogKind::FileSaveAs | DialogKind::ExportPdf => path_prompt_command(code),
        DialogKind::Confirm => match code {
            KeyCode::Char('y') | KeyCode::Char('Y') => DialogCommand::Yes,
            KeyCode::Char('n') | KeyCode::Char('N') => DialogCommand::No,
            KeyCode::Char('c') | KeyCode::Char('C') | KeyCode::Esc => DialogCommand::Close,
            _ => DialogCommand::Nothing,
        },
        DialogKind::Input => match code {
            KeyCode::Esc => DialogCommand::Close,
            KeyCode::Enter => DialogCommand::Accept,
            KeyCode::Backspace => DialogCommand::Backspace,
            KeyCode::Char(c) => DialogCommand::Type(c),
            _ => DialogCommand::Nothing,
        },
        DialogKind::History => match code {
            KeyCode::Esc => DialogCommand::Close,
            KeyCode::Up => DialogCommand::Up,
            KeyCode::Down => DialogCommand::Down,
            KeyCode::Enter => DialogCommand::Accept,
            _ => DialogCommand::Nothing,
        },
        DialogKind::DiffView => match code {
            KeyCode::Esc => DialogCommand::Close,
            KeyCode::PageDown => DialogCommand::PageDown,
            KeyCode::PageUp => DialogCommand::PageUp,
            KeyCode::Char('r') | KeyCode::Char('R') => DialogCommand::Revert,
            _ => DialogCommand::Nothing,
        },
        DialogKind::SpellCheck => match code {
            KeyCode::Esc => DialogCommand::Close,
            KeyCode::Up => DialogCommand::Up,
            KeyCode::Down => DialogCommand::Down,
            KeyCode::Tab => DialogCommand::SwitchFocus,
            KeyCode::Char('r') | KeyCode::Char('R') => DialogCommand::ReplaceWord,
            KeyCode::Char('i') | KeyCode::Char('I') => DialogCommand::IgnoreWord,
            KeyCode::Char('d') | KeyCode::Char('D') => DialogCommand::AddWord,
            _ => DialogCommand::Nothing,
        },
        DialogKind::FindReplace => match code {
            KeyCode::Esc => DialogCommand::Close,
            KeyCode::Tab => DialogCommand::SwitchField,
            KeyCode::Enter => DialogCommand::Accept,
            KeyCode::Backspace => DialogCommand::Backspace,
            KeyCode::Char(c) => if c == 'a' || c == 'A' {
                DialogCommand::ReplaceAll
            } else {
                DialogCommand::Type(c)
            },
            _ => DialogCommand::Nothing,
        },
    }
}

/// What a key asks of the outline pane.
#[derive(Debug, Clone, Copy, PartialEq, Eq, Structural)]
pub enum OutlineCommand {
    /// Back to editing.
    Leave,
    Up,
    Down,
    /// Move the cursor to the selected heading.
    Jump,
    Nothing,
}

/// What a key does in the outline pane.
pub fn outline_command(code: KeyCode) -> (r: OutlineCommand)
    ensures
        r == match code {
            KeyCode::Esc | KeyCode::Left => OutlineCommand::Leave,
            KeyCode::Up => OutlineCommand::Up,
            KeyCode::Down => OutlineCommand::Down,
            KeyCode::Enter => OutlineCommand::Jump,
            _ => OutlineCommand::Nothing,
        },
{
    match code {
        KeyCode::Esc | KeyCode::Left => OutlineCommand::Leave,
        KeyCode::Up => OutlineCommand::Up,
        KeyCode::Down => OutlineCommand::Down,
        KeyCode::Enter => OutlineCommand::Jump,
        _ => OutlineCommand::Nothing,
    }
}

/// What a key asks of the project pane.
#[derive(Debug, Clone, Copy, PartialEq, Eq, Structural)]
pub enum ProjectCommand {
    /// Back to editing.
    Leave,
    Up,
    Down,
    /// Open the selected file's tab.
    Open,
    /// Move the selected file up the order.
    MoveUp,
    /// Move the selected file down the order.
    MoveDown,
    /// Ask for a file to add.
    Add,
    /// Remove the selected file.
    Remove,
    Nothing,
}

/// What a key does in the project pane.
pub fn project_command(code: KeyCode) -> (r: ProjectCommand)
    ensures
        r == match code {
            KeyCode::Esc | KeyCode::Right => ProjectCommand::Leave,
            KeyCode::Up => ProjectCommand::Up,
            KeyCode::Down => ProjectCommand::Down,
            KeyCode::Enter => ProjectCommand::Open,
            KeyCode::Char('u') | KeyCode::Char('U') => ProjectCommand::MoveUp,
            KeyCode::Char('d') | KeyCode::Char('D') => ProjectCommand::MoveDown,
            KeyCode::Char('a') | KeyCode::Char('A') => ProjectCommand::Add,
            KeyCode::Char('r') | KeyCode::Char('R') => ProjectCommand::Remove,
            _ => ProjectCommand::Nothing,
        },
{
    match code {
        KeyCode::Esc | KeyCode::Right => ProjectCommand::Leave,
        KeyCode::Up => ProjectCommand::Up,
        KeyCode::Down => ProjectCommand::Down,
        KeyCode::Enter => ProjectCommand::Open,
        KeyCode::Char('u') | KeyCode::Char('U') => ProjectCommand::MoveUp,
        KeyCode::Char('d') | KeyCode::Char('D') => ProjectCommand::MoveDown,
        KeyCode::Char('a') | KeyCode::Char('A') => ProjectCommand::Add,
        KeyCode::Char('r') | KeyCode::Char('R') => ProjectCommand::Remove,
        _ => ProjectCommand::Nothing,
    }
}

// ---------------------------------------------------------------------------
// Confirmation answers
// ---------------------------------------------------------------------------

/// What answering a confirmation leads to: saving first, then quitting or
/// starting a new file.
#[derive(Debug, Clone, Copy, PartialEq, Eq, Structural)]
pub struct ConfirmOutcome {
    pub save: bool,
    pub quit: bool,
    pub new_file: bool,
}

/// The outcome of answering yes (`yes`) or no to the pending question: yes
/// saves first; either answer then goes on with what was asked about.
pub fn confirm_outcome(action: Option<ConfirmAction>, yes: bool) -> (r: ConfirmOutcome)
    ensures
        r.save == yes,
        r.quit == (action == Some(ConfirmAction::SaveBeforeQuit)),
        r.new_file == (action == Some(ConfirmAction::SaveBeforeNew)),
{
    match action {
        Some(ConfirmAction::SaveBeforeQuit) => ConfirmOutcome { save: yes, quit: true, new_file: false },
        Some(ConfirmAction::SaveBeforeNew) => ConfirmOutcome { save: yes, quit: false, new_file: true },
        _ => ConfirmOutcome { save: yes, quit: false, new_file: false },
    }
}

// ---------------------------------------------------------------------------
// Requests that open dialogs
// ---------------------------------------------------------------------------

/// `b` is `a` with a confirmation about `action` open, asking `title` and
/// `message`.
pub open spec fn asks(a: App, b: App, action: ConfirmAction, title: Seq<char>, message: Seq<char>) -> bool {
    &&& b.confirm_dialog_state matches Some(d) && d.title@ == title && d.message@ == message
    &&& b == App {
        confirm_dialog_state: b.confirm_dialog_state,
        confirm_action: Some(action),
        mode: AppMode::Dialog(DialogKind::Confirm),
        ..a
    }
}

/// Opens a confirmation about `action`.
fn ask(app: &mut App, action: ConfirmAction, title: &str, message: &str)
    ensures
        asks(*old(app), *final(app), action, title@, message@),
{
    let d = ConfirmDialogState::new(title, message);
    let mut a = App::new();
    std::mem::swap(&mut a, app);
    *app = App {
        confirm_dialog_state: Some(d),
        confirm_action: Some(action),
        mode: AppMode::Dialog(DialogKind::Confirm),
        ..a
    };
}

/// Quitting: with unsaved changes, ask whether to save first; otherwise
/// quit.
pub fn request_quit(app: &mut App)
    ensures
        old(app).is_dirty ==> asks(*old(app), *final(app), ConfirmAction::SaveBeforeQuit, "Quit"@,
            "Save changes before quitting?"@),
        !old(app).is_dirty ==> *final(app) == (App { should_quit: true, ..*old(app) }),
{
    if app.is_dirty {
        ask(app, ConfirmAction::SaveBeforeQuit, "Quit", "Save changes before quitting?");
    } else {
        let mut a = App::new();
        std::mem::swap(&mut a, app);
        *app = App { should_quit: true, ..a };
    }
}

/// A new file: with unsaved changes, ask whether to save first and return
/// false; otherwise return true (the caller starts the new file).
pub fn request_new_file(app: &mut App) -> (go_ahead: bool)
    ensures
        go_ahead == !old(app).is_dirty,
        old(app).is_dirty ==> asks(*old(app), *final(app), ConfirmAction::SaveBeforeNew, "New File"@,
            "Save changes before creating new file?"@),
        !old(app).is_dirty ==> *final(app) == *old(app),
{
    if app.is_dirty {
        ask(app, ConfirmAction::SaveBeforeNew, "New File", "Save changes before creating new file?");
        false
    } else {
        true
    }
}

/// Starts a new, untitled document with nothing unsaved.
pub fn new_file(app: &mut App)
    ensures
        final(app).document.file_path is None,
        *final(app) == (App { document: final(app).document, is_dirty: false, ..*old(app) }),
{
    let d = Document::new();
    let mut a = App::new();
    std::mem::swap(&mut a, app);
    *app = App { document: d, is_dirty: false, ..a };
}

/// `b` is `a` with a path prompt of `kind` open, titled `title` and holding
/// `initial`.
pub open spec fn prompts_for_path(a: App, b: App, kind: DialogKind, title: Seq<char>, initial: Seq<char>) -> bool {
    &&& b.file_dialog_state matches Some(d) && d.title@ == title && d.input@ == initial
        && d.cursor_pos == blen(initial) && d.cursor_ok() && d.completions@.len() == 0
    &&& b == App { file_dialog_state: b.file_dialog_state, mode: AppMode::Dialog(kind), ..a }
}

/// Opens a path prompt of `kind` titled `title`, holding `initial` with the
/// cursor at its end.
pub fn open_path_prompt(app: &mut App, kind: DialogKind, title: &str, initial: &str)
    requires
        blen(initial@) <= usize::MAX,
    ensures
        prompts_for_path(*old(app), *final(app), kind, title@, initial@),
{
    let d = FileDialogState::with_initial(title, initial);
    let mut a = App::new();
    std::mem::swap(&mut a, app);
    *app = App { file_dialog_state: Some(d), mode: AppMode::Dialog(kind), ..a };
}

/// `b` is `a` with a text prompt open, titled `title` and asking `prompt`.
pub open spec fn prompts_for_text(a: App, b: App, title: Seq<char>, prompt: Seq<char>) -> bool {
    &&& b.input_dialog_state matches Some(d) && d.title@ == title && d.prompt@ == prompt && d.input@.len() == 0
    &&& b == App { input_dialog_state: b.input_dialog_state, mode: AppMode::Dialog(DialogKind::Input), ..a }
}

/// Opens a text prompt titled `title`, asking `prompt`.
pub fn open_text_prompt(app: &mut App, title: &str, prompt: &str)
    ensures
        prompts_for_text(*old(app), *final(app), title@, prompt@),
{
    let d = InputDialogState::new(title, prompt);
    let mut a = App::new();
    std::mem::swap(&mut a, app);
    *app = App { input_dialog_state: Some(d), mode: AppMode::Dialog(DialogKind::Input), ..a };
}

/// Opens the dialog of `kind` (one whose state the user interface keeps).
pub fn open_dialog(app: &mut App, kind: DialogKind)
    ensures
        *final(app) == (App { mode: AppMode::Dialog(kind), ..*old(app) }),
{
    let mut a = App::new();
    std::mem::swap(&mut a, app);
    *app = App { mode: AppMode::Dialog(kind), ..a };
}

/// Back to editing, with nothing else changed.
pub fn resume_editing(app: &mut App)
    ensures
        *final(app) == (App { mode: AppMode::Editing, ..*old(app) }),
{
    let mut a = App::new();
    std::mem::swap(&mut a, app);
    *app = App { mode: AppMode::Editing, ..a };
}

/// The file was written: nothing is unsaved, and the status line says so
/// with the file's name.
pub fn mark_saved(app: &mut App)
    ensures
        final(app).status_message matches Some(m)
            && m@ == "Saved: "@ + old(app).document.shown_name(),
        *final(app) == (App { is_dirty: false, status_message: final(app).status_message, ..*old(app) }),
{
    let name = app.document.file_name();
    let mut m = String::from_str("Saved: ");
    m.append(name.as_str());
    let mut a = App::new();
    std::mem::swap(&mut a, app);
    *app = App { is_dirty: false, status_message: Some(m), ..a };
}

/// Shows `message` on the status line.
pub fn set_status(app: &mut App, message: String)
    ensures
        *final(app) == (App { status_message: Some(message), ..*old(app) }),
{
    let mut a = App::new();
    std::mem::swap(&mut a, app);
    *app = App { status_message: Some(message), ..a };
}

/// The marked block, when both markers are set.
pub fn marked_block(app: &App) -> (r: Option<((usize, usize), (usize, usize))>)
    ensures
        r == match (app.block_begin, app.block_end) {
            (Some(b), Some(e)) => Some((b, e)),
            _ => None,
        },
{
    match (app.block_begin, app.block_end) {
        (Some(b), Some(e)) => Some((b, e)),
        _ => None,
    }
}

/// The block was moved or deleted: its markers are dropped and the text has
/// unsaved changes.
pub fn block_consumed(app: &mut App)
    ensures
        *final(app) == (App { block_begin: None, block_end: None, is_dirty: true, ..*old(app) }),
{
    let mut a = App::new();
    std::mem::swap(&mut a, app);
    *app = App { block_begin: None, block_end: None, is_dirty: true, ..a };
}

/// The text was changed.
pub fn mark_dirty(app: &mut App)
    ensures
        *final(app) == (App { is_dirty: true, ..*old(app) }),
{
    let mut a = App::new();
    std::mem::swap(&mut a, app);
    *app = App { is_dirty: true, ..a };
}

/// The document that answering a confirmation leaves: a new, untitled one
/// when the answer starts a new file, else the one there was.
pub open spec fn document_after(old_doc: Document, outcome: ConfirmOutcome) -> Document {
    if outcome.new_file { Document { file_path: None } } else { old_doc }
}

/// Answering a confirmation, once any save it asked for is done: starts a new,
/// untitled document with nothing unsaved when the outcome asks for one,
/// quits when asked to, and closes the dialog.
pub fn apply_confirm_outcome(app: &mut App, outcome: ConfirmOutcome)
    ensures
        crate::app::is_dialog_closed(
            (App {
                should_quit: old(app).should_quit || outcome.quit,
                document: document_after(old(app).document, outcome),
                is_dirty: if outcome.new_file { false } else { old(app).is_dirty },
                ..*old(app)
            }),
            *final(app),
        ),
{
    if outcome.new_file {
        new_file(app);
    }
    let quit = app.should_quit || outcome.quit;
    let mut a = App::new();
    std::mem::swap(&mut a, app);
    *app = App {
        should_quit: quit,
        mode: AppMode::Editing,
        dialog_input: String::new(),
        dialog_title: String::new(),
        dialog_message: String::new(),
        confirm_action: None,
        file_dialog_state: None,
        confirm_dialog_state: None,
        input_dialog_state: None,
        ..a
    };
}

// ---------------------------------------------------------------------------
// Tabs
// ---------------------------------------------------------------------------

/// The tab after `active`, going round.
pub fn next_tab_index(active: usize, count: usize) -> (r: usize)
    requires
        count > 0,
        active < usize::MAX,
    ensures
        r == (active + 1) % (count as int),
{
    (active + 1) % count
}

/// Where the active tab is after the tabs at `i` and `j` are exchanged.
pub open spec fn follow_swap(active: int, i: int, j: int) -> int {
    if active == i {
        j
    } else if active == j {
        i
    } else {
        active
    }
}

/// The active tab's index after the tabs at `i` and `j` are exchanged.
pub fn active_after_swap(active: usize, i: usize, j: usize) -> (r: usize)
    ensures
        r == follow_swap(active as int, i as int, j as int),
{
    if active == i {
        j
    } else if active == j {
        i
    } else {
        active
    }
}

/// Where the active tab is after the tab at `removed` is taken out and
/// `count` remain: one back when an earlier tab went, so that the same tab
/// stays active; when the active tab itself went, the tab that took its
/// place, or the new last one when it was the last.
pub open spec fn follow_remove(active: int, removed: int, count: int) -> int {
    if removed < active {
        active - 1
    } else if active >= count && active > 0 {
        active - 1
    } else {
        active
    }
}

/// The active tab's index after the tab at `removed` is taken out and
/// `count` remain.
pub fn active_after_remove(active: usize, removed: usize, count: usize) -> (r: usize)
    ensures
        r == follow_remove(active as int, removed as int, count as int),
{
    if removed < active {
        active - 1
    } else if active >= count && active > 0 {
        active - 1
    } else {
        active
    }
}

/// When tabs are exchanged, the active index follows the tab that was
/// active.
pub proof fn law_active_tab_follows_swap<T>(tabs: Seq<T>, active: int, i: int, j: int)
    requires
        0 <= i < tabs.len(),
        0 <= j < tabs.len(),
        0 <= active < tabs.len(),
    ensures
        tabs.update(i, tabs[j]).update(j, tabs[i])[follow_swap(active, i, j)] == tabs[active],
{
}

/// When another tab is removed, the active index still points at the tab
/// that was active; when the active tab is removed, it points at a tab
/// that is left, if any is.
pub proof fn law_active_tab_follows_remove<T>(tabs: Seq<T>, active: int, removed: int)
    requires
        0 <= removed < tabs.len(),
        0 <= active < tabs.len(),
    ensures
        removed != active ==> tabs.remove(removed)[follow_remove(active, removed, tabs.len() - 1)] == tabs[active],
        tabs.len() > 1 ==> 0 <= follow_remove(active, removed, tabs.len() - 1) < tabs.len() - 1,
{
}

// ---------------------------------------------------------------------------
// Find: from a byte offset to a cursor position
// ---------------------------------------------------------------------------

/// The line and column of byte `offset` in `text`: the line breaks before
/// it, and the characters between the last of them and the offset.
pub open spec fn line_col_of(text: Seq<char>, offset: int) -> (int, int) {
    let before = byte_slice(text, 0, offset);
    (newline_count(before), chars_since_newline(before))
}

/// Where the cursor goes for a match at byte `offset` of `text`: its line
/// and its column in characters.
pub fn offset_to_line_col(text: &str, offset: usize) -> (r: (usize, usize))
    requires
        offset <= blen(text@),
        is_boundary(text@, offset as int),
    ensures
        r.0 == line_col_of(text@, offset as int).0,
        r.1 == line_col_of(text@, offset as int).1,
{
    proof {
        assert(is_boundary(text@, 0)) by {
            assert(text@.take(0) =~= Seq::<char>::empty());
        }
    }
    let before = slice_bytes(text, 0, offset);
    let v = crate::text::to_chars(before.as_str());
    let mut line: usize = 0;
    let mut col: usize = 0;
    let mut i: usize = 0;
    while i < v.len()
        invariant
            i <= v@.len(),
            line == newline_count(v@.take(i as int)),
            col == chars_since_newline(v@.take(i as int)),
            line <= i,
            col <= i,
        decreases v.len() - i,
    {
        assert(v@.take(i + 1).drop_last() =~= v@.take(i as int));
        if v[i] == '\n' {
            line = line + 1;
            col = 0;
        } else {
            col = col + 1;
        }
        i = i + 1;
    }
    assert(v@.take(v@.len() as int) =~= v@);
    (line, col)
}

} // verus!
