//! What a command does in the open dialog: the step that the main loop
//! carries out for each kind of dialog and each command, given what the
//! dialog was opened for.
use vstd::prelude::*;
use crate::app::DialogKind;
use crate::controller::DialogCommand;

verus! {

/// What the text prompt that is open was opened for.
#[derive(Debug, Clone, Copy, PartialEq, Eq, Structural)]
pub enum PendingInput {
    /// Nothing waits for the prompt's answer.
    Nothing,
    /// The answer is a commit message.
    CommitVersion,
    /// The answer is the directory of a new project.
    NewProject,
    /// The answer is the path of a file to add to the project.
    AddProjectFile,
}

/// The step that the main loop takes for a command in a dialog.
#[derive(Debug, Clone, Copy, PartialEq, Eq, Structural)]
pub enum DialogStep {
    /// Close the path prompt or the confirmation.
    CloseDialog,
    /// Open the typed path as a project, then close the prompt.
    OpenProject,
    /// Open the typed path as the document, then close the prompt.
    OpenFile,
    /// Save the document under the typed path, then close the prompt.
    SaveAs,
    /// Write the document as a PDF to the typed path, then close the prompt.
    ExportPdf,
    /// Complete the typed path.
    CompletePath,
    /// Delete the character before the cursor of the path prompt.
    PathBackspace,
    /// Move the cursor of the path prompt left.
    PathLeft,
    /// Move the cursor of the path prompt right.
    PathRight,
    /// Type a character into the path prompt.
    PathType(char),
    /// Answer the confirmation: yes (`true`) or no.
    Answer(bool),
    /// Close the text prompt and forget what it was for.
    CancelInput,
    /// Close the text prompt and hand its answer to what it was for.
    AcceptInput(PendingInput),
    /// Delete the last character of the text prompt.
    InputBackspace,
    /// Type a character into the text prompt.
    InputType(char),
    /// Close the history.
    LeaveHistory,
    /// Select the previous commit.
    HistoryUp,
    /// Select the next commit.
    HistoryDown,
    /// Show the selected commit's snapshot against the text.
    ShowDiff,
    /// Close the comparison.
    LeaveDiff,
    /// Scroll the comparison down.
    DiffDown,
    /// Scroll the comparison up.
    DiffUp,
    /// Take the snapshot as the text and close the comparison.
    RevertToSnapshot,
    /// Close the spelling check.
    LeaveSpell,
    /// Select the previous misspelled word.
    SpellUp,
    /// Select the next misspelled word (also to skip one).
    SpellDown,
    /// Switch between the word list and the suggestions.
    SpellSwitchFocus,
    /// Replace the selected word by the selected suggestion.
    ReplaceWord,
    /// Add the selected word to the user's dictionary.
    AddWord,
    /// Close the find dialog.
    LeaveFind,
    /// Switch between the search and the replacement field.
    SwitchField,
    /// Move the cursor to the next match.
    FindNext,
    /// Delete the last character of the active field.
    FindBackspace,
    /// Replace every match.
    ReplaceAll,
    /// Type a character into the active field.
    FindType(char),
    /// Nothing happens.
    Nothing,
}

/// The step for a command in a path prompt (open, save as, export).
pub open spec fn path_prompt_step(kind: DialogKind, cmd: DialogCommand, open_project: bool) -> DialogStep {
    match cmd {
        DialogCommand::Close => DialogStep::CloseDialog,
        DialogCommand::Accept => if kind == DialogKind::FileOpen {
            if open_project {
                DialogStep::OpenProject
            } else {
                DialogStep::OpenFile
            }
        } else if kind == DialogKind::FileSaveAs {
            DialogStep::SaveAs
        } else {
            DialogStep::ExportPdf
        },
        DialogCommand::Complete => DialogStep::CompletePath,
        DialogCommand::Backspace => DialogStep::PathBackspace,
        DialogCommand::Left => DialogStep::PathLeft,
        DialogCommand::Right => DialogStep::PathRight,
        DialogCommand::Type(c) => DialogStep::PathType(c),
        _ => DialogStep::Nothing,
    }
}

/// The step for a command in a dialog of the given kind; `open_project`
/// says whether the file prompt asks for a project, `pending` what the
/// text prompt was opened for.
pub open spec fn dialog_plan(
    kind: DialogKind,
    cmd: DialogCommand,
    open_project: bool,
    pending: PendingInput,
) -> DialogStep {
    match kind {
        DialogKind::FileOpen | DialogKind::FileSaveAs | DialogKind::ExportPdf => path_prompt_step(
            kind,
            cmd,
            open_project,
        ),
        DialogKind::Confirm => match cmd {
            DialogCommand::Yes => DialogStep::Answer(true),
            DialogCommand::No => DialogStep::Answer(false),
            DialogCommand::Close => DialogStep::CloseDialog,
            _ => DialogStep::Nothing,
        },
        DialogKind::Input => match cmd {
            DialogCommand::Close => DialogStep::CancelInput,
            DialogCommand::Accept => DialogStep::AcceptInput(pending),
            DialogCommand::Backspace => DialogStep::InputBackspace,
            DialogCommand::Type(c) => DialogStep::InputType(c),
            _ => DialogStep::Nothing,
        },
        DialogKind::History => match cmd {
            DialogCommand::Close => DialogStep::LeaveHistory,
            DialogCommand::Up => DialogStep::HistoryUp,
            DialogCommand::Down => DialogStep::HistoryDown,
            DialogCommand::Accept => DialogStep::ShowDiff,
            _ => DialogStep::Nothing,
        },
        DialogKind::DiffView => match cmd {
            DialogCommand::Close => DialogStep::LeaveDiff,
            DialogCommand::PageDown => DialogStep::DiffDown,
            DialogCommand::PageUp => DialogStep::DiffUp,
            DialogCommand::Revert => DialogStep::RevertToSnapshot,
            _ => DialogStep::Nothing,
        },
        DialogKind::SpellCheck => match cmd {
            DialogCommand::Close => DialogStep::LeaveSpell,
            DialogCommand::Up => DialogStep::SpellUp,
            DialogCommand::Down => DialogStep::SpellDown,
            DialogCommand::IgnoreWord => DialogStep::SpellDown,
            DialogCommand::SwitchFocus => DialogStep::SpellSwitchFocus,
            DialogCommand::ReplaceWord => DialogStep::ReplaceWord,
            DialogCommand::AddWord => DialogStep::AddWord,
            _ => DialogStep::Nothing,
        },
        DialogKind::FindReplace => match cmd {
            DialogCommand::Close => DialogStep::LeaveFind,
            DialogCommand::SwitchField => DialogStep::SwitchField,
            DialogCommand::Accept => DialogStep::FindNext,
            DialogCommand::Backspace => DialogStep::FindBackspace,
            DialogCommand::ReplaceAll => DialogStep::ReplaceAll,
            DialogCommand::Type(c) => DialogStep::FindType(c),
            _ => DialogStep::Nothing,
        },
    }
}

/// The step closes the dialog it is taken in.
pub open spec fn leaves(s: DialogStep) -> bool {
    match s {
        DialogStep::CloseDialog | DialogStep::OpenProject | DialogStep::OpenFile | DialogStep::SaveAs
        | DialogStep::ExportPdf | DialogStep::Answer(_) | DialogStep::CancelInput
        | DialogStep::AcceptInput(_) | DialogStep::LeaveHistory | DialogStep::LeaveDiff
        | DialogStep::RevertToSnapshot | DialogStep::LeaveSpell | DialogStep::LeaveFind => true,
        _ => false,
    }
}

fn path_prompt_step_of(kind: DialogKind, cmd: DialogCommand, open_project: bool) -> (r: DialogStep)
    ensures
        r == path_prompt_step(kind, cmd, open_project),
{
    match cmd {
        DialogCommand::Close => DialogStep::CloseDialog,
        DialogCommand::Accept => match kind {
            DialogKind::FileOpen => if open_project {
                DialogStep::OpenProject
            } else {
                DialogStep::OpenFile
            },
            DialogKind::FileSaveAs => DialogStep::SaveAs,
            _ => DialogStep::ExportPdf,
        },
        DialogCommand::Complete => DialogStep::CompletePath,
        DialogCommand::Backspace => DialogStep::PathBackspace,
        DialogCommand::Left => DialogStep::PathLeft,
        DialogCommand::Right => DialogStep::PathRight,
        DialogCommand::Type(c) => DialogStep::PathType(c),
        _ => DialogStep::Nothing,
    }
}

/// The step that the main loop takes for `cmd` in a dialog of kind
/// `kind`.
pub fn dialog_step(kind: DialogKind, cmd: DialogCommand, open_project: bool, pending: PendingInput) -> (r: DialogStep)
    ensures
        r == dialog_plan(kind, cmd, open_project, pending),
{
    match kind {
        DialogKind::FileOpen | DialogKind::FileSaveAs | DialogKind::ExportPdf => path_prompt_step_of(
            kind,
            cmd,
            open_project,
        ),
        DialogKind::Confirm => match cmd {
            DialogCommand::Yes => DialogStep::Answer(true),
            DialogCommand::No => DialogStep::Answer(false),
            DialogCommand::Close => DialogStep::CloseDialog,
            _ => DialogStep::Nothing,
        },
        DialogKind::Input => match cmd {
            DialogCommand::Close => DialogStep::CancelInput,
            DialogCommand::Accept => DialogStep::AcceptInput(pending),
            DialogCommand::Backspace => DialogStep::InputBackspace,
            DialogCommand::Type(c) => DialogStep::InputType(c),
            _ => DialogStep::Nothing,
        },
        DialogKind::History => match cmd {
            DialogCommand::Close => DialogStep::LeaveHistory,
            DialogCommand::Up => DialogStep::HistoryUp,
            DialogCommand::Down => DialogStep::HistoryDown,
            DialogCommand::Accept => DialogStep::ShowDiff,
            _ => DialogStep::Nothing,
        },
        DialogKind::DiffView => match cmd {
            DialogCommand::Close => DialogStep::LeaveDiff,
            DialogCommand::PageDown => DialogStep::DiffDown,
            DialogCommand::PageUp => DialogStep::DiffUp,
            DialogCommand::Revert => DialogStep::RevertToSnapshot,
            _ => DialogStep::Nothing,
        },
        DialogKind::SpellCheck => match cmd {
            DialogCommand::Close => DialogStep::LeaveSpell,
            DialogCommand::Up => DialogStep::SpellUp,
            DialogCommand::Down | DialogCommand::IgnoreWord => DialogStep::SpellDown,
            DialogCommand::SwitchFocus => DialogStep::SpellSwitchFocus,
            DialogCommand::ReplaceWord => DialogStep::ReplaceWord,
            DialogCommand::AddWord => DialogStep::AddWord,
            _ => DialogStep::Nothing,
        },
        DialogKind::FindReplace => match cmd {
            DialogCommand::Close => DialogStep::LeaveFind,
            DialogCommand::SwitchField => DialogStep::SwitchField,
            DialogCommand::Accept => DialogStep::FindNext,
            DialogCommand::Backspace => DialogStep::FindBackspace,
            DialogCommand::ReplaceAll => DialogStep::ReplaceAll,
            DialogCommand::Type(c) => DialogStep::FindType(c),
            _ => DialogStep::Nothing,
        },
    }
}

/// Esc leaves every dialog, whatever it was opened for.
pub proof fn law_esc_leaves_every_dialog(kind: DialogKind, open_project: bool, pending: PendingInput)
    ensures
        leaves(
            dialog_plan(
                kind,
                crate::controller::dialog_binding(kind, crate::keys::input::KeyCode::Esc),
                open_project,
                pending,
            ),
        ),
{
    crate::controller::law_esc_closes_dialogs(kind);
}

/// The answer of a text prompt goes to what the prompt was opened for.
pub proof fn law_prompt_answer_goes_to_its_request(pending: PendingInput, open_project: bool)
    ensures
        dialog_plan(
            DialogKind::Input,
            crate::controller::dialog_binding(DialogKind::Input, crate::keys::input::KeyCode::Enter),
            open_project,
            pending,
        ) == DialogStep::AcceptInput(pending),
{
}

} // verus!
