use vibewrite95::actions::{planned_effects, Effect};
use vibewrite95::app::{App, DialogKind};
use vibewrite95::controller::{dialog_command, DialogCommand};
use vibewrite95::dialog_flow::{dialog_step, DialogStep, PendingInput};
use vibewrite95::keys::input::KeyCode;

#[test]
fn test_no_request_plans_nothing() {
    let app = App::new();
    assert!(planned_effects(&app, true, true).is_empty());
}

#[test]
fn test_effects_follow_the_loop_order() {
    let mut app = App::new();
    app.export_pdf_requested = true;
    app.save_requested = true;
    app.goto_start = true;
    app.tab_switch_requested = Some(2);
    assert_eq!(
        planned_effects(&app, false, false),
        vec![Effect::GotoStart, Effect::Save, Effect::SwitchTab(2), Effect::PromptExport]
    );
}

#[test]
fn test_commit_needs_a_project() {
    let mut app = App::new();
    app.commit_requested = true;
    assert!(planned_effects(&app, false, false).is_empty());
    assert_eq!(planned_effects(&app, true, false), vec![Effect::PromptCommit]);
}

#[test]
fn test_history_needs_project_and_tab() {
    let mut app = App::new();
    app.history_requested = true;
    assert!(planned_effects(&app, true, false).is_empty());
    assert!(planned_effects(&app, false, true).is_empty());
    assert_eq!(planned_effects(&app, true, true), vec![Effect::ShowHistory]);
    app.revert_requested = true;
    assert_eq!(planned_effects(&app, true, true), vec![Effect::ShowHistory, Effect::ShowHistory]);
}

#[test]
fn test_esc_leaves_each_dialog() {
    let expected = [
        (DialogKind::FileOpen, DialogStep::CloseDialog),
        (DialogKind::FileSaveAs, DialogStep::CloseDialog),
        (DialogKind::ExportPdf, DialogStep::CloseDialog),
        (DialogKind::Confirm, DialogStep::CloseDialog),
        (DialogKind::Input, DialogStep::CancelInput),
        (DialogKind::History, DialogStep::LeaveHistory),
        (DialogKind::DiffView, DialogStep::LeaveDiff),
        (DialogKind::SpellCheck, DialogStep::LeaveSpell),
        (DialogKind::FindReplace, DialogStep::LeaveFind),
    ];
    for (kind, step) in expected {
        let cmd = dialog_command(kind, KeyCode::Esc);
        assert_eq!(dialog_step(kind, cmd, false, PendingInput::Nothing), step);
    }
}

#[test]
fn test_enter_in_file_prompts() {
    let enter = DialogCommand::Accept;
    assert_eq!(dialog_step(DialogKind::FileOpen, enter, true, PendingInput::Nothing), DialogStep::OpenProject);
    assert_eq!(dialog_step(DialogKind::FileOpen, enter, false, PendingInput::Nothing), DialogStep::OpenFile);
    assert_eq!(dialog_step(DialogKind::FileSaveAs, enter, true, PendingInput::Nothing), DialogStep::SaveAs);
    assert_eq!(dialog_step(DialogKind::ExportPdf, enter, false, PendingInput::Nothing), DialogStep::ExportPdf);
}

#[test]
fn test_prompt_answer_goes_to_its_request() {
    let cmd = dialog_command(DialogKind::Input, KeyCode::Enter);
    assert_eq!(
        dialog_step(DialogKind::Input, cmd, false, PendingInput::CommitVersion),
        DialogStep::AcceptInput(PendingInput::CommitVersion)
    );
    let typed = dialog_command(DialogKind::Input, KeyCode::Char('x'));
    assert_eq!(dialog_step(DialogKind::Input, typed, false, PendingInput::NewProject), DialogStep::InputType('x'));
}

#[test]
fn test_spell_ignore_moves_on() {
    let ignore = dialog_command(DialogKind::SpellCheck, KeyCode::Char('i'));
    assert_eq!(dialog_step(DialogKind::SpellCheck, ignore, false, PendingInput::Nothing), DialogStep::SpellDown);
    let replace_all = dialog_command(DialogKind::FindReplace, KeyCode::Char('A'));
    assert_eq!(dialog_step(DialogKind::FindReplace, replace_all, false, PendingInput::Nothing), DialogStep::ReplaceAll);
}
