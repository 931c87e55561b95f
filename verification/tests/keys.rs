use vibewrite95::app::{App, AppMode, ConfirmAction, DialogKind, PrefixKey};
use vibewrite95::keys::commands::{dispatch_key, KeyAction};
use vibewrite95::keys::input::{KeyCode, KeyInput};

fn ctrl(code: KeyCode) -> KeyInput {
    KeyInput::new(code, true, false, false)
}

fn plain(code: KeyCode) -> KeyInput {
    KeyInput::plain(code)
}

#[test]
fn ctrl_i_char_requests_italic() {
    let mut app = App::new();
    let action = dispatch_key(&mut app, ctrl(KeyCode::Char('i')));
    assert!(matches!(action, KeyAction::Handled));
    assert!(app.italic_requested);
}

#[test]
fn ctrl_i_tab_requests_italic() {
    let mut app = App::new();
    let action = dispatch_key(&mut app, ctrl(KeyCode::Tab));
    assert!(matches!(action, KeyAction::Handled));
    assert!(app.italic_requested);
}

#[test]
fn plain_tab_requests_italic_for_terminal_compat() {
    let mut app = App::new();
    let action = dispatch_key(&mut app, plain(KeyCode::Tab));
    assert!(matches!(action, KeyAction::Handled));
    assert!(app.italic_requested);
}

#[test]
fn ctrl_c_returns_quit() {
    let mut app = App::new();
    let action = dispatch_key(&mut app, ctrl(KeyCode::Char('c')));
    assert!(matches!(action, KeyAction::Quit));
}

#[test]
fn ctrl_k_sets_prefix_mode() {
    let mut app = App::new();
    let action = dispatch_key(&mut app, ctrl(KeyCode::Char('k')));
    assert!(matches!(action, KeyAction::Handled));
    assert!(matches!(app.mode, AppMode::CommandPrefix(PrefixKey::CtrlK)));
}

#[test]
fn ctrl_k_then_q_returns_quit() {
    let mut app = App::new();
    dispatch_key(&mut app, ctrl(KeyCode::Char('k')));
    let action = dispatch_key(&mut app, plain(KeyCode::Char('q')));
    assert!(matches!(action, KeyAction::Quit));
}

#[test]
fn ctrl_k_then_q_uppercase_returns_quit() {
    let mut app = App::new();
    dispatch_key(&mut app, ctrl(KeyCode::Char('k')));
    let action = dispatch_key(&mut app, KeyInput::new(KeyCode::Char('Q'), false, false, true));
    assert!(matches!(action, KeyAction::Quit));
}

#[test]
fn ctrl_k_prefix_resets_mode_to_editing_after_chord() {
    let mut app = App::new();
    dispatch_key(&mut app, ctrl(KeyCode::Char('k')));
    dispatch_key(&mut app, plain(KeyCode::Char('q')));
    assert!(matches!(app.mode, AppMode::Editing));
}

#[test]
fn ctrl_k_esc_cancels_prefix_without_quit() {
    let mut app = App::new();
    dispatch_key(&mut app, ctrl(KeyCode::Char('k')));
    let action = dispatch_key(&mut app, plain(KeyCode::Esc));
    assert!(matches!(action, KeyAction::Handled));
    assert!(matches!(app.mode, AppMode::Editing));
}

#[test]
fn confirm_y_sets_should_quit_for_save_before_quit() {
    let mut app = App::new();
    app.confirm_action = Some(ConfirmAction::SaveBeforeQuit);
    app.mode = AppMode::Dialog(DialogKind::Confirm);
    let action = dispatch_key(&mut app, plain(KeyCode::Char('y')));
    assert!(matches!(action, KeyAction::Handled));
    assert!(!matches!(action, KeyAction::ForwardToEditor(_)));
}

#[test]
fn confirm_n_in_dialog_mode_is_handled_not_forwarded() {
    let mut app = App::new();
    app.mode = AppMode::Dialog(DialogKind::Confirm);
    let action = dispatch_key(&mut app, plain(KeyCode::Char('n')));
    assert!(matches!(action, KeyAction::Handled));
}

#[test]
fn esc_in_dialog_mode_returns_to_editing() {
    let mut app = App::new();
    app.mode = AppMode::Dialog(DialogKind::Confirm);
    dispatch_key(&mut app, plain(KeyCode::Esc));
    assert!(matches!(app.mode, AppMode::Editing));
}

// --- further bindings ---

#[test]
fn plain_letter_is_forwarded_unchanged() {
    let mut app = App::new();
    let key = plain(KeyCode::Char('x'));
    let action = dispatch_key(&mut app, key);
    assert_eq!(action, KeyAction::ForwardToEditor(key));
    assert!(!app.is_dirty);
}

#[test]
fn ctrl_g_forwards_delete() {
    let mut app = App::new();
    let action = dispatch_key(&mut app, ctrl(KeyCode::Char('g')));
    assert_eq!(action, KeyAction::ForwardToEditor(KeyInput::plain(KeyCode::Delete)));
}

#[test]
fn ctrl_k_digit_switches_tab() {
    let mut app = App::new();
    dispatch_key(&mut app, ctrl(KeyCode::Char('k')));
    dispatch_key(&mut app, plain(KeyCode::Char('3')));
    assert_eq!(app.tab_switch_requested, Some(2));
    dispatch_key(&mut app, ctrl(KeyCode::Char('k')));
    dispatch_key(&mut app, plain(KeyCode::Char('0')));
    assert_eq!(app.tab_switch_requested, Some(2));
    assert!(matches!(app.mode, AppMode::Editing));
}

#[test]
fn ctrl_k_b_and_k_mark_the_block_at_the_cursor() {
    let mut app = App::new();
    app.cursor_line = 4;
    app.cursor_col = 7;
    dispatch_key(&mut app, ctrl(KeyCode::Char('k')));
    dispatch_key(&mut app, plain(KeyCode::Char('b')));
    app.cursor_line = 9;
    app.cursor_col = 1;
    dispatch_key(&mut app, ctrl(KeyCode::Char('k')));
    dispatch_key(&mut app, plain(KeyCode::Char('K')));
    assert_eq!(app.block_begin, Some((4, 7)));
    assert_eq!(app.block_end, Some((9, 1)));
}

#[test]
fn ctrl_q_f_requests_find_and_ctrl_o_w_toggles_wrap() {
    let mut app = App::new();
    dispatch_key(&mut app, ctrl(KeyCode::Char('q')));
    dispatch_key(&mut app, plain(KeyCode::Char('F')));
    assert!(app.find_requested);
    assert!(app.word_wrap);
    dispatch_key(&mut app, ctrl(KeyCode::Char('o')));
    dispatch_key(&mut app, plain(KeyCode::Char('w')));
    assert!(!app.word_wrap);
}

#[test]
fn f7_requests_spell_check_and_insert_toggles_mode() {
    let mut app = App::new();
    dispatch_key(&mut app, plain(KeyCode::F(7)));
    assert!(app.spell_check_requested);
    assert!(app.insert_mode);
    dispatch_key(&mut app, plain(KeyCode::Insert));
    assert!(!app.insert_mode);
}

#[test]
fn esc_leaves_outline_and_other_keys_do_nothing() {
    let mut app = App::new();
    app.mode = AppMode::OutlineNav;
    let action = dispatch_key(&mut app, plain(KeyCode::Char('a')));
    assert_eq!(action, KeyAction::Handled);
    assert!(matches!(app.mode, AppMode::OutlineNav));
    dispatch_key(&mut app, plain(KeyCode::Esc));
    assert!(matches!(app.mode, AppMode::Editing));
}

#[test]
fn esc_in_dialog_clears_dialog_state() {
    let mut app = App::new();
    app.mode = AppMode::Dialog(DialogKind::Input);
    app.dialog_input = "text".to_string();
    app.confirm_action = Some(ConfirmAction::SaveBeforeNew);
    dispatch_key(&mut app, plain(KeyCode::Esc));
    assert!(app.dialog_input.is_empty());
    assert!(app.confirm_action.is_none());
}

#[test]
fn clear_actions_withdraws_requests() {
    let mut app = App::new();
    dispatch_key(&mut app, ctrl(KeyCode::Char('s')));
    dispatch_key(&mut app, ctrl(KeyCode::Char('b')));
    assert!(app.save_requested && app.bold_requested);
    app.clear_actions();
    assert!(!app.save_requested && !app.bold_requested);
}

#[test]
fn ctrl_k_x_exports_pdf() {
    for c in ['x', 'X'] {
        let mut app = App::new();
        dispatch_key(&mut app, ctrl(KeyCode::Char('k')));
        let action = dispatch_key(&mut app, plain(KeyCode::Char(c)));
        assert!(matches!(action, KeyAction::Handled));
        assert!(app.export_pdf_requested);
        assert_eq!(app.mode, AppMode::Editing);
    }
}
