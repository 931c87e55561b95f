//! WordStar-style key handling: the direct commands, the ^K, ^Q and ^O
//! prefixes, and what a key does in each mode of the editor.
use vstd::prelude::*;
use crate::app::{App, AppMode, PrefixKey, is_dialog_closed};
use crate::keys::input::{KeyCode, KeyInput};

verus! {

/// What the main loop does after a key was handled.
#[derive(Debug, Clone, Copy, PartialEq, Eq, Structural)]
pub enum KeyAction {
    Quit,
    ForwardToEditor(KeyInput),
    Handled,
}

/// An action that a key requests from the main loop.
#[derive(Debug, Clone, Copy, PartialEq, Eq, Structural)]
pub enum Request {
    Save,
    SaveAs,
    NewFile,
    OpenFile,
    CloseTab,
    ExportPdf,
    SpellCheck,
    Bold,
    Italic,
    Underline,
    HeadingCycle,
    DeleteLine,
    Find,
    Replace,
    Commit,
    History,
    Revert,
    GotoStart,
    GotoEnd,
    NewProject,
    OpenProject,
    BlockMove,
    BlockCopy,
    BlockDelete,
    NextTab,
}

/// A view setting that a key switches on or off.
#[derive(Debug, Clone, Copy, PartialEq, Eq, Structural)]
pub enum Toggle {
    Help,
    InsertMode,
    Outline,
    ProjectPane,
    Ruler,
    LineNumbers,
    WordWrap,
    BlockVisible,
}

/// What a key is bound to.
#[derive(Debug, Clone, Copy, PartialEq, Eq, Structural)]
pub enum Command {
    /// Leave the editor.
    Quit,
    /// Hand the key to the text area.
    Forward(KeyInput),
    /// Nothing to do.
    Ignore,
    /// Wait for the second key of a two-key command.
    EnterPrefix(PrefixKey),
    Request(Request),
    Toggle(Toggle),
    /// Mark the block's beginning at the cursor.
    MarkBlockBegin,
    /// Mark the block's end at the cursor.
    MarkBlockEnd,
    /// Switch to the tab with this index.
    SwitchTab(usize),
}

/// The key is the letter `lower` or `upper`.
pub open spec fn is_letter(code: KeyCode, lower: char, upper: char) -> bool {
    code == KeyCode::Char(lower) || code == KeyCode::Char(upper)
}

/// The second key after ^K.
pub open spec fn ctrl_k_binding(code: KeyCode) -> Command {
    if is_letter(code, 'q', 'Q') { Command::Quit }
    else if is_letter(code, 's', 'S') { Command::Request(Request::Save) }
    else if is_letter(code, 'b', 'B') { Command::MarkBlockBegin }
    else if is_letter(code, 'k', 'K') { Command::MarkBlockEnd }
    else if is_letter(code, 'h', 'H') { Command::Toggle(Toggle::BlockVisible) }
    else if is_letter(code, 'n', 'N') { Command::Request(Request::NewProject) }
    else if is_letter(code, 'o', 'O') { Command::Request(Request::OpenProject) }
    else if is_letter(code, 'p', 'P') { Command::Request(Request::ExportPdf) }
    else if is_letter(code, 'x', 'X') { Command::Request(Request::ExportPdf) }
    else if is_letter(code, 'v', 'V') { Command::Request(Request::BlockMove) }
    else if is_letter(code, 'c', 'C') { Command::Request(Request::BlockCopy) }
    else if is_letter(code, 'y', 'Y') { Command::Request(Request::BlockDelete) }
    else {
        match code {
            KeyCode::Char(d) => if '1' <= d <= '9' {
                Command::SwitchTab((d as int - '1' as int) as usize)
            } else {
                Command::Ignore
            },
            _ => Command::Ignore,
        }
    }
}

/// The second key after ^Q.
pub open spec fn ctrl_q_binding(code: KeyCode) -> Command {
    if is_letter(code, 'f', 'F') { Command::Request(Request::Find) }
    else if is_letter(code, 'a', 'A') { Command::Request(Request::Replace) }
    else if is_letter(code, 'c', 'C') { Command::Request(Request::Commit) }
    else if is_letter(code, 'h', 'H') { Command::Request(Request::History) }
    else if is_letter(code, 'v', 'V') { Command::Request(Request::Revert) }
    else if is_letter(code, 's', 'S') { Command::Request(Request::GotoStart) }
    else if is_letter(code, 'd', 'D') { Command::Request(Request::GotoEnd) }
    else { Command::Ignore }
}

/// The second key after ^O.
pub open spec fn ctrl_o_binding(code: KeyCode) -> Command {
    if is_letter(code, 'l', 'L') { Command::Toggle(Toggle::Outline) }
    else if is_letter(code, 'p', 'P') { Command::Toggle(Toggle::ProjectPane) }
    else if is_letter(code, 'w', 'W') { Command::Toggle(Toggle::WordWrap) }
    else if is_letter(code, 'r', 'R') { Command::Toggle(Toggle::Ruler) }
    else if is_letter(code, 't', 'T') { Command::Request(Request::NextTab) }
    else if is_letter(code, 'n', 'N') { Command::Toggle(Toggle::LineNumbers) }
    else { Command::Ignore }
}

/// The second key after a prefix.
pub open spec fn prefix_binding(prefix: PrefixKey, code: KeyCode) -> Command {
    match prefix {
        PrefixKey::CtrlK => ctrl_k_binding(code),
        PrefixKey::CtrlQ => ctrl_q_binding(code),
        PrefixKey::CtrlO => ctrl_o_binding(code),
    }
}

/// The delete key, which ^G sends to the text area.
pub open spec fn delete_key() -> KeyInput {
    KeyInput { code: KeyCode::Delete, ctrl: false, alt: false, shift: false }
}

/// A key held with Ctrl while editing, where it has a binding of its own.
pub open spec fn ctrl_binding(code: KeyCode) -> Option<Command> {
    match code {
        KeyCode::Char('c') => Some(Command::Quit),
        KeyCode::Char('k') => Some(Command::EnterPrefix(PrefixKey::CtrlK)),
        KeyCode::Char('q') => Some(Command::EnterPrefix(PrefixKey::CtrlQ)),
        KeyCode::Char('o') => Some(Command::EnterPrefix(PrefixKey::CtrlO)),
        KeyCode::Char('j') => Some(Command::Toggle(Toggle::Help)),
        KeyCode::Char('s') => Some(Command::Request(Request::Save)),
        KeyCode::Char('n') => Some(Command::Request(Request::NewFile)),
        KeyCode::Char('l') => Some(Command::Toggle(Toggle::Outline)),
        KeyCode::Char('r') => Some(Command::Toggle(Toggle::ProjectPane)),
        KeyCode::Char('b') => Some(Command::Request(Request::Bold)),
        KeyCode::Char('i') => Some(Command::Request(Request::Italic)),
        KeyCode::Tab => Some(Command::Request(Request::Italic)),
        KeyCode::Char('u') => Some(Command::Request(Request::Underline)),
        KeyCode::Char('t') => Some(Command::Request(Request::HeadingCycle)),
        KeyCode::Char('w') => Some(Command::Request(Request::CloseTab)),
        KeyCode::Char('p') => Some(Command::Request(Request::ExportPdf)),
        KeyCode::Char('a') => Some(Command::Request(Request::SaveAs)),
        KeyCode::Char('g') => Some(Command::Forward(delete_key())),
        KeyCode::Char('y') => Some(Command::Request(Request::DeleteLine)),
        _ => None,
    }
}

/// A key while editing: a Ctrl binding first; then Tab (which many
/// terminals send for Ctrl+I) asks for italics, F7 for a spell check, Insert
/// switches insert mode, and any other key goes to the text area.
pub open spec fn editing_binding(key: KeyInput) -> Command {
    if key.ctrl && ctrl_binding(key.code) is Some {
        ctrl_binding(key.code)->0
    } else {
        match key.code {
            KeyCode::Tab => Command::Request(Request::Italic),
            KeyCode::F(7) => Command::Request(Request::SpellCheck),
            KeyCode::Insert => Command::Toggle(Toggle::InsertMode),
            _ => Command::Forward(key),
        }
    }
}

/// `a` with the request made.
pub open spec fn with_request(a: App, r: Request) -> App {
    App {
        save_requested: a.save_requested || r == Request::Save,
        save_as_requested: a.save_as_requested || r == Request::SaveAs,
        new_file_requested: a.new_file_requested || r == Request::NewFile,
        open_file_requested: a.open_file_requested || r == Request::OpenFile,
        close_tab_requested: a.close_tab_requested || r == Request::CloseTab,
        export_pdf_requested: a.export_pdf_requested || r == Request::ExportPdf,
        spell_check_requested: a.spell_check_requested || r == Request::SpellCheck,
        bold_requested: a.bold_requested || r == Request::Bold,
        italic_requested: a.italic_requested || r == Request::Italic,
        underline_requested: a.underline_requested || r == Request::Underline,
        heading_cycle_requested: a.heading_cycle_requested || r == Request::HeadingCycle,
        delete_line_requested: a.delete_line_requested || r == Request::DeleteLine,
        find_requested: a.find_requested || r == Request::Find,
        replace_requested: a.replace_requested || r == Request::Replace,
        commit_requested: a.commit_requested || r == Request::Commit,
        history_requested: a.history_requested || r == Request::History,
        revert_requested: a.revert_requested || r == Request::Revert,
        goto_start: a.goto_start || r == Request::GotoStart,
        goto_end: a.goto_end || r == Request::GotoEnd,
        new_project_requested: a.new_project_requested || r == Request::NewProject,
        open_project_requested: a.open_project_requested || r == Request::OpenProject,
        block_move_requested: a.block_move_requested || r == Request::BlockMove,
        block_copy_requested: a.block_copy_requested || r == Request::BlockCopy,
        block_delete_requested: a.block_delete_requested || r == Request::BlockDelete,
        next_tab_requested: a.next_tab_requested || r == Request::NextTab,
        ..a
    }
}

/// `a` with the setting switched.
pub open spec fn with_toggle(a: App, t: Toggle) -> App {
    App {
        show_help: a.show_help != (t == Toggle::Help),
        insert_mode: a.insert_mode != (t == Toggle::InsertMode),
        show_outline: a.show_outline != (t == Toggle::Outline),
        show_project: a.show_project != (t == Toggle::ProjectPane),
        show_ruler: a.show_ruler != (t == Toggle::Ruler),
        show_line_numbers: a.show_line_numbers != (t == Toggle::LineNumbers),
        word_wrap: a.word_wrap != (t == Toggle::WordWrap),
        show_block: a.show_block != (t == Toggle::BlockVisible),
        ..a
    }
}

/// What a command does to the state.
pub open spec fn command_effect(a: App, c: Command) -> App {
    match c {
        Command::EnterPrefix(p) => App { mode: AppMode::CommandPrefix(p), ..a },
        Command::Request(r) => with_request(a, r),
        Command::Toggle(t) => with_toggle(a, t),
        Command::MarkBlockBegin => App { block_begin: Some((a.cursor_line, a.cursor_col)), ..a },
        Command::MarkBlockEnd => App { block_end: Some((a.cursor_line, a.cursor_col)), ..a },
        Command::SwitchTab(i) => App { tab_switch_requested: Some(i), ..a },
        _ => a,
    }
}

/// What the main loop is told after a command.
pub open spec fn command_action(c: Command) -> KeyAction {
    match c {
        Command::Quit => KeyAction::Quit,
        Command::Forward(k) => KeyAction::ForwardToEditor(k),
        _ => KeyAction::Handled,
    }
}

/// `b` is `a` after a key in dialog mode: Esc closes the dialog, any other
/// key changes nothing here (the dialog itself handles it).
pub open spec fn dialog_key_effect(a: App, key: KeyInput, b: App) -> bool {
    if key.code == KeyCode::Esc { is_dialog_closed(a, b) } else { b == a }
}

/// `b` and the action are what a key does in state `a`.
pub open spec fn key_effect(a: App, key: KeyInput, b: App, action: KeyAction) -> bool {
    match a.mode {
        AppMode::CommandPrefix(p) => {
            let reset = App { mode: AppMode::Editing, ..a };
            if key.code == KeyCode::Esc {
                b == reset && action == KeyAction::Handled
            } else {
                b == command_effect(reset, prefix_binding(p, key.code))
                    && action == command_action(prefix_binding(p, key.code))
            }
        },
        AppMode::Editing => {
            b == command_effect(a, editing_binding(key))
                && action == command_action(editing_binding(key))
        },
        AppMode::Dialog(_) => dialog_key_effect(a, key, b) && action == KeyAction::Handled,
        _ => {
            &&& b == (if key.code == KeyCode::Esc { App { mode: AppMode::Editing, ..a } } else { a })
            &&& action == KeyAction::Handled
        },
    }
}

fn ctrl_k_command(code: KeyCode) -> (c: Command)
    ensures
        c == ctrl_k_binding(code),
{
    match code {
        KeyCode::Char('q') | KeyCode::Char('Q') => Command::Quit,
        KeyCode::Char('s') | KeyCode::Char('S') => Command::Request(Request::Save),
        KeyCode::Char('b') | KeyCode::Char('B') => Command::MarkBlockBegin,
        KeyCode::Char('k') | KeyCode::Char('K') => Command::MarkBlockEnd,
        KeyCode::Char('h') | KeyCode::Char('H') => Command::Toggle(Toggle::BlockVisible),
        KeyCode::Char('n') | KeyCode::Char('N') => Command::Request(Request::NewProject),
        KeyCode::Char('o') | KeyCode::Char('O') => Command::Request(Request::OpenProject),
        KeyCode::Char('p') | KeyCode::Char('P') => Command::Request(Request::ExportPdf),
        KeyCode::Char('x') | KeyCode::Char('X') => Command::Request(Request::ExportPdf),
        KeyCode::Char('v') | KeyCode::Char('V') => Command::Request(Request::BlockMove),
        KeyCode::Char('c') | KeyCode::Char('C') => Command::Request(Request::BlockCopy),
        KeyCode::Char('y') | KeyCode::Char('Y') => Command::Request(Request::BlockDelete),
        KeyCode::Char(d) => {
            if '1' <= d && d <= '9' {
                let n: u32 = (d as u32) - ('1' as u32);
                Command::SwitchTab(n as usize)
            } else {
                Command::Ignore
            }
        },
        _ => Command::Ignore,
    }
}

fn ctrl_q_command(code: KeyCode) -> (c: Command)
    ensures
        c == ctrl_q_binding(code),
{
    match code {
        KeyCode::Char('f') | KeyCode::Char('F') => Command::Request(Request::Find),
        KeyCode::Char('a') | KeyCode::Char('A') => Command::Request(Request::Replace),
        KeyCode::Char('c') | KeyCode::Char('C') => Command::Request(Request::Commit),
        KeyCode::Char('h') | KeyCode::Char('H') => Command::Request(Request::History),
        KeyCode::Char('v') | KeyCode::Char('V') => Command::Request(Request::Revert),
        KeyCode::Char('s') | KeyCode::Char('S') => Command::Request(Request::GotoStart),
        KeyCode::Char('d') | KeyCode::Char('D') => Command::Request(Request::GotoEnd),
        _ => Command::Ignore,
    }
}

fn ctrl_o_command(code: KeyCode) -> (c: Command)
    ensures
        c == ctrl_o_binding(code),
{
    match code {
        KeyCode::Char('l') | KeyCode::Char('L') => Command::Toggle(Toggle::Outline),
        KeyCode::Char('p') | KeyCode::Char('P') => Command::Toggle(Toggle::ProjectPane),
        KeyCode::Char('w') | KeyCode::Char('W') => Command::Toggle(Toggle::WordWrap),
        KeyCode::Char('r') | KeyCode::Char('R') => Command::Toggle(Toggle::Ruler),
        KeyCode::Char('t') | KeyCode::Char('T') => Command::Request(Request::NextTab),
        KeyCode::Char('n') | KeyCode::Char('N') => Command::Toggle(Toggle::LineNumbers),
        _ => Command::Ignore,
    }
}

fn ctrl_command(code: KeyCode) -> (c: Option<Command>)
    ensures
        c == ctrl_binding(code),
{
    match code {
        KeyCode::Char('c') => Some(Command::Quit),
        KeyCode::Char('k') => Some(Command::EnterPrefix(PrefixKey::CtrlK)),
        KeyCode::Char('q') => Some(Command::EnterPrefix(PrefixKey::CtrlQ)),
        KeyCode::Char('o') => Some(Command::EnterPrefix(PrefixKey::CtrlO)),
        KeyCode::Char('j') => Some(Command::Toggle(Toggle::Help)),
        KeyCode::Char('s') => Some(Command::Request(Request::Save)),
        KeyCode::Char('n') => Some(Command::Request(Request::NewFile)),
        KeyCode::Char('l') => Some(Command::Toggle(Toggle::Outline)),
        KeyCode::Char('r') => Some(Command::Toggle(Toggle::ProjectPane)),
        KeyCode::Char('b') => Some(Command::Request(Request::Bold)),
        KeyCode::Char('i') => Some(Command::Request(Request::Italic)),
        KeyCode::Tab => Some(Command::Request(Request::Italic)),
        KeyCode::Char('u') => Some(Command::Request(Request::Underline)),
        KeyCode::Char('t') => Some(Command::Request(Request::HeadingCycle)),
        KeyCode::Char('w') => Some(Command::Request(Request::CloseTab)),
        KeyCode::Char('p') => Some(Command::Request(Request::ExportPdf)),
        KeyCode::Char('a') => Some(Command::Request(Request::SaveAs)),
        KeyCode::Char('g') => Some(Command::Forward(KeyInput::plain(KeyCode::Delete))),
        KeyCode::Char('y') => Some(Command::Request(Request::DeleteLine)),
        _ => None,
    }
}

/// The command that a key is bound to while editing.
pub fn editing_command(key: KeyInput) -> (c: Command)
    ensures
        c == editing_binding(key),
{
    if key.ctrl {
        if let Some(c) = ctrl_command(key.code) {
            return c;
        }
    }
    match key.code {
        KeyCode::Tab => Command::Request(Request::Italic),
        KeyCode::F(7) => Command::Request(Request::SpellCheck),
        KeyCode::Insert => Command::Toggle(Toggle::InsertMode),
        _ => Command::Forward(key),
    }
}

fn make_request(a: App, r: Request) -> (b: App)
    ensures
        b == with_request(a, r),
{
    App {
        save_requested: a.save_requested || r == Request::Save,
        save_as_requested: a.save_as_requested || r == Request::SaveAs,
        new_file_requested: a.new_file_requested || r == Request::NewFile,
        open_file_requested: a.open_file_requested || r == Request::OpenFile,
        close_tab_requested: a.close_tab_requested || r == Request::CloseTab,
        export_pdf_requested: a.export_pdf_requested || r == Request::ExportPdf,
        spell_check_requested: a.spell_check_requested || r == Request::SpellCheck,
        bold_requested: a.bold_requested || r == Request::Bold,
        italic_requested: a.italic_requested || r == Request::Italic,
        underline_requested: a.underline_requested || r == Request::Underline,
        heading_cycle_requested: a.heading_cycle_requested || r == Request::HeadingCycle,
        delete_line_requested: a.delete_line_requested || r == Request::DeleteLine,
        find_requested: a.find_requested || r == Request::Find,
        replace_requested: a.replace_requested || r == Request::Replace,
        commit_requested: a.commit_requested || r == Request::Commit,
        history_requested: a.history_requested || r == Request::History,
        revert_requested: a.revert_requested || r == Request::Revert,
        goto_start: a.goto_start || r == Request::GotoStart,
        goto_end: a.goto_end || r == Request::GotoEnd,
        new_project_requested: a.new_project_requested || r == Request::NewProject,
        open_project_requested: a.open_project_requested || r == Request::OpenProject,
        block_move_requested: a.block_move_requested || r == Request::BlockMove,
        block_copy_requested: a.block_copy_requested || r == Request::BlockCopy,
        block_delete_requested: a.block_delete_requested || r == Request::BlockDelete,
        next_tab_requested: a.next_tab_requested || r == Request::NextTab,
        ..a
    }
}

fn switch_setting(a: App, t: Toggle) -> (b: App)
    ensures
        b == with_toggle(a, t),
{
    App {
        show_help: a.show_help != (t == Toggle::Help),
        insert_mode: a.insert_mode != (t == Toggle::InsertMode),
        show_outline: a.show_outline != (t == Toggle::Outline),
        show_project: a.show_project != (t == Toggle::ProjectPane),
        show_ruler: a.show_ruler != (t == Toggle::Ruler),
        show_line_numbers: a.show_line_numbers != (t == Toggle::LineNumbers),
        word_wrap: a.word_wrap != (t == Toggle::WordWrap),
        show_block: a.show_block != (t == Toggle::BlockVisible),
        ..a
    }
}

fn perform(a: App, c: Command) -> (b: App)
    ensures
        b == command_effect(a, c),
{
    match c {
        Command::EnterPrefix(p) => App { mode: AppMode::CommandPrefix(p), ..a },
        Command::Request(r) => make_request(a, r),
        Command::Toggle(t) => switch_setting(a, t),
        Command::MarkBlockBegin => {
            let at = (a.cursor_line, a.cursor_col);
            App { block_begin: Some(at), ..a }
        },
        Command::MarkBlockEnd => {
            let at = (a.cursor_line, a.cursor_col);
            App { block_end: Some(at), ..a }
        },
        Command::SwitchTab(i) => App { tab_switch_requested: Some(i), ..a },
        _ => a,
    }
}

fn action_for(c: Command) -> (r: KeyAction)
    ensures
        r == command_action(c),
{
    match c {
        Command::Quit => KeyAction::Quit,
        Command::Forward(k) => KeyAction::ForwardToEditor(k),
        _ => KeyAction::Handled,
    }
}

fn run_command(app: &mut App, c: Command) -> (r: KeyAction)
    ensures
        *final(app) == command_effect(*old(app), c),
        r == command_action(c),
{
    let mut a = App::new();
    std::mem::swap(&mut a, app);
    *app = perform(a, c);
    action_for(c)
}

fn dispatch_prefix(app: &mut App, prefix: PrefixKey, key: KeyInput) -> (r: KeyAction)
    requires
        old(app).mode == AppMode::CommandPrefix(prefix),
    ensures
        key_effect(*old(app), key, *final(app), r),
{
    let mut a = App::new();
    std::mem::swap(&mut a, app);
    *app = App { mode: AppMode::Editing, ..a };
    if key.code == KeyCode::Esc {
        return KeyAction::Handled;
    }
    let c = match prefix {
        PrefixKey::CtrlK => ctrl_k_command(key.code),
        PrefixKey::CtrlQ => ctrl_q_command(key.code),
        PrefixKey::CtrlO => ctrl_o_command(key.code),
    };
    run_command(app, c)
}

fn dispatch_editing(app: &mut App, key: KeyInput) -> (r: KeyAction)
    requires
        old(app).mode == AppMode::Editing,
    ensures
        key_effect(*old(app), key, *final(app), r),
{
    let c = editing_command(key);
    run_command(app, c)
}

fn dispatch_dialog(app: &mut App, key: KeyInput) -> (r: KeyAction)
    requires
        old(app).mode is Dialog,
    ensures
        key_effect(*old(app), key, *final(app), r),
{
    if key.code == KeyCode::Esc {
        app.close_dialog();
    }
    KeyAction::Handled
}

fn dispatch_pane(app: &mut App, key: KeyInput) -> (r: KeyAction)
    requires
        old(app).mode == AppMode::OutlineNav || old(app).mode == AppMode::ProjectNav,
    ensures
        key_effect(*old(app), key, *final(app), r),
{
    if key.code == KeyCode::Esc {
        let mut a = App::new();
        std::mem::swap(&mut a, app);
        *app = App { mode: AppMode::Editing, ..a };
    }
    KeyAction::Handled
}

/// Handles a key in the current mode: a command prefix waits for its
/// second key and then returns to editing, editing keys run their binding or
/// go to the text area, Esc closes a dialog or leaves a pane.
pub fn dispatch_key(app: &mut App, key: KeyInput) -> (r: KeyAction)
    ensures
        key_effect(*old(app), key, *final(app), r),
{
    match app.mode {
        AppMode::CommandPrefix(prefix) => dispatch_prefix(app, prefix, key),
        AppMode::Editing => dispatch_editing(app, key),
        AppMode::Dialog(_) => dispatch_dialog(app, key),
        AppMode::OutlineNav => dispatch_pane(app, key),
        AppMode::ProjectNav => dispatch_pane(app, key),
    }
}

/// A two-key command always ends in editing mode, whatever the second key.
pub proof fn law_prefix_returns_to_editing(a: App, key: KeyInput, b: App, action: KeyAction)
    requires
        a.mode is CommandPrefix,
        key_effect(a, key, b, action),
    ensures
        b.mode == AppMode::Editing,
{
}

/// Esc leaves a prefix, a dialog or a pane and returns to editing.
pub proof fn law_esc_returns_to_editing(a: App, key: KeyInput, b: App, action: KeyAction)
    requires
        a.mode != AppMode::Editing,
        key.code == KeyCode::Esc,
        key_effect(a, key, b, action),
    ensures
        b.mode == AppMode::Editing,
        action == KeyAction::Handled,
{
}

/// While a dialog is open no key reaches the text area or quits, and any key
/// but Esc leaves the state to the dialog.
pub proof fn law_dialog_keeps_keys(a: App, key: KeyInput, b: App, action: KeyAction)
    requires
        a.mode is Dialog,
        key_effect(a, key, b, action),
    ensures
        action == KeyAction::Handled,
        key.code != KeyCode::Esc ==> b == a,
{
}

/// Quitting is asked for by Ctrl+C while editing or by ^K Q, and by no other
/// key.
pub proof fn law_quit_keys(a: App, key: KeyInput, b: App, action: KeyAction)
    requires
        key_effect(a, key, b, action),
    ensures
        action == KeyAction::Quit <==> (
            (a.mode == AppMode::Editing && key.ctrl && key.code == KeyCode::Char('c'))
            || (a.mode == AppMode::CommandPrefix(PrefixKey::CtrlK) && is_letter(key.code, 'q', 'Q'))),
{
}

/// A key that goes to the text area changes no state of the editor, and
/// only keys pressed while editing go there.
pub proof fn law_forwarded_keys_change_nothing(a: App, key: KeyInput, b: App, action: KeyAction)
    requires
        key_effect(a, key, b, action),
        action is ForwardToEditor,
    ensures
        a.mode == AppMode::Editing,
        b == a,
{
}

/// While editing, every key pressed without Ctrl goes to the text area
/// unchanged and changes no state, except Tab (italics), F7 (spell
/// check) and Insert (insert mode).
pub proof fn law_plain_keys_go_to_the_text(a: App, key: KeyInput, b: App, action: KeyAction)
    requires
        key_effect(a, key, b, action),
        a.mode == AppMode::Editing,
        !key.ctrl,
        key.code != KeyCode::Tab,
        key.code != KeyCode::F(7),
        key.code != KeyCode::Insert,
    ensures
        action == KeyAction::ForwardToEditor(key),
        b == a,
{
}

/// Key handling leaves the document, the cursor, the dirty flag and the
/// quit flag as they were: those are the main loop's to change.
pub proof fn law_keys_keep_document(a: App, key: KeyInput, b: App, action: KeyAction)
    requires
        key_effect(a, key, b, action),
    ensures
        b.document == a.document,
        b.cursor_line == a.cursor_line,
        b.cursor_col == a.cursor_col,
        b.is_dirty == a.is_dirty,
        b.should_quit == a.should_quit,
{
    match a.mode {
        AppMode::CommandPrefix(p) => {
            let reset = App { mode: AppMode::Editing, ..a };
            if key.code != KeyCode::Esc {
                lemma_command_keeps_document(reset, prefix_binding(p, key.code));
            }
        },
        AppMode::Editing => lemma_command_keeps_document(a, editing_binding(key)),
        _ => {},
    }
}

/// `b` has the document, cursor, dirty flag and quit flag of `a`.
pub open spec fn same_document(a: App, b: App) -> bool {
    &&& b.document == a.document
    &&& b.cursor_line == a.cursor_line
    &&& b.cursor_col == a.cursor_col
    &&& b.is_dirty == a.is_dirty
    &&& b.should_quit == a.should_quit
}

proof fn lemma_command_keeps_document(a: App, c: Command)
    ensures
        same_document(a, command_effect(a, c)),
{
    match c {
        _ => {},
    }
}

} // verus!
