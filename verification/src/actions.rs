//! What the main loop does about the requests that a key left in the
//! application state: which effects, in which order, and on which
//! conditions.  Carrying an effect out (moving the cursor, reading a file,
//! drawing a dialog) is the caller's part.
use vstd::prelude::*;
use crate::app::App;

verus! {

/// One thing the main loop does for a request.
#[derive(Debug, Clone, Copy, PartialEq, Eq, Structural)]
pub enum Effect {
    /// Move the cursor to the top of the text.
    GotoStart,
    /// Move the cursor to the end of the text.
    GotoEnd,
    /// Delete the cursor's line.
    DeleteLine,
    /// Save the document.
    Save,
    /// Ask for a path to save under.
    PromptSaveAs,
    /// Ask for a file to open.
    PromptOpenFile,
    /// Start a new document, after asking to save a changed one.
    NewFile,
    /// Toggle bold around the selection.
    Bold,
    /// Toggle italic around the selection.
    Italic,
    /// Toggle underline around the selection.
    Underline,
    /// Cycle the heading level of the cursor's line.
    CycleHeading,
    /// Delete the marked block.
    DeleteBlock,
    /// Copy the marked block to the cursor.
    CopyBlock,
    /// Move the marked block to the cursor.
    MoveBlock,
    /// Show the next tab.
    NextTab,
    /// Show the tab with this index.
    SwitchTab(usize),
    /// Ask for the directory of a new project.
    PromptNewProject,
    /// Ask for a project to open.
    PromptOpenProject,
    /// Ask for a commit message.
    PromptCommit,
    /// Show the version history of the active file.
    ShowHistory,
    /// Check the spelling of the text.
    SpellCheck,
    /// Open the find dialog.
    OpenFind,
    /// Open the find-and-replace dialog.
    OpenReplace,
    /// Ask for the path of the PDF to write.
    PromptExport,
}

/// `e` when `b` holds, nothing otherwise.
pub open spec fn when(b: bool, e: Effect) -> Seq<Effect> {
    if b {
        seq![e]
    } else {
        Seq::empty()
    }
}

/// The tab switch that was requested, if any.
pub open spec fn switch_of(t: Option<usize>) -> Seq<Effect> {
    match t {
        Some(i) => seq![Effect::SwitchTab(i)],
        None => Seq::empty(),
    }
}

/// The effects of the requests on the text in `a`, in the order the main
/// loop takes them.
pub open spec fn text_effects(a: App) -> Seq<Effect> {
    Seq::<Effect>::empty()
        + when(a.goto_start, Effect::GotoStart)
        + when(a.goto_end, Effect::GotoEnd)
        + when(a.delete_line_requested, Effect::DeleteLine)
        + when(a.save_requested, Effect::Save)
        + when(a.save_as_requested, Effect::PromptSaveAs)
        + when(a.open_file_requested, Effect::PromptOpenFile)
        + when(a.new_file_requested, Effect::NewFile)
        + when(a.bold_requested, Effect::Bold)
        + when(a.italic_requested, Effect::Italic)
        + when(a.underline_requested, Effect::Underline)
        + when(a.heading_cycle_requested, Effect::CycleHeading)
        + when(a.block_delete_requested, Effect::DeleteBlock)
        + when(a.block_copy_requested, Effect::CopyBlock)
        + when(a.block_move_requested, Effect::MoveBlock)
}

/// The effects of the requests on tabs, projects and dialogs in `a`, in
/// the order the main loop takes them.  A commit needs an open project;
/// the history (asked for by itself or before a revert) needs an open
/// project and an active tab.
pub open spec fn other_effects(a: App, has_project: bool, has_tab: bool) -> Seq<Effect> {
    Seq::<Effect>::empty()
        + when(a.next_tab_requested, Effect::NextTab)
        + switch_of(a.tab_switch_requested)
        + when(a.new_project_requested, Effect::PromptNewProject)
        + when(a.open_project_requested, Effect::PromptOpenProject)
        + when(a.commit_requested && has_project, Effect::PromptCommit)
        + when(a.history_requested && has_project && has_tab, Effect::ShowHistory)
        + when(a.revert_requested && has_project && has_tab, Effect::ShowHistory)
        + when(a.spell_check_requested, Effect::SpellCheck)
        + when(a.find_requested, Effect::OpenFind)
        + when(a.replace_requested, Effect::OpenReplace)
        + when(a.export_pdf_requested, Effect::PromptExport)
}

/// The effects of the requests in `a`, in the order the main loop takes
/// them: first those on the text, then those on tabs, projects and
/// dialogs.
pub open spec fn requested_effects(a: App, has_project: bool, has_tab: bool) -> Seq<Effect> {
    text_effects(a) + other_effects(a, has_project, has_tab)
}

fn add_when(v: &mut Vec<Effect>, b: bool, e: Effect)
    ensures
        final(v)@ == old(v)@ + when(b, e),
{
    if b {
        v.push(e);
    }
    assert(v@ =~= old(v)@ + when(b, e));
}

fn text_effects_of(app: &App) -> (r: Vec<Effect>)
    ensures
        r@ == text_effects(*app),
{
    let mut v: Vec<Effect> = Vec::new();
    add_when(&mut v, app.goto_start, Effect::GotoStart);
    add_when(&mut v, app.goto_end, Effect::GotoEnd);
    add_when(&mut v, app.delete_line_requested, Effect::DeleteLine);
    add_when(&mut v, app.save_requested, Effect::Save);
    add_when(&mut v, app.save_as_requested, Effect::PromptSaveAs);
    add_when(&mut v, app.open_file_requested, Effect::PromptOpenFile);
    add_when(&mut v, app.new_file_requested, Effect::NewFile);
    add_when(&mut v, app.bold_requested, Effect::Bold);
    add_when(&mut v, app.italic_requested, Effect::Italic);
    add_when(&mut v, app.underline_requested, Effect::Underline);
    add_when(&mut v, app.heading_cycle_requested, Effect::CycleHeading);
    add_when(&mut v, app.block_delete_requested, Effect::DeleteBlock);
    add_when(&mut v, app.block_copy_requested, Effect::CopyBlock);
    add_when(&mut v, app.block_move_requested, Effect::MoveBlock);
    v
}

fn other_effects_of(app: &App, has_project: bool, has_tab: bool) -> (r: Vec<Effect>)
    ensures
        r@ == other_effects(*app, has_project, has_tab),
{
    let mut v: Vec<Effect> = Vec::new();
    add_when(&mut v, app.next_tab_requested, Effect::NextTab);
    let ghost before = v@;
    match app.tab_switch_requested {
        Some(i) => v.push(Effect::SwitchTab(i)),
        None => {},
    }
    assert(v@ =~= before + switch_of(app.tab_switch_requested));
    add_when(&mut v, app.new_project_requested, Effect::PromptNewProject);
    add_when(&mut v, app.open_project_requested, Effect::PromptOpenProject);
    add_when(&mut v, app.commit_requested && has_project, Effect::PromptCommit);
    add_when(&mut v, app.history_requested && has_project && has_tab, Effect::ShowHistory);
    add_when(&mut v, app.revert_requested && has_project && has_tab, Effect::ShowHistory);
    add_when(&mut v, app.spell_check_requested, Effect::SpellCheck);
    add_when(&mut v, app.find_requested, Effect::OpenFind);
    add_when(&mut v, app.replace_requested, Effect::OpenReplace);
    add_when(&mut v, app.export_pdf_requested, Effect::PromptExport);
    v
}

/// The effects that the requests in `app` call for, in order; `has_project`
/// and `has_tab` say whether a project is open and whether it has an
/// active tab.
pub fn planned_effects(app: &App, has_project: bool, has_tab: bool) -> (r: Vec<Effect>)
    ensures
        r@ == requested_effects(*app, has_project, has_tab),
{
    let mut v = text_effects_of(app);
    let mut rest = other_effects_of(app, has_project, has_tab);
    v.append(&mut rest);
    v
}

/// With no request pending, the main loop does nothing.
pub proof fn law_no_request_no_effect(a: App, has_project: bool, has_tab: bool)
    requires
        crate::app::no_actions(a),
    ensures
        requested_effects(a, has_project, has_tab) == Seq::<Effect>::empty(),
{
    assert(text_effects(a) =~= Seq::<Effect>::empty());
    assert(other_effects(a, has_project, has_tab) =~= Seq::<Effect>::empty());
    assert(requested_effects(a, has_project, has_tab) =~= Seq::<Effect>::empty());
}

} // verus!
