use vibewrite95::services::spell_check::SpellChecker;
use vibewrite95::ui::dialogs::spell_check::SpellCheckDialogState;
use vibewrite95::models::spell::WordLocation;
use vibewrite95::ui::dialogs::spell_check::replace_locations;
use vibewrite95::app::{App, AppMode, ConfirmAction, DialogKind};
use vibewrite95::controller::{
    active_after_remove, active_after_swap, apply_confirm_outcome, confirm_outcome, dialog_command, new_file,
    next_tab_index, offset_to_line_col, open_path_prompt, outline_command, project_command, request_new_file,
    request_quit, DialogCommand, OutlineCommand, ProjectCommand,
};
use vibewrite95::keys::input::KeyCode;
use vibewrite95::models::document::Document;
use vibewrite95::models::editor_tab::EditorTab;
use vibewrite95::models::project_file::ProjectFile;
use vibewrite95::ui::dialogs::find::FindDialogState;
use vibewrite95::ui::dialogs::geometry::Rect;
use vibewrite95::ui::editor_view::{line_number_label, line_number_width, scroll_to_cursor};
use vibewrite95::ui::layout::{assemble_layout, compute_layout};
use vibewrite95::ui::ruler::ruler_text;
use vibewrite95::ui::status_line::status_line_text;
use vibewrite95::ui::tab_bar::{tab_bar_items, TabStyle};

#[test]
fn find_next_goes_forward_then_wraps() {
    let mut f = FindDialogState::new_find();
    for c in "cat".chars() {
        f.insert_char(c);
    }
    let text = "Cat and cat";
    assert_eq!(f.find_next(text), Some(0));
    assert_eq!(f.find_next(text), Some(8));
    assert_eq!(f.find_next(text), Some(0));
    assert_eq!(f.last_match_offset, Some(0));
}

#[test]
fn find_next_without_match_keeps_last_offset() {
    let mut f = FindDialogState::new_find();
    f.insert_char('z');
    assert_eq!(f.find_next("abc"), None);
    assert_eq!(f.last_match_offset, None);
}

#[test]
fn try_find_next_refuses_a_start_inside_a_character() {
    let mut f = FindDialogState::new_find();
    f.insert_char('é');
    assert_eq!(f.try_find_next("é x"), Some(Some(0)));
    assert_eq!(f.try_find_next("é x"), None);
}

#[test]
fn replace_all_ignores_case_by_default() {
    let mut f = FindDialogState::new_replace();
    f.insert_char('a');
    f.insert_char('b');
    f.active_field = vibewrite95::ui::dialogs::find::FindField::Replace;
    f.insert_char('X');
    assert_eq!(f.replace_all("ab AB aB-c"), "X X X-c");
    assert_eq!(f.try_replace_all("naïve ab"), None);
    f.case_sensitive = true;
    assert_eq!(f.replace_all("ab AB"), "X AB");
}

#[test]
fn replace_current_replaces_the_last_match() {
    let mut f = FindDialogState::new_replace();
    f.insert_char('o');
    f.active_field = vibewrite95::ui::dialogs::find::FindField::Replace;
    f.insert_char('0');
    assert_eq!(f.replace_current("foo"), None);
    f.last_match_offset = Some(1);
    assert_eq!(f.replace_current("foo"), Some("f0o".to_string()));
}

#[test]
fn find_backspace_edits_the_active_field() {
    let mut f = FindDialogState::new_find();
    f.insert_char('a');
    f.insert_char('ß');
    f.backspace();
    assert_eq!(f.search_term, "a");
    assert_eq!(f.search_cursor, 1);
}

#[test]
fn ruler_marks_every_fifth_and_tenth_column() {
    assert_eq!(ruler_text(12), "----+----|--");
    assert_eq!(ruler_text(0), "");
}

#[test]
fn status_line_shows_position_mode_and_file() {
    let mut app = App::new();
    app.cursor_line = 41;
    app.cursor_col = 14;
    app.is_dirty = true;
    app.document = Document::from_path("/tmp/chapter1.md");
    app.project_name = Some("MyBook".to_string());
    let line = status_line_text(&app, 80);
    assert!(line.starts_with(" L:42 C:15  Insert  Wrap  chapter1.md *"));
    assert!(line.ends_with("[Project: MyBook]  VibeWrite95 "));
    assert_eq!(line.len(), 80);
    let narrow = status_line_text(&App::new(), 5);
    assert_eq!(narrow, " L:1 C:1  Insert  Wrap  Untitled  VibeWrite95 ");
}

#[test]
fn tab_bar_marks_the_active_tab() {
    let tabs = vec![
        EditorTab::new(ProjectFile::new("a.md", "/p"), String::new()),
        EditorTab::new(ProjectFile::new("dir/b.md", "/p"), String::new()),
    ];
    let items = tab_bar_items(&tabs, 1);
    let texts: Vec<(&str, TabStyle)> = items.iter().map(|(s, t)| (s.as_str(), *t)).collect();
    assert_eq!(
        texts,
        vec![(" ", TabStyle::Bar), (" a.md ", TabStyle::Inactive), ("|", TabStyle::Separator), (" b.md ", TabStyle::Active)]
    );
    assert!(tab_bar_items(&Vec::new(), 0).is_empty());
}

#[test]
fn editor_view_scrolls_to_the_cursor() {
    assert_eq!(scroll_to_cursor(0, 0, 3), 0);
    assert_eq!(scroll_to_cursor(0, 5, 3), 3);
    assert_eq!(scroll_to_cursor(4, 2, 3), 2);
    assert_eq!(scroll_to_cursor(2, 3, 3), 2);
    assert_eq!(line_number_width(true, 30), 3);
    assert_eq!(line_number_width(true, 0), 2);
    assert_eq!(line_number_width(false, 30), 0);
    assert_eq!(line_number_label(4, 3), "  5 ");
    assert_eq!(line_number_label(99, 2), "100 ");
}

#[test]
fn layout_keeps_only_the_shown_panes() {
    let r = |x: u16| Rect { x, y: 0, width: 1, height: 1 };
    let rows = vec![r(0), r(1), r(2), r(3), r(4)];
    let cols = vec![r(10), r(11), r(12)];
    let areas = assemble_layout(&rows, &cols, true, false, true);
    assert_eq!(areas.help, r(0));
    assert_eq!(areas.editor, r(11));
    assert_eq!(areas.outline, Some(r(10)));
    assert_eq!(areas.project, None);
    assert_eq!(areas.tab_bar, Some(r(4)));
}

#[test]
fn dialog_keys_follow_the_dialog() {
    assert_eq!(dialog_command(DialogKind::Confirm, KeyCode::Char('Y')), DialogCommand::Yes);
    assert_eq!(dialog_command(DialogKind::Confirm, KeyCode::Char('x')), DialogCommand::Nothing);
    assert_eq!(dialog_command(DialogKind::FileOpen, KeyCode::Tab), DialogCommand::Complete);
    assert_eq!(dialog_command(DialogKind::FindReplace, KeyCode::Char('a')), DialogCommand::ReplaceAll);
    assert_eq!(dialog_command(DialogKind::FindReplace, KeyCode::Char('b')), DialogCommand::Type('b'));
    assert_eq!(dialog_command(DialogKind::SpellCheck, KeyCode::Char('d')), DialogCommand::AddWord);
    assert_eq!(dialog_command(DialogKind::DiffView, KeyCode::PageDown), DialogCommand::PageDown);
    for kind in [DialogKind::FileOpen, DialogKind::Confirm, DialogKind::History, DialogKind::ExportPdf] {
        assert_eq!(dialog_command(kind, KeyCode::Esc), DialogCommand::Close);
    }
    assert_eq!(outline_command(KeyCode::Left), OutlineCommand::Leave);
    assert_eq!(project_command(KeyCode::Char('U')), ProjectCommand::MoveUp);
}

#[test]
fn both_answers_quit_when_quitting_was_asked() {
    for yes in [true, false] {
        let o = confirm_outcome(Some(ConfirmAction::SaveBeforeQuit), yes);
        assert!(o.quit);
        assert_eq!(o.save, yes);
        let mut app = App::new();
        app.mode = AppMode::Dialog(DialogKind::Confirm);
        app.confirm_action = Some(ConfirmAction::SaveBeforeQuit);
        apply_confirm_outcome(&mut app, o);
        assert!(app.should_quit);
        assert!(matches!(app.mode, AppMode::Editing));
        assert!(app.confirm_action.is_none());
    }
    let o = confirm_outcome(Some(ConfirmAction::SaveBeforeNew), false);
    assert!(o.new_file && !o.quit && !o.save);
}

#[test]
fn answering_before_a_new_file_starts_it() {
    let mut app = App::new();
    app.document.file_path = Some("notes/old.md".to_string());
    app.is_dirty = true;
    app.mode = AppMode::Dialog(DialogKind::Confirm);
    app.confirm_action = Some(ConfirmAction::SaveBeforeNew);
    let o = confirm_outcome(app.confirm_action, false);
    apply_confirm_outcome(&mut app, o);
    assert!(app.document.file_path.is_none());
    assert!(!app.is_dirty);
    assert!(!app.should_quit);
    assert!(matches!(app.mode, AppMode::Editing));
    assert!(app.confirm_action.is_none());

    let mut other = App::new();
    other.document.file_path = Some("keep.md".to_string());
    other.is_dirty = true;
    other.confirm_action = Some(ConfirmAction::SaveBeforeQuit);
    let o = confirm_outcome(other.confirm_action, true);
    apply_confirm_outcome(&mut other, o);
    assert_eq!(other.document.file_path.as_deref(), Some("keep.md"));
    assert!(other.is_dirty);
    assert!(other.should_quit);
}

#[test]
fn quitting_with_unsaved_changes_asks_first() {
    let mut app = App::new();
    request_quit(&mut app);
    assert!(app.should_quit);
    let mut dirty = App::new();
    dirty.is_dirty = true;
    request_quit(&mut dirty);
    assert!(!dirty.should_quit);
    assert!(matches!(dirty.mode, AppMode::Dialog(DialogKind::Confirm)));
    assert_eq!(dirty.confirm_action, Some(ConfirmAction::SaveBeforeQuit));
    assert_eq!(dirty.confirm_dialog_state.as_ref().unwrap().title, "Quit");
}

#[test]
fn new_file_asks_when_dirty() {
    let mut app = App::new();
    app.document = Document::from_path("x.md");
    assert!(request_new_file(&mut app));
    new_file(&mut app);
    assert!(app.document.file_path.is_none());
    let mut dirty = App::new();
    dirty.is_dirty = true;
    assert!(!request_new_file(&mut dirty));
    assert_eq!(dirty.confirm_action, Some(ConfirmAction::SaveBeforeNew));
}

#[test]
fn save_as_prompt_holds_the_path() {
    let mut app = App::new();
    open_path_prompt(&mut app, DialogKind::FileSaveAs, "Save As", "/tmp/é.md");
    let d = app.file_dialog_state.as_ref().unwrap();
    assert_eq!(d.input, "/tmp/é.md");
    assert_eq!(d.cursor_pos, "/tmp/é.md".len());
    assert!(matches!(app.mode, AppMode::Dialog(DialogKind::FileSaveAs)));
}

#[test]
fn tabs_follow_reordering() {
    assert_eq!(next_tab_index(2, 3), 0);
    assert_eq!(next_tab_index(0, 3), 1);
    assert_eq!(active_after_swap(1, 1, 0), 0);
    assert_eq!(active_after_swap(0, 1, 0), 1);
    assert_eq!(active_after_swap(2, 1, 0), 2);
    assert_eq!(active_after_remove(2, 2, 2), 1);
    assert_eq!(active_after_remove(0, 0, 0), 0);
    assert_eq!(active_after_remove(1, 2, 3), 1);
    assert_eq!(active_after_remove(1, 1, 3), 1);
    // An earlier tab goes: the same file stays active.
    assert_eq!(active_after_remove(2, 0, 3), 1);
}

#[test]
fn match_offset_becomes_line_and_column() {
    assert_eq!(offset_to_line_col("ab\ncd\nef", 7), (2, 1));
    assert_eq!(offset_to_line_col("ab\ncd", 3), (1, 0));
    assert_eq!(offset_to_line_col("\u{e9}\nx\u{e9}", 6), (1, 2));
    assert_eq!(offset_to_line_col("ab\n", 3), (1, 0));
    assert_eq!(offset_to_line_col("abc", 0), (0, 0));
}

#[test]
fn screen_layout_for_the_default_state() {
    let mut app = App::new();
    let area = Rect { x: 0, y: 0, width: 100, height: 30 };
    let areas = compute_layout(area, &app);
    assert_eq!(areas.help, Rect { x: 0, y: 0, width: 100, height: 4 });
    assert_eq!(areas.status, Rect { x: 0, y: 4, width: 100, height: 1 });
    assert_eq!(areas.ruler, Rect { x: 0, y: 5, width: 100, height: 1 });
    assert_eq!(areas.editor, Rect { x: 0, y: 6, width: 100, height: 24 });
    assert_eq!(areas.outline, None);
    assert_eq!(areas.tab_bar, None);
    app.show_outline = true;
    app.show_help = false;
    let areas = compute_layout(area, &app);
    assert_eq!(areas.outline, Some(Rect { x: 0, y: 2, width: 22, height: 28 }));
    assert_eq!(areas.editor, Rect { x: 22, y: 2, width: 78, height: 28 });
}

#[test]
fn spell_replace_touches_only_the_listed_places() {
    let text = "Teh cat; tehran and teh";
    let locations = vec![WordLocation { offset: 0, length: 3 }, WordLocation { offset: 20, length: 3 }];
    assert_eq!(replace_locations(text, &locations, "the"), Some("the cat; tehran and the".to_string()));
    let overlapping = vec![WordLocation { offset: 0, length: 3 }, WordLocation { offset: 2, length: 3 }];
    assert_eq!(replace_locations(text, &overlapping, "x"), None);
    let outside = vec![WordLocation { offset: 22, length: 3 }];
    assert_eq!(replace_locations(text, &outside, "x"), None);
    let inside_char = vec![WordLocation { offset: 1, length: 1 }];
    assert_eq!(replace_locations("\u{e9}a", &inside_char, "x"), None);
    assert_eq!(replace_locations("abc", &vec![], "x"), Some("abc".to_string()));
}

#[test]
fn layout_stacks_rows_and_columns_in_order() {
    let mut app = App::new();
    app.show_outline = true;
    app.show_project = true;
    app.project_name = Some("book".to_string());
    let area = Rect { x: 2, y: 1, width: 80, height: 20 };
    let a = compute_layout(area, &app);
    assert_eq!(a.help, Rect { x: 2, y: 1, width: 80, height: 4 });
    assert_eq!(a.status, Rect { x: 2, y: 5, width: 80, height: 1 });
    assert_eq!(a.ruler, Rect { x: 2, y: 6, width: 80, height: 1 });
    assert_eq!(a.outline, Some(Rect { x: 2, y: 7, width: 22, height: 13 }));
    assert_eq!(a.editor, Rect { x: 24, y: 7, width: 36, height: 13 });
    assert_eq!(a.project, Some(Rect { x: 60, y: 7, width: 22, height: 13 }));
    assert_eq!(a.tab_bar, Some(Rect { x: 2, y: 20, width: 80, height: 1 }));
    // Too small for what is asked: the zones still lie inside, in order.
    let tiny = Rect { x: 0, y: 0, width: 10, height: 3 };
    let t = compute_layout(tiny, &app);
    let rows = [t.help, t.status, t.ruler, t.editor, t.tab_bar.unwrap()];
    for w in rows.windows(2) {
        assert!(w[0].y + w[0].height <= w[1].y);
    }
    assert!(t.tab_bar.unwrap().y + t.tab_bar.unwrap().height <= 3);
    assert!(t.editor.x + t.editor.width <= 10);
}

#[test]
fn replacing_a_word_checks_the_text_again() {
    let checker = SpellChecker::new();
    let text = "teh cat and xyzzy, teh dog";
    let mut st = SpellCheckDialogState::new(checker.check_text(text));
    assert_eq!(st.words[0].word, "teh");
    assert!(st.replace_and_recheck(&checker, text).is_none());
    st.suggestion_selected = Some(0);
    let g = st.words[0].suggestions[0].clone();
    let (new_text, fresh) = st.replace_and_recheck(&checker, text).unwrap();
    assert_eq!(new_text, format!("{g} cat and xyzzy, {g} dog"));
    let words: Vec<&str> = fresh.words.iter().map(|m| m.word.as_str()).collect();
    assert!(!words.contains(&"teh"));
    assert_eq!(fresh.word_selected, if fresh.words.is_empty() { None } else { Some(0) });
    assert!(st.replace_and_recheck(&checker, "short").is_none());
}
