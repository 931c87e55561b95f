use vibewrite95::models::document::Document;
use vibewrite95::models::editor_tab::EditorTab;
use vibewrite95::models::project::Project;
use vibewrite95::models::project_file::ProjectFile;
use vibewrite95::models::version::VersionHistory;
use vibewrite95::services::project_service::{add_file, get_project_files, move_file_down, move_file_up, move_tab_down, move_tab_up, remove_file};
use vibewrite95::services::versioning::{
    file_vibe_dir, format_commit_id, generate_commit_id, history_path, new_commit, record_commit, snapshot_path, snapshots_dir, vibe_dir,
};

fn project(files: &[&str]) -> Project {
    let mut p = Project::new("/home/me/book".to_string());
    for f in files {
        add_file(&mut p, f);
    }
    p
}

#[test]
fn adding_a_listed_file_changes_nothing() {
    let mut p = project(&["a.md"]);
    assert!(add_file(&mut p, "b.md"));
    assert!(!add_file(&mut p, "a.md"));
    assert_eq!(p.file_order, vec!["a.md".to_string(), "b.md".to_string()]);
}

#[test]
fn removing_drops_every_entry_of_the_file() {
    let mut p = project(&["a.md", "b.md"]);
    p.file_order.push("a.md".to_string());
    remove_file(&mut p, "a.md");
    assert_eq!(p.file_order, vec!["b.md".to_string()]);
    remove_file(&mut p, "zzz");
    assert_eq!(p.file_order, vec!["b.md".to_string()]);
}

#[test]
fn moving_up_and_down_swaps_neighbours() {
    let mut p = project(&["a", "b", "c"]);
    assert!(move_file_up(&mut p, 2));
    assert_eq!(p.file_order, vec!["a".to_string(), "c".to_string(), "b".to_string()]);
    assert!(move_file_down(&mut p, 1));
    assert_eq!(p.file_order, vec!["a".to_string(), "b".to_string(), "c".to_string()]);
    assert!(!move_file_up(&mut p, 0));
    assert!(!move_file_down(&mut p, 2));
    assert!(!move_file_up(&mut p, 7));
}

#[test]
fn project_files_carry_the_directory() {
    let p = project(&["ch1.md", "notes/ch2.md"]);
    let files = get_project_files(&p);
    assert_eq!(files.len(), 2);
    assert_eq!(files[1].absolute_path(), "/home/me/book/notes/ch2.md");
    assert_eq!(files[1].file_name(), "ch2.md");
    assert_eq!(p.name(), "book");
    assert_eq!(p.project_json_path(), "/home/me/book/project.json");
}

#[test]
fn version_paths_live_under_dot_vibe() {
    assert_eq!(vibe_dir("/p"), "/p/.vibe");
    assert_eq!(file_vibe_dir("/p", "ch.md"), "/p/.vibe/ch.md");
    assert_eq!(snapshots_dir("/p/", "ch.md"), "/p/.vibe/ch.md/snapshots");
    assert_eq!(history_path("/p", "ch.md"), "/p/.vibe/ch.md/history.json");
    assert_eq!(snapshot_path("/p", "ch.md", "20250220-143025-a1b2"), "/p/.vibe/ch.md/snapshots/20250220-143025-a1b2.md");
}

#[test]
fn commit_ids_end_in_four_hex_digits() {
    assert_eq!(format_commit_id("20250220-143025", 0xa1b2), "20250220-143025-a1b2");
    assert_eq!(format_commit_id("x", 7), "x-0007");
    let id = generate_commit_id();
    let (stamp, hex) = id.split_at(id.len() - 5);
    assert_eq!(stamp.len(), 15);
    assert!(hex.starts_with('-'));
    assert!(hex[1..].chars().all(|c| c.is_ascii_hexdigit() && !c.is_ascii_uppercase()));
}

#[test]
fn recording_a_commit_appends_it() {
    let mut h = VersionHistory::new();
    record_commit(&mut h, "id1".to_string(), "2025-01-01T00:00:00+00:00".to_string(), "first", "héllo");
    record_commit(&mut h, "id2".to_string(), "t2".to_string(), "second", "");
    assert_eq!(h.version, 1);
    assert_eq!(h.commits.len(), 2);
    assert_eq!(h.commits[0].id, "id1");
    assert_eq!(h.commits[0].file_size_bytes, 6);
    assert_eq!(h.commits[1].message, "second");
}

#[test]
fn document_and_tab_names() {
    assert_eq!(Document::new().file_name(), "Untitled");
    assert_eq!(Document::from_path("/a/b/c.md").file_name(), "c.md");
    let mut tab = EditorTab::new(ProjectFile::new("x/y.md", "/p"), "text".to_string());
    assert_eq!(tab.display_name(), "y.md");
    tab.is_dirty = true;
    assert_eq!(tab.display_name(), "y.md*");
}

#[test]
fn a_new_commit_gets_a_fresh_id_and_the_time() {
    let mut h = VersionHistory::new();
    let id = new_commit(&mut h, "draft", "abc");
    assert_eq!(h.commits.len(), 1);
    assert_eq!(h.commits[0].id, id);
    assert_eq!(h.commits[0].message, "draft");
    assert_eq!(h.commits[0].file_size_bytes, 3);
    assert_eq!(id.len(), 20);
    assert!(h.commits[0].timestamp.contains('T'));
    assert!(h.commits[0].timestamp.ends_with("+00:00"));
    assert_eq!(&id[8..9], "-");
    assert!(id[..8].chars().all(|c| c.is_ascii_digit()));
}

#[test]
fn tabs_move_with_their_files() {
    let mut project = Project::new("/p".to_string());
    for f in ["a.md", "b.md", "c.md"] {
        add_file(&mut project, f);
    }
    let mut tabs: Vec<EditorTab> = ["a.md", "b.md", "c.md"]
        .iter()
        .map(|f| EditorTab::new(ProjectFile::new(f, "/p"), String::new()))
        .collect();
    move_file_up(&mut project, 2);
    move_tab_up(&mut tabs, 2);
    let paths: Vec<String> = tabs.iter().map(|t| t.project_file.relative_path.clone()).collect();
    assert_eq!(paths, project.file_order);
    move_file_down(&mut project, 0);
    move_tab_down(&mut tabs, 0);
    let paths: Vec<String> = tabs.iter().map(|t| t.project_file.relative_path.clone()).collect();
    assert_eq!(paths, project.file_order);
    assert_eq!(paths, vec!["c.md", "a.md", "b.md"]);
    move_tab_up(&mut tabs, 0);
    move_tab_down(&mut tabs, 2);
    assert_eq!(tabs.len(), 3);
}
