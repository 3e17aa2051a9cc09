use velotype::recent::{
    has_velotype_temp_fixture_name, history_file_content, is_recordable_recent_file_path,
    normalize_recent_files, normalize_windows_path_text, read_recent_files, record_recent_file,
    remove_recent_file, same_recent_path, PathPlatform, RecentFileError, RECENT_FILES_LIMIT,
};

fn unix() -> PathPlatform {
    PathPlatform { temp_dir: "/tmp".to_string(), windows: false }
}

fn windows() -> PathPlatform {
    PathPlatform { temp_dir: "C:\\Temp".to_string(), windows: true }
}

fn strings(items: &[&str]) -> Vec<String> {
    items.iter().map(|s| s.to_string()).collect()
}

#[test]
fn missing_recent_history_file_returns_empty_list() {
    assert!(read_recent_files("", &unix()).is_empty());
}

#[test]
fn empty_recent_history_write_does_not_create_file() {
    assert_eq!(history_file_content(&[], &unix()), None);
}

#[test]
fn blank_recent_file_path_is_rejected() {
    assert_eq!(
        record_recent_file(&[], "   ", &unix()).err(),
        Some(RecentFileError::EmptyPath)
    );
}

#[test]
fn recent_history_filters_empty_lines_and_deduplicates() {
    let paths = read_recent_files("  \nC:\\one.md\n\nC:\\two.md\nC:\\one.md\n", &unix());
    assert_eq!(paths, strings(&["C:\\one.md", "C:\\two.md"]));
}

#[test]
fn recent_history_filters_legacy_velotype_temp_fixture_paths() {
    let text = "/tmp/velotype-drop-save-replace-42-123.md\nC:\\notes\\real.md\n";
    assert_eq!(read_recent_files(text, &unix()), strings(&["C:\\notes\\real.md"]));
}

#[test]
fn recording_velotype_temp_fixture_path_is_noop() {
    let outcome =
        record_recent_file(&[], "/tmp/velotype-drop-dirty-discard-42-123.md", &unix()).unwrap();
    assert!(outcome.paths.is_empty());
    assert!(!outcome.persist);
}

#[test]
fn ordinary_temp_markdown_file_can_still_be_recorded() {
    let outcome = record_recent_file(&[], "/tmp/manual-note-42.md", &unix()).unwrap();
    assert_eq!(outcome.paths, strings(&["/tmp/manual-note-42.md"]));
    assert!(outcome.persist);
    assert_eq!(
        history_file_content(&outcome.paths, &unix()),
        Some("/tmp/manual-note-42.md\n".to_string())
    );
}

#[test]
fn recording_recent_file_moves_it_to_front_and_truncates() {
    let mut history: Vec<String> = Vec::new();
    for index in 0..(RECENT_FILES_LIMIT + 2) {
        history = record_recent_file(&history, &format!("file-{index}.md"), &unix())
            .unwrap()
            .paths;
    }
    history = record_recent_file(&history, "file-3.md", &unix()).unwrap().paths;
    let text = history_file_content(&history, &unix()).unwrap();
    let paths = read_recent_files(&text, &unix());
    assert_eq!(paths.len(), RECENT_FILES_LIMIT);
    assert_eq!(paths[0], "file-3.md");
    assert_eq!(paths.iter().filter(|p| p.as_str() == "file-3.md").count(), 1);
}

#[test]
fn removing_recent_file_persists_history_without_it() {
    let mut history = record_recent_file(&[], "one.md", &unix()).unwrap().paths;
    history = record_recent_file(&history, "two.md", &unix()).unwrap().paths;
    let paths = remove_recent_file(&history, "one.md", false);
    assert_eq!(paths, strings(&["two.md"]));
    let text = history_file_content(&paths, &unix()).unwrap();
    assert_eq!(read_recent_files(&text, &unix()), strings(&["two.md"]));
}

#[test]
fn removing_last_recent_file_deletes_history_file() {
    let history = record_recent_file(&[], "only.md", &unix()).unwrap().paths;
    let paths = remove_recent_file(&history, "only.md", false);
    assert!(paths.is_empty());
    assert_eq!(history_file_content(&paths, &unix()), None);
}

#[test]
fn windows_paths_compare_case_insensitively() {
    assert!(same_recent_path("C:\\Notes\\A.md", "c:\\notes\\a.md", true));
    assert!(!same_recent_path("C:\\Notes\\A.md", "C:/Notes/A.md", true));
    assert!(!same_recent_path("/notes/A.md", "/notes/a.md", false));
    assert!(same_recent_path("/notes//a.md", "/notes/a.md", false));
}

#[test]
fn windows_path_text_uses_backslashes() {
    assert_eq!(normalize_windows_path_text("C:/Notes/a.md//"), "c:\\notes\\a.md");
}

#[test]
fn temp_fixture_names_are_recognized() {
    assert!(has_velotype_temp_fixture_name("/tmp/velotype-drop-x-1.md", false));
    assert!(!has_velotype_temp_fixture_name("/tmp/notes.md", false));
    assert!(is_recordable_recent_file_path("C:\\Users\\a\\n.md", &windows()));
    assert!(!is_recordable_recent_file_path(
        "C:\\Temp\\velotype-drop-save-1.md",
        &windows()
    ));
}

#[test]
fn normalizing_twice_changes_nothing() {
    let once = normalize_recent_files(&strings(&[" a.md ", "", "a.md", "b.md"]), &unix());
    assert_eq!(once, strings(&["a.md", "b.md"]));
    assert_eq!(normalize_recent_files(&once, &unix()), once);
}
