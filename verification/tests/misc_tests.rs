use symiosis::errors::{AppError, IoFailure};
use symiosis::store::NoteStore;
use symiosis::strings::{extract_title_from_content, extract_title_from_filename, format_elapsed, format_timestamp_for_humans, get_timestamp};
use symiosis::validation::validate_font_size;
use symiosis::versions::{backup_name_parts, parse_backup_filename, parse_deleted_backup_filename};
use symiosis::themes::{available_themes, check_custom_theme_file, load_custom_theme_file, validate_theme_path};
use symiosis::validation::validate_config_content;
use symiosis::sync::DiskNote;
use symiosis::window::{global_shortcut_action, tray_click_action, WindowAction, WindowState};

const T0: u64 = 1_700_000_000;

#[test]
fn error_messages_name_their_kind() {
    assert_eq!(AppError::validation_error("font", "too big").message(), "Invalid note name: font: too big");
    assert_eq!(
        AppError::database_recovery_failed("save", "locked", "disk full").message(),
        "Database rebuild error: Operation 'save' failed (locked), and database rebuild also failed: disk full"
    );
    assert_eq!(AppError::PathTraversal.message(), "Path traversal not allowed");
    assert_eq!(AppError::SearchQuery("x".to_string()).message(), "Search query error: x");
}

#[test]
fn titles_come_from_names_and_first_lines() {
    assert_eq!(extract_title_from_filename("my_note-file.md"), "my note file");
    assert_eq!(extract_title_from_filename("notes.txt.md"), "notes");
    assert_eq!(extract_title_from_filename("a.md.md"), "a");
    assert_eq!(extract_title_from_content("\n  \n## Title  \nbody"), Some("Title".to_string()));
    assert_eq!(extract_title_from_content("###\nbody"), None);
    assert_eq!(extract_title_from_content(""), None);
}

#[test]
fn ages_are_rounded_down_to_their_unit() {
    assert_eq!(format_elapsed(1000, 1000), "Just now");
    assert_eq!(format_elapsed(100, 200), "Just now");
    assert_eq!(format_elapsed(4000, 400), "1h ago");
    assert_eq!(format_elapsed(1000, 1000 - 150), "2m ago");
    assert_eq!(format_elapsed(3 * 86400, 0), "3d ago");
    assert_eq!(format_elapsed(2592000, 0), "4w ago");
}

#[test]
fn font_sizes_are_bounded() {
    assert!(validate_font_size(14, "Font size").is_ok());
    assert_eq!(
        validate_font_size(7, "Font size").unwrap_err().message(),
        "Configuration load error: Font size must be between 8 and 72 pixels"
    );
    assert!(validate_font_size(73, "Font size").is_err());
}

#[test]
fn backup_names_are_read_back() {
    assert_eq!(
        backup_name_parts("a.rollback.42.md"),
        Some(("a".to_string(), "rollback".to_string(), 42))
    );
    assert_eq!(backup_name_parts("a.b.rollback.42.md"), None);
    assert_eq!(backup_name_parts("a.rollback.+42.md"), Some(("a".to_string(), "rollback".to_string(), 42)));
    assert_eq!(backup_name_parts("a.rollback.+.md"), None);
    assert_eq!(backup_name_parts("a.rollback.42.md.md"), None);
    assert_eq!(parse_backup_filename("note.delete_backup.7.md", "note"), Some(("delete_backup".to_string(), 7)));
    assert_eq!(parse_backup_filename("note.delete_backup.7.md", "other"), None);
    assert_eq!(parse_backup_filename("note.delete_backup.x7.md", "note"), None);
    assert_eq!(parse_backup_filename("note.7.md", "note"), None);
    assert_eq!(parse_deleted_backup_filename("gone.delete_backup.9.md"), Some(("gone.md".to_string(), 9)));
    assert_eq!(parse_deleted_backup_filename("gone.rollback.9.md"), None);
    assert_eq!(backup_name_parts("n.rollback.99999999999999999999.md"), None);
}

#[test]
fn versions_are_listed_newest_first_and_recovered() {
    let mut store = NoteStore::new("/n");
    store.create_new_note_at("a.md", T0).unwrap();
    store.save_note_with_content_check_at("a.md", "one", "", T0 + 1).unwrap();
    store.save_note_with_content_check_at("a.md", "two", "one", T0 + 2).unwrap();
    let versions = store.get_note_versions_at("a.md", T0 + 100).unwrap();
    assert_eq!(versions.len(), 2);
    assert_eq!(versions[0].timestamp, T0 + 2);
    assert_eq!(versions[0].backup_type, "rollback");
    assert_eq!(versions[0].size, 3);
    assert_eq!(versions[0].formatted_time, "1m ago");
    assert_eq!(versions[1].timestamp, T0 + 1);
    assert_eq!(versions[1].size, 0);
    assert_eq!(store.get_version_content(&versions[0].filename).unwrap(), "one");
    assert!(store.get_version_content("missing.md").unwrap_err().contains("Version file not found"));

    store.recover_note_version_at("a.md", &versions[0].filename.clone(), T0 + 3).unwrap();
    assert_eq!(store.get_note_content("a.md").unwrap(), "one");
}

#[test]
fn deleted_notes_are_listed_and_recovered() {
    let mut store = NoteStore::new("/n");
    store.create_new_note_at("a.md", T0).unwrap();
    store.save_note_with_content_check_at("a.md", "alpha", "", T0 + 1).unwrap();
    store.create_new_note_at("b.md", T0).unwrap();
    store.delete_note_at("a.md", T0 + 5).unwrap();
    store.delete_note_at("b.md", T0 + 9).unwrap();
    let deleted = store.get_deleted_files_at(T0 + 10);
    assert_eq!(deleted.len(), 2);
    assert_eq!(deleted[0].filename, "b.md");
    assert_eq!(deleted[1].filename, "a.md");
    assert_eq!(deleted[1].deleted_at, "Just now");

    let backup = deleted[1].backup_filename.clone();
    store.create_new_note_at("a.md", T0 + 11).unwrap();
    assert!(store.recover_deleted_file_at("a.md", &backup, T0 + 12).unwrap_err().contains("already exists"));
    store.delete_note_at("a.md", T0 + 13).unwrap();
    store.recover_deleted_file_at("a.md", &backup, T0 + 14).unwrap();
    assert_eq!(store.get_note_content("a.md").unwrap(), "alpha");
    assert!(!store.backups.contains(&backup));
    assert!(store.recover_deleted_file_at("a.md", &backup, T0 + 15).unwrap_err().contains("not found"));
}

#[test]
fn themes_come_from_stylesheets_or_fall_back() {
    let (ui, md) = available_themes(
        &vec!["ui-zeta.css".to_string(), "ui-alpha.css".to_string(), "readme.txt".to_string()],
        &vec![],
        &vec![],
        &vec!["paper.css".to_string(), "ink.css".to_string(), "notes.md".to_string()],
    );
    assert_eq!(ui, vec!["alpha".to_string(), "zeta".to_string()]);
    assert_eq!(md, vec!["ink".to_string(), "paper".to_string()]);
    let (ui, md) = available_themes(&vec![], &vec![], &vec!["x.txt".to_string()], &vec![]);
    assert_eq!(ui, vec!["gruvbox-dark".to_string(), "one-dark".to_string()]);
    assert_eq!(md.len(), 8);
    assert_eq!(md[0], "article");
}

#[test]
fn theme_paths_must_be_css_files() {
    assert_eq!(validate_theme_path("/t/a.css", false, false).unwrap(), false);
    assert_eq!(validate_theme_path("/t/a.css", true, true).unwrap(), true);
    assert_eq!(
        validate_theme_path("/t/a.txt", true, true).unwrap_err().message(),
        "Invalid path: File must have .css extension"
    );
    assert!(validate_theme_path("/t/dir", true, false).is_err());
    assert!(check_custom_theme_file("/t/a.css", true, true).is_ok());
    assert_eq!(check_custom_theme_file("/t/a.css", false, false).unwrap_err().message(), "File not found: /t/a.css");
    assert_eq!(
        check_custom_theme_file("/t/dir", true, false).unwrap_err().message(),
        "Invalid path: Path is not a file: /t/dir"
    );
    assert!(check_custom_theme_file("/t/.css", true, true).is_err());
    assert_eq!(
        check_custom_theme_file("themes/a.css", true, true).unwrap_err().message(),
        "Invalid path: Theme file path must be absolute: themes/a.css"
    );
}

#[test]
fn config_text_is_checked_before_saving() {
    assert!(validate_config_content("notes_directory = \"/tmp/symiosis-notes\"\n").is_ok());
    assert_eq!(
        validate_config_content("not toml at all = = =").unwrap_err(),
        "Invalid configuration: the text is not valid TOML"
    );
    assert_eq!(
        validate_config_content("[editor]\ntab_size = -1\n").unwrap_err(),
        "Invalid configuration: a setting does not have its type"
    );
    assert!(validate_config_content("[general]\nscroll_amount = 0.5\n[shortcuts]\ncopy_current_section = \"Ctrl+c\"\n").is_ok());
    assert!(validate_config_content("interface = 3\n").is_err());
}

#[test]
fn index_is_rebuilt_when_out_of_step() {
    let mut store = NoteStore::new("/n");
    let listing = vec![DiskNote { filename: "a.md".to_string(), content: "one".to_string(), modified: 10, modified_nanos: 0 }];
    assert!(store.sync_with_directory(&listing));
    assert_eq!(store.get_note_content("a.md").unwrap(), "one");
    assert!(!store.sync_with_directory(&listing));
    let changed = vec![DiskNote { filename: "a.md".to_string(), content: "two".to_string(), modified: 30, modified_nanos: 0 }];
    assert!(store.sync_with_directory(&changed));
    assert_eq!(store.get_note_content("a.md").unwrap(), "two");
}

#[test]
fn messages_are_sorted_into_error_kinds() {
    assert_eq!(AppError::from("Permission denied".to_string()), AppError::FilePermission("Permission denied".to_string()));
    assert_eq!(AppError::from("no permission here".to_string()), AppError::FilePermission("no permission here".to_string()));
    assert_eq!(AppError::from("file not found".to_string()), AppError::FileNotFound("file not found".to_string()));
    assert_eq!(AppError::from("No such file or directory".to_string()), AppError::FileNotFound("No such file or directory".to_string()));
    assert_eq!(AppError::from("backup failed".to_string()), AppError::FileWrite("backup failed".to_string()));
    assert_eq!(AppError::from("disk full".to_string()), AppError::FileWrite("disk full".to_string()));
}

#[test]
fn io_failures_map_to_file_errors() {
    assert_eq!(AppError::from_io_failure(IoFailure::NotFound, "x".to_string()), AppError::FileNotFound("x".to_string()));
    assert_eq!(AppError::from_io_failure(IoFailure::PermissionDenied, "y".to_string()), AppError::FilePermission("y".to_string()));
    assert_eq!(AppError::from_io_failure(IoFailure::Other, "z".to_string()).message(), "File write error: z");
}

#[test]
fn clock_texts_have_their_shapes() {
    let stamp = get_timestamp();
    assert!(stamp.starts_with("SystemTime"), "{}", stamp);
    assert!(stamp.contains("tv_nsec: 0"), "{}", stamp);
    assert_eq!(format_timestamp_for_humans(u64::MAX), "Just now");
    assert!(format_timestamp_for_humans(0).ends_with("w ago"));
}

#[test]
fn commands_stamped_with_the_clock_read_as_just_now() {
    let mut store = NoteStore::new("/n");
    store.create_new_note("a.md").unwrap();
    store.save_note_with_content_check("a.md", "one", "").unwrap();
    store.save_note_with_content_check("a.md", "two", "one").unwrap();
    let versions = store.get_note_versions("a.md").unwrap();
    assert!(!versions.is_empty());
    assert_eq!(versions[0].formatted_time, "Just now");
    store.recover_note_version("a.md", &versions[0].filename.clone()).unwrap();
    store.delete_note("a.md").unwrap();
    let deleted = store.get_deleted_files();
    assert_eq!(deleted.len(), 1);
    assert_eq!(deleted[0].deleted_at, "Just now");
    store.recover_deleted_file("a.md", &deleted[0].backup_filename.clone()).unwrap();
    assert!(store.files.contains("a.md"));
}

fn window(exists: bool, visible: bool, focused: bool) -> WindowState {
    WindowState { exists, visible, focused }
}

#[test]
fn global_shortcut_hides_focuses_or_shows_the_window() {
    assert_eq!(global_shortcut_action(window(true, true, true)), WindowAction::Hide);
    assert_eq!(global_shortcut_action(window(true, true, false)), WindowAction::Focus);
    assert_eq!(global_shortcut_action(window(true, false, false)), WindowAction::ShowAndFocus);
    assert_eq!(global_shortcut_action(window(false, false, false)), WindowAction::Open);
}

#[test]
fn tray_click_toggles_visibility() {
    assert_eq!(tray_click_action(window(true, true, false)), WindowAction::Hide);
    assert_eq!(tray_click_action(window(true, false, false)), WindowAction::ShowAndFocus);
    assert_eq!(tray_click_action(window(false, false, false)), WindowAction::Open);
}

#[test]
fn pressing_the_shortcut_twice_restores_a_window_in_front() {
    let first = global_shortcut_action(window(true, true, true));
    assert_eq!(first, WindowAction::Hide);
    let second = global_shortcut_action(window(true, false, false));
    assert_eq!(second, WindowAction::ShowAndFocus);
}

#[test]
fn custom_theme_is_read_only_after_its_path_passes() {
    let css = "body { color: red; }".to_string();
    assert_eq!(
        load_custom_theme_file("/themes/mine.css", true, true, Ok(css.clone())),
        Ok(css.clone())
    );
    assert_eq!(
        load_custom_theme_file("themes/mine.css", true, true, Ok(css.clone())),
        Err(AppError::InvalidPath("Theme file path must be absolute: themes/mine.css".to_string()))
    );
    assert_eq!(
        load_custom_theme_file("/themes/mine.txt", true, true, Ok(css.clone())),
        Err(AppError::InvalidPath("Theme file must have .css extension".to_string()))
    );
    assert_eq!(
        load_custom_theme_file("/themes/gone.css", false, false, Err("missing".to_string())),
        Err(AppError::FileNotFound("/themes/gone.css".to_string()))
    );
    assert_eq!(
        load_custom_theme_file("/themes/mine.css", true, true, Err("denied".to_string())),
        Err(AppError::FileRead("Failed to read theme file: denied".to_string()))
    );
}
