use symiosis::errors::AppError;
use symiosis::backups::{backups_to_prune, generate_backup_filename, BackupType, MAX_BACKUPS};
use symiosis::config::{get_config_notes_dir, load_config_from_content, reload_result, ConfigReloadResult};
use symiosis::filemap::FileMap;
use symiosis::store::{update_note_in_database, FileAction, NoteStore};
use symiosis::index::NotesIndex;
use symiosis::sync::{quick_filesystem_sync_check, verify_sync_consistency, DiskNote};
use symiosis::watcher::{involves_notes, is_note_file, Debouncer};

const T0: u64 = 1_700_000_000;

fn disk(name: &str, content: &str, modified: i64) -> DiskNote {
    DiskNote { filename: name.to_string(), content: content.to_string(), modified, modified_nanos: 0 }
}

#[test]
fn test_get_config_notes_dir_returns_configured_path() {
    let text = "notes_directory = \"/tmp/symiosis-test-notes\"\n";
    let notes_dir = get_config_notes_dir(Some(text));
    let config = load_config_from_content(text);
    assert_eq!(notes_dir, config.notes_directory, "get_config_notes_dir should return configured path");
    assert_eq!(notes_dir, "/tmp/symiosis-test-notes");
}

#[test]
fn created_note_reads_back_empty() {
    let mut store = NoteStore::new("/n");
    store.create_new_note_at("a.md", T0).unwrap();
    assert_eq!(store.get_note_content("a.md").unwrap(), "");
    assert_eq!(store.files.get("a.md").map(|s| s.as_str()), Some(""));
}

#[test]
fn save_with_stale_original_is_refused_and_backed_up() {
    let mut store = NoteStore::new("/n");
    store.create_new_note_at("a.md", T0).unwrap();
    store.save_note_with_content_check_at("a.md", "one", "", T0 + 1).unwrap();
    store.take_actions();
    let err = store.save_note_with_content_check_at("a.md", "two", "stale", T0 + 2).unwrap_err();
    assert_eq!(
        err,
        "Invalid path: Cannot save 'a.md': file has been modified since editing began. This safety check prevents accidental data loss."
    );
    assert_eq!(store.get_note_content("a.md").unwrap(), "one");
    assert_eq!(store.files.get("a.md").map(|s| s.as_str()), Some("one"));
    let name = format!("a.save_failure.{}.md", T0 + 2);
    assert_eq!(store.backups.get(&name).map(|s| s.as_str()), Some("two"));
    let actions = store.take_actions();
    assert_eq!(actions.len(), 1);
    assert!(matches!(&actions[0], FileAction::WriteBackup(p, c) if *p == name && c == "two"));
}

#[test]
fn save_keeps_a_rollback_backup_beside_the_note() {
    let mut store = NoteStore::new("/n");
    store.create_new_note_at("dir/a.md", T0).unwrap();
    store.save_note_with_content_check_at("dir/a.md", "one", "", T0 + 1).unwrap();
    store.save_note_with_content_check_at("dir/a.md", "two", "one", T0 + 2).unwrap();
    let name = format!("dir/a.rollback.{}.md", T0 + 2);
    assert_eq!(store.backups.get(&name).map(|s| s.as_str()), Some("one"));
    assert_eq!(store.get_note_content("dir/a.md").unwrap(), "two");
}

#[test]
fn delete_keeps_a_backup_of_the_content() {
    let mut store = NoteStore::new("/n");
    store.create_new_note_at("gone.md", T0).unwrap();
    store.save_note_with_content_check_at("gone.md", "keep me", "", T0 + 1).unwrap();
    store.delete_note_at("gone.md", T0 + 5).unwrap();
    let name = format!("gone.delete_backup.{}.md", T0 + 5);
    assert_eq!(store.backups.get(&name).map(|s| s.as_str()), Some("keep me"));
    assert!(!store.files.contains("gone.md"));
}

#[test]
fn rename_moves_content_and_drops_its_backup() {
    let mut store = NoteStore::new("/n");
    store.create_new_note_at("old.md", T0).unwrap();
    store.save_note_with_content_check_at("old.md", "text", "", T0 + 1).unwrap();
    store.take_actions();
    store.rename_note_at("old.md".to_string(), "sub/new.md".to_string(), T0 + 2).unwrap();
    assert_eq!(store.files.get("sub/new.md").map(|s| s.as_str()), Some("text"));
    assert!(!store.files.contains("old.md"));
    assert_eq!(store.get_note_content("sub/new.md").unwrap(), "text");
    assert!(store.get_note_content("old.md").unwrap_err().contains("not found"));
    assert!(!store.backups.contains(&format!("old.rename_backup.{}.md", T0 + 2)));
    assert_eq!(store.backups.len(), 1);
    let actions = store.take_actions();
    assert_eq!(actions.len(), 3);
    assert!(matches!(&actions[1], FileAction::RenameNote(a, b) if a == "old.md" && b == "sub/new.md"));
}

#[test]
fn rename_in_index_only_when_target_is_on_disk() {
    let mut store = NoteStore::new("/n");
    store.load_directory(&vec![disk("b.md", "bee", 10)]);
    store.index.upsert(symiosis::index::NoteRecord {
        filename: "a.md".to_string(),
        content: "ay".to_string(),
        html_render: String::new(),
        modified: 5,
        is_indexed: true,
    });
    store.rename_note_at("a.md".to_string(), "b.md".to_string(), T0).unwrap();
    assert_eq!(store.get_note_content("b.md").unwrap(), "ay");
}

#[test]
fn html_is_rendered_once_and_kept() {
    let mut store = NoteStore::new("/n");
    store.load_directory(&vec![disk("a.md", "# Hi", 10)]);
    store.index.upsert(symiosis::index::NoteRecord {
        filename: "a.md".to_string(),
        content: "# Hi".to_string(),
        html_render: String::new(),
        modified: 10,
        is_indexed: false,
    });
    let html = store.get_note_html_content("a.md").unwrap();
    assert!(html.contains("<h1>Hi</h1>"));
    let rec = store.index.lookup("a.md").unwrap();
    assert!(rec.is_indexed);
    assert_eq!(rec.html_render, html);
}

#[test]
fn backup_names_follow_the_pattern() {
    assert_eq!(generate_backup_filename("note.md", &BackupType::Rollback, 42), "note.rollback.42.md");
    assert_eq!(generate_backup_filename("a.b.md", &BackupType::Delete, 7), "a.b.delete_backup.7.md");
    assert_eq!(generate_backup_filename(".hidden", &BackupType::Rename, 1), ".hidden.rename_backup.1.md");
    assert_eq!(generate_backup_filename("plain", &BackupType::SaveFailure, 0), "plain.save_failure.0.md");
    assert_eq!(BackupType::ExternalChange.suffix(), "external_change");
}

#[test]
fn pruning_keeps_the_newest_twenty() {
    let mut backups = FileMap::new();
    for k in 10..35u64 {
        backups.store(&format!("n.rollback.{}.md", k), "x");
    }
    backups.store("other.rollback.1.md", "y");
    let gone = backups_to_prune(&backups, "n.rollback.34.md");
    assert_eq!(gone.len(), 25 - MAX_BACKUPS);
    assert_eq!(gone[0], "n.rollback.10.md");
    assert_eq!(gone[4], "n.rollback.14.md");
}

#[test]
fn load_directory_renders_and_skips_hidden() {
    let mut store = NoteStore::new("/n");
    let listing = vec![disk("a.md", "# A", 10), disk(".hidden/x.md", "x", 20), disk("b.txt", "b", 30)];
    store.load_directory(&listing);
    assert_eq!(store.list_all_notes().unwrap(), vec!["b.txt".to_string(), "a.md".to_string()]);
    assert!(store.index.lookup(".hidden/x.md").is_none());
    assert!(store.files.contains(".hidden/x.md"));
    assert!(store.index.lookup("a.md").unwrap().is_indexed);
    assert!(quick_filesystem_sync_check(&store.index, &listing));
    let changed = vec![disk("a.md", "# A changed", 10), disk("b.txt", "b", 30)];
    assert!(!quick_filesystem_sync_check(&store.index, &changed));
    let moved = vec![disk("a.md", "# A", 12)];
    assert!(!quick_filesystem_sync_check(&store.index, &moved));
    let close = vec![disk("a.md", "# A", 11)];
    assert!(quick_filesystem_sync_check(&store.index, &close));
}

#[test]
fn external_change_backs_up_the_old_text() {
    let mut store = NoteStore::new("/n");
    store.load_directory(&vec![disk("a.md", "old", 10)]);
    store.apply_external_change_at("a.md", Some(("new".to_string(), 20)), T0);
    assert_eq!(store.get_note_content("a.md").unwrap(), "new");
    let name = format!("a.external_change.{}.md", T0);
    assert_eq!(store.backups.get(&name).map(|s| s.as_str()), Some("old"));
    store.apply_external_change_at("a.md", None, T0 + 1);
    assert!(store.get_note_content("a.md").is_err());
    store.apply_external_change_at(".secret.md", Some(("s".to_string(), 1)), T0);
    assert!(store.index.lookup(".secret.md").is_none());
}

#[test]
fn note_events_are_debounced() {
    assert!(is_note_file("/n/a.md"));
    assert!(is_note_file("/n/a.markdown"));
    assert!(is_note_file("/n/b.txt"));
    assert!(!is_note_file("/n/.md"));
    assert!(!is_note_file("/n/image.png"));
    assert!(involves_notes(&vec!["/n/x.png".to_string(), "/n/y.md".to_string()]));
    assert!(!involves_notes(&vec!["/n/x.png".to_string()]));

    let mut d = Debouncer::new(500);
    assert!(d.should_process_event("/n/a.md", 1000));
    assert!(!d.should_process_event("/n/a.md", 1400));
    assert!(d.should_process_event("/n/a.md", 1500));
    assert!(d.should_process_event("/n/b.md", 1500));
    assert!(d.should_process_any(&vec!["/n/b.md".to_string(), "/n/c.md".to_string()], 1600));
    d.cleanup_old_events(6550);
    assert_eq!(d.pending.len(), 1);
}

#[test]
fn recovery_rebuilds_the_index_from_the_directory() {
    let mut store = NoteStore::new("/n");
    store.create_new_note_at("gone.md", T0).unwrap();
    let failure = AppError::DatabaseQuery("broken".to_string());
    let listing = vec![disk("a.md", "alpha", 5)];
    store.handle_database_recovery(Ok(listing), "save", &failure, "Recovered", "Rebuild failed").unwrap();
    assert_eq!(store.get_note_content("a.md").unwrap(), "alpha");
    assert!(store.get_note_content("gone.md").is_err());
}

#[test]
fn recovery_reports_an_unreadable_directory() {
    let mut store = NoteStore::new("/n");
    store.create_new_note_at("kept.md", T0).unwrap();
    let failure = AppError::DatabaseQuery("broken".to_string());
    let unreadable = AppError::FileRead("no access".to_string());
    let err = store
        .handle_database_recovery(Err(unreadable), "save", &failure, "Recovered", "Rebuild failed")
        .unwrap_err();
    assert_eq!(err, AppError::DatabaseRebuild("Recovered: File read error: no access".to_string()));
    assert_eq!(store.get_note_content("kept.md").unwrap(), "");
}

#[test]
fn repeated_saves_keep_at_most_twenty_rollbacks() {
    let mut store = NoteStore::new("/n");
    store.create_new_note_at("n.md", T0).unwrap();
    let mut previous = String::new();
    for k in 0..30u64 {
        let text = format!("v{}", k);
        store.save_note_with_content_check_at("n.md", &text, &previous, T0 + 1 + k).unwrap();
        previous = text;
    }
    let mut rollbacks = 0;
    for i in 0..store.backups.len() {
        if store.backups.path_at(i).starts_with("n.rollback.") {
            rollbacks += 1;
        }
    }
    assert_eq!(rollbacks, MAX_BACKUPS);
    assert_eq!(store.get_note_content("n.md").unwrap(), "v29");
}

#[test]
fn update_note_in_database_replaces_the_record() {
    let mut index = NotesIndex::new();
    update_note_in_database(&mut index, "a.md", "# One", 5);
    update_note_in_database(&mut index, "a.md", "# Two", 9);
    assert_eq!(index.len(), 1);
    let r = index.lookup("a.md").unwrap();
    assert_eq!(r.content, "# Two");
    assert_eq!(r.modified, 9);
    assert!(r.is_indexed);
    assert!(r.html_render.contains("Two"));
}

#[test]
fn opening_needs_a_valid_existing_note() {
    let mut store = NoteStore::new("/n");
    store.create_new_note_at("dir/a.md", T0).unwrap();
    assert_eq!(store.open_note_in_editor("dir/a.md").unwrap(), "/n/dir/a.md");
    assert_eq!(store.open_note_in_editor("b.md").unwrap_err(), "File not found: Note not found: b.md");
    assert!(store.open_note_in_editor("../x.md").is_err());
}

#[test]
fn test_sync_consistency_verification_function() {
    let mut index = NotesIndex::new();
    update_note_in_database(&mut index, "sync_test.md", "# Sync Test Content", 1000);

    let mut filesystem_files = vec![disk("sync_test.md", "# Sync Test Content", 1000)];
    let inconsistencies = verify_sync_consistency(&index, &filesystem_files);
    assert!(
        inconsistencies.is_empty(),
        "Production sync verification should find no inconsistencies: {:?}",
        inconsistencies
    );

    filesystem_files.push(disk("missing.md", "Missing content", 2000));
    let inconsistencies_with_missing = verify_sync_consistency(&index, &filesystem_files);
    assert!(!inconsistencies_with_missing.is_empty(), "Production sync verification should detect missing files");
    assert!(
        inconsistencies_with_missing.iter().any(|i| i.contains("missing.md")),
        "Production sync verification should mention missing file: {:?}",
        inconsistencies_with_missing
    );

    filesystem_files[0] = disk("sync_test.md", "# Different Content", 1000);
    let content_inconsistencies = verify_sync_consistency(&index, &filesystem_files);
    assert!(
        content_inconsistencies.iter().any(|i| i.contains("Content mismatch")),
        "Production sync verification should detect content mismatch: {:?}",
        content_inconsistencies
    );
}

#[test]
fn sync_report_lists_each_difference_in_order() {
    let mut index = NotesIndex::new();
    update_note_in_database(&mut index, "gone.md", "x", 1);
    update_note_in_database(&mut index, "both.md", "old", -5);
    let files = vec![disk("new.md", "n", 3), disk("both.md", "new", 7)];
    let report = verify_sync_consistency(&index, &files);
    assert_eq!(
        report,
        vec![
            "File in database but not filesystem: gone.md".to_string(),
            "File in filesystem but not database: new.md".to_string(),
            "Content mismatch for file: both.md".to_string(),
            "Timestamp mismatch for file both.md: filesystem=7, database=-5".to_string(),
        ]
    );
}

#[test]
fn rebuilt_index_reports_no_differences() {
    let mut store = NoteStore::new("/n");
    let listing = vec![disk("a.md", "# A", 10), disk("sub/b.md", "b", 20), disk("c.txt", "c", 30)];
    store.recreate_database(&listing);
    assert!(verify_sync_consistency(&store.index, &listing).is_empty());
}

#[test]
fn versioned_backup_copies_the_note_or_the_given_text() {
    let mut store = NoteStore::new("/n");
    store.create_new_note_at("dir/a.md", T0).unwrap();
    store.save_note_with_content_check_at("dir/a.md", "one", "", T0 + 1).unwrap();
    let loc = store.create_versioned_backup_at("dir/a.md", BackupType::Delete, None, T0 + 5).unwrap();
    assert_eq!(loc, format!("a.delete_backup.{}.md", T0 + 5));
    assert_eq!(store.backups.get(&loc).map(|s| s.as_str()), Some("one"));
    let loc2 = store.create_versioned_backup_at("dir/a.md", BackupType::Rollback, Some("given"), T0 + 6).unwrap();
    assert_eq!(loc2, format!("dir/a.rollback.{}.md", T0 + 6));
    assert_eq!(store.backups.get(&loc2).map(|s| s.as_str()), Some("given"));
    assert_eq!(
        store.create_versioned_backup_at("none.md", BackupType::Delete, None, T0).unwrap_err(),
        "File not found: Cannot create backup: source file '/n/none.md' does not exist"
    );
}

#[test]
fn deleting_twice_is_deleting_once() {
    let mut store = NoteStore::new("/n");
    store.create_new_note_at("a.md", T0).unwrap();
    store.create_new_note_at("b.md", T0).unwrap();
    store.delete_note_at("a.md", T0 + 1).unwrap();
    let files_after_one = store.files.len();
    let index_after_one = store.index.len();
    store.delete_note_at("a.md", T0 + 2).unwrap();
    assert_eq!(store.files.len(), files_after_one);
    assert_eq!(store.index.len(), index_after_one);
    assert!(store.files.contains("b.md"));
    assert!(store.get_note_content("a.md").is_err());
}

#[test]
fn reload_compares_notes_directories_as_paths() {
    let a = load_config_from_content("notes_directory = \"/tmp/sym/notes\"\n");
    let b = load_config_from_content("notes_directory = \"/tmp/sym/notes/\"\n");
    let c = load_config_from_content("notes_directory = \"/tmp/sym/other\"\n");
    assert_eq!(reload_result(&a, &b), ConfigReloadResult::Unchanged);
    assert_eq!(reload_result(&a, &c), ConfigReloadResult::NotesDirChanged);
}

#[test]
fn custom_theme_paths_and_all_shortcuts_are_read() {
    let c = load_config_from_content(
        "[interface]\ncustom_ui_theme_path = \"/Users/username/my-theme.css\"\ncustom_markdown_theme_path = \"/m.css\"\n[shortcuts]\nnavigate_code_next = \"Ctrl+Alt+j\"\ncopy_current_section = \"Ctrl+c\"\nnavigate_link_previous = \"++bad++\"\n",
    );
    assert_eq!(c.interface.custom_ui_theme_path.as_deref(), Some("/Users/username/my-theme.css"));
    assert_eq!(c.interface.custom_markdown_theme_path.as_deref(), Some("/m.css"));
    assert_eq!(c.shortcuts.navigate_code_next, "Ctrl+Alt+j");
    assert_eq!(c.shortcuts.copy_current_section, "Ctrl+c");
    assert_eq!(c.shortcuts.navigate_link_previous, "Ctrl+h");
    assert_eq!(c.shortcuts.navigate_code_previous, "Ctrl+Alt+h");
}

#[test]
fn quick_check_reads_the_newest_files_to_the_nanosecond() {
    let mut store = NoteStore::new("/n");
    let mut listing: Vec<DiskNote> = (0..100).map(|i| disk(&format!("n{}.md", i), "same", 50)).collect();
    listing.push(disk("late.md", "late", 50));
    store.load_directory(&listing);
    assert!(quick_filesystem_sync_check(&store.index, &listing));
    // The last file changed a fraction of a second after the others: it is among the
    // hundred newest, and its new text is seen.
    listing[100] = DiskNote { modified_nanos: 5, ..disk("late.md", "changed", 50) };
    assert!(!quick_filesystem_sync_check(&store.index, &listing));
    // Without that fraction it falls outside the hundred that are read.
    listing[100] = disk("late.md", "changed", 50);
    assert!(quick_filesystem_sync_check(&store.index, &listing));
}

#[test]
fn safe_write_touches_the_file_and_not_the_index() {
    let mut store = NoteStore::new("/n");
    store.safe_write_note("fresh.md", "text").expect("Should write");
    assert_eq!(store.files.get("fresh.md").cloned(), Some("text".to_string()));
    assert!(store.index.lookup("fresh.md").is_none());
    store.safe_write_note("fresh.md", "newer").expect("Should write again");
    assert_eq!(store.files.get("fresh.md").cloned(), Some("newer".to_string()));
    assert!(store.backups.len() > 0, "The old text is kept in a rollback backup");
}
