use symiosis::store::{FileAction, NoteStore};

const T0: u64 = 1_700_000_000;

fn new_store() -> NoteStore {
    NoteStore::new("/home/user/Documents/Notes")
}

#[test]
fn test_create_new_note_with_subdirectories() {
    let mut store = new_store();

    let result = store.create_new_note("subfolder/nested_note.md");
    assert!(result.is_ok(), "Should create note in subdirectory");

    assert!(store.files.contains("subfolder/nested_note.md"), "Note should exist in subdirectory");
    let actions = store.take_actions();
    assert!(matches!(&actions[0], FileAction::WriteNote(p, c) if p == "subfolder/nested_note.md" && c.is_empty()));
}

#[test]
fn test_create_new_note_deep_nesting() {
    let mut store = new_store();

    let result = store.create_new_note("level1/level2/level3/deep_note.md");
    assert!(result.is_ok(), "Should create note in deeply nested directory");

    assert!(store.files.contains("level1/level2/level3/deep_note.md"), "Deeply nested note should exist");
}

#[test]
fn test_create_new_note_duplicate_fails() {
    let mut store = new_store();

    let result1 = store.create_new_note("duplicate.md");
    assert!(result1.is_ok(), "First creation should succeed");

    let result2 = store.create_new_note("duplicate.md");
    assert!(result2.is_err(), "Duplicate creation should fail");
    assert!(result2.unwrap_err().contains("already exists"), "Error should mention file already exists");
}

#[test]
fn test_create_new_note_invalid_names() {
    let mut store = new_store();

    let long_name = "a".repeat(256);
    let invalid_names = vec![
        "../traverse.md",
        "/absolute/path.md",
        "..\\windows_traverse.md",
        ".hidden.md",
        "",
        "   ",
        &long_name,
    ];

    for invalid_name in invalid_names {
        let result = store.create_new_note(invalid_name);
        assert!(result.is_err(), "Should reject invalid name: {}", invalid_name);
    }
}

#[test]
fn test_get_note_content_success() {
    let mut store = new_store();

    store.create_new_note("content_test.md").expect("Should create note");
    let content = "# Test Content\n\nThis is test content.";
    store
        .save_note_with_content_check("content_test.md", content, "")
        .expect("Should save content");

    let retrieved = store.get_note_content("content_test.md").expect("Should get content");
    assert_eq!(retrieved, content, "Retrieved content should match saved content");
}

#[test]
fn test_get_note_content_nonexistent() {
    let store = new_store();

    let result = store.get_note_content("nonexistent.md");
    assert!(result.is_err(), "Should fail for nonexistent note");
    assert!(result.unwrap_err().contains("not found"), "Error should mention note not found");
}

#[test]
fn test_get_note_html_content_markdown_rendering() {
    let mut store = new_store();

    store.create_new_note("markdown_test.md").expect("Should create note");
    let markdown_content = "# Heading\n\n**Bold text** and *italic text*\n\n- List item";
    store
        .save_note_with_content_check("markdown_test.md", markdown_content, "")
        .expect("Should save content");

    let html = store.get_note_html_content("markdown_test.md").expect("Should get HTML content");

    assert!(html.contains("<h1>"), "Should contain h1 tag");
    assert!(html.contains("Heading"), "Should contain heading text");
    assert!(html.contains("<strong>"), "Should contain strong tag");
    assert!(html.contains("<em>"), "Should contain em tag");
    assert!(html.contains("<ul>"), "Should contain ul tag");
    assert!(html.contains("<li>"), "Should contain li tag");
}

#[test]
fn test_get_note_html_content_plain_text() {
    let mut store = new_store();

    store.create_new_note("plain_text.txt").expect("Should create note");
    let text_content = "Plain text content with <script>alert('xss')</script>";
    store
        .save_note_with_content_check("plain_text.txt", text_content, "")
        .expect("Should save content");

    let html = store.get_note_html_content("plain_text.txt").expect("Should get HTML content");

    assert!(html.starts_with("<pre>"), "Should start with pre tag");
    assert!(html.ends_with("</pre>"), "Should end with pre tag");
    assert!(html.contains("&lt;script&gt;"), "Should escape HTML entities");
    assert!(!html.contains("<script>"), "Should not contain unescaped script tags");
}

#[test]
fn test_list_all_notes_empty() {
    let store = new_store();

    let notes = store.list_all_notes().expect("Should list notes");
    assert_eq!(notes.len(), 0, "Should return empty list for empty directory");
}

#[test]
fn test_list_all_notes_with_data() {
    let mut store = new_store();

    let note_names = vec!["first.md", "second.md", "third.txt", "folder/nested.md"];

    for name in &note_names {
        store.create_new_note(name).expect(&format!("Should create {}", name));
    }

    let notes = store.list_all_notes().expect("Should list notes");
    assert_eq!(notes.len(), note_names.len(), "Should list all created notes");

    for name in &note_names {
        assert!(notes.contains(&name.to_string()), "Should include note: {}", name);
    }
}

#[test]
fn test_rename_note_to_existing_fails() {
    let mut store = new_store();

    store.create_new_note("note1.md").expect("Should create first note");
    store.create_new_note("note2.md").expect("Should create second note");

    let result = store.rename_note("note1.md".to_string(), "note2.md".to_string());
    assert!(result.is_err(), "Should fail to rename to existing name");
    assert!(result.unwrap_err().contains("already exists"), "Error should mention file already exists");

    assert!(store.files.contains("note1.md"), "Original first note should still exist");
    assert!(store.files.contains("note2.md"), "Original second note should still exist");
}

#[test]
fn test_rename_note_nonexistent() {
    let mut store = new_store();

    let result = store.rename_note("nonexistent.md".to_string(), "new_name.md".to_string());
    assert!(result.is_err(), "Should fail to rename nonexistent note");
    assert!(result.unwrap_err().contains("not found"), "Error should mention note not found");
}

#[test]
fn test_delete_note_success() {
    let mut store = new_store();

    store.create_new_note("to_delete.md").expect("Should create note");
    let content = "Content to be deleted";
    store
        .save_note_with_content_check("to_delete.md", content, "")
        .expect("Should save content");

    assert!(store.files.contains("to_delete.md"), "Note should exist before deletion");

    let result = store.delete_note("to_delete.md");
    assert!(result.is_ok(), "Should delete note successfully");

    assert!(!store.files.contains("to_delete.md"), "Note file should not exist after deletion");

    let get_result = store.get_note_content("to_delete.md");
    assert!(get_result.is_err(), "Deleted note should not be retrievable from database");

    let notes = store.list_all_notes().expect("Should list notes");
    assert!(!notes.contains(&"to_delete.md".to_string()), "Deleted note should not appear in list");
}

#[test]
fn test_delete_note_nonexistent() {
    let mut store = new_store();

    let result = store.delete_note("nonexistent.md");
    assert!(result.is_ok(), "Deleting nonexistent note should succeed (idempotent)");
}

#[test]
fn test_crud_workflow_consistency() {
    let mut store = new_store();

    let note_name = "workflow_test.md";
    let initial_content = "Initial content";
    let updated_content = "Updated content";

    store.create_new_note(note_name).expect("Should create note");
    store
        .save_note_with_content_check(note_name, initial_content, "")
        .expect("Should save initial content");

    let retrieved = store.get_note_content(note_name).expect("Should read note");
    assert_eq!(retrieved, initial_content, "Should read correct initial content");

    let notes = store.list_all_notes().expect("Should list notes");
    assert!(notes.contains(&note_name.to_string()), "Note should appear in list");

    store
        .save_note_with_content_check(note_name, updated_content, initial_content)
        .expect("Should update content");
    let updated_retrieved = store.get_note_content(note_name).expect("Should read updated content");
    assert_eq!(updated_retrieved, updated_content, "Should read updated content");

    let new_name = "renamed_workflow_test.md";
    store
        .rename_note(note_name.to_string(), new_name.to_string())
        .expect("Should rename note");

    let old_result = store.get_note_content(note_name);
    assert!(old_result.is_err(), "Old name should not exist");

    let renamed_content = store.get_note_content(new_name).expect("Should read renamed note");
    assert_eq!(renamed_content, updated_content, "Renamed note should have updated content");

    store.delete_note(new_name).expect("Should delete note");

    let deleted_result = store.get_note_content(new_name);
    assert!(deleted_result.is_err(), "Deleted note should not exist");

    let final_notes = store.list_all_notes().expect("Should list notes");
    assert!(!final_notes.contains(&new_name.to_string()), "Deleted note should not appear in list");
}

#[test]
fn test_concurrent_operations_consistency() {
    let mut store = new_store();

    let note_names = vec!["concurrent1.md", "concurrent2.md", "concurrent3.md"];

    for name in &note_names {
        store.create_new_note(name).expect(&format!("Should create {}", name));
        store
            .save_note_with_content_check(name, &format!("Content for {}", name), "")
            .expect(&format!("Should save content for {}", name));
    }

    for name in &note_names {
        let content = store.get_note_content(name).expect(&format!("Should get content for {}", name));
        assert_eq!(content, format!("Content for {}", name), "Content should match for {}", name);
    }

    store
        .rename_note("concurrent1.md".to_string(), "renamed1.md".to_string())
        .expect("Should rename first note");
    store
        .save_note_with_content_check(
            "concurrent2.md",
            "Updated content",
            &format!("Content for concurrent2.md"),
        )
        .expect("Should update second note");
    store.delete_note("concurrent3.md").expect("Should delete third note");

    let final_notes = store.list_all_notes().expect("Should list final notes");
    assert!(final_notes.contains(&"renamed1.md".to_string()), "Renamed note should exist");
    assert!(final_notes.contains(&"concurrent2.md".to_string()), "Updated note should exist");
    assert!(!final_notes.contains(&"concurrent3.md".to_string()), "Deleted note should not exist");
    assert!(!final_notes.contains(&"concurrent1.md".to_string()), "Original renamed note should not exist");

    let renamed_content = store.get_note_content("renamed1.md").expect("Should get renamed content");
    assert_eq!(renamed_content, "Content for concurrent1.md", "Renamed note should preserve content");

    let updated_content = store.get_note_content("concurrent2.md").expect("Should get updated content");
    assert_eq!(updated_content, "Updated content", "Updated note should have new content");
}

#[test]
fn test_create_new_note_success() {
    let mut store = new_store();

    let result = store.create_new_note("test_note.md");
    assert!(result.is_ok(), "Should create new note successfully");

    assert!(store.files.contains("test_note.md"), "Note file should exist on filesystem");
    assert_eq!(store.files.get("test_note.md").unwrap(), "", "New note should have empty content");

    let notes_list = store.list_all_notes().expect("Should list notes");
    assert!(notes_list.contains(&"test_note.md".to_string()), "New note should appear in list");

    let retrieved_content = store.get_note_content("test_note.md").expect("Should get note content");
    assert_eq!(retrieved_content, "", "Retrieved content should be empty");
}

#[test]
fn test_list_all_notes_ordering() {
    let mut store = new_store();

    store.create_new_note_at("older.md", T0).expect("Should create older note");
    store.create_new_note_at("newer.md", T0 + 2).expect("Should create newer note");
    store
        .save_note_with_content_check_at("newer.md", "Updated content", "", T0 + 2)
        .expect("Should update newer note");

    let notes = store.list_all_notes().expect("Should list notes");
    let newer_pos = notes.iter().position(|n| n == "newer.md").unwrap();
    let older_pos = notes.iter().position(|n| n == "older.md").unwrap();
    assert!(newer_pos < older_pos, "Newer note should appear first in list");
}

#[test]
fn test_rename_note_success() {
    let mut store = new_store();

    store.create_new_note("original.md").expect("Should create note");
    let content = "Original content";
    store.save_note_with_content_check("original.md", content, "").expect("Should save content");

    let result = store.rename_note("original.md".to_string(), "renamed.md".to_string());
    assert!(result.is_ok(), "Should rename note successfully");

    assert!(!store.files.contains("original.md"), "Old file should not exist after rename");
    assert!(store.files.contains("renamed.md"), "New file should exist after rename");
    assert_eq!(store.files.get("renamed.md").unwrap(), content, "Content should be preserved after rename");

    let retrieved_content = store.get_note_content("renamed.md").expect("Should get renamed note content");
    assert_eq!(retrieved_content, content, "Database should reflect renamed note");

    let old_result = store.get_note_content("original.md");
    assert!(old_result.is_err(), "Old name should not exist in database");
}

#[test]
fn test_rename_note_with_subdirectories() {
    let mut store = new_store();

    store.create_new_note("folder/original.md").expect("Should create note in subdirectory");
    let content = "Nested content";
    store.save_note_with_content_check("folder/original.md", content, "").expect("Should save content");

    let result = store.rename_note("folder/original.md".to_string(), "other_folder/renamed.md".to_string());
    assert!(result.is_ok(), "Should rename across subdirectories");

    assert!(!store.files.contains("folder/original.md"), "Old file should not exist");
    assert!(store.files.contains("other_folder/renamed.md"), "New file should exist in new location");
    assert_eq!(store.files.get("other_folder/renamed.md").unwrap(), content, "Content should be preserved");
}

#[test]
fn test_delete_note_with_backup_verification() {
    let mut store = new_store();

    store.create_new_note("backup_test.md").expect("Should create note");
    let content = "This content should be backed up";
    store.save_note_with_content_check("backup_test.md", content, "").expect("Should save content");

    let result = store.delete_note("backup_test.md");
    assert!(result.is_ok(), "Should delete note successfully");

    let backup_files: Vec<usize> = (0..store.backups.len())
        .filter(|&i| {
            let name = store.backups.path_at(i);
            name.contains("backup_test.md") && name.contains("deleted")
        })
        .collect();
    if !backup_files.is_empty() {
        assert_eq!(store.backups.text_at(backup_files[0]), content, "Backup should contain original content");
    }
    let delete_backups: Vec<usize> = (0..store.backups.len())
        .filter(|&i| store.backups.path_at(i).starts_with("backup_test.delete_backup."))
        .collect();
    assert_eq!(delete_backups.len(), 1);
    assert_eq!(store.backups.text_at(delete_backups[0]), content);
}
