use symiosis::store::NoteStore;

const T0: u64 = 1_700_000_000;

fn new_store() -> NoteStore {
    NoteStore::new("/home/user/Documents/Notes")
}

/// A file written into the notes directory from outside, as the watcher reports it.
fn write_outside(store: &mut NoteStore, name: &str, content: &str, at: u64) {
    store.apply_external_change(name, Some((content.to_string(), at as i64)));
}

fn read_file(store: &NoteStore, name: &str) -> String {
    store.files.get(name).cloned().unwrap()
}

#[test]
fn test_content_synchronization_prevents_data_loss() {
    let mut store = new_store();
    let file_a = "test_file_a.md";
    let file_b = "test_file_b.md";
    let content_a = "This is file A content";
    let content_b = "This is file B content - completely different";

    write_outside(&mut store, file_a, content_a, T0);
    write_outside(&mut store, file_b, content_b, T0);

    let original_content_a = read_file(&store, file_a);
    assert_eq!(original_content_a, content_a);

    let edited_content_a = "This is file A content - EDITED VERSION";

    let save_result = store.save_note_with_content_check(file_a, edited_content_a, &original_content_a);
    assert!(save_result.is_ok(), "Correct save should succeed");

    let updated_content = read_file(&store, file_a);
    assert_eq!(updated_content, edited_content_a);

    let externally_modified_content_b = "File B modified externally";
    write_outside(&mut store, file_b, externally_modified_content_b, T0 + 2);

    let wrong_save_result =
        store.save_note_with_content_check(file_b, edited_content_a, &original_content_a);
    assert!(
        wrong_save_result.is_err(),
        "Wrong-target save MUST fail to prevent data loss. Got: {:?}",
        wrong_save_result
    );

    let error_msg = wrong_save_result.unwrap_err();
    assert!(error_msg.contains("file has been modified since editing began"));

    let file_b_content = read_file(&store, file_b);
    assert_eq!(
        file_b_content, externally_modified_content_b,
        "File B should remain unchanged after failed save attempt"
    );
    assert_ne!(file_b_content, edited_content_a, "File B MUST NOT contain content intended for file A");
}

#[test]
fn test_content_consistency_across_operations() {
    let mut store = new_store();
    let file_name = "consistency_test.md";
    let content = "Test content for consistency check";

    write_outside(&mut store, file_name, content, T0);

    let original_content = read_file(&store, file_name);
    assert_eq!(original_content, content);

    let save_result = store.save_note_with_content_check(file_name, content, &original_content);
    assert!(save_result.is_ok(), "Save with correct original content should succeed");
}

#[test]
fn test_nonexistent_file_content_handling() {
    let mut store = new_store();
    let file_name = "nonexistent.md";

    let original_content = String::new();
    assert_eq!(original_content, "");

    let new_content = "New file content";
    let save_result = store.save_note_with_content_check(file_name, new_content, &original_content);
    assert!(save_result.is_ok(), "Save to nonexistent file should succeed");

    assert!(store.files.contains(file_name));
    assert_eq!(read_file(&store, file_name), new_content);
}

#[test]
fn test_content_validation_with_external_changes() {
    let mut store = new_store();
    let file_name = "external_change_test.md";
    let original_content = "Original content";
    let edited_content = "Edited content";
    let external_content = "Externally modified content";

    write_outside(&mut store, file_name, original_content, T0);

    let stored_original_content = read_file(&store, file_name);
    assert_eq!(stored_original_content, original_content);

    write_outside(&mut store, file_name, external_content, T0 + 1);

    let save_result = store.save_note_with_content_check(file_name, edited_content, &stored_original_content);
    assert!(save_result.is_err(), "Save after external change should fail");

    let final_content = read_file(&store, file_name);
    assert_eq!(final_content, external_content);
    assert_ne!(final_content, edited_content);
}
