use std::path::{Path, PathBuf};
use symiosis::backups::safe_backup_path;
use symiosis::config::get_config_notes_dir;
use symiosis::paths::same_path;
use symiosis::paths::{
    connection_needs_refresh, data_dir_for, encode_path_for_backup, get_backup_and_temp_dirs,
    get_backup_dir_for_notes_path, get_data_dir, get_database_path, get_database_path_for_notes_dir,
    get_temp_dir, refresh_database_connection, Host, Platform,
};

fn host() -> Host {
    Host { platform: Platform::Linux, appdata: None }
}

#[test]
fn test_database_path_creation() {
    let db_path = PathBuf::from(get_database_path(None, &host()).expect("Should have a database path"));
    assert!(db_path.is_absolute());
    assert!(db_path.to_string_lossy().contains("symiosis"));
    assert!(db_path.to_string_lossy().contains("notes.sqlite"));
}

#[test]
fn tests_test_notes_directory_validation() {
    let notes_dir = PathBuf::from(get_config_notes_dir(None));
    assert!(notes_dir.is_absolute());
    assert!(!notes_dir.to_string_lossy().is_empty());
}

#[test]
fn database_test_notes_directory_validation() {
    let notes_dir = PathBuf::from(get_config_notes_dir(None));
    assert!(notes_dir.is_absolute());
    assert!(!notes_dir.to_string_lossy().is_empty());
}

#[test]
fn test_get_data_dir_macos_structure() {
    if let Some(data_dir) = get_data_dir(&Host { platform: Platform::MacOs, appdata: None }) {
        let path_str = data_dir;
        assert!(path_str.contains("Library"), "macOS data dir should contain 'Library'");
        assert!(
            path_str.contains("Application Support"),
            "macOS data dir should contain 'Application Support'"
        );
        assert!(
            path_str.ends_with("Library/Application Support"),
            "macOS data dir should end with correct path"
        );
    }
}

#[test]
fn test_get_data_dir_linux_structure() {
    if let Some(data_dir) = get_data_dir(&host()) {
        let path_str = data_dir;
        assert!(path_str.contains(".local"), "Linux data dir should contain '.local'");
        assert!(path_str.contains("share"), "Linux data dir should contain 'share'");
        assert!(path_str.ends_with(".local/share"), "Linux data dir should end with correct path");
    }
}

#[test]
fn test_home_dir_fallback_behavior() {
    let fallback_config = PathBuf::from(".symiosis/config.toml");
    let fallback_notes = "./notes";
    let fallback_db = PathBuf::from("./symiosis/notes.sqlite");

    assert!(!fallback_config.to_string_lossy().is_empty());
    assert!(!fallback_notes.is_empty());
    assert!(!fallback_db.to_string_lossy().is_empty());

    assert!(!fallback_config.is_absolute());
    assert!(!Path::new(fallback_notes).is_absolute());
    assert!(!fallback_db.is_absolute());

    // Without a home directory the library falls back to the same relative paths.
    assert_eq!(symiosis::paths::default_notes_dir_for(None), "./notes");
    assert_eq!(symiosis::paths::config_path_for(None), ".symiosis/config.toml");
    assert_eq!(data_dir_for(None, Platform::Linux, None), None);
}

#[test]
fn test_temp_directory_creation_logic() {
    let temp_dir = PathBuf::from(get_temp_dir(&host()).expect("Should generate temp directory path"));
    assert!(temp_dir.is_absolute());
    assert!(temp_dir.to_string_lossy().contains("symiosis"));
    assert!(temp_dir.to_string_lossy().contains("temp"));

    let test_notes_dir = PathBuf::from("/test/notes/directory");
    let backup_dir = PathBuf::from(
        get_backup_dir_for_notes_path("/test/notes/directory", &host()).expect("Should generate backup directory path"),
    );

    assert_ne!(temp_dir, test_notes_dir, "Temp directory should not be the same as notes directory");
    assert_ne!(temp_dir, backup_dir, "Temp directory should not be the same as backup directory");
}

#[test]
fn test_directory_hierarchy_logic() {
    let backup_dir = PathBuf::from(
        get_backup_dir_for_notes_path("/test/notes/directory", &host()).expect("Should generate backup directory path"),
    );
    let temp_dir = PathBuf::from(get_temp_dir(&host()).expect("Should generate temp directory path"));

    let backup_parent = backup_dir
        .parent()
        .and_then(|p| p.parent())
        .expect("Backup should have symiosis parent");
    let temp_parent = temp_dir.parent().expect("Temp should have parent");

    assert_eq!(backup_parent, temp_parent, "Backup and temp should share the same parent directory");
    assert!(backup_parent.to_string_lossy().contains("symiosis"));
}

#[test]
fn test_path_specific_backup_directories() {
    let test_paths = vec![
        "/Users/test/Documents/Notes",
        "/Users/test/Work/Notes",
        "/tmp/temporary-notes",
        "/home/user/notes with spaces",
        "C:\\Users\\Test\\Documents\\Notes",
    ];

    let mut backup_dirs = Vec::new();

    for path in &test_paths {
        let backup_dir = get_backup_dir_for_notes_path(path, &host());
        assert!(backup_dir.is_ok(), "Should generate backup directory for path: {}", path);
        backup_dirs.push(PathBuf::from(backup_dir.unwrap()));
    }

    for i in 0..backup_dirs.len() {
        for j in i + 1..backup_dirs.len() {
            assert_ne!(
                backup_dirs[i], backup_dirs[j],
                "Different notes paths should produce different backup directories"
            );
        }
    }

    for (i, backup_dir) in backup_dirs.iter().enumerate() {
        assert!(backup_dir.is_absolute(), "Backup directory should be absolute");
        assert!(backup_dir.to_string_lossy().contains("symiosis"));
        assert!(backup_dir.to_string_lossy().contains("backups"));
        assert_ne!(backup_dir, &PathBuf::from(test_paths[i]));
    }
}

#[test]
fn test_path_encoding_for_backup_safety() {
    let problematic_paths = vec![
        "/path/with/slashes",
        "C:\\Windows\\Path\\With\\Backslashes",
        "/path with spaces/and-dashes",
        "/path:with:colons",
        "/path/with/special!@#$%^&*()characters",
    ];

    for path in problematic_paths {
        let backup_dir = get_backup_dir_for_notes_path(path, &host());
        assert!(backup_dir.is_ok(), "Should handle problematic path: {}", path);

        let backup_path = PathBuf::from(backup_dir.unwrap());
        let encoded_part = backup_path.file_name().unwrap().to_string_lossy().to_string();

        assert!(!encoded_part.contains("/"), "Should not contain forward slashes");
        assert!(!encoded_part.contains("\\"), "Should not contain backslashes");
        assert!(!encoded_part.contains(":"), "Should not contain colons");
        assert!(!encoded_part.contains(" "), "Should not contain spaces");

        for c in encoded_part.chars() {
            assert!(
                c.is_alphanumeric() || c == '_' || c == '-',
                "Encoded path should only contain alphanumeric chars, underscores, and dashes, found: '{}'",
                c
            );
        }
    }
}

#[test]
fn test_backup_preservation_on_failure() {
    let test_notes_dir = PathBuf::from("/test/notes/directory");
    let backup_dir = PathBuf::from(
        get_backup_dir_for_notes_path("/test/notes/directory", &host()).expect("Should generate backup directory path"),
    );

    assert!(backup_dir.is_absolute());
    assert!(backup_dir.to_string_lossy().contains("symiosis"));
    assert!(backup_dir.to_string_lossy().contains("backups"));

    assert!(!backup_dir.starts_with(&test_notes_dir), "Backup should not be under notes directory");
    assert!(!test_notes_dir.starts_with(&backup_dir), "Notes should not be under backup directory");
}

#[test]
fn test_directory_creation_safety() {
    let test_notes_dir = PathBuf::from("/test/notes/directory");
    let backup_dir = PathBuf::from(
        get_backup_dir_for_notes_path("/test/notes/directory", &host()).expect("Should generate backup directory path"),
    );
    let temp_dir = PathBuf::from(get_temp_dir(&host()).expect("Should generate temp directory path"));

    let test_backup_subdir = backup_dir.join("test").join("nested");
    let test_temp_subdir = temp_dir.join("test_temp");

    assert!(!test_backup_subdir.starts_with(&test_notes_dir));
    assert!(!test_temp_subdir.starts_with(&test_notes_dir));
}

#[test]
fn test_safe_backup_path_validation() {
    let notes_dir = "/home/user/Documents/Notes";
    let backup_dir = get_backup_dir_for_notes_path(notes_dir, &host()).expect("Should generate backup directory path");

    let backup_path = safe_backup_path("/completely/different/path/test.md", notes_dir, &backup_dir);
    assert!(backup_path.is_err(), "Path outside notes directory should fail");
    if let Err(e) = backup_path {
        assert!(
            e.message().contains("not within configured notes directory"),
            "Error should mention path validation: {}",
            e.message()
        );
    }

    let backup_path = safe_backup_path("/tmp/outside.md", notes_dir, &backup_dir);
    assert!(backup_path.is_err(), "Invalid note path should fail");
    if let Err(e) = backup_path {
        assert!(e.message().contains("not within configured notes directory"));
    }
}

#[test]
fn test_path_based_backup_directories() {
    let backup_dir1 = get_backup_dir_for_notes_path("/Users/test/Documents/Notes", &host());
    let backup_dir2 = get_backup_dir_for_notes_path("/Users/test/Different/Path", &host());
    let backup_dir3 = get_backup_dir_for_notes_path("/tmp/special notes with spaces", &host());

    assert!(backup_dir1.is_ok(), "Should generate backup dir for path 1");
    assert!(backup_dir2.is_ok(), "Should generate backup dir for path 2");
    assert!(backup_dir3.is_ok(), "Should generate backup dir for path 3");

    let backup_path1 = PathBuf::from(backup_dir1.unwrap());
    let backup_path2 = PathBuf::from(backup_dir2.unwrap());
    let backup_path3 = PathBuf::from(backup_dir3.unwrap());

    assert_ne!(backup_path1, backup_path2);
    assert_ne!(backup_path1, backup_path3);
    assert_ne!(backup_path2, backup_path3);

    assert!(backup_path1.to_string_lossy().contains("symiosis"));
    assert!(backup_path1.to_string_lossy().contains("backups"));
    assert!(backup_path2.to_string_lossy().contains("symiosis"));
    assert!(backup_path2.to_string_lossy().contains("backups"));
    assert!(backup_path3.to_string_lossy().contains("symiosis"));
    assert!(backup_path3.to_string_lossy().contains("backups"));

    let encoded1 = backup_path1.file_name().unwrap().to_string_lossy().to_string();
    let encoded2 = backup_path2.file_name().unwrap().to_string_lossy().to_string();
    let encoded3 = backup_path3.file_name().unwrap().to_string_lossy().to_string();

    assert!(!encoded1.contains("/"));
    assert!(!encoded1.contains("\\"));
    assert!(!encoded2.contains("/"));
    assert!(!encoded2.contains("\\"));
    assert!(!encoded3.contains("/"));
    assert!(!encoded3.contains("\\"));

    assert!(encoded3.contains("_"), "Spaces should be converted to underscores");
    assert!(!encoded3.contains(" "), "Spaces should be converted to underscores");
}

#[test]
fn backup_path_keeps_folder_structure() {
    let r = safe_backup_path("/n/sub/a.md", "/n", "/b").unwrap();
    assert_eq!(r, "/b/sub/a.md");
    let r = safe_backup_path("/n/a.md", "/n/", "/b").unwrap();
    assert_eq!(r, "/b/a.md");
    let e = safe_backup_path("/nn/a.md", "/n", "/b").unwrap_err();
    assert_eq!(
        e.message(),
        "Invalid path: Note path '/nn/a.md' is not within configured notes directory '/n'"
    );
}

#[test]
fn database_path_holds_encoded_notes_dir() {
    let db_path = get_database_path_for_notes_dir("/test/notes/directory", &host()).expect("Should generate database path");
    let encoded = encode_path_for_backup("/test/notes/directory");
    assert!(db_path.contains(&encoded));
    assert!(db_path.ends_with("notes.sqlite"));
    assert!(db_path.contains("databases"));
}

#[test]
fn data_dir_follows_the_platform() {
    assert_eq!(data_dir_for(Some("/Users/test"), Platform::MacOs, None).unwrap(), "/Users/test/Library/Application Support");
    assert_eq!(data_dir_for(Some("/home/a"), Platform::Windows, Some("C:\\AppData")).unwrap(), "C:\\AppData");
    assert_eq!(data_dir_for(Some("/home/a"), Platform::Windows, None), None);
    assert_eq!(data_dir_for(Some("/home/a"), Platform::Linux, None).unwrap(), "/home/a/.local/share");
    assert_eq!(get_data_dir(&Host { platform: Platform::Windows, appdata: None }), None);
    if let Some(d) = get_data_dir(&Host { platform: Platform::Windows, appdata: Some("/x/appdata".to_string()) }) {
        assert_eq!(d, "/x/appdata");
    }
}

#[test]
fn paths_compare_by_components() {
    assert!(same_path("/a/b", "/a/b/"));
    assert!(same_path("/a//b", "/a/./b"));
    assert!(same_path("a/b/.", "a/b"));
    assert!(!same_path("./a", "a"));
    assert!(!same_path("/a/b", "a/b"));
    assert!(!same_path("/a/b", "/a/c"));
    assert!(!same_path("/a/../b", "/b"));
}

#[test]
fn backups_and_temp_share_one_data_directory() {
    let (backup, temp) = get_backup_and_temp_dirs("/test/notes/directory", &host()).expect("Should have both directories");
    let backup = PathBuf::from(backup);
    let temp = PathBuf::from(temp);
    assert_eq!(backup.parent().and_then(|p| p.parent()), temp.parent());
    assert!(temp.ends_with("symiosis/temp"));
    assert_ne!(backup, temp);
    let alone = PathBuf::from(get_temp_dir(&host()).unwrap());
    assert_eq!(alone, temp);
}

#[test]
fn database_is_refreshed_only_for_another_path() {
    let current = get_database_path(None, &host()).expect("Should have a database path");
    assert_eq!(refresh_database_connection(&current, None, &host()), Ok(false));
    assert_eq!(refresh_database_connection("/elsewhere/notes.sqlite", None, &host()), Ok(true));
    assert!(!connection_needs_refresh("/a/b/notes.sqlite", "/a//b/./notes.sqlite"));
    assert!(connection_needs_refresh("/a/b/notes.sqlite", "/a/c/notes.sqlite"));
    let windows = Host { platform: Platform::Windows, appdata: None };
    assert!(refresh_database_connection("/x", None, &windows).is_err());
}
