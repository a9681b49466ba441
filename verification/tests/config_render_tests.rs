use std::path::{Path, PathBuf};
use symiosis::config::{load_config_from_content, parse_shortcut, AppConfig};
use symiosis::paths::{
    encode_path_for_backup, get_backup_dir_for_notes_path, get_config_path, get_data_dir,
    get_database_path, get_database_path_for_notes_dir, get_default_notes_dir, Host, Platform,
};

fn host() -> Host {
    Host { platform: Platform::Linux, appdata: None }
}
use symiosis::renderer::{linkify_urls_in_html, render_note};

#[test]
fn tests_test_render_markdown_note() {
    let markdown_content = "# Hello World\n\nThis is **bold** text.";
    let result = render_note("test.md", markdown_content);

    assert!(result.contains("<h1>"));
    assert!(result.contains("Hello World"));
    assert!(result.contains("<strong>"));
    assert!(result.contains("bold"));
}

#[test]
fn tests_test_render_plain_text_note() {
    let text_content = "This is plain text with <script>alert('xss')</script>";
    let result = render_note("test.txt", text_content);

    assert!(result.starts_with("<pre>"));
    assert!(result.ends_with("</pre>"));
    assert!(result.contains("&lt;script&gt;"));
    assert!(!result.contains("<script>"));
}

#[test]
fn tests_test_render_note_file_extension_detection() {
    let content = "# Test";

    assert!(render_note("test.md", content).contains("<h1>"));
    assert!(render_note("test.markdown", content).contains("<h1>"));

    assert!(render_note("test.txt", content).starts_with("<pre>"));
    assert!(render_note("test.rs", content).starts_with("<pre>"));
    assert!(render_note("no-extension", content).starts_with("<pre>"));
}

#[test]
fn note_rendering_test_render_markdown_note() {
    let markdown_content = "# Hello World\n\nThis is **bold** text.";
    let result = render_note("test.md", markdown_content);

    assert!(result.contains("<h1>"));
    assert!(result.contains("Hello World"));
    assert!(result.contains("<strong>"));
    assert!(result.contains("bold"));
}

#[test]
fn note_rendering_test_render_plain_text_note() {
    let text_content = "This is plain text with <script>alert('xss')</script>";
    let result = render_note("test.txt", text_content);

    assert!(result.starts_with("<pre>"));
    assert!(result.ends_with("</pre>"));
    assert!(result.contains("&lt;script&gt;"));
    assert!(!result.contains("<script>"));
}

#[test]
fn note_rendering_test_render_note_file_extension_detection() {
    let content = "# Test";

    assert!(render_note("test.md", content).contains("<h1>"));
    assert!(render_note("test.markdown", content).contains("<h1>"));

    assert!(render_note("test.txt", content).starts_with("<pre>"));
    assert!(render_note("test.rs", content).starts_with("<pre>"));
    assert!(render_note("no-extension", content).starts_with("<pre>"));
}

#[test]
fn tests_test_shortcut_parsing() {
    assert!(parse_shortcut("Ctrl+Shift+N").is_some());
    assert!(parse_shortcut("Alt+Space").is_some());
    assert!(parse_shortcut("Cmd+F1").is_some());
    assert!(parse_shortcut("invalid").is_none());
    assert!(parse_shortcut("").is_none());
}

#[test]
fn config_test_shortcut_parsing() {
    assert!(parse_shortcut("Ctrl+Shift+N").is_some());
    assert!(parse_shortcut("Alt+Space").is_some());
    assert!(parse_shortcut("Cmd+F1").is_some());
    assert!(parse_shortcut("invalid").is_none());
    assert!(parse_shortcut("").is_none());
}

#[test]
fn tests_test_directory_path_consistency() {
    let config_path = PathBuf::from(get_config_path());
    let notes_dir = get_default_notes_dir();
    let db_path = PathBuf::from(get_database_path(None, &host()).expect("Should get database path"));

    assert!(!config_path.to_string_lossy().is_empty());
    assert!(!notes_dir.is_empty());
    assert!(!db_path.to_string_lossy().is_empty());

    assert!(config_path.is_absolute());
    assert!(Path::new(&notes_dir).is_absolute());
    assert!(db_path.is_absolute());

    assert_ne!(config_path.to_string_lossy(), notes_dir);
    assert_ne!(config_path, db_path);
    assert_ne!(notes_dir, db_path.to_string_lossy());
}

#[test]
fn directory_paths_test_directory_path_consistency() {
    let config_path = PathBuf::from(get_config_path());
    let notes_dir = get_default_notes_dir();
    let db_path = PathBuf::from(get_database_path(None, &host()).expect("Should get database path"));

    assert!(!config_path.to_string_lossy().is_empty());
    assert!(!notes_dir.is_empty());
    assert!(!db_path.to_string_lossy().is_empty());

    assert!(config_path.is_absolute());
    assert!(Path::new(&notes_dir).is_absolute());
    assert!(db_path.is_absolute());

    assert_ne!(config_path.to_string_lossy(), notes_dir);
    assert_ne!(config_path, db_path);
    assert_ne!(notes_dir, db_path.to_string_lossy());
}

#[test]
fn tests_test_default_config_values() {
    let config = AppConfig::default();

    assert_eq!(config.preferences.max_search_results, 100);
    assert_eq!(config.global_shortcut, "Ctrl+Shift+N");
    assert!(!config.notes_directory.is_empty());
}

#[test]
fn test_linkify_urls_in_html() {
    let html = "Check out https://example.com and http://test.org for more info";
    let result = linkify_urls_in_html(html).unwrap();
    assert!(result.contains(r#"<a href="https://example.com" target="_blank" rel="noopener noreferrer">https://example.com</a>"#));
    assert!(result.contains(
        r#"<a href="http://test.org" target="_blank" rel="noopener noreferrer">http://test.org</a>"#
    ));
}

#[test]
fn test_linkify_preserves_existing_links() {
    let html = r#"Visit <a href="https://example.com">Example</a> and also https://test.com"#;
    let result = linkify_urls_in_html(html).unwrap();
    assert!(result.contains(r#"<a href="https://example.com">Example</a>"#));
    assert!(result.contains(r#"<a href="https://test.com" target="_blank" rel="noopener noreferrer">https://test.com</a>"#));
}

#[test]
fn test_linkify_avoids_urls_inside_existing_links() {
    let html = r#"Visit <a href="https://example.com">https://example.com</a> for more info"#;
    let result = linkify_urls_in_html(html).unwrap();
    assert_eq!(result, html);
}

#[test]
fn test_render_markdown_with_urls() {
    let content = "# Test\n\nVisit https://example.com for more info.";
    let result = render_note("test.md", content);
    assert!(result.contains("<h1>Test</h1>"));
    assert!(result.contains(r#"<a href="https://example.com" target="_blank" rel="noopener noreferrer">https://example.com</a>"#));
}

#[test]
fn test_render_plain_text_with_urls() {
    let content = "Visit https://example.com for more info.";
    let result = render_note("test.txt", content);
    assert!(result.starts_with("<pre>"));
    assert!(result.contains(r#"<a href="https://example.com" target="_blank" rel="noopener noreferrer">https://example.com</a>"#));
    assert!(result.ends_with("</pre>"));
}

#[test]
fn test_directory_paths_are_absolute() {
    assert!(Path::new(&get_config_path()).is_absolute(), "Config path should be absolute");

    let notes_dir_string = get_default_notes_dir();
    let notes_dir_path = Path::new(&notes_dir_string);
    assert!(notes_dir_path.is_absolute(), "Notes directory path should be absolute");

    assert!(
        Path::new(&get_database_path(None, &host()).expect("Should get database path")).is_absolute(),
        "Database path should be absolute"
    );

    if let Some(data_dir) = get_data_dir(&host()) {
        assert!(Path::new(&data_dir).is_absolute(), "Data directory path should be absolute");
    }
}

#[test]
fn test_get_default_notes_dir() {
    let notes_dir = get_default_notes_dir();
    assert!(notes_dir.contains("Documents") || notes_dir == "./notes");
    assert!(!notes_dir.is_empty());
}

#[test]
fn test_get_config_path() {
    let config_path = PathBuf::from(get_config_path());
    let path_str = config_path.to_string_lossy();
    assert!(path_str.contains(".symiosis"));
    assert!(path_str.ends_with("config.toml"));
}

#[test]
fn test_load_config_invalid_font_sizes() {
    let invalid_font_sizes_toml = r#"
[interface]
font_size = 999
editor_font_size = 2
"#;

    let config = load_config_from_content(invalid_font_sizes_toml);

    assert_eq!(config.interface.font_size, 14);
    assert_eq!(config.interface.editor_font_size, 14);
}

#[test]
fn test_load_config_invalid_shortcuts() {
    let invalid_shortcuts_toml = r#"
global_shortcut = "InvalidShortcut"

[shortcuts]
create_note = "Ctrl+Enter"
rename_note = "++Invalid++"
delete_note = ""
"#;

    let config = load_config_from_content(invalid_shortcuts_toml);

    assert_eq!(config.shortcuts.create_note, "Ctrl+Enter");

    assert_eq!(config.global_shortcut, "Ctrl+Shift+N");
    assert_eq!(config.shortcuts.rename_note, "Ctrl+m");
    assert_eq!(config.shortcuts.delete_note, "Ctrl+x");
}

#[test]
fn test_load_config_invalid_editor_mode_and_theme() {
    let invalid_editor_toml = r#"
[editor]
mode = "nonexistent_mode"
theme = "nonexistent_theme"
tab_size = 0
word_wrap = true
show_line_numbers = false
"#;

    let config = load_config_from_content(invalid_editor_toml);

    assert_eq!(config.editor.word_wrap, true);
    assert_eq!(config.editor.show_line_numbers, false);

    assert_eq!(config.editor.mode, "basic");
    assert_eq!(config.editor.theme, "gruvbox-dark");
    assert_eq!(config.editor.tab_size, 2);
}

#[test]
fn test_load_config_invalid_preferences() {
    let invalid_preferences_toml = r#"
[preferences]
max_search_results = 0
"#;

    let config = load_config_from_content(invalid_preferences_toml);

    assert_eq!(config.preferences.max_search_results, 100);
}

#[test]
fn test_load_config_mixed_sections_some_empty() {
    let mixed_sections_toml = r#"
notes_directory = "/test/notes"

[interface]
ui_theme = "one-dark"

[editor]
# Editor section exists but is empty - should use all defaults

[preferences]
max_search_results = 50

[shortcuts]
create_note = "Alt+Enter"
"#;

    let config = load_config_from_content(mixed_sections_toml);

    assert_eq!(config.notes_directory, "/test/notes");
    assert_eq!(config.interface.ui_theme, "one-dark");
    assert_eq!(config.preferences.max_search_results, 50);
    assert_eq!(config.shortcuts.create_note, "Alt+Enter");

    assert_eq!(config.editor.mode, "basic");
    assert_eq!(config.editor.theme, "gruvbox-dark");
    assert_eq!(config.editor.word_wrap, true);
    assert_eq!(config.editor.tab_size, 2);
    assert_eq!(config.editor.show_line_numbers, true);

    assert_eq!(config.shortcuts.rename_note, "Ctrl+m");
    assert_eq!(config.shortcuts.delete_note, "Ctrl+x");
}

#[test]
fn test_load_config_completely_invalid_toml_uses_defaults() {
    let invalid_toml = r#"
this is not valid toml at all
notes_directory = missing quotes
"#;

    let config = load_config_from_content(invalid_toml);

    let default_config = AppConfig::default();
    assert_eq!(config.notes_directory, default_config.notes_directory);
    assert_eq!(config.global_shortcut, default_config.global_shortcut);
    assert_eq!(config.preferences.max_search_results, default_config.preferences.max_search_results);
}

#[test]
fn test_database_path_creation_logic() {
    let db_path = PathBuf::from(
        get_database_path_for_notes_dir("/test/notes/directory", &host()).expect("Should generate database path"),
    );

    assert!(db_path.is_absolute());
    assert!(db_path.to_string_lossy().contains("symiosis"));
    assert!(db_path.to_string_lossy().contains("databases"));
    assert!(db_path.to_string_lossy().contains("notes.sqlite"));

    let encoded_part = encode_path_for_backup("/test/notes/directory");
    assert!(db_path.to_string_lossy().contains(&encoded_part));
}

#[test]
fn test_backup_directory_creation_logic() {
    let test_notes_dir = PathBuf::from("/test/notes/directory");
    let backup_dir = PathBuf::from(
        get_backup_dir_for_notes_path("/test/notes/directory", &host()).expect("Should generate backup directory path"),
    );

    assert!(backup_dir.is_absolute());
    assert!(backup_dir.to_string_lossy().contains("symiosis"));
    assert!(backup_dir.to_string_lossy().contains("backups"));

    let encoded_part = encode_path_for_backup("/test/notes/directory");
    assert!(backup_dir.to_string_lossy().contains(&encoded_part));

    assert_ne!(backup_dir, test_notes_dir, "Backup directory should not be the same as notes directory");
}

#[test]
fn test_path_encoding_with_friendly_names_and_uniqueness() {
    let encoded1 = encode_path_for_backup("/home/user/notes");
    let encoded2 = encode_path_for_backup("/home:user:notes");
    let encoded3 = encode_path_for_backup("/home user notes");
    let encoded4 = encode_path_for_backup("/Documents/_notes");
    let encoded5 = encode_path_for_backup("/Users/alice/Documents/_notes");

    let encodings = vec![&encoded1, &encoded2, &encoded3, &encoded4, &encoded5];
    for i in 0..encodings.len() {
        for j in i + 1..encodings.len() {
            assert_ne!(encodings[i], encodings[j], "Encoded paths should be unique: {} vs {}", encodings[i], encodings[j]);
        }
    }

    assert!(encoded1.starts_with("notes-"), "Should start with 'notes-': {}", encoded1);
    assert!(encoded4.starts_with("_notes-"), "Should start with '_notes-': {}", encoded4);
    assert!(encoded5.starts_with("_notes-"), "Should start with '_notes-': {}", encoded5);

    for encoding in &encodings {
        assert!(encoding.contains('-'), "Should contain dash separator: {}", encoding);
        let parts: Vec<&str> = encoding.split('-').collect();
        assert_eq!(parts.len(), 2, "Should have exactly one dash separator: {}", encoding);
        assert_eq!(parts[1].len(), 6, "Hash part should be 6 characters: {}", encoding);
        assert!(parts[1].chars().all(|c| c.is_ascii_hexdigit()), "Hash part should be hex digits: {}", encoding);
    }
}

#[test]
fn test_toml_parsing_handles_malformed_input() {
    let invalid_toml = r#"
notes_directory = "/path  # Missing closing quote
max_search_results = "not_a_number"
invalid_syntax =
"#;

    let result = symiosis::validation::validate_config_content(invalid_toml);
    assert!(result.is_err(), "Malformed TOML should fail to parse");
}

#[test]
fn test_save_config_content_validates_toml() {
    let valid_toml = r#"
notes_directory = "/valid/path"

[preferences]
max_search_results = 150

[editor]
mode = "vim"
theme = "gruvbox-dark"
word_wrap = true
tab_size = 2
show_line_numbers = true
"#;
    let parse_result = symiosis::validation::validate_config_content(valid_toml);
    assert!(parse_result.is_ok(), "Valid TOML should parse successfully: {:?}", parse_result);

    let invalid_toml = r#"
notes_directory = "/path"

[preferences]
max_search_results = "not_a_number"
"#;
    let invalid_result = symiosis::validation::validate_config_content(invalid_toml);
    assert!(invalid_result.is_err(), "Invalid TOML should fail validation");
}
