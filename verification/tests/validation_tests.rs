use symiosis::config::load_config_from_content;
use symiosis::validation::{
    validate_config, validate_editor_config, validate_interface_config, validate_note_name,
    validate_notes_directory, validate_preferences_config, validate_shortcut_format,
    validate_shortcuts_config,
};

#[test]
fn tests_test_validate_note_name_valid_names() {
    assert!(validate_note_name("note.md").is_ok());
    assert!(validate_note_name("my-note.txt").is_ok());
    assert!(validate_note_name("folder/note.md").is_ok());
    assert!(validate_note_name("deep/folder/structure/note.md").is_ok());
    assert!(validate_note_name("note_with_underscores.md").is_ok());
    assert!(validate_note_name("123-numbers.md").is_ok());
}

#[test]
fn tests_test_validate_note_name_path_traversal_attacks() {
    assert!(validate_note_name("../secret.txt").is_err());
    assert!(validate_note_name("folder/../secret.txt").is_err());
    assert!(validate_note_name("../../etc/passwd").is_err());
    assert!(validate_note_name("folder/../../secret.txt").is_err());
    assert!(validate_note_name("../../../root.txt").is_err());
}

#[test]
fn tests_test_validate_note_name_absolute_paths() {
    assert!(validate_note_name("/etc/passwd").is_err());
    assert!(validate_note_name("/home/user/secret.txt").is_err());
    assert!(validate_note_name("/tmp/malicious.sh").is_err());
    assert!(validate_note_name("C:\\Windows\\System32\\config").is_err());
    assert!(validate_note_name("D:\\secrets\\file.txt").is_err());
}

#[test]
fn tests_test_validate_note_name_backslash_rejection() {
    assert!(validate_note_name("folder\\note.txt").is_err());
    assert!(validate_note_name("deep\\folder\\note.md").is_err());
    assert!(validate_note_name("note\\..\\secret.txt").is_err());
}

#[test]
fn tests_test_validate_note_name_hidden_files() {
    assert!(validate_note_name(".hidden").is_err());
    assert!(validate_note_name(".config").is_err());
    assert!(validate_note_name(".ssh/id_rsa").is_err());
    assert!(validate_note_name("folder/.hidden").is_ok());
}

#[test]
fn tests_test_validate_note_name_empty_and_whitespace() {
    let whitespace_variants = vec![
        "",
        "   ",
        "\t",
        "\n",
        "\r",
        "\r\n",
        "\t\t\t",
        "\n\n\n",
        "  \t  \n  ",
        " \t \n \r ",
    ];

    for variant in whitespace_variants {
        assert!(validate_note_name(variant).is_err());
    }
}

#[test]
fn tests_test_validate_note_name_length_limits() {
    assert!(validate_note_name(&"a".repeat(256)).is_err());
    assert!(validate_note_name(&"a".repeat(255)).is_ok());
    assert!(validate_note_name(&"a".repeat(254)).is_ok());
}

#[test]
fn tests_test_validate_note_name_edge_cases() {
    assert!(validate_note_name("../").is_err());
    assert!(validate_note_name("./").is_err());
    assert!(validate_note_name("note..md").is_ok());
    assert!(validate_note_name("folder/../subfolder/note.md").is_err());
    assert!(validate_note_name("folder/file.txt").is_ok());
    assert!(validate_note_name("a/b/c/file.txt").is_ok());
}

#[test]
fn tests_test_security_critical_functions_integration() {
    assert!(validate_note_name("test-note.md").is_ok());
    assert!(validate_note_name("../../../secret.txt").is_err());

    let error_msg = validate_note_name("../../../secret.txt").unwrap_err();
    assert!(error_msg.message().contains("Path traversal not allowed"));
}

#[test]
fn validation_test_validate_note_name_valid_names() {
    assert!(validate_note_name("note.md").is_ok());
    assert!(validate_note_name("my-note.txt").is_ok());
    assert!(validate_note_name("folder/note.md").is_ok());
    assert!(validate_note_name("deep/folder/structure/note.md").is_ok());
    assert!(validate_note_name("note_with_underscores.md").is_ok());
    assert!(validate_note_name("123-numbers.md").is_ok());
}

#[test]
fn validation_test_validate_note_name_path_traversal_attacks() {
    assert!(validate_note_name("../secret.txt").is_err());
    assert!(validate_note_name("folder/../secret.txt").is_err());
    assert!(validate_note_name("../../etc/passwd").is_err());
    assert!(validate_note_name("folder/../../secret.txt").is_err());
    assert!(validate_note_name("../../../root.txt").is_err());
}

#[test]
fn validation_test_validate_note_name_absolute_paths() {
    assert!(validate_note_name("/etc/passwd").is_err());
    assert!(validate_note_name("/home/user/secret.txt").is_err());
    assert!(validate_note_name("/tmp/malicious.sh").is_err());
    assert!(validate_note_name("C:\\Windows\\System32\\config").is_err());
    assert!(validate_note_name("D:\\secrets\\file.txt").is_err());
}

#[test]
fn validation_test_validate_note_name_backslash_rejection() {
    assert!(validate_note_name("folder\\note.txt").is_err());
    assert!(validate_note_name("deep\\folder\\note.md").is_err());
    assert!(validate_note_name("note\\..\\secret.txt").is_err());
}

#[test]
fn validation_test_validate_note_name_hidden_files() {
    assert!(validate_note_name(".hidden").is_err());
    assert!(validate_note_name(".config").is_err());
    assert!(validate_note_name(".ssh/id_rsa").is_err());
    assert!(validate_note_name("folder/.hidden").is_ok());
}

#[test]
fn validation_test_validate_note_name_empty_and_whitespace() {
    let whitespace_variants = vec![
        "",
        "   ",
        "\t",
        "\n",
        "\r",
        "\r\n",
        "\t\t\t",
        "\n\n\n",
        "  \t  \n  ",
        " \t \n \r ",
    ];

    for variant in whitespace_variants {
        assert!(validate_note_name(variant).is_err());
    }
}

#[test]
fn validation_test_validate_note_name_length_limits() {
    assert!(validate_note_name(&"a".repeat(256)).is_err());
    assert!(validate_note_name(&"a".repeat(255)).is_ok());
    assert!(validate_note_name(&"a".repeat(254)).is_ok());
}

#[test]
fn validation_test_validate_note_name_edge_cases() {
    assert!(validate_note_name("../").is_err());
    assert!(validate_note_name("./").is_err());
    assert!(validate_note_name("note..md").is_ok());
    assert!(validate_note_name("folder/../subfolder/note.md").is_err());
    assert!(validate_note_name("folder/file.txt").is_ok());
    assert!(validate_note_name("a/b/c/file.txt").is_ok());
}

#[test]
fn validation_test_security_critical_functions_integration() {
    assert!(validate_note_name("test-note.md").is_ok());
    assert!(validate_note_name("../../../secret.txt").is_err());

    let error_msg = validate_note_name("../../../secret.txt").unwrap_err();
    assert!(error_msg.message().contains("Path traversal not allowed"));
}

#[test]
fn tests_test_error_message_quality() {
    let long_name = "a".repeat(256);
    let test_cases = vec![
        ("", "Note name cannot be empty"),
        ("../secret", "Path traversal not allowed"),
        (".hidden", "Note name cannot start with a dot"),
        (long_name.as_str(), "Note name too long"),
        ("file\\path", "Invalid note name"),
    ];

    for (input, expected_error_content) in test_cases {
        let error_msg = validate_note_name(input).unwrap_err().message();
        assert!(error_msg.contains(expected_error_content));

        if input.len() > 10 {
            assert!(!error_msg.contains(input));
        }
    }
}

#[test]
fn tests_test_function_input_bounds() {
    assert!(validate_note_name(&"a".repeat(10000)).is_err());
    assert!(validate_note_name("note-测试-🦀.md").is_ok());
}

#[test]
fn error_handling_test_error_message_quality() {
    let long_name = "a".repeat(256);
    let test_cases = vec![
        ("", "Note name cannot be empty"),
        ("../secret", "Path traversal not allowed"),
        (".hidden", "Note name cannot start with a dot"),
        (long_name.as_str(), "Note name too long"),
        ("file\\path", "Invalid note name"),
    ];

    for (input, expected_error_content) in test_cases {
        let error_msg = validate_note_name(input).unwrap_err().message();
        assert!(error_msg.contains(expected_error_content));

        if input.len() > 10 {
            assert!(!error_msg.contains(input));
        }
    }
}

#[test]
fn error_handling_test_function_input_bounds() {
    assert!(validate_note_name(&"a".repeat(10000)).is_err());
    assert!(validate_note_name("note-测试-🦀.md").is_ok());
}

#[test]
fn tests_test_path_traversal_variations() {
    let rejected_patterns = vec![
        "../",
        "folder/../file",
        "..\\/",
        "../\\/",
        "....\\\\",
        "...\\/...\\/",
    ];

    for pattern in rejected_patterns {
        assert!(validate_note_name(pattern).is_err());
    }
}

#[test]
fn tests_test_filename_injection_attempts() {
    let rejected_names = vec![
        "../etc/passwd",
        "../../../root",
        "C:\\Windows\\System32\\config",
        "/dev/null",
        "/proc/self/mem",
        "\\\\server\\share\\file",
    ];

    for name in rejected_names {
        assert!(validate_note_name(name).is_err());
    }
}

#[test]
fn security_test_path_traversal_variations() {
    let rejected_patterns = vec![
        "../",
        "folder/../file",
        "..\\/",
        "../\\/",
        "....\\\\",
        "...\\/...\\/",
    ];

    for pattern in rejected_patterns {
        assert!(validate_note_name(pattern).is_err());
    }
}

#[test]
fn security_test_filename_injection_attempts() {
    let rejected_names = vec![
        "../etc/passwd",
        "../../../root",
        "C:\\Windows\\System32\\config",
        "/dev/null",
        "/proc/self/mem",
        "\\\\server\\share\\file",
    ];

    for name in rejected_names {
        assert!(validate_note_name(name).is_err());
    }
}

#[test]
fn loaded_configuration_passes_every_section_check() {
    let text = "notes_directory = \"/tmp/sym/notes\"\n\n[interface]\nui_theme = \"no-such-theme\"\nfont_size = 400\n\n[editor]\nmode = \"emacs-ish\"\ntab_size = 0\n\n[shortcuts]\ncreate_note = \"Ctrl++\"\n\n[preferences]\nmax_search_results = 0\n";
    let config = load_config_from_content(text);
    assert!(validate_interface_config(&config.interface).is_ok());
    assert!(validate_editor_config(&config.editor).is_ok());
    assert!(validate_shortcuts_config(&config.shortcuts).is_ok());
    assert!(validate_preferences_config(&config.preferences).is_ok());
    assert!(validate_shortcut_format(&config.global_shortcut).is_ok());
    assert_eq!(
        validate_config(&config).is_ok(),
        validate_notes_directory(&config.notes_directory).is_ok()
    );
}
