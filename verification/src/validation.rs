//! Checks on note names, directories, shortcuts and configuration sections.
use vstd::prelude::*;
use vstd::utf8::encode_utf8;
use crate::errors::{AppError, AppErrorView, result_view};
use crate::text::{chars_of, chars_equal, concat2, concat3, contains_chars, is_blank, is_blank_chars, owned, seq_contains, seq_starts_with, starts_with_chars};
use crate::config::{
    AppConfig, EditorConfig, GeneralConfig, InterfaceConfig, PreferencesConfig, ShortcutsConfig,
    code_theme_names, editor_mode_names, editor_theme_names, get_available_code_themes,
    get_available_editor_modes, get_available_editor_themes, get_available_markdown_themes,
    get_available_ui_themes, join_names, join_with, list_contains, markdown_theme_names,
    parse_shortcut, shortcut_parses, ui_theme_names,
};

verus! {

// ---------------------------------------------------------------------------------------
// Note names
// ---------------------------------------------------------------------------------------

/// `s` has a `..` component: a `..` bounded on each side by a `/` or an end of the text,
/// which is where `Path::components` yields `Component::ParentDir` on Unix.
pub open spec fn has_parent_component(s: Seq<char>) -> bool {
    exists|i: int| parent_component_at(s, i)
}

/// A `..` component of `s` starts at position `i`.
pub open spec fn parent_component_at(s: Seq<char>, i: int) -> bool {
    0 <= i && i + 2 <= s.len() && s[i] == '.' && s[i + 1] == '.' && (i == 0 || s[i - 1] == '/')
        && (i + 2 == s.len() || s[i + 2] == '/')
}

/// `s` holds the character `c`.
pub open spec fn has_char(s: Seq<char>, c: char) -> bool {
    exists|i: int| 0 <= i < s.len() && s[i] == c
}

/// The verdict on a note name, checked in this order: blank, a `..` component, a
/// backslash, an absolute path, a leading dot, more than 255 bytes in UTF-8.
pub open spec fn note_name_check(s: Seq<char>) -> Result<(), AppErrorView> {
    if is_blank(s) {
        Err(AppErrorView::InvalidNoteName("Note name cannot be empty"@))
    } else if has_parent_component(s) {
        Err(AppErrorView::PathTraversal)
    } else if has_char(s, '\\') {
        Err(AppErrorView::InvalidNoteName("Invalid note name"@))
    } else if s.len() > 0 && s[0] == '/' {
        Err(AppErrorView::InvalidNoteName("Absolute paths not allowed"@))
    } else if s.len() > 0 && s[0] == '.' {
        Err(AppErrorView::InvalidNoteName("Note name cannot start with a dot"@))
    } else if encode_utf8(s).len() > 255 {
        Err(AppErrorView::InvalidNoteName("Note name too long"@))
    } else {
        Ok(())
    }
}

fn has_parent_component_chars(s: &Vec<char>) -> (r: bool)
    ensures
        r == has_parent_component(s@),
{
    let n = s.len();
    if n < 2 {
        return false;
    }
    let mut i: usize = 0;
    while i < n - 1
        invariant
            n == s.len(),
            2 <= n,
            i <= n - 1,
            forall|j: int| 0 <= j < i ==> !parent_component_at(s@, j),
        decreases n - i,
    {
        if s[i] == '.' && s[i + 1] == '.' && (i == 0 || s[i - 1] == '/') && (i + 2 == n || s[i
            + 2] == '/') {
            assert(parent_component_at(s@, i as int));
            return true;
        }
        i += 1;
    }
    assert forall|j: int| !parent_component_at(s@, j) by {
        if 0 <= j < i {
        }
    }
    false
}

fn has_char_chars(s: &Vec<char>, c: char) -> (r: bool)
    ensures
        r == has_char(s@, c),
{
    let mut i: usize = 0;
    while i < s.len()
        invariant
            i <= s.len(),
            forall|j: int| 0 <= j < i ==> s@[j] != c,
        decreases s.len() - i,
    {
        if s[i] == c {
            return true;
        }
        i += 1;
    }
    false
}

/// Checks a note name before it is joined to the notes directory.
pub fn validate_note_name(note_name: &str) -> (r: Result<(), AppError>)
    ensures
        result_view(r) == note_name_check(note_name@),
{
    let s = chars_of(note_name);
    if is_blank_chars(&s) {
        return Err(AppError::InvalidNoteName(owned("Note name cannot be empty")));
    }
    if has_parent_component_chars(&s) {
        return Err(AppError::PathTraversal);
    }
    if has_char_chars(&s, '\\') {
        return Err(AppError::InvalidNoteName(owned("Invalid note name")));
    }
    if s.len() > 0 && s[0] == '/' {
        return Err(AppError::InvalidNoteName(owned("Absolute paths not allowed")));
    }
    if s.len() > 0 && s[0] == '.' {
        return Err(AppError::InvalidNoteName(owned("Note name cannot start with a dot")));
    }
    if note_name.as_bytes().len() > 255 {
        return Err(AppError::InvalidNoteName(owned("Note name too long")));
    }
    Ok(())
}

// ---------------------------------------------------------------------------------------
// Notes directory
// ---------------------------------------------------------------------------------------

/// Directories under which notes may not be kept.
pub open spec fn system_directory_prefixes() -> Seq<Seq<char>> {
    seq![
        "/etc"@,
        "/root"@,
        "/sys"@,
        "/proc"@,
        "/dev"@,
        "C:\\Windows"@,
        "C:\\System32"@,
        "/System"@,
        "/Library/System"@,
    ]
}

/// `dir` starts with one of the system directories.
pub open spec fn under_system_directory(dir: Seq<char>) -> bool {
    exists|k: int|
        0 <= k < system_directory_prefixes().len() && seq_starts_with(
            dir,
            #[trigger] system_directory_prefixes()[k],
        )
}

/// The verdict on a notes directory.
pub open spec fn notes_directory_check(dir: Seq<char>) -> Result<(), AppErrorView> {
    if is_blank(dir) {
        Err(AppErrorView::ConfigLoad("Notes directory cannot be empty"@))
    } else if dir == "/"@ || dir == "C:\\"@ {
        Err(AppErrorView::ConfigLoad("Cannot use filesystem root as notes directory: "@ + dir))
    } else if dir == "/home"@ || dir == "/Users"@ || dir == "C:\\Users"@ {
        Err(
            AppErrorView::ConfigLoad(
                "Cannot use broad user directory as notes directory: "@ + dir
                    + ". Use a specific subdirectory instead."@,
            ),
        )
    } else if under_system_directory(dir) {
        Err(AppErrorView::ConfigLoad("Cannot use system directory: "@ + dir))
    } else {
        Ok(())
    }
}

fn equals_literal(s: &Vec<char>, lit: &str) -> (r: bool)
    ensures
        r == (s@ == lit@),
{
    let l = chars_of(lit);
    chars_equal(s, &l)
}

fn starts_with_literal(s: &Vec<char>, lit: &str) -> (r: bool)
    ensures
        r == seq_starts_with(s@, lit@),
{
    let l = chars_of(lit);
    starts_with_chars(s, &l)
}

/// Checks a directory before notes are kept in it: not blank, not a filesystem root, not a
/// directory that holds every user's home, not under a system directory.
pub fn validate_notes_directory(dir: &str) -> (r: Result<(), AppError>)
    ensures
        result_view(r) == notes_directory_check(dir@),
{
    let s = chars_of(dir);
    if is_blank_chars(&s) {
        return Err(AppError::ConfigLoad(owned("Notes directory cannot be empty")));
    }
    if equals_literal(&s, "/") || equals_literal(&s, "C:\\") {
        return Err(
            AppError::ConfigLoad(concat2("Cannot use filesystem root as notes directory: ", dir)),
        );
    }
    if equals_literal(&s, "/home") || equals_literal(&s, "/Users") || equals_literal(&s, "C:\\Users") {
        return Err(
            AppError::ConfigLoad(
                concat3(
                    "Cannot use broad user directory as notes directory: ",
                    dir,
                    ". Use a specific subdirectory instead.",
                ),
            ),
        );
    }
    let mut prefixes: Vec<&str> = Vec::new();
    prefixes.push("/etc");
    prefixes.push("/root");
    prefixes.push("/sys");
    prefixes.push("/proc");
    prefixes.push("/dev");
    prefixes.push("C:\\Windows");
    prefixes.push("C:\\System32");
    prefixes.push("/System");
    prefixes.push("/Library/System");
    assert(prefixes@.map_values(|p: &str| p@) =~= system_directory_prefixes());
    let mut k: usize = 0;
    while k < prefixes.len()
        invariant
            k <= prefixes.len(),
            s@ == dir@,
            !is_blank(dir@),
            !(dir@ == "/"@ || dir@ == "C:\\"@),
            !(dir@ == "/home"@ || dir@ == "/Users"@ || dir@ == "C:\\Users"@),
            prefixes@.map_values(|p: &str| p@) == system_directory_prefixes(),
            forall|j: int| 0 <= j < k ==> !seq_starts_with(dir@, #[trigger] system_directory_prefixes()[j]),
        decreases prefixes.len() - k,
    {
        if starts_with_literal(&s, prefixes[k]) {
            assert(system_directory_prefixes()[k as int] == prefixes@[k as int]@);
            assert(under_system_directory(dir@));
            return Err(AppError::ConfigLoad(concat2("Cannot use system directory: ", dir)));
        }
        assert(system_directory_prefixes()[k as int] == prefixes@[k as int]@);
        k += 1;
    }
    Ok(())
}

// ---------------------------------------------------------------------------------------
// Shortcuts
// ---------------------------------------------------------------------------------------

/// A shortcut's text has the form `a+b+...`: not blank, no empty part between two `+`,
/// no `+` at either end.
pub open spec fn basic_shortcut_check(s: Seq<char>) -> Result<(), AppErrorView> {
    if is_blank(s) {
        Err(AppErrorView::ConfigLoad("Shortcut cannot be empty"@))
    } else if seq_contains(s, "++"@) || (s.len() > 0 && s[0] == '+') || (s.len() > 0 && s.last()
        == '+') {
        Err(AppErrorView::ConfigLoad("Invalid shortcut format"@))
    } else {
        Ok(())
    }
}

/// A global shortcut has the basic form and is one the shortcut parser accepts.
pub open spec fn shortcut_check(s: Seq<char>) -> Result<(), AppErrorView> {
    if basic_shortcut_check(s) is Err {
        basic_shortcut_check(s)
    } else if !shortcut_parses(s) {
        Err(AppErrorView::ConfigLoad("Invalid global shortcut format: '"@ + s + "'"@))
    } else {
        Ok(())
    }
}

/// Checks the form of a shortcut's text.
pub fn validate_basic_shortcut_format(shortcut: &str) -> (r: Result<(), AppError>)
    ensures
        result_view(r) == basic_shortcut_check(shortcut@),
{
    let s = chars_of(shortcut);
    if is_blank_chars(&s) {
        return Err(AppError::ConfigLoad(owned("Shortcut cannot be empty")));
    }
    let pp = chars_of("++");
    if contains_chars(&s, &pp) || (s.len() > 0 && s[0] == '+') || (s.len() > 0 && s[s.len() - 1]
        == '+') {
        return Err(AppError::ConfigLoad(owned("Invalid shortcut format")));
    }
    Ok(())
}

/// Checks a global shortcut: its form, then whether the shortcut parser accepts it.
pub fn validate_shortcut_format(shortcut: &str) -> (r: Result<(), AppError>)
    ensures
        result_view(r) == shortcut_check(shortcut@),
{
    let basic = validate_basic_shortcut_format(shortcut);
    if basic.is_err() {
        return basic;
    }
    match parse_shortcut(shortcut) {
        Some(_) => Ok(()),
        None => Err(
            AppError::ConfigLoad(concat3("Invalid global shortcut format: '", shortcut, "'")),
        ),
    }
}

// ---------------------------------------------------------------------------------------
// Configuration sections
// ---------------------------------------------------------------------------------------

/// The verdict on a font size: it must lie between 8 and 72 pixels.
pub open spec fn font_size_check(size: u16, context: Seq<char>) -> Result<(), AppErrorView> {
    if size < 8 || size > 72 {
        Err(AppErrorView::ConfigLoad(context + " must be between 8 and 72 pixels"@))
    } else {
        Ok(())
    }
}

/// Checks a font size.
pub fn validate_font_size(size: u16, context: &str) -> (r: Result<(), AppError>)
    ensures
        result_view(r) == font_size_check(size, context@),
{
    if size < 8 || size > 72 {
        return Err(AppError::ConfigLoad(concat2(context, " must be between 8 and 72 pixels")));
    }
    Ok(())
}

/// The general section has nothing to check.
pub fn validate_general_config(_general: &GeneralConfig) -> (r: Result<(), AppError>)
    ensures
        r is Ok,
{
    Ok(())
}

/// The verdict on the interface section: known UI theme, font sizes, known markdown theme,
/// known code theme, in that order.
pub open spec fn interface_check(i: InterfaceConfig) -> Result<(), AppErrorView> {
    if !ui_theme_names().contains(i.ui_theme@) {
        Err(
            AppErrorView::ConfigLoad(
                "Invalid UI theme '"@ + i.ui_theme@ + "'. Valid themes: "@ + join_with(
                    ui_theme_names(),
                    ", "@,
                ),
            ),
        )
    } else if font_size_check(i.font_size, "UI font size"@) is Err {
        font_size_check(i.font_size, "UI font size"@)
    } else if font_size_check(i.editor_font_size, "Editor font size"@) is Err {
        font_size_check(i.editor_font_size, "Editor font size"@)
    } else if !markdown_theme_names().contains(i.markdown_render_theme@) {
        Err(
            AppErrorView::ConfigLoad(
                "Invalid markdown render theme '"@ + i.markdown_render_theme@
                    + "'. Valid themes: "@ + join_with(markdown_theme_names(), ", "@),
            ),
        )
    } else if !code_theme_names().contains(i.md_render_code_theme@) {
        Err(
            AppErrorView::ConfigLoad(
                "Invalid markdown code theme '"@ + i.md_render_code_theme@ + "'. Valid themes: "@
                    + join_with(code_theme_names(), ", "@),
            ),
        )
    } else {
        Ok(())
    }
}

/// Checks the interface section.
pub fn validate_interface_config(interface: &InterfaceConfig) -> (r: Result<(), AppError>)
    ensures
        result_view(r) == interface_check(*interface),
{
    let ui = get_available_ui_themes();
    if !list_contains(&ui, interface.ui_theme.as_str()) {
        let mut m = concat3("Invalid UI theme '", interface.ui_theme.as_str(), "'. Valid themes: ");
        let list = join_names(&ui, ", ");
        m.append(list.as_str());
        return Err(AppError::ConfigLoad(m));
    }
    let r = validate_font_size(interface.font_size, "UI font size");
    if r.is_err() {
        return r;
    }
    let r = validate_font_size(interface.editor_font_size, "Editor font size");
    if r.is_err() {
        return r;
    }
    let md = get_available_markdown_themes();
    if !list_contains(&md, interface.markdown_render_theme.as_str()) {
        let mut m = concat3(
            "Invalid markdown render theme '",
            interface.markdown_render_theme.as_str(),
            "'. Valid themes: ",
        );
        let list = join_names(&md, ", ");
        m.append(list.as_str());
        return Err(AppError::ConfigLoad(m));
    }
    let code = get_available_code_themes();
    if !list_contains(&code, interface.md_render_code_theme.as_str()) {
        let mut m = concat3(
            "Invalid markdown code theme '",
            interface.md_render_code_theme.as_str(),
            "'. Valid themes: ",
        );
        let list = join_names(&code, ", ");
        m.append(list.as_str());
        return Err(AppError::ConfigLoad(m));
    }
    Ok(())
}

/// The shortcuts that are checked, in the order they are checked.
pub open spec fn checked_shortcuts(s: ShortcutsConfig) -> Seq<Seq<char>> {
    seq![
        s.create_note@,
        s.rename_note@,
        s.delete_note@,
        s.edit_note@,
        s.save_and_exit@,
        s.open_external@,
        s.open_folder@,
        s.refresh_cache@,
        s.scroll_up@,
        s.scroll_down@,
        s.up@,
        s.down@,
        s.navigate_previous@,
        s.navigate_next@,
        s.open_settings@,
        s.version_explorer@,
        s.recently_deleted@,
    ]
}

/// The first failed check among `shortcuts`, or success.
pub open spec fn first_shortcut_failure(shortcuts: Seq<Seq<char>>) -> Result<(), AppErrorView>
    decreases shortcuts.len(),
{
    if shortcuts.len() == 0 {
        Ok(())
    } else if basic_shortcut_check(shortcuts[0]) is Err {
        basic_shortcut_check(shortcuts[0])
    } else {
        first_shortcut_failure(shortcuts.drop_first())
    }
}

/// Checks the form of each shortcut that the editor binds.
pub fn validate_shortcuts_config(shortcuts: &ShortcutsConfig) -> (r: Result<(), AppError>)
    ensures
        result_view(r) == first_shortcut_failure(checked_shortcuts(*shortcuts)),
{
    let mut all: Vec<&str> = Vec::new();
    all.push(shortcuts.create_note.as_str());
    all.push(shortcuts.rename_note.as_str());
    all.push(shortcuts.delete_note.as_str());
    all.push(shortcuts.edit_note.as_str());
    all.push(shortcuts.save_and_exit.as_str());
    all.push(shortcuts.open_external.as_str());
    all.push(shortcuts.open_folder.as_str());
    all.push(shortcuts.refresh_cache.as_str());
    all.push(shortcuts.scroll_up.as_str());
    all.push(shortcuts.scroll_down.as_str());
    all.push(shortcuts.up.as_str());
    all.push(shortcuts.down.as_str());
    all.push(shortcuts.navigate_previous.as_str());
    all.push(shortcuts.navigate_next.as_str());
    all.push(shortcuts.open_settings.as_str());
    all.push(shortcuts.version_explorer.as_str());
    all.push(shortcuts.recently_deleted.as_str());
    let ghost names = checked_shortcuts(*shortcuts);
    assert(all@.map_values(|p: &str| p@) =~= names);
    let mut k: usize = 0;
    assert(names.skip(0) =~= names);
    while k < all.len()
        invariant
            k <= all.len(),
            names.len() == all.len(),
            names == checked_shortcuts(*shortcuts),
            all@.map_values(|p: &str| p@) == names,
            first_shortcut_failure(names) == first_shortcut_failure(names.skip(k as int)),
        decreases all.len() - k,
    {
        assert(names.skip(k as int).len() > 0);
        assert(names.skip(k as int)[0] == all@[k as int]@);
        assert(names.skip(k as int).drop_first() =~= names.skip(k + 1));
        let r = validate_basic_shortcut_format(all[k]);
        if r.is_err() {
            return r;
        }
        k += 1;
    }
    assert(names.skip(k as int).len() == 0);
    Ok(())
}

/// The verdict on the editor section: known mode, known theme, tab size 1 to 16.
pub open spec fn editor_check(e: EditorConfig) -> Result<(), AppErrorView> {
    if !editor_mode_names().contains(e.mode@) {
        Err(
            AppErrorView::ConfigLoad(
                "Invalid editor mode '"@ + e.mode@ + "'. Valid modes: "@ + join_with(
                    editor_mode_names(),
                    ", "@,
                ),
            ),
        )
    } else if !editor_theme_names().contains(e.theme@) {
        Err(
            AppErrorView::ConfigLoad(
                "Invalid editor theme '"@ + e.theme@ + "'. Valid themes: "@ + join_with(
                    editor_theme_names(),
                    ", "@,
                ),
            ),
        )
    } else if e.tab_size == 0 || e.tab_size > 16 {
        Err(AppErrorView::ConfigLoad("Tab size must be between 1 and 16"@))
    } else {
        Ok(())
    }
}

/// Checks the editor section.
pub fn validate_editor_config(editor: &EditorConfig) -> (r: Result<(), AppError>)
    ensures
        result_view(r) == editor_check(*editor),
{
    let modes = get_available_editor_modes();
    if !list_contains(&modes, editor.mode.as_str()) {
        let mut m = concat3("Invalid editor mode '", editor.mode.as_str(), "'. Valid modes: ");
        let list = join_names(&modes, ", ");
        m.append(list.as_str());
        return Err(AppError::ConfigLoad(m));
    }
    let themes = get_available_editor_themes();
    if !list_contains(&themes, editor.theme.as_str()) {
        let mut m = concat3("Invalid editor theme '", editor.theme.as_str(), "'. Valid themes: ");
        let list = join_names(&themes, ", ");
        m.append(list.as_str());
        return Err(AppError::ConfigLoad(m));
    }
    if editor.tab_size == 0 || editor.tab_size > 16 {
        return Err(AppError::ConfigLoad(owned("Tab size must be between 1 and 16")));
    }
    Ok(())
}

/// The verdict on the preferences section: between 1 and 10000 search results.
pub open spec fn preferences_check(p: PreferencesConfig) -> Result<(), AppErrorView> {
    if p.max_search_results == 0 {
        Err(AppErrorView::ConfigLoad("Max search results must be greater than 0"@))
    } else if p.max_search_results > 10000 {
        Err(AppErrorView::ConfigLoad("Max search results too large (max: 10000)"@))
    } else {
        Ok(())
    }
}

/// Checks the preferences section.
pub fn validate_preferences_config(preferences: &PreferencesConfig) -> (r: Result<(), AppError>)
    ensures
        result_view(r) == preferences_check(*preferences),
{
    if preferences.max_search_results == 0 {
        return Err(AppError::ConfigLoad(owned("Max search results must be greater than 0")));
    }
    if preferences.max_search_results > 10000 {
        return Err(AppError::ConfigLoad(owned("Max search results too large (max: 10000)")));
    }
    Ok(())
}

/// The verdict on a whole configuration: the first section that fails, checked in the
/// order notes directory, global shortcut, interface, editor, shortcuts, preferences.
pub open spec fn config_check(c: AppConfig) -> Result<(), AppErrorView> {
    if notes_directory_check(c.notes_directory@) is Err {
        notes_directory_check(c.notes_directory@)
    } else if shortcut_check(c.global_shortcut@) is Err {
        shortcut_check(c.global_shortcut@)
    } else if interface_check(c.interface) is Err {
        interface_check(c.interface)
    } else if editor_check(c.editor) is Err {
        editor_check(c.editor)
    } else if first_shortcut_failure(checked_shortcuts(c.shortcuts)) is Err {
        first_shortcut_failure(checked_shortcuts(c.shortcuts))
    } else {
        preferences_check(c.preferences)
    }
}

/// Checks a whole configuration.
pub fn validate_config(config: &AppConfig) -> (r: Result<(), AppError>)
    ensures
        result_view(r) == config_check(*config),
{
    let r = validate_notes_directory(config.notes_directory.as_str());
    if r.is_err() {
        return r;
    }
    let r = validate_shortcut_format(config.global_shortcut.as_str());
    if r.is_err() {
        return r;
    }
    let r = validate_general_config(&config.general);
    if r.is_err() {
        return r;
    }
    let r = validate_interface_config(&config.interface);
    if r.is_err() {
        return r;
    }
    let r = validate_editor_config(&config.editor);
    if r.is_err() {
        return r;
    }
    let r = validate_shortcuts_config(&config.shortcuts);
    if r.is_err() {
        return r;
    }
    validate_preferences_config(&config.preferences)
}

/// The message for a configuration text that is not TOML, or in which a setting is not of
/// its type.
pub open spec fn config_types_message(content: Seq<char>) -> Seq<char> {
    if !crate::config::toml_parses(content) {
        "Invalid configuration: the text is not valid TOML"@
    } else {
        "Invalid configuration: a setting does not have its type"@
    }
}

/// The verdict on a configuration text before it is saved. The text must be TOML in which
/// every setting present has its type (see [`crate::config::config_types_ok`]); the
/// configuration read out of it must then pass [`validate_config`]. The configuration is
/// read as [`crate::config::load_config_from_content`] reads it, with the default notes
/// directory standing in where the text names none.
pub fn validate_config_content(content: &str) -> (r: Result<(), String>)
    ensures
        !crate::config::config_types_ok(content@) ==> (r matches Err(m) && m@ == config_types_message(content@)),
        crate::config::config_types_ok(content@) ==> exists|c: AppConfig, h: Option<Seq<char>>| #[trigger] crate::config::config_from(
            c,
            content@,
            crate::paths::default_notes_dir_spec(h),
        ) && match r {
            Ok(_) => config_check(c) is Ok,
            Err(m) => config_check(c) matches Err(e) && m@ == "Configuration validation failed: "@ + crate::errors::error_text(e),
        },
{
    if !crate::config::check_config_types(content) {
        if !crate::config::toml_document_parses(content) {
            return Err(owned("Invalid configuration: the text is not valid TOML"));
        }
        return Err(owned("Invalid configuration: a setting does not have its type"));
    }
    let default_dir = crate::paths::get_default_notes_dir();
    let config = crate::config::config_from_content(content, default_dir.as_str());
    proof {
        reveal_strlit("Configuration validation failed: ");
    }
    match validate_config(&config) {
        Ok(()) => Ok(()),
        Err(e) => Err(concat2("Configuration validation failed: ", e.message().as_str())),
    }
}

} // verus!
