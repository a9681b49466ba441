//! The application's configuration: its sections, their defaults, the lists of values
//! that a setting may take, and reading a configuration out of TOML text.
use vstd::prelude::*;
use crate::text::{chars_of, chars_equal, owned};
use crate::validation::{
    basic_shortcut_check, checked_shortcuts, config_check, editor_check, first_shortcut_failure,
    interface_check, notes_directory_check, preferences_check, shortcut_check,
    validate_basic_shortcut_format, validate_notes_directory, validate_shortcut_format,
};
use crate::paths::{get_default_notes_dir, path_components, same_path};

verus! {

/// General behaviour. `scroll_amount_percent` is the share of the viewport height that one
/// scroll step moves, in percent.
#[derive(Debug, Clone)]
pub struct GeneralConfig {
    pub scroll_amount_percent: u32,
}

/// Appearance of the user interface.
#[derive(Debug, Clone)]
pub struct InterfaceConfig {
    pub ui_theme: String,
    pub font_family: String,
    pub font_size: u16,
    pub editor_font_family: String,
    pub editor_font_size: u16,
    pub markdown_render_theme: String,
    pub md_render_code_theme: String,
    pub always_on_top: bool,
    pub window_decorations: bool,
    pub custom_ui_theme_path: Option<String>,
    pub custom_markdown_theme_path: Option<String>,
}

/// Keyboard shortcuts, one per action.
#[derive(Debug, Clone)]
pub struct ShortcutsConfig {
    pub create_note: String,
    pub rename_note: String,
    pub delete_note: String,
    pub edit_note: String,
    pub save_and_exit: String,
    pub open_external: String,
    pub open_folder: String,
    pub refresh_cache: String,
    pub scroll_up: String,
    pub scroll_down: String,
    pub up: String,
    pub down: String,
    pub navigate_previous: String,
    pub navigate_next: String,
    pub navigate_code_previous: String,
    pub navigate_code_next: String,
    pub navigate_link_previous: String,
    pub navigate_link_next: String,
    pub copy_current_section: String,
    pub open_settings: String,
    pub version_explorer: String,
    pub recently_deleted: String,
}

/// Search preferences.
#[derive(Debug, Clone)]
pub struct PreferencesConfig {
    pub max_search_results: usize,
}

/// Editor behaviour.
#[derive(Debug, Clone)]
pub struct EditorConfig {
    pub mode: String,
    pub theme: String,
    pub word_wrap: bool,
    pub tab_size: u16,
    pub expand_tabs: bool,
    pub show_line_numbers: bool,
}

/// The whole configuration.
#[derive(Debug, Clone)]
pub struct AppConfig {
    pub notes_directory: String,
    pub global_shortcut: String,
    pub general: GeneralConfig,
    pub interface: InterfaceConfig,
    pub editor: EditorConfig,
    pub shortcuts: ShortcutsConfig,
    pub preferences: PreferencesConfig,
}

/// How a reload of the configuration affects the notes directory.
#[derive(Debug, Clone, Copy, PartialEq, Eq, Structural)]
pub enum ConfigReloadResult {
    Unchanged,
    NotesDirChanged,
}

// ---------------------------------------------------------------------------------------
// Lists of accepted values
// ---------------------------------------------------------------------------------------

/// The names that a list of string slices holds.
pub open spec fn names_of(v: Seq<&str>) -> Seq<Seq<char>> {
    v.map_values(|s: &str| s@)
}

pub open spec fn ui_theme_names() -> Seq<Seq<char>> {
    seq!["gruvbox-dark"@, "one-dark"@]
}

pub open spec fn markdown_theme_names() -> Seq<Seq<char>> {
    seq![
        "light"@,
        "dark"@,
        "dark_dimmed"@,
        "auto"@,
        "modern_dark"@,
        "article"@,
        "gruvbox"@,
        "dark_high_contrast"@,
    ]
}

pub open spec fn editor_mode_names() -> Seq<Seq<char>> {
    seq!["basic"@, "vim"@, "emacs"@]
}

pub open spec fn editor_theme_names() -> Seq<Seq<char>> {
    seq![
        "abcdef"@,
        "abyss"@,
        "android-studio"@,
        "andromeda"@,
        "basic-dark"@,
        "basic-light"@,
        "forest"@,
        "github-dark"@,
        "github-light"@,
        "gruvbox-dark"@,
        "gruvbox-light"@,
        "material-dark"@,
        "material-light"@,
        "monokai"@,
        "nord"@,
        "palenight"@,
        "solarized-dark"@,
        "solarized-light"@,
        "tokyo-night-day"@,
        "tokyo-night-storm"@,
        "volcano"@,
        "vscode-dark"@,
        "vscode-light"@,
    ]
}

pub open spec fn code_theme_names() -> Seq<Seq<char>> {
    seq![
        "gruvbox-dark-hard"@,
        "gruvbox-dark-medium"@,
        "gruvbox-dark-soft"@,
        "gruvbox-light-hard"@,
        "gruvbox-light-medium"@,
        "atom-one-dark"@,
        "dracula"@,
        "nord"@,
        "monokai"@,
        "github-dark"@,
        "vs2015"@,
        "night-owl"@,
        "tokyo-night-dark"@,
        "atom-one-light"@,
        "github"@,
        "vs"@,
        "xcode"@,
        "tokyo-night-light"@,
        "base16-tomorrow-night"@,
        "base16-ocean"@,
        "base16-solarized-dark"@,
        "base16-solarized-light"@,
        "base16-monokai"@,
        "base16-dracula"@,
    ]
}

/// The number of search results when none is configured.
pub fn default_max_results() -> (r: usize)
    ensures
        r == 100,
{
    100
}

/// The global shortcut when none is configured.
pub fn default_global_shortcut() -> (r: String)
    ensures
        r@ == "Ctrl+Shift+N"@,
{
    owned("Ctrl+Shift+N")
}

/// Whether windows are decorated when nothing is configured.
pub fn default_window_decorations() -> (r: bool)
    ensures
        r,
{
    true
}

/// The user-interface themes.
pub fn get_available_ui_themes() -> (r: Vec<&'static str>)
    ensures
        names_of(r@) == ui_theme_names(),
{
    let mut v: Vec<&'static str> = Vec::new();
    v.push("gruvbox-dark");
    v.push("one-dark");
    assert(names_of(v@) =~= ui_theme_names());
    v
}

/// The themes for rendered markdown.
pub fn get_available_markdown_themes() -> (r: Vec<&'static str>)
    ensures
        names_of(r@) == markdown_theme_names(),
{
    let mut v: Vec<&'static str> = Vec::new();
    v.push("light");
    v.push("dark");
    v.push("dark_dimmed");
    v.push("auto");
    v.push("modern_dark");
    v.push("article");
    v.push("gruvbox");
    v.push("dark_high_contrast");
    assert(names_of(v@) =~= markdown_theme_names());
    v
}

/// The editor's key-binding modes.
pub fn get_available_editor_modes() -> (r: Vec<&'static str>)
    ensures
        names_of(r@) == editor_mode_names(),
{
    let mut v: Vec<&'static str> = Vec::new();
    v.push("basic");
    v.push("vim");
    v.push("emacs");
    assert(names_of(v@) =~= editor_mode_names());
    v
}

/// The editor's colour themes.
pub fn get_available_editor_themes() -> (r: Vec<&'static str>)
    ensures
        names_of(r@) == editor_theme_names(),
{
    let mut v: Vec<&'static str> = Vec::new();
    v.push("abcdef");
    v.push("abyss");
    v.push("android-studio");
    v.push("andromeda");
    v.push("basic-dark");
    v.push("basic-light");
    v.push("forest");
    v.push("github-dark");
    v.push("github-light");
    v.push("gruvbox-dark");
    v.push("gruvbox-light");
    v.push("material-dark");
    v.push("material-light");
    v.push("monokai");
    v.push("nord");
    v.push("palenight");
    v.push("solarized-dark");
    v.push("solarized-light");
    v.push("tokyo-night-day");
    v.push("tokyo-night-storm");
    v.push("volcano");
    v.push("vscode-dark");
    v.push("vscode-light");
    assert(names_of(v@) =~= editor_theme_names());
    v
}

/// The syntax-highlighting themes for code blocks.
pub fn get_available_code_themes() -> (r: Vec<&'static str>)
    ensures
        names_of(r@) == code_theme_names(),
{
    let mut v: Vec<&'static str> = Vec::new();
    v.push("gruvbox-dark-hard");
    v.push("gruvbox-dark-medium");
    v.push("gruvbox-dark-soft");
    v.push("gruvbox-light-hard");
    v.push("gruvbox-light-medium");
    v.push("atom-one-dark");
    v.push("dracula");
    v.push("nord");
    v.push("monokai");
    v.push("github-dark");
    v.push("vs2015");
    v.push("night-owl");
    v.push("tokyo-night-dark");
    v.push("atom-one-light");
    v.push("github");
    v.push("vs");
    v.push("xcode");
    v.push("tokyo-night-light");
    v.push("base16-tomorrow-night");
    v.push("base16-ocean");
    v.push("base16-solarized-dark");
    v.push("base16-solarized-light");
    v.push("base16-monokai");
    v.push("base16-dracula");
    assert(names_of(v@) =~= code_theme_names());
    v
}

/// Tests whether `name` is one of `list`.
pub fn list_contains(list: &Vec<&str>, name: &str) -> (r: bool)
    ensures
        r == names_of(list@).contains(name@),
{
    let target = chars_of(name);
    let mut i: usize = 0;
    while i < list.len()
        invariant
            i <= list.len(),
            target@ == name@,
            forall|j: int| 0 <= j < i ==> list@[j]@ != name@,
        decreases list.len() - i,
    {
        let candidate = chars_of(list[i]);
        if chars_equal(&candidate, &target) {
            assert(names_of(list@)[i as int] == name@);
            return true;
        }
        i += 1;
    }
    assert(!names_of(list@).contains(name@)) by {
        if names_of(list@).contains(name@) {
            let k = choose|k: int| 0 <= k < names_of(list@).len() && names_of(list@)[k] == name@;
            assert(list@[k]@ == name@);
        }
    }
    false
}

/// The parts of `parts` with `sep` between each two, as `join` builds them.
pub open spec fn join_with(parts: Seq<Seq<char>>, sep: Seq<char>) -> Seq<char>
    decreases parts.len(),
{
    if parts.len() == 0 {
        Seq::empty()
    } else if parts.len() == 1 {
        parts[0]
    } else {
        join_with(parts.drop_last(), sep) + sep + parts.last()
    }
}

/// Joins the names of a list with a separator, as `join` does.
pub fn join_names(list: &Vec<&str>, sep: &str) -> (r: String)
    ensures
        r@ == join_with(names_of(list@), sep@),
{
    let mut r = String::new();
    let mut i: usize = 0;
    while i < list.len()
        invariant
            i <= list.len(),
            r@ == join_with(names_of(list@).take(i as int), sep@),
        decreases list.len() - i,
    {
        if i > 0 {
            r.append(sep);
        }
        r.append(list[i]);
        assert(names_of(list@).take(i + 1).drop_last() =~= names_of(list@).take(i as int));
        i += 1;
    }
    assert(names_of(list@).take(list@.len() as int) =~= names_of(list@));
    r
}

// ---------------------------------------------------------------------------------------
// Defaults
// ---------------------------------------------------------------------------------------

/// The default shortcuts, in the order of the fields of [`ShortcutsConfig`].
pub open spec fn shortcuts_are_default(s: ShortcutsConfig) -> bool {
    &&& s.create_note@ == "Ctrl+Enter"@
    &&& s.rename_note@ == "Ctrl+m"@
    &&& s.delete_note@ == "Ctrl+x"@
    &&& s.edit_note@ == "Enter"@
    &&& s.save_and_exit@ == "Ctrl+s"@
    &&& s.open_external@ == "Ctrl+o"@
    &&& s.open_folder@ == "Ctrl+f"@
    &&& s.refresh_cache@ == "Ctrl+r"@
    &&& s.scroll_up@ == "Ctrl+u"@
    &&& s.scroll_down@ == "Ctrl+d"@
    &&& s.up@ == "Ctrl+k"@
    &&& s.down@ == "Ctrl+j"@
    &&& s.navigate_previous@ == "Ctrl+p"@
    &&& s.navigate_next@ == "Ctrl+n"@
    &&& s.navigate_code_previous@ == "Ctrl+Alt+h"@
    &&& s.navigate_code_next@ == "Ctrl+Alt+l"@
    &&& s.navigate_link_previous@ == "Ctrl+h"@
    &&& s.navigate_link_next@ == "Ctrl+l"@
    &&& s.copy_current_section@ == "Ctrl+y"@
    &&& s.open_settings@ == "Meta+,"@
    &&& s.version_explorer@ == "Ctrl+/"@
    &&& s.recently_deleted@ == "Ctrl+."@
}

pub open spec fn interface_is_default(i: InterfaceConfig) -> bool {
    &&& i.ui_theme@ == "gruvbox-dark"@
    &&& i.font_family@ == "Inter, sans-serif"@
    &&& i.font_size == 14
    &&& i.editor_font_family@ == "JetBrains Mono, Consolas, monospace"@
    &&& i.editor_font_size == 14
    &&& i.markdown_render_theme@ == "modern_dark"@
    &&& i.md_render_code_theme@ == "gruvbox-dark-medium"@
    &&& !i.always_on_top
    &&& i.window_decorations
    &&& i.custom_ui_theme_path is None
    &&& i.custom_markdown_theme_path is None
}

/// The text an optional string holds.
pub open spec fn opt_text(o: Option<String>) -> Option<Seq<char>> {
    match o {
        Some(s) => Some(s@),
        None => None,
    }
}

pub open spec fn editor_is_default(e: EditorConfig) -> bool {
    &&& e.mode@ == "basic"@
    &&& e.theme@ == "gruvbox-dark"@
    &&& e.word_wrap
    &&& e.tab_size == 2
    &&& e.expand_tabs
    &&& e.show_line_numbers
}

impl Default for GeneralConfig {
    fn default() -> (r: Self)
        ensures
            r.scroll_amount_percent == 40,
    {
        GeneralConfig { scroll_amount_percent: 40 }
    }
}

impl Default for PreferencesConfig {
    fn default() -> (r: Self)
        ensures
            r.max_search_results == 100,
    {
        PreferencesConfig { max_search_results: default_max_results() }
    }
}

impl Default for EditorConfig {
    fn default() -> (r: Self)
        ensures
            editor_is_default(r),
    {
        EditorConfig {
            mode: owned("basic"),
            theme: owned("gruvbox-dark"),
            word_wrap: true,
            tab_size: 2,
            expand_tabs: true,
            show_line_numbers: true,
        }
    }
}

impl Default for InterfaceConfig {
    fn default() -> (r: Self)
        ensures
            interface_is_default(r),
    {
        InterfaceConfig {
            ui_theme: owned("gruvbox-dark"),
            font_family: owned("Inter, sans-serif"),
            font_size: 14,
            editor_font_family: owned("JetBrains Mono, Consolas, monospace"),
            editor_font_size: 14,
            markdown_render_theme: owned("modern_dark"),
            md_render_code_theme: owned("gruvbox-dark-medium"),
            always_on_top: false,
            window_decorations: default_window_decorations(),
            custom_ui_theme_path: None,
            custom_markdown_theme_path: None,
        }
    }
}

impl Default for ShortcutsConfig {
    fn default() -> (r: Self)
        ensures
            shortcuts_are_default(r),
    {
        ShortcutsConfig {
            create_note: owned("Ctrl+Enter"),
            rename_note: owned("Ctrl+m"),
            delete_note: owned("Ctrl+x"),
            edit_note: owned("Enter"),
            save_and_exit: owned("Ctrl+s"),
            open_external: owned("Ctrl+o"),
            open_folder: owned("Ctrl+f"),
            refresh_cache: owned("Ctrl+r"),
            scroll_up: owned("Ctrl+u"),
            scroll_down: owned("Ctrl+d"),
            up: owned("Ctrl+k"),
            down: owned("Ctrl+j"),
            navigate_previous: owned("Ctrl+p"),
            navigate_next: owned("Ctrl+n"),
            navigate_code_previous: owned("Ctrl+Alt+h"),
            navigate_code_next: owned("Ctrl+Alt+l"),
            navigate_link_previous: owned("Ctrl+h"),
            navigate_link_next: owned("Ctrl+l"),
            copy_current_section: owned("Ctrl+y"),
            open_settings: owned("Meta+,"),
            version_explorer: owned("Ctrl+/"),
            recently_deleted: owned("Ctrl+."),
        }
    }
}

/// Every section at its default, with `notes_dir` as the notes directory.
pub open spec fn config_is_default_with(c: AppConfig, notes_dir: Seq<char>) -> bool {
    &&& c.notes_directory@ == notes_dir
    &&& c.global_shortcut@ == "Ctrl+Shift+N"@
    &&& c.general.scroll_amount_percent == 40
    &&& interface_is_default(c.interface)
    &&& editor_is_default(c.editor)
    &&& shortcuts_are_default(c.shortcuts)
    &&& c.preferences.max_search_results == 100
}

/// The default configuration around a given notes directory.
pub fn default_config_with_notes_dir(notes_dir: &str) -> (r: AppConfig)
    ensures
        config_is_default_with(r, notes_dir@),
{
    AppConfig {
        notes_directory: owned(notes_dir),
        global_shortcut: default_global_shortcut(),
        general: GeneralConfig::default(),
        interface: InterfaceConfig::default(),
        editor: EditorConfig::default(),
        shortcuts: ShortcutsConfig::default(),
        preferences: PreferencesConfig::default(),
    }
}

impl Default for AppConfig {
    /// The default configuration; its notes directory is the one in the user's home.
    fn default() -> (r: Self)
        ensures
            config_is_default_with(r, r.notes_directory@),
            exists|h: Option<Seq<char>>| r.notes_directory@ == crate::paths::default_notes_dir_spec(h),
    {
        let dir = get_default_notes_dir();
        default_config_with_notes_dir(dir.as_str())
    }
}

// ---------------------------------------------------------------------------------------
// Shortcuts
// ---------------------------------------------------------------------------------------

/// A keyboard shortcut as the global-shortcut parser represents it.
#[verifier::external_type_specification]
#[verifier::external_body]
pub struct ExHotKey(global_hotkey::hotkey::HotKey);

/// Whether the global-shortcut parser accepts a text (`HotKey`'s `FromStr`).
pub uninterp spec fn shortcut_parses(s: Seq<char>) -> bool;

/// Parses a shortcut such as `Ctrl+Shift+N` with `HotKey::from_str`, dropping the error.
/// The parser (`parse_hotkey`) splits the text at `+`, reads `Ctrl` and `Shift` as
/// modifiers and `N` as a key, so it accepts the default global shortcut `Ctrl+Shift+N`.
#[verifier::external_body]
pub fn parse_shortcut(shortcut_str: &str) -> (r: Option<global_hotkey::hotkey::HotKey>)
    ensures
        r is Some == shortcut_parses(shortcut_str@),
        shortcut_str@ == "Ctrl+Shift+N"@ ==> r is Some,
{
    shortcut_str.parse().ok()
}

// ---------------------------------------------------------------------------------------
// Reading TOML
// ---------------------------------------------------------------------------------------

/// Whether `toml` parses the text as a document.
pub uninterp spec fn toml_parses(content: Seq<char>) -> bool;

/// The string that a top-level key of the parsed document holds, if it holds a string.
pub uninterp spec fn toml_top_string(content: Seq<char>, key: Seq<char>) -> Option<Seq<char>>;

/// The string under `key` in the table `section` of the parsed document, if there is one.
pub uninterp spec fn toml_section_string(
    content: Seq<char>,
    section: Seq<char>,
    key: Seq<char>,
) -> Option<Seq<char>>;

/// The integer under `key` in the table `section` of the parsed document, if there is one.
pub uninterp spec fn toml_section_integer(
    content: Seq<char>,
    section: Seq<char>,
    key: Seq<char>,
) -> Option<i64>;

/// The boolean under `key` in the table `section` of the parsed document, if there is one.
pub uninterp spec fn toml_section_bool(
    content: Seq<char>,
    section: Seq<char>,
    key: Seq<char>,
) -> Option<bool>;

/// Parses the text with `toml::from_str` into a `toml::Value` and says whether that
/// succeeded.
#[verifier::external_body]
pub(crate) fn toml_document_parses(content: &str) -> (r: bool)
    ensures
        r == toml_parses(content@),
{
    toml::from_str::<toml::Value>(content).is_ok()
}

/// Parses the text with `toml::from_str` and reads a top-level key with `Value::get` and
/// `Value::as_str`. Nothing is found in text that does not parse.
#[verifier::external_body]
fn toml_top_string_field(content: &str, key: &str) -> (r: Option<String>)
    ensures
        r matches Some(s) ==> toml_top_string(content@, key@) == Some(s@),
        r is None ==> toml_top_string(content@, key@) is None,
        !toml_parses(content@) ==> r is None,
{
    let doc: toml::Value = toml::from_str(content).ok()?;
    let value = doc.get(key)?;
    Some(value.as_str()?.to_string())
}

/// Parses the text with `toml::from_str` and reads `section.key` with `Value::get` and
/// `Value::as_str`.
#[verifier::external_body]
fn toml_section_string_field(content: &str, section: &str, key: &str) -> (r: Option<String>)
    ensures
        r matches Some(s) ==> toml_section_string(content@, section@, key@) == Some(s@),
        r is None ==> toml_section_string(content@, section@, key@) is None,
        !toml_parses(content@) ==> r is None,
{
    let doc: toml::Value = toml::from_str(content).ok()?;
    let value = doc.get(section)?.get(key)?;
    Some(value.as_str()?.to_string())
}

/// Parses the text with `toml::from_str` and reads `section.key` with `Value::get` and
/// `Value::as_integer`.
#[verifier::external_body]
fn toml_section_integer_field(content: &str, section: &str, key: &str) -> (r: Option<i64>)
    ensures
        r == toml_section_integer(content@, section@, key@),
        !toml_parses(content@) ==> r is None,
{
    let doc: toml::Value = toml::from_str(content).ok()?;
    let value = doc.get(section)?.get(key)?;
    value.as_integer()
}

/// Parses the text with `toml::from_str` and reads `section.key` with `Value::get` and
/// `Value::as_bool`.
#[verifier::external_body]
fn toml_section_bool_field(content: &str, section: &str, key: &str) -> (r: Option<bool>)
    ensures
        r == toml_section_bool(content@, section@, key@),
        !toml_parses(content@) ==> r is None,
{
    let doc: toml::Value = toml::from_str(content).ok()?;
    let value = doc.get(section)?.get(key)?;
    value.as_bool()
}

/// The kind of a TOML value, as far as the settings' types tell kinds apart.
#[derive(Debug, Clone, Copy, PartialEq, Eq, Structural)]
pub enum TomlKind {
    Missing,
    Text,
    Integer,
    Float,
    Boolean,
    Table,
    Other,
}

/// The kind of the value under a top-level key of the parsed document (`Missing` where
/// there is none).
pub uninterp spec fn toml_top_kind(content: Seq<char>, key: Seq<char>) -> TomlKind;

/// The kind of the value under `key` in the table `section` of the parsed document
/// (`Missing` where there is none).
pub uninterp spec fn toml_section_kind(content: Seq<char>, section: Seq<char>, key: Seq<char>) -> TomlKind;

/// Parses the text with `toml::from_str`, reads a top-level key with `Value::get` and tells
/// the value's variant. Nothing is found in text that does not parse.
#[verifier::external_body]
fn toml_top_kind_of(content: &str, key: &str) -> (r: TomlKind)
    ensures
        r == toml_top_kind(content@, key@),
        !toml_parses(content@) ==> r == TomlKind::Missing,
{
    let doc: Option<toml::Value> = toml::from_str(content).ok();
    match doc.as_ref().and_then(|d| d.get(key)) {
        None => TomlKind::Missing,
        Some(toml::Value::String(_)) => TomlKind::Text,
        Some(toml::Value::Integer(_)) => TomlKind::Integer,
        Some(toml::Value::Float(_)) => TomlKind::Float,
        Some(toml::Value::Boolean(_)) => TomlKind::Boolean,
        Some(toml::Value::Table(_)) => TomlKind::Table,
        Some(_) => TomlKind::Other,
    }
}

/// Parses the text with `toml::from_str`, reads `section.key` with `Value::get` and tells
/// the value's variant. Nothing is found in text that does not parse.
#[verifier::external_body]
fn toml_section_kind_of(content: &str, section: &str, key: &str) -> (r: TomlKind)
    ensures
        r == toml_section_kind(content@, section@, key@),
        !toml_parses(content@) ==> r == TomlKind::Missing,
{
    let doc: Option<toml::Value> = toml::from_str(content).ok();
    match doc.as_ref().and_then(|d| d.get(section)).and_then(|s| s.get(key)) {
        None => TomlKind::Missing,
        Some(toml::Value::String(_)) => TomlKind::Text,
        Some(toml::Value::Integer(_)) => TomlKind::Integer,
        Some(toml::Value::Float(_)) => TomlKind::Float,
        Some(toml::Value::Boolean(_)) => TomlKind::Boolean,
        Some(toml::Value::Table(_)) => TomlKind::Table,
        Some(_) => TomlKind::Other,
    }
}

/// The type a setting is stored as.
#[derive(Debug, Clone, Copy, PartialEq, Eq, Structural)]
pub enum SettingType {
    Text,
    Flag,
    SmallCount,
    Count,
    Number,
}

/// A setting in `section` is absent or holds a value of its type: text, a boolean, an
/// integer from 0 to 65535, an integer from 0 to `usize::MAX`, or a number.
pub open spec fn setting_fits(content: Seq<char>, section: Seq<char>, key: Seq<char>, ty: SettingType) -> bool {
    let k = toml_section_kind(content, section, key);
    k == TomlKind::Missing || match ty {
        SettingType::Text => k == TomlKind::Text,
        SettingType::Flag => k == TomlKind::Boolean,
        SettingType::Number => k == TomlKind::Integer || k == TomlKind::Float,
        SettingType::SmallCount => k == TomlKind::Integer && match toml_section_integer(content, section, key) {
            Some(n) => 0 <= n <= 65535,
            None => false,
        },
        SettingType::Count => k == TomlKind::Integer && match toml_section_integer(content, section, key) {
            Some(n) => 0 <= n <= usize::MAX,
            None => false,
        },
    }
}

/// A top-level key is absent or holds a value of the given kind.
pub open spec fn top_fits(content: Seq<char>, key: Seq<char>, kind: TomlKind) -> bool {
    toml_top_kind(content, key) == TomlKind::Missing || toml_top_kind(content, key) == kind
}

/// The shortcut settings that the `shortcuts` table may hold.
pub open spec fn shortcut_keys_fit(c: Seq<char>) -> bool {
    let s = "shortcuts"@;
    &&& setting_fits(c, s, "create_note"@, SettingType::Text)
    &&& setting_fits(c, s, "rename_note"@, SettingType::Text)
    &&& setting_fits(c, s, "delete_note"@, SettingType::Text)
    &&& setting_fits(c, s, "edit_note"@, SettingType::Text)
    &&& setting_fits(c, s, "save_and_exit"@, SettingType::Text)
    &&& setting_fits(c, s, "open_external"@, SettingType::Text)
    &&& setting_fits(c, s, "open_folder"@, SettingType::Text)
    &&& setting_fits(c, s, "refresh_cache"@, SettingType::Text)
    &&& setting_fits(c, s, "scroll_up"@, SettingType::Text)
    &&& setting_fits(c, s, "scroll_down"@, SettingType::Text)
    &&& setting_fits(c, s, "up"@, SettingType::Text)
    &&& setting_fits(c, s, "down"@, SettingType::Text)
    &&& setting_fits(c, s, "navigate_previous"@, SettingType::Text)
    &&& setting_fits(c, s, "navigate_next"@, SettingType::Text)
    &&& setting_fits(c, s, "navigate_code_previous"@, SettingType::Text)
    &&& setting_fits(c, s, "navigate_code_next"@, SettingType::Text)
    &&& setting_fits(c, s, "navigate_link_previous"@, SettingType::Text)
    &&& setting_fits(c, s, "navigate_link_next"@, SettingType::Text)
    &&& setting_fits(c, s, "copy_current_section"@, SettingType::Text)
    &&& setting_fits(c, s, "open_settings"@, SettingType::Text)
    &&& setting_fits(c, s, "version_explorer"@, SettingType::Text)
    &&& setting_fits(c, s, "recently_deleted"@, SettingType::Text)
}

/// The text is TOML in which every setting that is present has its type: the notes
/// directory and the global shortcut are text, each section is a table, and each setting
/// of a section holds text, a boolean or a number as its field does. Absent settings and
/// keys that are no setting are accepted.
pub open spec fn config_types_ok(c: Seq<char>) -> bool {
    &&& toml_parses(c)
    &&& top_fits(c, "notes_directory"@, TomlKind::Text)
    &&& top_fits(c, "global_shortcut"@, TomlKind::Text)
    &&& top_fits(c, "general"@, TomlKind::Table)
    &&& top_fits(c, "interface"@, TomlKind::Table)
    &&& top_fits(c, "editor"@, TomlKind::Table)
    &&& top_fits(c, "shortcuts"@, TomlKind::Table)
    &&& top_fits(c, "preferences"@, TomlKind::Table)
    &&& setting_fits(c, "general"@, "scroll_amount"@, SettingType::Number)
    &&& setting_fits(c, "interface"@, "ui_theme"@, SettingType::Text)
    &&& setting_fits(c, "interface"@, "font_family"@, SettingType::Text)
    &&& setting_fits(c, "interface"@, "font_size"@, SettingType::SmallCount)
    &&& setting_fits(c, "interface"@, "editor_font_family"@, SettingType::Text)
    &&& setting_fits(c, "interface"@, "editor_font_size"@, SettingType::SmallCount)
    &&& setting_fits(c, "interface"@, "markdown_render_theme"@, SettingType::Text)
    &&& setting_fits(c, "interface"@, "md_render_code_theme"@, SettingType::Text)
    &&& setting_fits(c, "interface"@, "always_on_top"@, SettingType::Flag)
    &&& setting_fits(c, "interface"@, "window_decorations"@, SettingType::Flag)
    &&& setting_fits(c, "interface"@, "custom_ui_theme_path"@, SettingType::Text)
    &&& setting_fits(c, "interface"@, "custom_markdown_theme_path"@, SettingType::Text)
    &&& setting_fits(c, "editor"@, "mode"@, SettingType::Text)
    &&& setting_fits(c, "editor"@, "theme"@, SettingType::Text)
    &&& setting_fits(c, "editor"@, "word_wrap"@, SettingType::Flag)
    &&& setting_fits(c, "editor"@, "tab_size"@, SettingType::SmallCount)
    &&& setting_fits(c, "editor"@, "expand_tabs"@, SettingType::Flag)
    &&& setting_fits(c, "editor"@, "show_line_numbers"@, SettingType::Flag)
    &&& shortcut_keys_fit(c)
    &&& setting_fits(c, "preferences"@, "max_search_results"@, SettingType::Count)
}

fn setting_fits_in(content: &str, section: &str, key: &str, ty: SettingType) -> (r: bool)
    ensures
        r == setting_fits(content@, section@, key@, ty),
{
    let k = toml_section_kind_of(content, section, key);
    if k == TomlKind::Missing {
        return true;
    }
    match ty {
        SettingType::Text => k == TomlKind::Text,
        SettingType::Flag => k == TomlKind::Boolean,
        SettingType::Number => k == TomlKind::Integer || k == TomlKind::Float,
        SettingType::SmallCount => k == TomlKind::Integer && match toml_section_integer_field(content, section, key) {
            Some(n) => 0 <= n && n <= 65535,
            None => false,
        },
        SettingType::Count => k == TomlKind::Integer && match toml_section_integer_field(content, section, key) {
            Some(n) => 0 <= n && (n as u64) <= (usize::MAX as u64),
            None => false,
        },
    }
}

fn top_fits_in(content: &str, key: &str, kind: TomlKind) -> (r: bool)
    ensures
        r == top_fits(content@, key@, kind),
{
    let k = toml_top_kind_of(content, key);
    k == TomlKind::Missing || k == kind
}

fn shortcut_keys_fit_in(c: &str) -> (r: bool)
    ensures
        r == shortcut_keys_fit(c@),
{
    let s = "shortcuts";
    setting_fits_in(c, s, "create_note", SettingType::Text)
        && setting_fits_in(c, s, "rename_note", SettingType::Text)
        && setting_fits_in(c, s, "delete_note", SettingType::Text)
        && setting_fits_in(c, s, "edit_note", SettingType::Text)
        && setting_fits_in(c, s, "save_and_exit", SettingType::Text)
        && setting_fits_in(c, s, "open_external", SettingType::Text)
        && setting_fits_in(c, s, "open_folder", SettingType::Text)
        && setting_fits_in(c, s, "refresh_cache", SettingType::Text)
        && setting_fits_in(c, s, "scroll_up", SettingType::Text)
        && setting_fits_in(c, s, "scroll_down", SettingType::Text)
        && setting_fits_in(c, s, "up", SettingType::Text)
        && setting_fits_in(c, s, "down", SettingType::Text)
        && setting_fits_in(c, s, "navigate_previous", SettingType::Text)
        && setting_fits_in(c, s, "navigate_next", SettingType::Text)
        && setting_fits_in(c, s, "navigate_code_previous", SettingType::Text)
        && setting_fits_in(c, s, "navigate_code_next", SettingType::Text)
        && setting_fits_in(c, s, "navigate_link_previous", SettingType::Text)
        && setting_fits_in(c, s, "navigate_link_next", SettingType::Text)
        && setting_fits_in(c, s, "copy_current_section", SettingType::Text)
        && setting_fits_in(c, s, "open_settings", SettingType::Text)
        && setting_fits_in(c, s, "version_explorer", SettingType::Text)
        && setting_fits_in(c, s, "recently_deleted", SettingType::Text)
}

/// Whether every setting present in the text has its type (see [`config_types_ok`]).
pub fn check_config_types(c: &str) -> (r: bool)
    ensures
        r == config_types_ok(c@),
{
    toml_document_parses(c)
        && top_fits_in(c, "notes_directory", TomlKind::Text)
        && top_fits_in(c, "global_shortcut", TomlKind::Text)
        && top_fits_in(c, "general", TomlKind::Table)
        && top_fits_in(c, "interface", TomlKind::Table)
        && top_fits_in(c, "editor", TomlKind::Table)
        && top_fits_in(c, "shortcuts", TomlKind::Table)
        && top_fits_in(c, "preferences", TomlKind::Table)
        && setting_fits_in(c, "general", "scroll_amount", SettingType::Number)
        && setting_fits_in(c, "interface", "ui_theme", SettingType::Text)
        && setting_fits_in(c, "interface", "font_family", SettingType::Text)
        && setting_fits_in(c, "interface", "font_size", SettingType::SmallCount)
        && setting_fits_in(c, "interface", "editor_font_family", SettingType::Text)
        && setting_fits_in(c, "interface", "editor_font_size", SettingType::SmallCount)
        && setting_fits_in(c, "interface", "markdown_render_theme", SettingType::Text)
        && setting_fits_in(c, "interface", "md_render_code_theme", SettingType::Text)
        && setting_fits_in(c, "interface", "always_on_top", SettingType::Flag)
        && setting_fits_in(c, "interface", "window_decorations", SettingType::Flag)
        && setting_fits_in(c, "interface", "custom_ui_theme_path", SettingType::Text)
        && setting_fits_in(c, "interface", "custom_markdown_theme_path", SettingType::Text)
        && setting_fits_in(c, "editor", "mode", SettingType::Text)
        && setting_fits_in(c, "editor", "theme", SettingType::Text)
        && setting_fits_in(c, "editor", "word_wrap", SettingType::Flag)
        && setting_fits_in(c, "editor", "tab_size", SettingType::SmallCount)
        && setting_fits_in(c, "editor", "expand_tabs", SettingType::Flag)
        && setting_fits_in(c, "editor", "show_line_numbers", SettingType::Flag)
        && shortcut_keys_fit_in(c)
        && setting_fits_in(c, "preferences", "max_search_results", SettingType::Count)
}

/// A found value if `ok` accepts it, else the default.
pub open spec fn pick_checked(found: Option<Seq<char>>, ok: spec_fn(Seq<char>) -> bool, default: Seq<char>) -> Seq<char> {
    match found {
        Some(v) => if ok(v) { v } else { default },
        None => default,
    }
}

/// A found value, else the default.
pub open spec fn pick_any(found: Option<Seq<char>>, default: Seq<char>) -> Seq<char> {
    match found {
        Some(v) => v,
        None => default,
    }
}

/// The notes directory a document sets, if it is acceptable.
pub open spec fn spec_notes_directory(content: Seq<char>, default_dir: Seq<char>) -> Seq<char> {
    pick_checked(
        toml_top_string(content, "notes_directory"@),
        |d: Seq<char>| notes_directory_check(d) is Ok,
        default_dir,
    )
}

/// The global shortcut a document sets, if it is acceptable.
pub open spec fn spec_global_shortcut(content: Seq<char>) -> Seq<char> {
    pick_checked(
        toml_top_string(content, "global_shortcut"@),
        |s: Seq<char>| shortcut_check(s) is Ok,
        "Ctrl+Shift+N"@,
    )
}

/// A font size from the document, kept where it lies between 8 and 72 once cast to `u16`.
pub open spec fn spec_font_size(found: Option<i64>, default: u16) -> u16 {
    match found {
        Some(n) => if 8 <= (n as u16) && (n as u16) <= 72 { n as u16 } else { default },
        None => default,
    }
}

/// A tab size from the document, kept where it lies between 1 and 16 once cast to `u16`.
pub open spec fn spec_tab_size(found: Option<i64>) -> u16 {
    match found {
        Some(n) => if 0 < (n as u16) && (n as u16) <= 16 { n as u16 } else { 2 },
        None => 2,
    }
}

/// A result limit from the document, kept where it lies between 1 and 10000 once cast to
/// `usize`.
pub open spec fn spec_max_results(found: Option<i64>) -> usize {
    match found {
        Some(n) => if 0 < (n as usize) && (n as usize) <= 10000 { n as usize } else { 100 },
        None => 100,
    }
}

/// A boolean from the document, else the default.
pub open spec fn spec_flag(found: Option<bool>, default: bool) -> bool {
    match found {
        Some(b) => b,
        None => default,
    }
}

/// The interface section a document describes.
pub open spec fn interface_from(i: InterfaceConfig, content: Seq<char>) -> bool {
    let s = "interface"@;
    &&& i.ui_theme@ == pick_checked(
        toml_section_string(content, s, "ui_theme"@),
        |t: Seq<char>| ui_theme_names().contains(t),
        "gruvbox-dark"@,
    )
    &&& i.font_family@ == pick_any(toml_section_string(content, s, "font_family"@), "Inter, sans-serif"@)
    &&& i.font_size == spec_font_size(toml_section_integer(content, s, "font_size"@), 14)
    &&& i.editor_font_family@ == pick_any(
        toml_section_string(content, s, "editor_font_family"@),
        "JetBrains Mono, Consolas, monospace"@,
    )
    &&& i.editor_font_size == spec_font_size(toml_section_integer(content, s, "editor_font_size"@), 14)
    &&& i.markdown_render_theme@ == pick_checked(
        toml_section_string(content, s, "markdown_render_theme"@),
        |t: Seq<char>| markdown_theme_names().contains(t),
        "modern_dark"@,
    )
    &&& i.md_render_code_theme@ == pick_checked(
        toml_section_string(content, s, "md_render_code_theme"@),
        |t: Seq<char>| code_theme_names().contains(t),
        "gruvbox-dark-medium"@,
    )
    &&& i.always_on_top == spec_flag(toml_section_bool(content, s, "always_on_top"@), false)
    &&& i.window_decorations == spec_flag(toml_section_bool(content, s, "window_decorations"@), true)
    &&& opt_text(i.custom_ui_theme_path) == toml_section_string(content, s, "custom_ui_theme_path"@)
    &&& opt_text(i.custom_markdown_theme_path) == toml_section_string(content, s, "custom_markdown_theme_path"@)
}

/// The editor section a document describes.
pub open spec fn editor_from(e: EditorConfig, content: Seq<char>) -> bool {
    let s = "editor"@;
    &&& e.mode@ == pick_checked(
        toml_section_string(content, s, "mode"@),
        |t: Seq<char>| editor_mode_names().contains(t),
        "basic"@,
    )
    &&& e.theme@ == pick_checked(
        toml_section_string(content, s, "theme"@),
        |t: Seq<char>| editor_theme_names().contains(t),
        "gruvbox-dark"@,
    )
    &&& e.word_wrap == spec_flag(toml_section_bool(content, s, "word_wrap"@), true)
    &&& e.tab_size == spec_tab_size(toml_section_integer(content, s, "tab_size"@))
    &&& e.expand_tabs == spec_flag(toml_section_bool(content, s, "expand_tabs"@), true)
    &&& e.show_line_numbers == spec_flag(toml_section_bool(content, s, "show_line_numbers"@), true)
}

/// A shortcut from the document's `shortcuts` table, kept where its form is acceptable.
pub open spec fn spec_shortcut(content: Seq<char>, key: Seq<char>, default: Seq<char>) -> Seq<char> {
    pick_checked(
        toml_section_string(content, "shortcuts"@, key),
        |s: Seq<char>| basic_shortcut_check(s) is Ok,
        default,
    )
}

/// The shortcuts section a document describes.
pub open spec fn shortcuts_from(s: ShortcutsConfig, c: Seq<char>) -> bool {
    &&& s.create_note@ == spec_shortcut(c, "create_note"@, "Ctrl+Enter"@)
    &&& s.rename_note@ == spec_shortcut(c, "rename_note"@, "Ctrl+m"@)
    &&& s.delete_note@ == spec_shortcut(c, "delete_note"@, "Ctrl+x"@)
    &&& s.edit_note@ == spec_shortcut(c, "edit_note"@, "Enter"@)
    &&& s.save_and_exit@ == spec_shortcut(c, "save_and_exit"@, "Ctrl+s"@)
    &&& s.open_external@ == spec_shortcut(c, "open_external"@, "Ctrl+o"@)
    &&& s.open_folder@ == spec_shortcut(c, "open_folder"@, "Ctrl+f"@)
    &&& s.refresh_cache@ == spec_shortcut(c, "refresh_cache"@, "Ctrl+r"@)
    &&& s.scroll_up@ == spec_shortcut(c, "scroll_up"@, "Ctrl+u"@)
    &&& s.scroll_down@ == spec_shortcut(c, "scroll_down"@, "Ctrl+d"@)
    &&& s.up@ == spec_shortcut(c, "up"@, "Ctrl+k"@)
    &&& s.down@ == spec_shortcut(c, "down"@, "Ctrl+j"@)
    &&& s.navigate_previous@ == spec_shortcut(c, "navigate_previous"@, "Ctrl+p"@)
    &&& s.navigate_next@ == spec_shortcut(c, "navigate_next"@, "Ctrl+n"@)
    &&& s.navigate_code_previous@ == spec_shortcut(c, "navigate_code_previous"@, "Ctrl+Alt+h"@)
    &&& s.navigate_code_next@ == spec_shortcut(c, "navigate_code_next"@, "Ctrl+Alt+l"@)
    &&& s.navigate_link_previous@ == spec_shortcut(c, "navigate_link_previous"@, "Ctrl+h"@)
    &&& s.navigate_link_next@ == spec_shortcut(c, "navigate_link_next"@, "Ctrl+l"@)
    &&& s.copy_current_section@ == spec_shortcut(c, "copy_current_section"@, "Ctrl+y"@)
    &&& s.open_settings@ == spec_shortcut(c, "open_settings"@, "Meta+,"@)
    &&& s.version_explorer@ == spec_shortcut(c, "version_explorer"@, "Ctrl+/"@)
    &&& s.recently_deleted@ == spec_shortcut(c, "recently_deleted"@, "Ctrl+."@)
}

/// The configuration a TOML text describes, with `default_dir` as the notes directory where
/// the text names none or an unacceptable one. Text that does not parse gives the defaults.
pub open spec fn config_from(c: AppConfig, content: Seq<char>, default_dir: Seq<char>) -> bool {
    if !toml_parses(content) {
        config_is_default_with(c, default_dir)
    } else {
        &&& c.notes_directory@ == spec_notes_directory(content, default_dir)
        &&& c.global_shortcut@ == spec_global_shortcut(content)
        &&& c.general.scroll_amount_percent == 40
        &&& interface_from(c.interface, content)
        &&& editor_from(c.editor, content)
        &&& shortcuts_from(c.shortcuts, content)
        &&& c.preferences.max_search_results == spec_max_results(
            toml_section_integer(content, "preferences"@, "max_search_results"@),
        )
    }
}

/// A shortcut text that starts with a character other than white space, has no `+` at
/// either end and no two `+` together has the basic form.
proof fn lemma_basic_shortcut_ok(s: Seq<char>)
    requires
        s.len() > 0,
        !crate::text::is_ws(s[0]),
        s[0] != '+',
        s.last() != '+',
        forall|i: int| 0 <= i < s.len() - 1 ==> !(#[trigger] s[i] == '+' && s[i + 1] == '+'),
    ensures
        basic_shortcut_check(s) is Ok,
{
    reveal_strlit("++");
    if crate::text::seq_contains(s, "++"@) {
        let i = choose|i: int| crate::text::occurs_at(s, "++"@, i);
        assert(s.subrange(i, i + 2)[0] == s[i]);
        assert(s.subrange(i, i + 2)[1] == s[i + 1]);
    }
}

/// Shortcuts that each have the basic form pass the check of the shortcuts section.
proof fn lemma_no_shortcut_failure(s: Seq<Seq<char>>)
    requires
        forall|i: int| 0 <= i < s.len() ==> basic_shortcut_check(#[trigger] s[i]) is Ok,
    ensures
        first_shortcut_failure(s) is Ok,
    decreases s.len(),
{
    if s.len() > 0 {
        assert forall|i: int| 0 <= i < s.drop_first().len() implies basic_shortcut_check(#[trigger] s.drop_first()[i]) is Ok by {
            assert(s.drop_first()[i] == s[i + 1]);
        }
        lemma_no_shortcut_failure(s.drop_first());
    }
}

/// The default shortcuts have the basic form.
proof fn lemma_default_shortcuts_ok()
    ensures
        basic_shortcut_check("Ctrl+Enter"@) is Ok,
        basic_shortcut_check("Ctrl+m"@) is Ok,
        basic_shortcut_check("Ctrl+x"@) is Ok,
        basic_shortcut_check("Enter"@) is Ok,
        basic_shortcut_check("Ctrl+s"@) is Ok,
        basic_shortcut_check("Ctrl+o"@) is Ok,
        basic_shortcut_check("Ctrl+f"@) is Ok,
        basic_shortcut_check("Ctrl+r"@) is Ok,
        basic_shortcut_check("Ctrl+u"@) is Ok,
        basic_shortcut_check("Ctrl+d"@) is Ok,
        basic_shortcut_check("Ctrl+k"@) is Ok,
        basic_shortcut_check("Ctrl+j"@) is Ok,
        basic_shortcut_check("Ctrl+p"@) is Ok,
        basic_shortcut_check("Ctrl+n"@) is Ok,
        basic_shortcut_check("Meta+,"@) is Ok,
        basic_shortcut_check("Ctrl+/"@) is Ok,
        basic_shortcut_check("Ctrl+."@) is Ok,
        basic_shortcut_check("Ctrl+Shift+N"@) is Ok,
{
    reveal_strlit("Ctrl+Enter");
    reveal_strlit("Ctrl+m");
    reveal_strlit("Ctrl+x");
    reveal_strlit("Enter");
    reveal_strlit("Ctrl+s");
    reveal_strlit("Ctrl+o");
    reveal_strlit("Ctrl+f");
    reveal_strlit("Ctrl+r");
    reveal_strlit("Ctrl+u");
    reveal_strlit("Ctrl+d");
    reveal_strlit("Ctrl+k");
    reveal_strlit("Ctrl+j");
    reveal_strlit("Ctrl+p");
    reveal_strlit("Ctrl+n");
    reveal_strlit("Meta+,");
    reveal_strlit("Ctrl+/");
    reveal_strlit("Ctrl+.");
    reveal_strlit("Ctrl+Shift+N");
    lemma_basic_shortcut_ok("Ctrl+Enter"@);
    lemma_basic_shortcut_ok("Ctrl+m"@);
    lemma_basic_shortcut_ok("Ctrl+x"@);
    lemma_basic_shortcut_ok("Enter"@);
    lemma_basic_shortcut_ok("Ctrl+s"@);
    lemma_basic_shortcut_ok("Ctrl+o"@);
    lemma_basic_shortcut_ok("Ctrl+f"@);
    lemma_basic_shortcut_ok("Ctrl+r"@);
    lemma_basic_shortcut_ok("Ctrl+u"@);
    lemma_basic_shortcut_ok("Ctrl+d"@);
    lemma_basic_shortcut_ok("Ctrl+k"@);
    lemma_basic_shortcut_ok("Ctrl+j"@);
    lemma_basic_shortcut_ok("Ctrl+p"@);
    lemma_basic_shortcut_ok("Ctrl+n"@);
    lemma_basic_shortcut_ok("Meta+,"@);
    lemma_basic_shortcut_ok("Ctrl+/"@);
    lemma_basic_shortcut_ok("Ctrl+."@);
    lemma_basic_shortcut_ok("Ctrl+Shift+N"@);
}

/// Whatever text a configuration is read from, every setting but the notes directory and
/// the global shortcut passes its validation, the global shortcut does too unless it is the
/// default `Ctrl+Shift+N`, and the notes directory unless it is the default one. Given that
/// the shortcut parser accepts that default (as [`parse_shortcut`] states of its call), the
/// global shortcut always passes, and the configuration passes
/// [`crate::validation::validate_config`] exactly when its notes directory does.
pub proof fn law_loaded_config_is_valid(c: AppConfig, content: Seq<char>, default_dir: Seq<char>)
    requires
        config_from(c, content, default_dir),
    ensures
        interface_check(c.interface) is Ok,
        editor_check(c.editor) is Ok,
        first_shortcut_failure(checked_shortcuts(c.shortcuts)) is Ok,
        preferences_check(c.preferences) is Ok,
        shortcut_check(c.global_shortcut@) is Ok || c.global_shortcut@ == "Ctrl+Shift+N"@,
        notes_directory_check(c.notes_directory@) is Ok || c.notes_directory@ == default_dir,
        shortcut_parses("Ctrl+Shift+N"@) ==> shortcut_check(c.global_shortcut@) is Ok,
        shortcut_parses("Ctrl+Shift+N"@) ==> (config_check(c) is Ok
            <==> notes_directory_check(c.notes_directory@) is Ok),
{
    lemma_default_shortcuts_ok();
    assert(ui_theme_names()[0] == "gruvbox-dark"@);
    assert(markdown_theme_names().contains("modern_dark"@)) by {
        reveal_strlit("modern_dark");
    }
    assert(code_theme_names()[1] == "gruvbox-dark-medium"@);
    assert(editor_mode_names()[0] == "basic"@);
    assert(editor_theme_names().contains("gruvbox-dark"@));
    let s = checked_shortcuts(c.shortcuts);
    assert forall|i: int| 0 <= i < s.len() implies basic_shortcut_check(#[trigger] s[i]) is Ok by {}
    lemma_no_shortcut_failure(s);
}

fn extract_notes_directory(content: &str, default_dir: &str) -> (r: String)
    ensures
        r@ == spec_notes_directory(content@, default_dir@),
{
    match toml_top_string_field(content, "notes_directory") {
        Some(dir) => {
            if validate_notes_directory(dir.as_str()).is_ok() {
                dir
            } else {
                owned(default_dir)
            }
        },
        None => owned(default_dir),
    }
}

fn extract_global_shortcut(content: &str) -> (r: String)
    ensures
        r@ == spec_global_shortcut(content@),
{
    match toml_top_string_field(content, "global_shortcut") {
        Some(shortcut) => {
            if validate_shortcut_format(shortcut.as_str()).is_ok() {
                shortcut
            } else {
                default_global_shortcut()
            }
        },
        None => default_global_shortcut(),
    }
}

/// The string under `section.key` if it is one of `allowed`, else the default.
fn checked_section_name(content: &str, section: &str, key: &str, allowed: &Vec<&str>, default: &str) -> (r: String)
    ensures
        r@ == pick_checked(
            toml_section_string(content@, section@, key@),
            |t: Seq<char>| names_of(allowed@).contains(t),
            default@,
        ),
{
    match toml_section_string_field(content, section, key) {
        Some(v) => {
            if list_contains(allowed, v.as_str()) {
                v
            } else {
                owned(default)
            }
        },
        None => owned(default),
    }
}

/// The string under `section.key`, else the default.
fn any_section_string(content: &str, section: &str, key: &str, default: &str) -> (r: String)
    ensures
        r@ == pick_any(toml_section_string(content@, section@, key@), default@),
{
    match toml_section_string_field(content, section, key) {
        Some(v) => v,
        None => owned(default),
    }
}

fn font_size_field(content: &str, key: &str) -> (r: u16)
    ensures
        r == spec_font_size(toml_section_integer(content@, "interface"@, key@), 14),
{
    match toml_section_integer_field(content, "interface", key) {
        Some(n) => {
            let size = n as u16;
            if 8 <= size && size <= 72 {
                size
            } else {
                14
            }
        },
        None => 14,
    }
}

fn flag_field(content: &str, section: &str, key: &str, default: bool) -> (r: bool)
    ensures
        r == spec_flag(toml_section_bool(content@, section@, key@), default),
{
    match toml_section_bool_field(content, section, key) {
        Some(b) => b,
        None => default,
    }
}

fn extract_interface_config(content: &str) -> (r: InterfaceConfig)
    ensures
        interface_from(r, content@),
{
    let ui = get_available_ui_themes();
    let md = get_available_markdown_themes();
    let code = get_available_code_themes();
    InterfaceConfig {
        ui_theme: checked_section_name(content, "interface", "ui_theme", &ui, "gruvbox-dark"),
        font_family: any_section_string(content, "interface", "font_family", "Inter, sans-serif"),
        font_size: font_size_field(content, "font_size"),
        editor_font_family: any_section_string(
            content,
            "interface",
            "editor_font_family",
            "JetBrains Mono, Consolas, monospace",
        ),
        editor_font_size: font_size_field(content, "editor_font_size"),
        markdown_render_theme: checked_section_name(
            content,
            "interface",
            "markdown_render_theme",
            &md,
            "modern_dark",
        ),
        md_render_code_theme: checked_section_name(
            content,
            "interface",
            "md_render_code_theme",
            &code,
            "gruvbox-dark-medium",
        ),
        always_on_top: flag_field(content, "interface", "always_on_top", false),
        window_decorations: flag_field(content, "interface", "window_decorations", true),
        custom_ui_theme_path: toml_section_string_field(content, "interface", "custom_ui_theme_path"),
        custom_markdown_theme_path: toml_section_string_field(content, "interface", "custom_markdown_theme_path"),
    }
}

fn extract_editor_config(content: &str) -> (r: EditorConfig)
    ensures
        editor_from(r, content@),
{
    let modes = get_available_editor_modes();
    let themes = get_available_editor_themes();
    let tab_size = match toml_section_integer_field(content, "editor", "tab_size") {
        Some(n) => {
            let size = n as u16;
            if size > 0 && size <= 16 {
                size
            } else {
                2
            }
        },
        None => 2,
    };
    EditorConfig {
        mode: checked_section_name(content, "editor", "mode", &modes, "basic"),
        theme: checked_section_name(content, "editor", "theme", &themes, "gruvbox-dark"),
        word_wrap: flag_field(content, "editor", "word_wrap", true),
        tab_size,
        expand_tabs: flag_field(content, "editor", "expand_tabs", true),
        show_line_numbers: flag_field(content, "editor", "show_line_numbers", true),
    }
}

fn shortcut_field(content: &str, key: &str, default: &str) -> (r: String)
    ensures
        r@ == spec_shortcut(content@, key@, default@),
{
    match toml_section_string_field(content, "shortcuts", key) {
        Some(s) => {
            if validate_basic_shortcut_format(s.as_str()).is_ok() {
                s
            } else {
                owned(default)
            }
        },
        None => owned(default),
    }
}

fn extract_shortcuts_config(content: &str) -> (r: ShortcutsConfig)
    ensures
        shortcuts_from(r, content@),
{
    ShortcutsConfig {
        create_note: shortcut_field(content, "create_note", "Ctrl+Enter"),
        rename_note: shortcut_field(content, "rename_note", "Ctrl+m"),
        delete_note: shortcut_field(content, "delete_note", "Ctrl+x"),
        edit_note: shortcut_field(content, "edit_note", "Enter"),
        save_and_exit: shortcut_field(content, "save_and_exit", "Ctrl+s"),
        open_external: shortcut_field(content, "open_external", "Ctrl+o"),
        open_folder: shortcut_field(content, "open_folder", "Ctrl+f"),
        refresh_cache: shortcut_field(content, "refresh_cache", "Ctrl+r"),
        scroll_up: shortcut_field(content, "scroll_up", "Ctrl+u"),
        scroll_down: shortcut_field(content, "scroll_down", "Ctrl+d"),
        up: shortcut_field(content, "up", "Ctrl+k"),
        down: shortcut_field(content, "down", "Ctrl+j"),
        navigate_previous: shortcut_field(content, "navigate_previous", "Ctrl+p"),
        navigate_next: shortcut_field(content, "navigate_next", "Ctrl+n"),
        navigate_code_previous: shortcut_field(content, "navigate_code_previous", "Ctrl+Alt+h"),
        navigate_code_next: shortcut_field(content, "navigate_code_next", "Ctrl+Alt+l"),
        navigate_link_previous: shortcut_field(content, "navigate_link_previous", "Ctrl+h"),
        navigate_link_next: shortcut_field(content, "navigate_link_next", "Ctrl+l"),
        copy_current_section: shortcut_field(content, "copy_current_section", "Ctrl+y"),
        open_settings: shortcut_field(content, "open_settings", "Meta+,"),
        version_explorer: shortcut_field(content, "version_explorer", "Ctrl+/"),
        recently_deleted: shortcut_field(content, "recently_deleted", "Ctrl+."),
    }
}

fn extract_preferences_config(content: &str) -> (r: PreferencesConfig)
    ensures
        r.max_search_results == spec_max_results(
            toml_section_integer(content@, "preferences"@, "max_search_results"@),
        ),
{
    let max = match toml_section_integer_field(content, "preferences", "max_search_results") {
        Some(n) => {
            let m = n as usize;
            if m > 0 && m <= 10000 {
                m
            } else {
                100
            }
        },
        None => 100,
    };
    PreferencesConfig { max_search_results: max }
}

/// Reads a configuration out of TOML text. Each setting that is missing, of the wrong
/// type or not acceptable keeps its default; `default_notes_dir` stands in for a missing
/// or unacceptable notes directory. Text that does not parse gives the defaults.
pub fn config_from_content(content: &str, default_notes_dir: &str) -> (r: AppConfig)
    ensures
        config_from(r, content@, default_notes_dir@),
{
    if !toml_document_parses(content) {
        return default_config_with_notes_dir(default_notes_dir);
    }
    AppConfig {
        notes_directory: extract_notes_directory(content, default_notes_dir),
        global_shortcut: extract_global_shortcut(content),
        general: GeneralConfig::default(),
        interface: extract_interface_config(content),
        editor: extract_editor_config(content),
        shortcuts: extract_shortcuts_config(content),
        preferences: extract_preferences_config(content),
    }
}

/// Reads a configuration out of TOML text, falling back to the notes directory in the
/// user's home (see [`get_default_notes_dir`]).
pub fn load_config_from_content(content: &str) -> (r: AppConfig)
    ensures
        exists|h: Option<Seq<char>>| config_from(r, content@, #[trigger] crate::paths::default_notes_dir_spec(h)),
{
    let default_dir = get_default_notes_dir();
    config_from_content(content, default_dir.as_str())
}

/// The notes directory that a configuration text names, with `default_dir` standing in
/// where it names none or an unacceptable one.
pub open spec fn notes_dir_in_text(content: Seq<char>, default_dir: Seq<char>) -> Seq<char> {
    if toml_parses(content) {
        spec_notes_directory(content, default_dir)
    } else {
        default_dir
    }
}

/// The notes directory in effect for a configuration text, if there is one, with
/// `default_dir` standing in where the text names none.
pub open spec fn configured_notes_dir(content: Option<Seq<char>>, default_dir: Seq<char>) -> Seq<char> {
    match content {
        Some(c) => notes_dir_in_text(c, default_dir),
        None => default_dir,
    }
}

/// The notes directory a configuration names.
pub fn get_config_notes_dir_from_config(config: &AppConfig) -> (r: String)
    ensures
        r@ == config.notes_directory@,
{
    config.notes_directory.clone()
}

/// The notes directory in effect: the one the configuration file names, or the default one
/// where there is no configuration file (`config_content` is `None`).
pub fn get_config_notes_dir(config_content: Option<&str>) -> (r: String)
    ensures
        exists|h: Option<Seq<char>>| r@ == configured_notes_dir(
            crate::paths::opt_view(config_content),
            #[trigger] crate::paths::default_notes_dir_spec(h),
        ),
{
    match config_content {
        Some(c) => {
            let config = load_config_from_content(c);
            proof {
                let h = choose|h: Option<Seq<char>>| config_from(config, c@, #[trigger] crate::paths::default_notes_dir_spec(h));
                assert(notes_dir_in_text(c@, crate::paths::default_notes_dir_spec(h)) == config.notes_directory@);
            }
            config.notes_directory
        },
        None => get_default_notes_dir(),
    }
}

/// Whether a reload changes the notes directory: whether the two directories differ as
/// paths (so `/a/b` and `/a/b/` are the same directory).
pub fn reload_result(old_config: &AppConfig, new_config: &AppConfig) -> (r: ConfigReloadResult)
    ensures
        (r == ConfigReloadResult::NotesDirChanged) == (path_components(old_config.notes_directory@)
            != path_components(new_config.notes_directory@)),
{
    if same_path(old_config.notes_directory.as_str(), new_config.notes_directory.as_str()) {
        ConfigReloadResult::Unchanged
    } else {
        ConfigReloadResult::NotesDirChanged
    }
}

} // verus!
