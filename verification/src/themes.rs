//! Themes: the names that stylesheet files provide, the lists offered to the user (with the
//! built-in names where no stylesheet is found), and the checks on a custom theme file.
use vstd::prelude::*;
use crate::text::{chars_of, concat2, ends_with_chars, owned, seq_ends_with, seq_starts_with, starts_with_chars, string_of_range};
use crate::errors::{AppError, AppErrorView, result_view};
use crate::config::{get_available_markdown_themes, get_available_ui_themes, markdown_theme_names, names_of, ui_theme_names};
use crate::ordering::{lemma_first_after_is, sorted_stable};
use crate::search::{title_less, title_precedes};
use crate::watcher::{extension, path_extension};

verus! {

/// The theme that a file of the UI theme folder provides: `ui-{name}.css` gives `name`.
pub open spec fn ui_theme_of(f: Seq<char>) -> Option<Seq<char>> {
    if seq_starts_with(f, "ui-"@) && seq_ends_with(f, ".css"@) && f.len() >= 7 {
        Some(f.subrange(3, f.len() - 4))
    } else {
        None
    }
}

/// The theme that a file of the markdown theme folder provides: `{name}.css` gives `name`.
pub open spec fn markdown_theme_of(f: Seq<char>) -> Option<Seq<char>> {
    if seq_ends_with(f, ".css"@) {
        Some(f.take(f.len() - 4))
    } else {
        None
    }
}

/// The themes that a folder's files provide, in the folder's order.
pub open spec fn themes_in(files: Seq<Seq<char>>, ui: bool) -> Seq<Seq<char>>
    decreases files.len(),
{
    if files.len() == 0 {
        Seq::empty()
    } else {
        let t = themes_in(files.drop_last(), ui);
        match if ui { ui_theme_of(files.last()) } else { markdown_theme_of(files.last()) } {
            Some(n) => t.push(n),
            None => t,
        }
    }
}

/// Names in `String` order.
pub open spec fn name_order() -> spec_fn(Seq<char>, Seq<char>) -> bool {
    |a: Seq<char>, b: Seq<char>| title_less(a, b)
}

/// The themes offered: those of the first folder, else those of the second, else the
/// built-in ones, in name order.
pub open spec fn offered(first: Seq<Seq<char>>, second: Seq<Seq<char>>, ui: bool) -> Seq<Seq<char>> {
    let found = if themes_in(first, ui).len() > 0 {
        themes_in(first, ui)
    } else {
        themes_in(second, ui)
    };
    let built_in = if ui { ui_theme_names() } else { markdown_theme_names() };
    sorted_stable(if found.len() > 0 { found } else { built_in }, name_order())
}

fn theme_from(f: &str, ui: bool) -> (r: Option<String>)
    ensures
        r matches Some(n) ==> (if ui { ui_theme_of(f@) } else { markdown_theme_of(f@) }) == Some(n@),
        r is None ==> (if ui { ui_theme_of(f@) } else { markdown_theme_of(f@) }) is None,
{
    let v = chars_of(f);
    let css = chars_of(".css");
    let prefix = chars_of("ui-");
    proof {
        reveal_strlit(".css");
        reveal_strlit("ui-");
    }
    if !ends_with_chars(&v, &css) {
        return None;
    }
    if ui {
        if !starts_with_chars(&v, &prefix) || v.len() < 7 {
            return None;
        }
        Some(string_of_range(&v, 3, v.len() - 4))
    } else {
        assert(f@.take(f@.len() - 4) =~= v@.subrange(0, v@.len() - 4));
        Some(string_of_range(&v, 0, v.len() - 4))
    }
}

fn themes_from(files: &Vec<String>, ui: bool) -> (r: Vec<String>)
    ensures
        r@.map_values(|s: String| s@) == themes_in(files@.map_values(|s: String| s@), ui),
{
    let ghost fv = files@.map_values(|s: String| s@);
    let mut out: Vec<String> = Vec::new();
    let mut i: usize = 0;
    assert(fv.take(0) =~= Seq::<Seq<char>>::empty());
    while i < files.len()
        invariant
            i <= files@.len(),
            fv == files@.map_values(|s: String| s@),
            out@.map_values(|s: String| s@) == themes_in(fv.take(i as int), ui),
        decreases files.len() - i,
    {
        let ghost before = out@.map_values(|s: String| s@);
        assert(fv.take(i + 1).drop_last() =~= fv.take(i as int));
        assert(fv.take(i + 1).last() == files@[i as int]@);
        match theme_from(files[i].as_str(), ui) {
            Some(n) => {
                out.push(n);
                assert(out@.map_values(|s: String| s@) =~= before.push(out@[out@.len() - 1]@));
            },
            None => {},
        }
        i += 1;
    }
    assert(fv.take(fv.len() as int) =~= fv);
    out
}

fn owned_names(v: Vec<&'static str>) -> (r: Vec<String>)
    ensures
        r@.map_values(|s: String| s@) == names_of(v@),
{
    let mut out: Vec<String> = Vec::new();
    let mut i: usize = 0;
    while i < v.len()
        invariant
            i <= v@.len(),
            out@.map_values(|s: String| s@) == names_of(v@).take(i as int),
        decreases v.len() - i,
    {
        let ghost before = out@.map_values(|s: String| s@);
        let name = owned(v[i]);
        assert(name@ == names_of(v@)[i as int]);
        out.push(name);
        assert(out@.map_values(|s: String| s@) =~= before.push(names_of(v@)[i as int]));
        assert(before.push(names_of(v@)[i as int]) =~= names_of(v@).take(i + 1));
        i += 1;
    }
    assert(names_of(v@).take(v@.len() as int) =~= names_of(v@));
    out
}

/// Sorts names in `String` order, keeping the order of equal names.
pub fn sort_names(items: Vec<String>) -> (r: Vec<String>)
    ensures
        r@.map_values(|s: String| s@) == sorted_stable(items@.map_values(|s: String| s@), name_order()),
{
    let ghost input = items@.map_values(|s: String| s@);
    let mut out: Vec<String> = Vec::new();
    let mut i: usize = 0;
    assert(input.take(0) =~= Seq::<Seq<char>>::empty());
    while i < items.len()
        invariant
            i <= items@.len(),
            input == items@.map_values(|s: String| s@),
            out@.map_values(|s: String| s@) == sorted_stable(input.take(i as int), name_order()),
        decreases items.len() - i,
    {
        let x = items[i].clone();
        let ghost cur = out@.map_values(|s: String| s@);
        let mut p: usize = 0;
        while p < out.len() && !title_precedes(x.as_str(), out[p].as_str())
            invariant
                p <= out@.len(),
                cur == out@.map_values(|s: String| s@),
                forall|k: int| 0 <= k < p ==> !title_less(x@, #[trigger] cur[k]),
            decreases out.len() - p,
        {
            p += 1;
        }
        proof {
            lemma_first_after_is(cur, x@, name_order(), p as int);
        }
        let ghost xv = x@;
        out.insert(p, x);
        assert(out@.map_values(|s: String| s@) =~= cur.insert(p as int, xv));
        assert(input.take(i + 1).drop_last() =~= input.take(i as int));
        assert(input.take(i + 1).last() == xv);
        i += 1;
    }
    assert(input.take(items@.len() as int) =~= input);
    out
}

fn offered_themes(first: &Vec<String>, second: &Vec<String>, ui: bool) -> (r: Vec<String>)
    ensures
        r@.map_values(|s: String| s@) == offered(
            first@.map_values(|s: String| s@),
            second@.map_values(|s: String| s@),
            ui,
        ),
{
    let mut found = themes_from(first, ui);
    if found.len() == 0 {
        found = themes_from(second, ui);
    }
    if found.len() == 0 {
        found = if ui {
            owned_names(get_available_ui_themes())
        } else {
            owned_names(get_available_markdown_themes())
        };
    }
    sort_names(found)
}

/// The UI and markdown themes offered, from the file names of the bundled theme folders
/// (`first`) and of the static ones (`second`), falling back to the built-in names; each
/// list in name order.
pub fn available_themes(first_ui: &Vec<String>, first_markdown: &Vec<String>, second_ui: &Vec<String>, second_markdown: &Vec<String>) -> (r: (Vec<String>, Vec<String>))
    ensures
        r.0@.map_values(|s: String| s@) == offered(
            first_ui@.map_values(|s: String| s@),
            second_ui@.map_values(|s: String| s@),
            true,
        ),
        r.1@.map_values(|s: String| s@) == offered(
            first_markdown@.map_values(|s: String| s@),
            second_markdown@.map_values(|s: String| s@),
            false,
        ),
{
    (offered_themes(first_ui, second_ui, true), offered_themes(first_markdown, second_markdown, false))
}

/// The verdict on a theme path: no file there is `false`, a CSS file is `true`, anything
/// else is refused.
pub open spec fn theme_path_check(path: Seq<char>, exists: bool, is_file: bool) -> Result<bool, AppErrorView> {
    if !exists {
        Ok(false)
    } else if !is_file {
        Err(AppErrorView::InvalidPath("Path exists but is not a file"@))
    } else if path_extension(path) == Some("css"@) {
        Ok(true)
    } else {
        Err(AppErrorView::InvalidPath("File must have .css extension"@))
    }
}

/// Checks a theme path, given whether something is there and whether it is a file.
pub fn validate_theme_path(path: &str, exists: bool, is_file: bool) -> (r: Result<bool, AppError>)
    ensures
        result_view(r) == theme_path_check(path@, exists, is_file),
{
    proof {
        reveal_strlit("Path exists but is not a file");
        reveal_strlit("File must have .css extension");
        reveal_strlit("css");
    }
    if !exists {
        return Ok(false);
    }
    if !is_file {
        return Err(AppError::InvalidPath(owned("Path exists but is not a file")));
    }
    if is_css(path) {
        Ok(true)
    } else {
        Err(AppError::InvalidPath(owned("File must have .css extension")))
    }
}

fn is_css(path: &str) -> (r: bool)
    ensures
        r == (path_extension(path@) == Some("css"@)),
{
    proof {
        reveal_strlit("css");
    }
    match extension(path) {
        Some(e) => {
            let a = chars_of(e.as_str());
            let b = chars_of("css");
            crate::text::chars_equal(&a, &b)
        },
        None => false,
    }
}

/// The verdict on a custom theme file before it is read: it must be there, be a file, have
/// the `css` extension and be given by an absolute path (one that starts with `/`).
pub open spec fn custom_theme_check(path: Seq<char>, exists: bool, is_file: bool) -> Result<(), AppErrorView> {
    if !exists {
        Err(AppErrorView::FileNotFound(path))
    } else if !is_file {
        Err(AppErrorView::InvalidPath("Path is not a file: "@ + path))
    } else if path_extension(path) != Some("css"@) {
        Err(AppErrorView::InvalidPath("Theme file must have .css extension"@))
    } else if !(path.len() > 0 && path[0] == '/') {
        Err(AppErrorView::InvalidPath("Theme file path must be absolute: "@ + path))
    } else {
        Ok(())
    }
}

/// Checks a custom theme file before it is read, given whether something is there and
/// whether it is a file.
pub fn check_custom_theme_file(path: &str, exists: bool, is_file: bool) -> (r: Result<(), AppError>)
    ensures
        result_view(r) == custom_theme_check(path@, exists, is_file),
{
    proof {
        reveal_strlit("Path is not a file: ");
        reveal_strlit("Theme file must have .css extension");
    }
    if !exists {
        return Err(AppError::FileNotFound(owned(path)));
    }
    if !is_file {
        return Err(AppError::InvalidPath(concat2("Path is not a file: ", path)));
    }
    if !is_css(path) {
        return Err(AppError::InvalidPath(owned("Theme file must have .css extension")));
    }
    let v = chars_of(path);
    if v.len() > 0 && v[0] == '/' {
        Ok(())
    } else {
        proof {
            reveal_strlit("Theme file path must be absolute: ");
        }
        Err(AppError::InvalidPath(concat2("Theme file path must be absolute: ", path)))
    }
}

/// What loading a custom theme file gives: the verdict of [`custom_theme_check`] where it
/// refuses the path; otherwise the text that was read, or a read error.
pub open spec fn theme_load_outcome(
    path: Seq<char>,
    exists: bool,
    is_file: bool,
    read: Result<Seq<char>, Seq<char>>,
) -> Result<Seq<char>, AppErrorView> {
    match custom_theme_check(path, exists, is_file) {
        Err(e) => Err(e),
        Ok(_) => match read {
            Ok(t) => Ok(t),
            Err(m) => Err(AppErrorView::FileRead("Failed to read theme file: "@ + m)),
        },
    }
}

/// Loads a custom theme file, given whether something is at the path, whether it is a file
/// and what reading it gave: the path is checked first, and the text is returned only where
/// the check passes.
pub fn load_custom_theme_file(path: &str, exists: bool, is_file: bool, read: Result<String, String>) -> (r: Result<String, AppError>)
    ensures
        (match r {
            Ok(t) => Ok::<Seq<char>, AppErrorView>(t@),
            Err(e) => Err(e@),
        }) == theme_load_outcome(path@, exists, is_file, match read {
            Ok(t) => Ok::<Seq<char>, Seq<char>>(t@),
            Err(m) => Err(m@),
        }),
{
    match check_custom_theme_file(path, exists, is_file) {
        Err(e) => Err(e),
        Ok(()) => match read {
            Ok(t) => Ok(t),
            Err(m) => {
                proof {
                    reveal_strlit("Failed to read theme file: ");
                }
                Err(AppError::FileRead(concat2("Failed to read theme file: ", m.as_str())))
            },
        },
    }
}

} // verus!
