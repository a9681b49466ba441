//! What the main window does when the global shortcut is pressed or the tray icon is
//! clicked, decided from what is known of the window.

use vstd::prelude::*;

verus! {

/// What to do with the main window.
#[derive(Debug, Clone, Copy, PartialEq, Eq, Structural)]
pub enum WindowAction {
    /// Hide the window.
    Hide,
    /// Give the visible window the focus.
    Focus,
    /// Show the window and give it the focus.
    ShowAndFocus,
    /// There is no window yet: open the main window.
    Open,
}

/// What the window knows of itself. A query that failed counts as `false`.
#[derive(Debug, Clone, Copy, PartialEq, Eq, Structural)]
pub struct WindowState {
    pub exists: bool,
    pub visible: bool,
    pub focused: bool,
}

/// The answer to the global shortcut: a window in front is hidden, a visible window
/// without the focus gets it, and a hidden one is shown and focused.
pub open spec fn shortcut_action_spec(w: WindowState) -> WindowAction {
    if !w.exists {
        WindowAction::Open
    } else if w.visible && w.focused {
        WindowAction::Hide
    } else if w.visible {
        WindowAction::Focus
    } else {
        WindowAction::ShowAndFocus
    }
}

/// The answer to a left click on the tray icon: a visible window is hidden, any other
/// is shown and focused.
pub open spec fn tray_action_spec(w: WindowState) -> WindowAction {
    if !w.exists {
        WindowAction::Open
    } else if w.visible {
        WindowAction::Hide
    } else {
        WindowAction::ShowAndFocus
    }
}

/// Decides what the global shortcut does to the main window.
pub fn global_shortcut_action(w: WindowState) -> (r: WindowAction)
    ensures
        r == shortcut_action_spec(w),
{
    if !w.exists {
        WindowAction::Open
    } else if w.visible && w.focused {
        WindowAction::Hide
    } else if w.visible {
        WindowAction::Focus
    } else {
        WindowAction::ShowAndFocus
    }
}

/// Decides what a left click on the tray icon does to the main window.
pub fn tray_click_action(w: WindowState) -> (r: WindowAction)
    ensures
        r == tray_action_spec(w),
{
    if !w.exists {
        WindowAction::Open
    } else if w.visible {
        WindowAction::Hide
    } else {
        WindowAction::ShowAndFocus
    }
}

/// The state a window is in after an action has been carried out on it.
pub open spec fn after_action(w: WindowState, a: WindowAction) -> WindowState {
    match a {
        WindowAction::Hide => WindowState { exists: true, visible: false, focused: false },
        WindowAction::Focus | WindowAction::ShowAndFocus | WindowAction::Open => WindowState {
            exists: true,
            visible: true,
            focused: true,
        },
    }
}

/// Pressing the global shortcut twice brings the window back where it was, for a window
/// that was either in front or hidden: the shortcut toggles the window.
pub proof fn law_shortcut_toggles(w: WindowState)
    requires
        w.exists,
        w.visible == w.focused,
    ensures
        after_action(after_action(w, shortcut_action_spec(w)), shortcut_action_spec(
            after_action(w, shortcut_action_spec(w)),
        )) == w,
{
}

} // verus!
