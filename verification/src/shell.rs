//! The decisions of the desktop shell: commands and the tray menu.
use vstd::prelude::*;
use crate::text::{chars_eq_str, chars_of, owned, push_str};

verus! {

/// The greeting of the `greet` command.
pub fn greet(name: &str) -> (r: String)
    ensures
        r@ == "Hello, "@ + name@ + "! You've been greeted from Rust!"@,
{
    let mut r = owned("Hello, ");
    push_str(&mut r, name);
    push_str(&mut r, "! You've been greeted from Rust!");
    r
}

/// What a tray menu entry does.
#[derive(Debug, Clone, Copy, PartialEq, Eq, Structural)]
pub enum TrayAction {
    /// Show and focus the main window.
    Show,
    /// Refresh the to-do list (not wired up yet: does nothing).
    Refresh,
    /// Open the login window.
    Login,
    /// Quit the application.
    Quit,
    /// An entry the menu does not have: nothing.
    Ignore,
}

/// The action of the tray menu entry with id `id`.
pub open spec fn tray_action_of(id: Seq<char>) -> TrayAction {
    if id == "show"@ {
        TrayAction::Show
    } else if id == "refresh"@ {
        TrayAction::Refresh
    } else if id == "login"@ {
        TrayAction::Login
    } else if id == "quit"@ {
        TrayAction::Quit
    } else {
        TrayAction::Ignore
    }
}

/// The action of the tray menu entry with id `id`.
pub fn tray_action(id: &str) -> (r: TrayAction)
    ensures
        r == tray_action_of(id@),
{
    let c = chars_of(id);
    if chars_eq_str(&c, "show") {
        TrayAction::Show
    } else if chars_eq_str(&c, "refresh") {
        TrayAction::Refresh
    } else if chars_eq_str(&c, "login") {
        TrayAction::Login
    } else if chars_eq_str(&c, "quit") {
        TrayAction::Quit
    } else {
        TrayAction::Ignore
    }
}

} // verus!
