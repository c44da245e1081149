//! The tray menu: which action a menu entry asks for.
use crate::text::range_eq;
use crate::text::chars_of;
use vstd::prelude::*;

verus! {

/// What the user asked for from the tray.
#[derive(Debug, Clone, Copy, PartialEq, Eq, Structural)]
pub enum TrayAction {
    Show,
    Quit,
}

/// The id of the menu entry that shows the window.
pub open spec fn show_id() -> Seq<char> {
    "portweave-show"@
}

/// The id of the menu entry that quits.
pub open spec fn quit_id() -> Seq<char> {
    "portweave-quit"@
}

/// The action of the menu entry with the id `id`, if it is one of ours.
pub fn menu_action(id: &str) -> (action: Option<TrayAction>)
    ensures
        action == (if id@ == show_id() {
            Some(TrayAction::Show)
        } else if id@ == quit_id() {
            Some(TrayAction::Quit)
        } else {
            None
        }),
{
    let v = chars_of(id);
    assert(v@.subrange(0, v@.len() as int) == v@);
    if range_eq(&v, 0, v.len(), "portweave-show") {
        Some(TrayAction::Show)
    } else if range_eq(&v, 0, v.len(), "portweave-quit") {
        Some(TrayAction::Quit)
    } else {
        None
    }
}

/// Where the platform has no tray there is never an action to take.
pub fn poll() -> (action: Option<TrayAction>)
    ensures
        action is None,
{
    None
}

} // verus!
