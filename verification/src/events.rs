//! How the menu reacts to each kind of window-system event.

use vstd::prelude::*;

verus! {

/// Event types of the X protocol that the menu handles.
pub const KEY_PRESS: i32 = 2;
pub const BUTTON_PRESS: i32 = 4;
pub const FOCUS_IN: i32 = 9;
pub const EXPOSE: i32 = 12;
pub const VISIBILITY_NOTIFY: i32 = 15;
pub const DESTROY_NOTIFY: i32 = 17;
pub const SELECTION_NOTIFY: i32 = 31;

/// Visibility state of a window that nothing covers.
pub const VISIBILITY_UNOBSCURED: i32 = 0;

/// What to do about an event.
#[derive(Debug)]
pub enum Reaction {
    /// Stop with this exit status.
    Quit(i32),
    /// Handle a mouse button press.
    Button,
    /// Handle a key press.
    Key,
    /// Copy the drawn menu onto the window.
    Show,
    /// Take the input focus back.
    GrabFocus,
    /// Insert the selection that was converted.
    Paste,
    /// Raise the window above those covering it.
    Raise,
    /// Nothing.
    Ignore,
}

/// The reaction to an event of type `typ`.  `about_menu` says whether the
/// event names the menu window (for a destruction or a focus change),
/// `count` is the number of exposures still to come, `utf8_property`
/// whether a converted selection came as UTF-8 text, and `visibility` the
/// new visibility state.
pub fn react(typ: i32, about_menu: bool, count: i32, utf8_property: bool, visibility: i32) -> (r: Reaction)
    ensures
        r == (if typ == DESTROY_NOTIFY {
            if about_menu {
                Reaction::Quit(1)
            } else {
                Reaction::Ignore
            }
        } else if typ == BUTTON_PRESS {
            Reaction::Button
        } else if typ == EXPOSE {
            if count == 0 {
                Reaction::Show
            } else {
                Reaction::Ignore
            }
        } else if typ == FOCUS_IN {
            if about_menu {
                Reaction::Ignore
            } else {
                Reaction::GrabFocus
            }
        } else if typ == KEY_PRESS {
            Reaction::Key
        } else if typ == SELECTION_NOTIFY {
            if utf8_property {
                Reaction::Paste
            } else {
                Reaction::Ignore
            }
        } else if typ == VISIBILITY_NOTIFY {
            if visibility != VISIBILITY_UNOBSCURED {
                Reaction::Raise
            } else {
                Reaction::Ignore
            }
        } else {
            Reaction::Ignore
        }),
{
    if typ == DESTROY_NOTIFY {
        if about_menu {
            Reaction::Quit(1)
        } else {
            Reaction::Ignore
        }
    } else if typ == BUTTON_PRESS {
        Reaction::Button
    } else if typ == EXPOSE {
        if count == 0 {
            Reaction::Show
        } else {
            Reaction::Ignore
        }
    } else if typ == FOCUS_IN {
        if about_menu {
            Reaction::Ignore
        } else {
            Reaction::GrabFocus
        }
    } else if typ == KEY_PRESS {
        Reaction::Key
    } else if typ == SELECTION_NOTIFY {
        if utf8_property {
            Reaction::Paste
        } else {
            Reaction::Ignore
        }
    } else if typ == VISIBILITY_NOTIFY {
        if visibility != VISIBILITY_UNOBSCURED {
            Reaction::Raise
        } else {
            Reaction::Ignore
        }
    } else {
        Reaction::Ignore
    }
}

} // verus!
