//! Key events.

use vstd::prelude::*;

verus! {

/// One decoded key press.
///
/// Enter arrives as `Char('\n')` and Ctrl-C as `Ctrl('c')`; every key a menu
/// has no use for is `Other`.
#[derive(Clone, Copy, Debug, PartialEq, Eq)]
pub enum Key {
    /// Up arrow.
    Up,
    /// Down arrow.
    Down,
    /// Home key.
    Home,
    /// End key.
    End,
    /// Escape key.
    Esc,
    /// A plain character.
    Char(char),
    /// A character typed together with Ctrl.
    Ctrl(char),
    /// Any other key.
    Other,
}

impl Key {
    /// The Enter key.
    pub open spec fn is_enter(self) -> bool {
        self == Key::Char('\n')
    }

    /// The keys that abandon a selection: Escape, `q` and Ctrl-C.
    pub open spec fn is_cancel(self) -> bool {
        self == Key::Esc || self == Key::Char('q') || self == Key::Ctrl('c')
    }
}

} // verus!
