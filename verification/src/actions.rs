//! The closed set of editing actions a host can dispatch to the
//! input's context menus.

use vstd::prelude::*;

verus! {

/// Confirm the current choice.
#[derive(Debug, Clone, Copy, PartialEq, Eq, Structural)]
pub struct Confirm {
    /// Is confirm with secondary.
    pub secondary: bool,
}

/// An action aimed at the input and its menus.
#[derive(Debug, Clone, Copy, PartialEq, Eq, Structural)]
pub enum InputAction {
    /// Accept the selected entry.
    Confirm(Confirm),
    /// Dismiss the menu.
    Cancel,
    /// Move the menu selection up.
    SelectPrev,
    /// Move the menu selection down.
    SelectNext,
    /// Move the selection left.
    SelectLeft,
    /// Move the selection right.
    SelectRight,
}

} // verus!
