//! The panel that icons are shown on.

use vstd::prelude::*;

verus! {

/// What painting has to know of the theme of a panel.
#[derive(Clone, Copy, Debug, PartialEq, Eq)]
pub struct ThemeContext {
    /// Whether icons take the colours of the theme at all.
    pub colour_icons: bool,
    /// The colour that the panel writes in: red, green, blue.
    pub ink: [u8; 3],
    /// The colour of the panel: red, green, blue.
    pub background: [u8; 3],
}

} // verus!
