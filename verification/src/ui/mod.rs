//! The screen-side computations: line wrapping and the layout of the
//! chat view, and the cursor of the input box.

use vstd::prelude::*;

pub mod chat_view;
pub mod input;
pub mod layout;
pub mod wrap;

verus! {

/// A rectangle of terminal cells: its top-left corner and its size.
#[derive(Debug, Clone, Copy, PartialEq, Eq, Structural)]
pub struct Area {
    pub x: u16,
    pub y: u16,
    pub width: u16,
    pub height: u16,
}

} // verus!
