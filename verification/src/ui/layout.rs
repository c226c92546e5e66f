//! The screen layout: the sidebar on the left, and on the right the chat
//! view above the input box.

use vstd::prelude::*;
use crate::outside::{split_area, split_by_layout};
use crate::ui::Area;

verus! {

/// A direction in which an area is split.
#[derive(Debug, Clone, Copy, PartialEq, Eq, Structural)]
pub enum SplitDirection {
    /// Side by side, left to right.
    Horizontal,
    /// One above the other, top to bottom.
    Vertical,
}

/// A constraint on one part of a split, as ratatui's `Constraint` has it.
#[derive(Debug, Clone, Copy, PartialEq, Eq, Structural)]
pub enum SplitConstraint {
    /// This percentage of the area.
    Percentage(u16),
    /// At least this many cells.
    Min(u16),
    /// Exactly this many cells, where the other constraints allow it.
    Length(u16),
}

/// The regions of the screen: the sidebar, the right side, and within
/// the right side the chat view and the input box.
#[derive(Debug, Clone, Copy, PartialEq, Eq, Structural)]
pub struct ScreenAreas {
    pub sidebar: Area,
    pub right: Area,
    pub chat: Area,
    pub input: Area,
}

/// The side-by-side split of the screen: a fifth for the sidebar, the
/// rest for the chat view and the input box.
pub open spec fn sides() -> Seq<SplitConstraint> {
    seq![SplitConstraint::Percentage(20), SplitConstraint::Percentage(80)]
}

/// The split of the right side: the chat view with at least five rows
/// above an input box three rows high.
pub open spec fn right_rows() -> Seq<SplitConstraint> {
    seq![SplitConstraint::Min(5), SplitConstraint::Length(3)]
}

/// Splits the screen `area`: side by side into the sidebar (20 percent)
/// and the right side (80 percent), and the right side top to bottom into
/// the chat view (at least 5 rows) and the input box (3 rows). The two
/// sides span the screen's full height, and the chat view and the input
/// box the right side's full width.
pub fn screen_areas(area: Area) -> (s: ScreenAreas)
    ensures
        split_by_layout(area, SplitDirection::Horizontal, sides(), seq![s.sidebar, s.right]),
        split_by_layout(s.right, SplitDirection::Vertical, right_rows(), seq![s.chat, s.input]),
        s.sidebar.y == area.y && s.sidebar.height == area.height,
        s.right.y == area.y && s.right.height == area.height,
        s.chat.x == s.right.x && s.chat.width == s.right.width,
        s.input.x == s.right.x && s.input.width == s.right.width,
{
    let side_cs = vec![SplitConstraint::Percentage(20), SplitConstraint::Percentage(80)];
    let halves = split_area(area, SplitDirection::Horizontal, &side_cs);
    let right = halves[1];
    let row_cs = vec![SplitConstraint::Min(5), SplitConstraint::Length(3)];
    let rows = split_area(right, SplitDirection::Vertical, &row_cs);
    let s = ScreenAreas { sidebar: halves[0], right, chat: rows[0], input: rows[1] };
    proof {
        assert(side_cs@ == sides());
        assert(row_cs@ == right_rows());
        assert(halves@ == seq![s.sidebar, s.right]);
        assert(rows@ == seq![s.chat, s.input]);
    }
    s
}

} // verus!
