//! The input box: where the terminal cursor goes.

use vstd::prelude::*;
use crate::app::{clusters_before, App, concat_clusters};
use crate::outside::{display_width, graphemes, width};
use crate::ui::Area;
use crate::ui::chat_view::low16;

verus! {

/// The cell of the terminal cursor in the input box `area`: after the
/// frame's left edge, as many columns in as the text before the cursor
/// is wide, on the row below the frame's top edge; `None` when that
/// column is not left of the box's right end. Where the column or the row
/// would pass `u16::MAX` the answer is `None` too.
pub open spec fn cursor_spec(text: Seq<char>, cursor: int, area: Area) -> Option<(u16, u16)> {
    let x = area.x + 1 + low16(display_width(clusters_before(text, cursor)) as int);
    if x < area.x + area.width && area.y + 1 <= 65535 {
        Some((x as u16, (area.y + 1) as u16))
    } else {
        None
    }
}

/// Where the terminal cursor goes for the input line of `app`, shown in
/// the box `area`: `cursor_spec`.
pub fn calculate_cursor_position(app: &App, area: Area) -> (pos: Option<(u16, u16)>)
    requires
        area.x + area.width <= u16::MAX,
    ensures
        pos == cursor_spec(app.input_buffer@, app.input_cursor as int, area),
{
    let gs = graphemes(app.input_buffer.as_str());
    let k = if app.input_cursor < gs.len() {
        app.input_cursor
    } else {
        gs.len()
    };
    let text_before_cursor = concat_clusters(&gs, 0, k);
    proof {
        let g = crate::outside::string_views(gs@);
        assert(g.subrange(0, k as int) == g.take(k as int));
    }
    let w = width(text_before_cursor.as_str());
    let w16 = w as u16;
    assert(w16 == low16(w as int)) by (bit_vector)
        requires
            w16 == w as u16,
    ;
    let x: u32 = area.x as u32 + 1 + w16 as u32;
    if x < area.x as u32 + area.width as u32 && area.y < u16::MAX {
        Some((x as u16, area.y + 1))
    } else {
        None
    }
}

} // verus!
