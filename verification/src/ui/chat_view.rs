//! The chat view: each message as a bubble (a line with the author and
//! time, then the wrapped text in a frame), and the bubbles of a
//! conversation placed in the visible part of the view, scrolled from the
//! bottom.

use vstd::prelude::*;
use crate::clock::{clock_text, format_clock};
use crate::model::message::Message;
use crate::model::role::Role;
use crate::outside::{display_width, string_views, width};
use crate::ui::Area;
use crate::ui::wrap::{wrap, wrap_text};

verus! {

/// How wide a bubble may be, in percent of the chat view's width.
pub const MAX_BUBBLE_WIDTH_PRECENT: u16 = 30;

/// The frame of a bubble around its text, on each side.
pub const BUBBLE_MARGIN: u16 = 1;

/// The rows between two bubbles.
pub const BUBBLE_SPACING: u16 = 1;

/// The colour of a bubble.
#[derive(Debug, Clone, Copy, PartialEq, Eq, Structural)]
pub enum BubbleColor {
    Green,
    Blue,
}

/// The user's bubbles are green, the assistant's blue.
pub open spec fn role_color(role: Role) -> BubbleColor {
    if role == Role::User {
        BubbleColor::Green
    } else {
        BubbleColor::Blue
    }
}

/// A message prepared for the chat view.
#[derive(Debug)]
pub struct RenderedMessage {
    pub role: Role,
    pub timestamp_str: String,
    pub content_lines: Vec<String>,
    pub info_height: u16,
    pub bubble_width: u16,
    pub bubble_height: u16,
    pub color: BubbleColor,
}

/// `v as u16`: the low sixteen bits.
pub open spec fn low16(v: int) -> int {
    v % 65536
}

/// The widest of `ls`, each width cut to sixteen bits; 1 when `ls` is empty.
pub open spec fn widest(ls: Seq<Seq<char>>) -> int
    decreases ls.len(),
{
    if ls.len() == 0 {
        1
    } else if ls.len() == 1 {
        low16(display_width(ls[0]) as int)
    } else {
        let w = widest(ls.drop_last());
        let l = low16(display_width(ls.last()) as int);
        if l > w {
            l
        } else {
            w
        }
    }
}

/// The bubble of wrapped lines `ls` with text at most `max_content_width`
/// wide: `(width, height)`, or `None` where the sizes do not fit in
/// sixteen bits.
pub open spec fn bubble_size(ls: Seq<Seq<char>>, max_content_width: int) -> Option<(int, int)> {
    let content_width = widest(ls);
    let limit = low16(max_content_width);
    let content_height = low16(ls.len() as int);
    if content_width + 2 > 65535 || limit + 2 > 65535 || content_height + 2 > 65535 {
        None
    } else {
        Some(
            (if content_width + 2 <= limit + 2 {
                content_width + 2
            } else {
                limit + 2
            }, content_height + 2),
        )
    }
}

/// The widest line of `ls`, each width cut to sixteen bits (`widest`).
fn widest_line(ls: &Vec<String>) -> (w: u16)
    ensures
        w == widest(string_views(ls@)),
{
    let ghost v = string_views(ls@);
    if ls.len() == 0 {
        return 1;
    }
    let mut best: u16 = 0;
    let mut i: usize = 0;
    while i < ls.len()
        invariant
            v == string_views(ls@),
            ls@.len() > 0,
            i <= ls.len(),
            i > 0 ==> best == widest(v.take(i as int)),
        decreases ls.len() - i,
    {
        let full = width(ls[i].as_str());
        let w = full as u16;
        assert(w == low16(full as int)) by (bit_vector)
            requires
                w == full as u16,
        ;
        proof {
            assert(v[i as int] == ls@[i as int]@);
            assert(v.take(i + 1).drop_last() == v.take(i as int));
            assert(v.take(i + 1).last() == v[i as int]);
            if i == 0 {
                assert(v.take(1)[0] == v[0]);
            }
        }
        if i == 0 || w > best {
            best = w;
        }
        i += 1;
    }
    assert(v.take(ls.len() as int) == v);
    best
}

impl RenderedMessage {
    /// Prepares `msg` for a bubble whose text is at most
    /// `max_content_width` columns wide: wraps the text and sizes the
    /// bubble around it. `None` where a size does not fit in sixteen bits.
    pub fn from_message(msg: &Message, max_content_width: usize) -> (r: Option<RenderedMessage>)
        requires
            msg.timestamp.wf(),
        ensures
            ({
                let ls = wrap(msg.content@, max_content_width as int);
                match bubble_size(ls, max_content_width as int) {
                    None => r is None,
                    Some(size) => r matches Some(m) && {
                        &&& m.role == msg.role
                        &&& m.timestamp_str@ == clock_text(msg.timestamp)
                        &&& string_views(m.content_lines@) == ls
                        &&& m.info_height == 1
                        &&& m.bubble_width == size.0
                        &&& m.bubble_height == size.1
                        &&& m.color == role_color(msg.role)
                    },
                }
            }),
    {
        let wrapped_lines = wrap_text(msg.content.as_str(), max_content_width);
        let n = wrapped_lines.len();
        let content_height = n as u16;
        assert(content_height == low16(n as int)) by (bit_vector)
            requires
                content_height == n as u16,
        ;
        let content_width = widest_line(&wrapped_lines);
        let limit = max_content_width as u16;
        assert(limit == low16(max_content_width as int)) by (bit_vector)
            requires
                limit == max_content_width as u16,
        ;
        if content_width as u32 + 2 > 65535 || limit as u32 + 2 > 65535 || content_height as u32 + 2
            > 65535 {
            return None;
        }
        let bubble_width = if content_width + 2 <= limit + 2 {
            content_width + 2
        } else {
            limit + 2
        };
        let color = if msg.role == Role::User {
            BubbleColor::Green
        } else {
            BubbleColor::Blue
        };
        Some(
            RenderedMessage {
                role: msg.role,
                timestamp_str: format_clock(&msg.timestamp),
                content_lines: wrapped_lines,
                info_height: 1,
                bubble_width,
                bubble_height: content_height + 2,
                color,
            },
        )
    }
}

// ---------------------------------------------------------------------
// Bubble frames.
/// Which parts of a bubble's frame to draw: the sides, the top edge
/// (when the bubble's top is not scrolled away) and the bottom edge (when
/// its bottom is on screen).
#[derive(Debug, Clone, Copy, PartialEq, Eq, Structural)]
pub struct BorderPlan {
    pub sides: bool,
    pub top: bool,
    pub bottom: bool,
}

/// The frame of the visible part `rect` of a bubble `full_height`
/// rows tall whose first `clip_top` rows are scrolled away; `None` where
/// `clip_top + rect.height` passes `u16::MAX`.
pub open spec fn border_spec(rect: Area, clip_top: u16, full_height: u16) -> Option<BorderPlan> {
    if rect.height == 0 || rect.width == 0 {
        Some(BorderPlan { sides: false, top: false, bottom: false })
    } else if clip_top + rect.height > 65535 {
        None
    } else {
        Some(
            BorderPlan {
                sides: true,
                top: clip_top == 0,
                bottom: clip_top + rect.height == full_height && rect.height > (if clip_top
                    == 0 {
                    1int
                } else {
                    0int
                }),
            },
        )
    }
}

/// Decides which parts of a bubble's frame are drawn: `border_spec`.
pub fn border_plan(rect: Area, clip_top: u16, full_height: u16) -> (b: Option<BorderPlan>)
    ensures
        b == border_spec(rect, clip_top, full_height),
{
    if rect.height == 0 || rect.width == 0 {
        return Some(BorderPlan { sides: false, top: false, bottom: false });
    }
    if clip_top as u32 + rect.height as u32 > 65535 {
        return None;
    }
    let bottom_visible = clip_top + rect.height == full_height;
    let min_height: u16 = if clip_top == 0 {
        1
    } else {
        0
    };
    Some(
        BorderPlan {
            sides: true,
            top: clip_top == 0,
            bottom: bottom_visible && rect.height > min_height,
        },
    )
}

// ---------------------------------------------------------------------
// Placing the bubbles.
/// Where the text of a bubble goes, and which of its lines show there.
#[derive(Debug, Clone, Copy, PartialEq, Eq, Structural)]
pub struct ContentDraw {
    pub rect: Area,
    pub first_line: usize,
    pub line_count: usize,
}

/// The visible part of a bubble: its rectangle, how many of its rows are
/// scrolled away above, its frame and its text.
#[derive(Debug, Clone, Copy, PartialEq, Eq, Structural)]
pub struct BubbleDraw {
    pub rect: Area,
    pub clip_top: u16,
    pub borders: BorderPlan,
    pub content: Option<ContentDraw>,
}

/// What is drawn of message `index`: its author-and-time line, its bubble.
#[derive(Debug, Clone, Copy, PartialEq, Eq, Structural)]
pub struct MessageDraw {
    pub index: usize,
    pub info: Option<Area>,
    pub bubble: Option<BubbleDraw>,
}

/// The outcome of placing one message.
#[derive(Debug, Clone, Copy, PartialEq, Eq, Structural)]
pub enum Placement {
    /// A row or column number would pass `u16::MAX`.
    Overflow,
    /// The message starts below the visible part: no more are drawn.
    Stop,
    /// Nothing of the message is drawn; the next one starts at this row.
    Skip(u16),
    /// The message is drawn; the next one starts at this row of the
    /// conversation and this row of the screen.
    Draw(MessageDraw, u16, u16),
}

/// The sizes of a prepared message: info rows, bubble rows, bubble
/// columns and number of text lines.
pub open spec fn dims_of(r: RenderedMessage) -> (int, int, int, int) {
    (r.info_height as int, r.bubble_height as int, r.bubble_width as int, r.content_lines@.len() as int)
}

/// Where the text of a bubble goes: `Some(None)` when no text shows,
/// `None` where a coordinate passes `u16::MAX`.
pub open spec fn content_spec(
    bubble: Area,
    clip: int,
    bubble_draw_height: int,
    bubble_height: int,
    line_count: int,
) -> Option<Option<ContentDraw>> {
    if bubble_draw_height < 2 {
        Some(None)
    } else {
        let hidden = if bubble_height > bubble_draw_height {
            bubble_height - bubble_draw_height
        } else {
            0
        };
        let border_height = if 2 > hidden {
            2 - hidden
        } else {
            0
        };
        let visible = bubble_draw_height - border_height;
        let start_line = if clip > 1 {
            clip - 1
        } else {
            0
        };
        let start = if start_line <= low16(line_count) {
            start_line
        } else {
            low16(line_count)
        };
        let count = if visible <= line_count - start {
            visible
        } else {
            line_count - start
        };
        if count == 0 {
            Some(None)
        } else if bubble.x + 1 > 65535 || (clip == 0 && bubble.y + 1 > 65535) {
            None
        } else {
            let rect = Area {
                x: (bubble.x + 1) as u16,
                y: (if clip == 0 {
                    bubble.y + 1
                } else {
                    bubble.y as int
                }) as u16,
                width: (if bubble.width > 2 {
                    bubble.width - 2
                } else {
                    0
                }) as u16,
                height: (if clip == 0 && bubble_draw_height == bubble_height {
                    visible
                } else {
                    bubble_draw_height - (if clip == 0 {
                        1int
                    } else {
                        0int
                    })
                }) as u16,
            };
            if rect.width > 0 && rect.height > 0 {
                Some(Some(ContentDraw { rect, first_line: start as usize, line_count: count as usize }))
            } else {
                Some(None)
            }
        }
    }
}

/// Places message `index`, of sizes `d`, that starts at row `cy` of the
/// conversation when drawing has reached row `dy` of the screen, in the
/// view `inner` whose first visible conversation row is `vt`.
pub open spec fn place_spec(
    d: (int, int, int, int),
    index: int,
    cy: int,
    dy: int,
    inner: Area,
    vt: int,
) -> Placement {
    let (info_h, bubble_h, bubble_w, lines) = d;
    let full = info_h + bubble_h + 1;
    let bottom = cy + full;
    if info_h + bubble_h > 65535 || full > 65535 || bottom > 65535 {
        Placement::Overflow
    } else if bottom <= vt {
        Placement::Skip(bottom as u16)
    } else if vt + inner.height > 65535 {
        Placement::Overflow
    } else if cy >= vt + inner.height {
        Placement::Stop
    } else {
        let clip = if cy < vt {
            vt - cy
        } else {
            0
        };
        let avail0 = if inner.height > dy {
            inner.height - dy
        } else {
            0
        };
        let both = info_h + bubble_h;
        let shown = if both > clip {
            both - clip
        } else {
            0
        };
        if avail0 + 1 > 65535 {
            Placement::Overflow
        } else {
            let draw_h = if shown <= avail0 + 1 {
                shown
            } else {
                avail0 + 1
            };
            if draw_h == 0 {
                Placement::Skip(bottom as u16)
            } else {
                let info_dh = if info_h > clip {
                    info_h - clip
                } else {
                    0
                };
                let bubble_dh = if draw_h > info_dh {
                    draw_h - info_dh
                } else {
                    0
                };
                let bubble_clip = if clip > info_h {
                    clip - info_h
                } else {
                    0
                };
                if (info_dh > 0 || bubble_dh > 0) && inner.x + 1 > 65535 {
                    Placement::Overflow
                } else if dy + info_dh > 65535 {
                    Placement::Overflow
                } else {
                    let info = if info_dh > 0 {
                        Some(
                            Area {
                                x: (inner.x + 1) as u16,
                                y: dy as u16,
                                width: 20,
                                height: info_dh as u16,
                            },
                        )
                    } else {
                        None
                    };
                    let dy1 = dy + info_dh;
                    let rect = Area {
                        x: (inner.x + 1) as u16,
                        y: dy1 as u16,
                        width: bubble_w as u16,
                        height: bubble_dh as u16,
                    };
                    if bubble_dh > 0 && (border_spec(rect, bubble_clip as u16, bubble_h as u16) is None
                        || content_spec(rect, bubble_clip, bubble_dh, bubble_h, lines) is None) {
                        Placement::Overflow
                    } else if dy1 + bubble_dh + 1 > 65535 {
                        Placement::Overflow
                    } else {
                        let bubble = if bubble_dh > 0 {
                            Some(
                                BubbleDraw {
                                    rect,
                                    clip_top: bubble_clip as u16,
                                    borders: border_spec(
                                        rect,
                                        bubble_clip as u16,
                                        bubble_h as u16,
                                    )->0,
                                    content: content_spec(
                                        rect,
                                        bubble_clip,
                                        bubble_dh,
                                        bubble_h,
                                        lines,
                                    )->0,
                                },
                            )
                        } else {
                            None
                        };
                        Placement::Draw(
                            MessageDraw { index: index as usize, info, bubble },
                            bottom as u16,
                            (dy1 + bubble_dh + 1) as u16,
                        )
                    }
                }
            }
        }
    }
}

/// Where the text of a bubble goes: `content_spec`.
fn place_content(bubble: Area, clip: u16, bubble_draw_height: u16, bubble_height: u16, line_count: usize) -> (c: Option<Option<ContentDraw>>)
    ensures
        c == content_spec(bubble, clip as int, bubble_draw_height as int, bubble_height as int, line_count as int),
{
    if bubble_draw_height < 2 {
        return Some(None);
    }
    let hidden: u16 = if bubble_height > bubble_draw_height {
        bubble_height - bubble_draw_height
    } else {
        0
    };
    let border_height: u16 = if 2 > hidden {
        2 - hidden
    } else {
        0
    };
    let visible: u16 = bubble_draw_height - border_height;
    let start_line: u16 = if clip > 1 {
        clip - 1
    } else {
        0
    };
    let lines16 = line_count as u16;
    assert(lines16 == low16(line_count as int)) by (bit_vector)
        requires
            lines16 == line_count as u16,
    ;
    let start: u16 = if start_line <= lines16 {
        start_line
    } else {
        lines16
    };
    let rest: usize = line_count - start as usize;
    let count: usize = if (visible as usize) <= rest {
        visible as usize
    } else {
        rest
    };
    if count == 0 {
        return Some(None);
    }
    if bubble.x == u16::MAX || (clip == 0 && bubble.y == u16::MAX) {
        return None;
    }
    let rect = Area {
        x: bubble.x + 1,
        y: if clip == 0 {
            bubble.y + 1
        } else {
            bubble.y
        },
        width: if bubble.width > 2 {
            bubble.width - 2
        } else {
            0
        },
        height: if clip == 0 && bubble_draw_height == bubble_height {
            visible
        } else {
            bubble_draw_height - (if clip == 0 {
                1
            } else {
                0
            })
        },
    };
    if rect.width > 0 && rect.height > 0 {
        Some(Some(ContentDraw { rect, first_line: start as usize, line_count: count }))
    } else {
        Some(None)
    }
}

/// Places one message: `place_spec`.
fn place_message(r: &RenderedMessage, index: usize, cy: u16, dy: u16, inner: Area, vt: u16) -> (p: Placement)
    ensures
        p == place_spec(dims_of(*r), index as int, cy as int, dy as int, inner, vt as int),
{
    let info_h = r.info_height as u32;
    let bubble_h = r.bubble_height as u32;
    let full = info_h + bubble_h + 1;
    let bottom = cy as u32 + full;
    if info_h + bubble_h > 65535 || full > 65535 || bottom > 65535 {
        return Placement::Overflow;
    }
    if bottom <= vt as u32 {
        return Placement::Skip(bottom as u16);
    }
    if vt as u32 + inner.height as u32 > 65535 {
        return Placement::Overflow;
    }
    if cy as u32 >= vt as u32 + inner.height as u32 {
        return Placement::Stop;
    }
    let clip: u32 = if (cy as u32) < vt as u32 {
        vt as u32 - cy as u32
    } else {
        0
    };
    let avail0: u32 = if inner.height > dy {
        (inner.height - dy) as u32
    } else {
        0
    };
    let both = info_h + bubble_h;
    let shown: u32 = if both > clip {
        both - clip
    } else {
        0
    };
    if avail0 + 1 > 65535 {
        return Placement::Overflow;
    }
    let draw_h: u32 = if shown <= avail0 + 1 {
        shown
    } else {
        avail0 + 1
    };
    if draw_h == 0 {
        return Placement::Skip(bottom as u16);
    }
    let info_dh: u32 = if info_h > clip {
        info_h - clip
    } else {
        0
    };
    let bubble_dh: u32 = if draw_h > info_dh {
        draw_h - info_dh
    } else {
        0
    };
    let bubble_clip: u32 = if clip > info_h {
        clip - info_h
    } else {
        0
    };
    if (info_dh > 0 || bubble_dh > 0) && inner.x as u32 + 1 > 65535 {
        return Placement::Overflow;
    }
    if dy as u32 + info_dh > 65535 {
        return Placement::Overflow;
    }
    let info = if info_dh > 0 {
        Some(Area { x: inner.x + 1, y: dy, width: 20, height: info_dh as u16 })
    } else {
        None
    };
    let dy1: u32 = dy as u32 + info_dh;
    let x: u16 = if inner.x < u16::MAX { inner.x + 1 } else { 0 };
    let rect = Area {
        x: x,
        y: dy1 as u16,
        width: r.bubble_width,
        height: bubble_dh as u16,
    };
    let mut bubble: Option<BubbleDraw> = None;
    if bubble_dh > 0 {
        let borders = border_plan(rect, bubble_clip as u16, r.bubble_height);
        let content = place_content(rect, bubble_clip as u16, bubble_dh as u16, r.bubble_height, r.content_lines.len());
        match (borders, content) {
            (Some(b), Some(c)) => {
                bubble = Some(BubbleDraw { rect, clip_top: bubble_clip as u16, borders: b, content: c });
            },
            _ => {
                return Placement::Overflow;
            },
        }
    }
    if dy1 + bubble_dh + 1 > 65535 {
        return Placement::Overflow;
    }
    Placement::Draw(MessageDraw { index, info, bubble }, bottom as u16, (dy1 + bubble_dh + 1) as u16)
}

/// The rows that the messages of sizes `ds` take, each with the row
/// after it, as the view adds them up in sixteen bits; `None` where a sum
/// passes `u16::MAX`.
pub open spec fn heights_total(ds: Seq<(int, int, int, int)>) -> Option<int>
    decreases ds.len(),
{
    if ds.len() == 0 {
        Some(0)
    } else {
        match heights_total(ds.drop_last()) {
            None => None,
            Some(sum) => {
                let (info_h, bubble_h, _w, _l) = ds.last();
                if info_h + bubble_h > 65535 || info_h + bubble_h + 1 > 65535 || sum + info_h
                    + bubble_h + 1 > 65535 {
                    None
                } else {
                    Some(sum + info_h + bubble_h + 1)
                }
            },
        }
    }
}

/// The messages from `i` on, placed one after the other from conversation
/// row `cy` and screen row `dy` until one starts below the visible part;
/// `None` where a row or column number passes `u16::MAX`.
pub open spec fn layout_rest(
    ds: Seq<(int, int, int, int)>,
    i: int,
    cy: int,
    dy: int,
    inner: Area,
    vt: int,
) -> Option<Seq<MessageDraw>>
    decreases ds.len() - i,
{
    if i < 0 || i >= ds.len() {
        Some(Seq::empty())
    } else {
        match place_spec(ds[i], i, cy, dy, inner, vt) {
            Placement::Overflow => None,
            Placement::Stop => Some(Seq::empty()),
            Placement::Skip(cy2) => layout_rest(ds, i + 1, cy2 as int, dy, inner, vt),
            Placement::Draw(d, cy2, dy2) => match layout_rest(
                ds,
                i + 1,
                cy2 as int,
                dy2 as int,
                inner,
                vt,
            ) {
                None => None,
                Some(rest) => Some(seq![d] + rest),
            },
        }
    }
}

/// The scrollbar to draw: the view's area, the conversation's height, the
/// visible height, and how far from the top the view starts.
#[derive(Debug, Clone, Copy, PartialEq, Eq, Structural)]
pub struct ScrollbarPlan {
    pub area: Area,
    pub total_height: u16,
    pub visible_height: u16,
    pub scroll_offset: u16,
}

/// What the chat view draws: the scroll position after clamping, the
/// prepared messages, what is drawn of each, and the scrollbar.
pub struct ChatLayout {
    pub scroll_offset: u16,
    pub rendered: Vec<RenderedMessage>,
    pub draws: Vec<MessageDraw>,
    pub scrollbar: Option<ScrollbarPlan>,
}

/// The conversation's height in rows: the rows of all messages, without
/// the row after the last.
pub open spec fn content_height(raw: int) -> int {
    if raw > 0 {
        raw - 1
    } else {
        0
    }
}

/// The scroll position, counted in rows up from the bottom, clamped so
/// the view stays within the conversation; 0 when all of it fits.
pub open spec fn clamped_scroll(total: int, visible: int, scroll: int) -> int {
    if total <= visible {
        0
    } else if scroll <= total - visible {
        scroll
    } else {
        total - visible
    }
}

/// The first conversation row that the view shows.
pub open spec fn visible_top(total: int, visible: int, scroll: int) -> int {
    if total <= visible {
        0
    } else {
        total - visible - clamped_scroll(total, visible, scroll)
    }
}

/// The layout of prepared messages of sizes `ds` in the view `inner`
/// scrolled `scroll` rows up from the bottom; `None` where a row or
/// column number passes `u16::MAX`.
pub open spec fn layout_spec(ds: Seq<(int, int, int, int)>, inner: Area, scroll: int) -> Option<
    (int, Seq<MessageDraw>, ScrollbarPlan),
> {
    match heights_total(ds) {
        None => None,
        Some(raw) => {
            let total = content_height(raw);
            let h = inner.height as int;
            let vt = visible_top(total, h, scroll);
            let ns = clamped_scroll(total, h, scroll);
            match layout_rest(ds, 0, 0, inner.y as int, inner, vt) {
                None => None,
                Some(draws) => Some(
                    (
                        ns,
                        draws,
                        ScrollbarPlan {
                            area: inner,
                            total_height: total as u16,
                            visible_height: inner.height,
                            scroll_offset: (if total > h {
                                total - h - ns
                            } else {
                                0
                            }) as u16,
                        },
                    ),
                ),
            }
        },
    }
}

/// The sizes of each prepared message.
pub open spec fn dims_all(rs: Seq<RenderedMessage>) -> Seq<(int, int, int, int)> {
    rs.map_values(|r: RenderedMessage| dims_of(r))
}

/// Places prepared messages in the view `inner`, scrolled `scroll_offset`
/// rows up from the bottom: `layout_spec`. The scroll position comes back
/// clamped to the conversation.
pub fn layout_messages(inner: Area, rendered: &Vec<RenderedMessage>, scroll_offset: u16) -> (r:
    Option<(u16, Vec<MessageDraw>, ScrollbarPlan)>)
    ensures
        match layout_spec(dims_all(rendered@), inner, scroll_offset as int) {
            None => r is None,
            Some((ns, draws, bar)) => r matches Some(res) && res.0 == ns && res.1@ == draws && res.2
                == bar,
        },
{
    let ghost ds = dims_all(rendered@);
    let mut raw: u32 = 0;
    let mut i: usize = 0;
    while i < rendered.len()
        invariant
            ds == dims_all(rendered@),
            i <= rendered.len(),
            heights_total(ds.take(i as int)) == Some(raw as int),
        decreases rendered.len() - i,
    {
        proof {
            assert(ds.take(i + 1).drop_last() == ds.take(i as int));
            assert(ds.take(i + 1).last() == ds[i as int]);
            assert(ds[i as int] == dims_of(rendered@[i as int]));
        }
        let term = rendered[i].info_height as u32 + rendered[i].bubble_height as u32;
        if term > 65535 || term + 1 > 65535 || raw + term + 1 > 65535 {
            proof {
                lemma_heights_total_none(ds, i as int + 1);
            }
            return None;
        }
        raw = raw + term + 1;
        i += 1;
    }
    assert(ds.take(rendered.len() as int) == ds);
    let total: u16 = if raw > 0 {
        (raw - 1) as u16
    } else {
        0
    };
    let h = inner.height;
    let new_scroll: u16 = if total <= h {
        0
    } else if scroll_offset <= total - h {
        scroll_offset
    } else {
        total - h
    };
    let vt: u16 = if total <= h {
        0
    } else {
        total - h - new_scroll
    };
    let mut draws: Vec<MessageDraw> = Vec::new();
    let mut cy: u16 = 0;
    let mut dy: u16 = inner.y;
    let mut j: usize = 0;
    while j < rendered.len()
        invariant
            ds == dims_all(rendered@),
            j <= rendered.len(),
            heights_total(ds) == Some(raw as int),
            total as int == content_height(raw as int),
            vt as int == visible_top(total as int, inner.height as int, scroll_offset as int),
            ({
                let whole = layout_rest(ds, 0, 0, inner.y as int, inner, vt as int);
                let rest = layout_rest(ds, j as int, cy as int, dy as int, inner, vt as int);
                &&& whole is None <==> rest is None
                &&& rest matches Some(r) ==> whole == Some(draws@ + r)
            }),
        ensures
            layout_rest(ds, 0, 0, inner.y as int, inner, vt as int) == Some(draws@),
        decreases rendered.len() - j,
    {
        proof {
            assert(ds[j as int] == dims_of(rendered@[j as int]));
        }
        match place_message(&rendered[j], j, cy, dy, inner, vt) {
            Placement::Overflow => {
                assert(layout_rest(ds, j as int, cy as int, dy as int, inner, vt as int) is None);
                return None;
            },
            Placement::Stop => {
                assert(draws@ + Seq::<MessageDraw>::empty() == draws@);
                break;
            },
            Placement::Skip(next_cy) => {
                cy = next_cy;
            },
            Placement::Draw(d, next_cy, next_dy) => {
                proof {
                    let rest = layout_rest(ds, j + 1, next_cy as int, next_dy as int, inner, vt as int);
                    if let Some(r) = rest {
                        assert(draws@.push(d) + r == draws@ + (seq![d] + r));
                    }
                }
                draws.push(d);
                cy = next_cy;
                dy = next_dy;
            },
        }
        j += 1;
    }
    proof {
        if j == rendered.len() {
            assert(draws@ + Seq::<MessageDraw>::empty() == draws@);
        }
    }
    let bar = ScrollbarPlan {
        area: inner,
        total_height: total,
        visible_height: h,
        scroll_offset: if total > h {
            total - h - new_scroll
        } else {
            0
        },
    };
    Some((new_scroll, draws, bar))
}

proof fn lemma_heights_total_none(ds: Seq<(int, int, int, int)>, n: int)
    requires
        0 < n <= ds.len(),
        heights_total(ds.take(n)) is None,
    ensures
        heights_total(ds) is None,
    decreases ds.len() - n,
{
    if n < ds.len() {
        assert(ds.take(n + 1).drop_last() == ds.take(n));
        lemma_heights_total_none(ds, n + 1);
    } else {
        assert(ds.take(n) == ds);
    }
}

/// `r` is `msg` prepared for a bubble with text at most `max` columns wide.
pub open spec fn prepared_as(msg: Message, max: int, r: RenderedMessage) -> bool {
    let ls = wrap(msg.content@, max);
    match bubble_size(ls, max) {
        None => false,
        Some(size) => {
            &&& r.role == msg.role
            &&& r.timestamp_str@ == clock_text(msg.timestamp)
            &&& string_views(r.content_lines@) == ls
            &&& r.info_height == 1
            &&& r.bubble_width == size.0
            &&& r.bubble_height == size.1
            &&& r.color == role_color(msg.role)
        },
    }
}

/// The sizes of `msg` prepared with text at most `max` columns wide, or
/// `None` where they do not fit in sixteen bits.
pub open spec fn message_dims(msg: Message, max: int) -> Option<(int, int, int, int)> {
    let ls = wrap(msg.content@, max);
    match bubble_size(ls, max) {
        None => None,
        Some(size) => Some((1, size.1, size.0, ls.len() as int)),
    }
}

/// The sizes of all `msgs`, or `None` when one does not fit.
pub open spec fn all_dims(msgs: Seq<Message>, max: int) -> Option<Seq<(int, int, int, int)>>
    decreases msgs.len(),
{
    if msgs.len() == 0 {
        Some(Seq::empty())
    } else {
        match (all_dims(msgs.drop_last(), max), message_dims(msgs.last(), max)) {
            (Some(ds), Some(d)) => Some(ds.push(d)),
            _ => None,
        }
    }
}

/// The widest text of a bubble in a view `view_width` columns wide: 30
/// percent of the view, at least 20 columns, less the frame.
pub open spec fn bubble_text_width(view_width: int) -> int {
    let b = view_width * 30 / 100;
    (if b >= 20 {
        b
    } else {
        20
    }) - 2
}

proof fn lemma_all_dims_none(msgs: Seq<Message>, max: int, n: int)
    requires
        0 < n <= msgs.len(),
        all_dims(msgs.take(n), max) is None,
    ensures
        all_dims(msgs, max) is None,
    decreases msgs.len() - n,
{
    if n < msgs.len() {
        assert(msgs.take(n + 1).drop_last() == msgs.take(n));
        lemma_all_dims_none(msgs, max, n + 1);
    } else {
        assert(msgs.take(n) == msgs);
    }
}

/// What the chat view draws of `messages` in the area `inner` (inside
/// the view's frame), scrolled `scroll_offset` rows up from the bottom.
/// Nothing is drawn, and the scroll position stays, when the area is
/// empty or there are no messages. `None` where a size or a row or
/// column number passes `u16::MAX`.
pub fn plan_chat_view(inner: Area, messages: &Vec<Message>, scroll_offset: u16) -> (r: Option<ChatLayout>)
    requires
        forall|i: int| 0 <= i < messages@.len() ==> (#[trigger] messages@[i]).timestamp.wf(),
    ensures
        (inner.height == 0 || inner.width == 0 || messages@.len() == 0) ==> (r matches Some(p)
            && {
            &&& p.scroll_offset == scroll_offset
            &&& p.rendered@.len() == 0
            &&& p.draws@.len() == 0
            &&& p.scrollbar is None
        }),
        !(inner.height == 0 || inner.width == 0 || messages@.len() == 0) ==> {
            let max = bubble_text_width(inner.width as int);
            match all_dims(messages@, max) {
                None => r is None,
                Some(ds) => match layout_spec(ds, inner, scroll_offset as int) {
                    None => r is None,
                    Some((ns, draws, bar)) => r matches Some(p) && {
                        &&& p.scroll_offset == ns
                        &&& p.draws@ == draws
                        &&& p.scrollbar == Some(bar)
                        &&& p.rendered@.len() == messages@.len()
                        &&& forall|i: int|
                            0 <= i < messages@.len() ==> prepared_as(
                                #[trigger] messages@[i],
                                max,
                                p.rendered@[i],
                            )
                    },
                },
            }
        },
{
    if inner.height == 0 || inner.width == 0 || messages.len() == 0 {
        return Some(
            ChatLayout {
                scroll_offset,
                rendered: Vec::new(),
                draws: Vec::new(),
                scrollbar: None,
            },
        );
    }
    // The bubble width is 30 percent of the view's width, rounded down;
    // for every width a terminal can report this is the integer quotient.
    let share: u16 = (inner.width as u32 * MAX_BUBBLE_WIDTH_PRECENT as u32 / 100) as u16;
    let max_bubble_width: u16 = if share >= 20 {
        share
    } else {
        20
    };
    let max_content_width = (max_bubble_width - BUBBLE_MARGIN * 2) as usize;
    let ghost max = bubble_text_width(inner.width as int);
    assert(max_content_width == max);
    let mut rendered: Vec<RenderedMessage> = Vec::new();
    assert(messages@.take(0) == Seq::<Message>::empty());
    assert(dims_all(rendered@) == Seq::<(int, int, int, int)>::empty());
    let mut i: usize = 0;
    while i < messages.len()
        invariant
            i <= messages.len(),
            max_content_width == max,
            max == bubble_text_width(inner.width as int),
            !(inner.height == 0 || inner.width == 0 || messages@.len() == 0),
            forall|k: int| 0 <= k < messages@.len() ==> (#[trigger] messages@[k]).timestamp.wf(),
            rendered@.len() == i,
            all_dims(messages@.take(i as int), max) == Some(dims_all(rendered@)),
            forall|k: int| 0 <= k < i ==> prepared_as(#[trigger] messages@[k], max, rendered@[k]),
        decreases messages.len() - i,
    {
        proof {
            assert(messages@.take(i + 1).drop_last() == messages@.take(i as int));
            assert(messages@.take(i + 1).last() == messages@[i as int]);
        }
        match RenderedMessage::from_message(&messages[i], max_content_width) {
            None => {
                proof {
                    lemma_all_dims_none(messages@, max, i + 1);
                }
                return None;
            },
            Some(m) => {
                let ghost prev = rendered@;
                rendered.push(m);
                proof {
                    assert(dims_all(rendered@) == dims_all(prev).push(dims_of(m)));
                    assert forall|k: int| 0 <= k < i + 1 implies prepared_as(
                        #[trigger] messages@[k],
                        max,
                        rendered@[k],
                    ) by {
                        if k < i {
                            assert(rendered@[k] == prev[k]);
                        }
                    }
                }
            },
        }
        i += 1;
    }
    assert(messages@.take(messages@.len() as int) == messages@);
    match layout_messages(inner, &rendered, scroll_offset) {
        None => None,
        Some((ns, draws, bar)) => Some(
            ChatLayout { scroll_offset: ns, rendered, draws, scrollbar: Some(bar) },
        ),
    }
}

/// The scroll position is clamped into range: it never grows, it is 0
/// when the whole conversation fits, the view then starts at the top, and
/// otherwise the view lies within the conversation, ending `clamped` rows
/// above its bottom. Clamping a clamped position changes nothing.
pub proof fn lemma_scroll_clamped(total: int, visible: int, scroll: int)
    requires
        0 <= total,
        0 <= visible,
        0 <= scroll,
    ensures
        0 <= clamped_scroll(total, visible, scroll) <= scroll,
        total <= visible ==> clamped_scroll(total, visible, scroll) == 0 && visible_top(
            total,
            visible,
            scroll,
        ) == 0,
        total > visible ==> {
            &&& clamped_scroll(total, visible, scroll) <= total - visible
            &&& visible_top(total, visible, scroll) >= 0
            &&& visible_top(total, visible, scroll) + visible + clamped_scroll(total, visible, scroll)
                == total
        },
        clamped_scroll(total, visible, clamped_scroll(total, visible, scroll)) == clamped_scroll(
            total,
            visible,
            scroll,
        ),
{
}

/// The sizes of prepared messages are counts.
pub open spec fn dims_valid(ds: Seq<(int, int, int, int)>) -> bool {
    &&& ds.len() <= usize::MAX
    &&& forall|k: int| 0 <= k < ds.len() ==> (#[trigger] ds[k]).3 >= 0
}

/// The text lines that `d` shows are lines of its message.
pub open spec fn shows_own_lines(ds: Seq<(int, int, int, int)>, d: MessageDraw) -> bool {
    match d.bubble {
        Some(b) => match b.content {
            Some(c) => c.first_line + c.line_count <= ds[d.index as int].3,
            None => true,
        },
        None => true,
    }
}

/// What `layout_rest` draws is in conversation order, one draw per message
/// at most, and the text lines a bubble shows are lines of its message.
pub open spec fn draws_ordered(ds: Seq<(int, int, int, int)>, i: int, draws: Seq<MessageDraw>) -> bool {
    &&& forall|k: int| 0 <= k < draws.len() ==> i <= (#[trigger] draws[k]).index < ds.len()
    &&& forall|k: int, l: int| 0 <= k < l < draws.len() ==> draws[k].index < draws[l].index
    &&& forall|k: int|
        0 <= k < draws.len() ==> shows_own_lines(ds, #[trigger] draws[k])
}

proof fn lemma_content_in_lines(clip: int, bubble_height: int, line_count: int)
    requires
        line_count >= 0,
        clip >= 0,
    ensures
        forall|bubble: Area, bubble_draw_height: int|
            #[trigger] content_spec(bubble, clip, bubble_draw_height, bubble_height, line_count) matches Some(
                Some(c),
            ) ==> c.first_line + c.line_count <= line_count,
{
}

/// The layout draws messages in conversation order, each at most once,
/// and shows only lines that its message has.
pub proof fn lemma_layout_ordered(
    ds: Seq<(int, int, int, int)>,
    i: int,
    cy: int,
    dy: int,
    inner: Area,
    vt: int,
)
    requires
        dims_valid(ds),
        0 <= i,
    ensures
        layout_rest(ds, i, cy, dy, inner, vt) matches Some(draws) ==> draws_ordered(ds, i, draws),
    decreases ds.len() - i,
{
    if i < ds.len() {
        let d = ds[i];
        let p = place_spec(d, i, cy, dy, inner, vt);
        match p {
            Placement::Skip(cy2) => {
                lemma_layout_ordered(ds, i + 1, cy2 as int, dy, inner, vt);
                if let Some(draws) = layout_rest(ds, i + 1, cy2 as int, dy, inner, vt) {
                    assert(draws_ordered(ds, i + 1, draws));
                }
            },
            Placement::Draw(md, cy2, dy2) => {
                lemma_layout_ordered(ds, i + 1, cy2 as int, dy2 as int, inner, vt);
                if let Some(rest) = layout_rest(ds, i + 1, cy2 as int, dy2 as int, inner, vt) {
                    let all = seq![md] + rest;
                    assert(md.index == i);
                    let (info_h, bubble_h, bubble_w, lines) = d;
                    assert(lines >= 0);
                    let clip = if cy < vt {
                        vt - cy
                    } else {
                        0
                    };
                    let bubble_clip = if clip > info_h {
                        clip - info_h
                    } else {
                        0
                    };
                    lemma_content_in_lines(bubble_clip, bubble_h, lines);
                    assert forall|k: int| 0 <= k < all.len() implies i <= (#[trigger] all[k]).index
                        < ds.len() by {
                        if k > 0 {
                            assert(all[k] == rest[k - 1]);
                        }
                    }
                    assert forall|k: int, l: int| 0 <= k < l < all.len() implies all[k].index
                        < all[l].index by {
                        assert(all[l] == rest[l - 1]);
                        if k > 0 {
                            assert(all[k] == rest[k - 1]);
                        }
                    }
                    assert forall|k: int| 0 <= k < all.len() implies shows_own_lines(
                        ds,
                        #[trigger] all[k],
                    ) by {
                        if k > 0 {
                            assert(all[k] == rest[k - 1]);
                        } else {
                            assert(all[0] == md);
                            if let Some(b) = md.bubble {
                                // the bubble's text is placed as `content_spec` says
                                assert(content_spec(
                                    b.rect,
                                    bubble_clip,
                                    b.rect.height as int,
                                    bubble_h,
                                    lines,
                                ) == Some(b.content));
                            }
                        }
                    }
                }
            },
            _ => {},
        }
    }
}

proof fn lemma_heights_prefix(ds: Seq<(int, int, int, int)>, i: int, raw: int)
    requires
        dims_sizes(ds),
        0 <= i <= ds.len(),
        heights_total(ds) == Some(raw),
    ensures
        heights_total(ds.take(i)) matches Some(s) && 0 <= s <= raw,
    decreases ds.len() - i,
{
    assert forall|k: int| 0 <= k < ds.take(i).len() implies (#[trigger] ds.take(i)[k]).0 >= 0
        && ds.take(i)[k].1 >= 0 by {
        assert(ds.take(i)[k] == ds[k]);
    }
    lemma_heights_nonneg(ds.take(i));
    if i == ds.len() {
        assert(ds.take(i) == ds);
    } else {
        lemma_heights_prefix(ds, i + 1, raw);
        assert(ds.take(i + 1).drop_last() == ds.take(i));
        assert(ds.take(i + 1).last() == ds[i]);
    }
}

proof fn lemma_heights_nonneg(ds: Seq<(int, int, int, int)>)
    requires
        forall|k: int| 0 <= k < ds.len() ==> (#[trigger] ds[k]).0 >= 0 && ds[k].1 >= 0,
    ensures
        heights_total(ds) matches Some(s) ==> s >= 0,
    decreases ds.len(),
{
    if ds.len() > 0 {
        assert forall|k: int| 0 <= k < ds.drop_last().len() implies (#[trigger] ds.drop_last()[k]).0
            >= 0 && ds.drop_last()[k].1 >= 0 by {
            assert(ds.drop_last()[k] == ds[k]);
        }
        lemma_heights_nonneg(ds.drop_last());
        assert(ds.last() == ds[ds.len() - 1]);
    }
}

/// Sizes of prepared messages: each has an author-and-time row and a
/// bubble of at least no rows, and counts its lines.
pub open spec fn dims_sizes(ds: Seq<(int, int, int, int)>) -> bool {
    &&& dims_valid(ds)
    &&& forall|k: int| 0 <= k < ds.len() ==> (#[trigger] ds[k]).0 >= 1 && ds[k].1 >= 0
}

proof fn lemma_fitting_rest(
    ds: Seq<(int, int, int, int)>,
    i: int,
    cy: int,
    dy: int,
    inner: Area,
    raw: int,
)
    requires
        dims_sizes(ds),
        0 <= i <= ds.len(),
        heights_total(ds) == Some(raw),
        heights_total(ds.take(i)) == Some(cy),
        content_height(raw) <= inner.height,
    ensures
        layout_rest(ds, i, cy, dy, inner, 0) matches Some(draws) ==> {
            &&& draws.len() == ds.len() - i
            &&& forall|k: int| 0 <= k < draws.len() ==> (#[trigger] draws[k]).index == i + k
        },
    decreases ds.len() - i,
{
    if i < ds.len() {
        let d = ds[i];
        let (info_h, bubble_h, bubble_w, lines) = d;
        lemma_heights_prefix(ds, i, raw);
        assert(ds.take(i + 1).drop_last() == ds.take(i));
        assert(ds.take(i + 1).last() == d);
        let next = cy + info_h + bubble_h + 1;
        // Every later message adds rows too, so this one ends by `raw`,
        // above the bottom of the view.
        lemma_prefix_grows(ds, i + 1, raw);
        assert(cy < inner.height);
        match place_spec(d, i, cy, dy, inner, 0) {
            Placement::Draw(md, cy2, dy2) => {
                assert(cy2 as int == next);
                lemma_fitting_rest(ds, i + 1, next, dy2 as int, inner, raw);
                if let Some(rest) = layout_rest(ds, i + 1, next, dy2 as int, inner, 0) {
                    let all = seq![md] + rest;
                    assert forall|k: int| 0 <= k < all.len() implies (#[trigger] all[k]).index == i
                        + k by {
                        if k > 0 {
                            assert(all[k] == rest[k - 1]);
                        }
                    }
                }
            },
            Placement::Skip(_) => {
                assert(false);
            },
            Placement::Stop => {
                assert(false);
            },
            Placement::Overflow => {},
        }
    }
}

proof fn lemma_prefix_grows(ds: Seq<(int, int, int, int)>, i: int, raw: int)
    requires
        dims_sizes(ds),
        0 <= i <= ds.len(),
        heights_total(ds) == Some(raw),
    ensures
        heights_total(ds.take(i)) matches Some(s) && s + 2 * (ds.len() - i) <= raw,
    decreases ds.len() - i,
{
    lemma_heights_prefix(ds, i, raw);
    if i == ds.len() {
        assert(ds.take(i) == ds);
    } else {
        lemma_prefix_grows(ds, i + 1, raw);
        assert(ds.take(i + 1).drop_last() == ds.take(i));
        assert(ds.take(i + 1).last() == ds[i]);
    }
}

/// A conversation that fits in the view is drawn whole: when the layout
/// succeeds, every message is drawn, once each, in order.
pub proof fn lemma_fitting_conversation_drawn_whole(
    ds: Seq<(int, int, int, int)>,
    inner: Area,
    scroll: int,
)
    requires
        dims_sizes(ds),
        0 <= scroll,
        heights_total(ds) matches Some(raw) && content_height(raw) <= inner.height,
    ensures
        layout_spec(ds, inner, scroll) matches Some((ns, draws, bar)) ==> {
            &&& ns == 0
            &&& draws.len() == ds.len()
            &&& forall|k: int| 0 <= k < draws.len() ==> (#[trigger] draws[k]).index == k
        },
{
    let raw = heights_total(ds)->0;
    assert(ds.take(0) == Seq::<(int, int, int, int)>::empty());
    lemma_fitting_rest(ds, 0, 0, inner.y as int, inner, raw);
}

proof fn lemma_widest_bounds(ls: Seq<Seq<char>>)
    requires
        ls.len() > 0,
    ensures
        forall|k: int| 0 <= k < ls.len() ==> low16(display_width(#[trigger] ls[k]) as int) <= widest(ls),
        exists|k: int| 0 <= k < ls.len() && widest(ls) == low16(display_width(#[trigger] ls[k]) as int),
    decreases ls.len(),
{
    if ls.len() == 1 {
        assert(widest(ls) == low16(display_width(ls[0]) as int));
    } else {
        let init = ls.drop_last();
        lemma_widest_bounds(init);
        assert forall|k: int| 0 <= k < ls.len() implies low16(display_width(#[trigger] ls[k]) as int)
            <= widest(ls) by {
            if k < init.len() {
                assert(ls[k] == init[k]);
            }
        }
        let j = choose|j: int| 0 <= j < init.len() && widest(init) == low16(display_width(#[trigger] init[j]) as int);
        if widest(ls) == widest(init) {
            assert(ls[j] == init[j]);
        } else {
            assert(ls[ls.len() - 1] == ls.last());
        }
    }
}

/// A bubble frames its widest line: it is two columns (the frame) wider
/// than every line of its text, unless it is held to the widest that the
/// view allows; it is never wider than that; and it is exactly as wide as
/// one of its lines (plus the frame) or as the limit. Widths are counted
/// in sixteen bits, as the view counts them. Its height is the number of
/// lines plus the frame.
pub proof fn lemma_bubble_frames_widest_line(ls: Seq<Seq<char>>, max: int)
    requires
        ls.len() > 0,
        bubble_size(ls, max) is Some,
    ensures
        ({
            let (w, h) = bubble_size(ls, max)->0;
            &&& forall|k: int|
                0 <= k < ls.len() ==> low16(display_width(#[trigger] ls[k]) as int) + 2 <= w || w
                    == low16(max) + 2
            &&& w <= low16(max) + 2
            &&& w == low16(max) + 2 || exists|k: int|
                0 <= k < ls.len() && w == low16(display_width(#[trigger] ls[k]) as int) + 2
            &&& ls.len() < 65536 ==> h == ls.len() + 2
        }),
{
    lemma_widest_bounds(ls);
    assert(0 <= low16(max) < 65536);
}

/// A prepared message's bubble frames its widest text line, as
/// `lemma_bubble_frames_widest_line` says of its lines.
pub proof fn lemma_prepared_bubble_frames_its_text(msg: Message, max: int, r: RenderedMessage)
    requires
        prepared_as(msg, max, r),
    ensures
        forall|k: int|
            0 <= k < r.content_lines@.len() ==> low16(
                display_width(#[trigger] r.content_lines@[k]@) as int,
            ) + 2 <= r.bubble_width || r.bubble_width == low16(max) + 2,
        r.bubble_width <= low16(max) + 2,
        r.content_lines@.len() > 0 ==> (r.bubble_width == low16(max) + 2 || exists|k: int|
            0 <= k < r.content_lines@.len() && r.bubble_width == low16(
                display_width(#[trigger] r.content_lines@[k]@) as int,
            ) + 2),
{
    let ls = wrap(msg.content@, max);
    assert(string_views(r.content_lines@) == ls);
    if ls.len() > 0 {
        lemma_bubble_frames_widest_line(ls, max);
        assert forall|k: int| 0 <= k < r.content_lines@.len() implies #[trigger] r.content_lines@[k]@
            == ls[k] by {
        }
        let (w, h) = bubble_size(ls, max)->0;
        if w != low16(max) + 2 {
            let k = choose|k: int| 0 <= k < ls.len() && w == low16(display_width(#[trigger] ls[k]) as int) + 2;
            assert(r.content_lines@[k]@ == ls[k]);
        }
    } else {
        assert(low16(max) >= 0);
    }
}

/// Which text lines a bubble shows: with its first `clip` rows scrolled
/// away (the top edge of the frame and then `clip - 1` lines), the first
/// line shown is line `clip - 1` (line 0 when nothing is scrolled away),
/// each line `l` shown lands on screen row `bubble.y + l + 1 - clip` (its
/// row in the bubble less the rows scrolled away), the text sits between
/// the frame's sides, and no more lines show
/// than rows are drawn or lines exist. When the bubble's bottom is on
/// screen, the lines shown run to its last line.
pub proof fn lemma_bubble_text_follows_scroll(
    bubble: Area,
    clip: int,
    bubble_draw_height: int,
    bubble_height: int,
    line_count: int,
)
    requires
        0 <= clip,
        0 <= line_count < 65536,
    ensures
        content_spec(bubble, clip, bubble_draw_height, bubble_height, line_count) matches Some(Some(cd))
            ==> {
            &&& cd.first_line == (if clip > 0 {
                clip - 1
            } else {
                0
            })
            &&& cd.rect.y == bubble.y + cd.first_line + 1 - clip
            &&& cd.rect.x == bubble.x + 1
            &&& cd.rect.width + 2 == bubble.width
            &&& 0 < cd.line_count <= bubble_draw_height
            &&& cd.first_line + cd.line_count <= line_count
            &&& (bubble_height == line_count + 2 && clip + bubble_draw_height == bubble_height)
                ==> cd.first_line + cd.line_count == line_count
        },
{
    assert(low16(line_count) == line_count);
}

/// A message is left out of the view only when it lies wholly above the
/// visible rows or has no rows (`Skip`), or starts below them (`Stop`): every message
/// whose rows `[cy, cy + info + bubble)` meet the visible rows
/// `[vt, vt + height)` is drawn, unless a number overflows. When drawn,
/// with its first `clip = vt - cy` rows (if any) scrolled away: its
/// author line shows exactly when it is not scrolled away, starting at the
/// screen row `dy` the drawing has reached; the bubble follows right below
/// with its first `clip - info` rows scrolled away; and the next message
/// starts one row below what was drawn, at the conversation row after
/// this message and its spacing row.
pub proof fn lemma_visible_messages_are_drawn(
    d: (int, int, int, int),
    index: int,
    cy: int,
    dy: int,
    inner: Area,
    vt: int,
)
    requires
        d.0 >= 0,
        d.1 >= 0,
        0 <= d.2 <= u16::MAX,
        0 <= cy,
        0 <= vt,
        0 <= dy,
        0 <= index <= usize::MAX,
    ensures
        place_spec(d, index, cy, dy, inner, vt) is Skip ==> cy + d.0 + d.1 <= vt || d.0 + d.1 == 0,
        place_spec(d, index, cy, dy, inner, vt) is Stop ==> cy >= vt + inner.height,
        place_spec(d, index, cy, dy, inner, vt) matches Placement::Draw(md, cy2, dy2) ==> {
            let clip = if cy < vt {
                vt - cy
            } else {
                0
            };
            let info_rows = match md.info {
                Some(a) => a.height as int,
                None => 0,
            };
            let bubble_rows = match md.bubble {
                Some(b) => b.rect.height as int,
                None => 0,
            };
            &&& md.index == index
            &&& cy2 == cy + d.0 + d.1 + 1
            &&& (md.info is Some <==> clip < d.0)
            &&& md.info matches Some(a) ==> a.y == dy && a.height == d.0 - clip && a.x == inner.x + 1
            &&& md.bubble matches Some(b) ==> {
                &&& b.rect.x == inner.x + 1
                &&& b.rect.width == d.2
                &&& b.clip_top == (if clip > d.0 {
                    clip - d.0
                } else {
                    0
                })
                &&& b.rect.y == dy + info_rows
            }
            &&& 0 < info_rows + bubble_rows <= d.0 + d.1 - clip
            &&& dy2 == dy + info_rows + bubble_rows + 1
        },
{
}

/// A bubble's frame: nothing when no part of it shows; otherwise its
/// sides, its top edge exactly when none of its rows is scrolled away, and
/// its bottom edge only when its last row is in view (and is not its top
/// row).
pub proof fn lemma_frame_follows_scroll(rect: Area, clip_top: u16, full_height: u16)
    ensures
        border_spec(rect, clip_top, full_height) matches Some(b) ==> {
            &&& (rect.height == 0 || rect.width == 0) ==> !b.sides && !b.top && !b.bottom
            &&& (rect.height > 0 && rect.width > 0) ==> {
                &&& b.sides
                &&& b.top == (clip_top == 0)
                &&& b.bottom ==> clip_top + rect.height == full_height
                &&& (clip_top + rect.height == full_height && (clip_top > 0 || rect.height > 1))
                    ==> b.bottom
            }
        },
        clip_top + rect.height <= 65535 ==> border_spec(rect, clip_top, full_height) is Some,
{
}

} // verus!

