//! The outside crates' types and functions that the library relies on,
//! each with the contract that the library assumes of it.

use vstd::prelude::*;
use unicode_segmentation::UnicodeSegmentation;
use unicode_width::UnicodeWidthStr;
use chrono::Timelike;
use crate::clock::LocalTime;
use crate::ui::Area;
use crate::ui::layout::{SplitConstraint, SplitDirection};
use ratatui::layout::{Constraint, Direction, Layout, Rect};

verus! {

/// `std::sync::mpsc::Receiver`, the receiving end of a channel.
#[verifier::external_type_specification]
#[verifier::external_body]
#[verifier::reject_recursive_types(T)]
pub struct ExReceiver<T>(std::sync::mpsc::Receiver<T>);

/// `std::sync::mpsc::Sender`, the sending end of a channel.
#[verifier::external_type_specification]
#[verifier::external_body]
#[verifier::reject_recursive_types(T)]
pub struct ExSender<T>(std::sync::mpsc::Sender<T>);

/// Whether `s` and `r` are the two ends of one channel: what is sent on
/// `s` arrives on `r`.
pub uninterp spec fn channel_ends_paired(
    s: std::sync::mpsc::Sender<String>,
    r: std::sync::mpsc::Receiver<String>,
) -> bool;

/// A new channel of strings: `std::sync::mpsc::channel`, which std
/// documents as returning the sending and the receiving half of one
/// channel. Nothing else is stated of the two ends.
#[verifier::external_body]
pub(crate) fn channel() -> (ends: (std::sync::mpsc::Sender<String>, std::sync::mpsc::Receiver<String>))
    ensures
        channel_ends_paired(ends.0, ends.1),
{
    std::sync::mpsc::channel()
}

/// The strings that have arrived on `rx` and not been taken yet, in the
/// order they were sent, without waiting: `Receiver::try_iter`, collected.
/// What has arrived depends on the sending thread's timing, so nothing is
/// stated of the result.
#[verifier::external_body]
pub(crate) fn arrived(rx: &std::sync::mpsc::Receiver<String>) -> Vec<String> {
    rx.try_iter().collect()
}

/// A 128-bit identifier, read as a UUID (most significant byte first),
/// is a random one of RFC 9562: its version number (the high half of
/// byte 6) is 4 and its variant bits (the top two of byte 8) are `10`.
pub open spec fn is_v4_uuid(id: u128) -> bool {
    &&& (id >> 76u128) & 0xfu128 == 4
    &&& (id >> 62u128) & 0x3u128 == 2
}

/// A fresh random identifier: `uuid::Uuid::new_v4`, as its 128-bit value
/// (`Uuid::as_u128`). The crate masks random bits with the version and
/// variant bits set, so `is_v4_uuid` holds; the other bits are random
/// and nothing is stated of them.
#[verifier::external_body]
pub(crate) fn new_v4_id() -> (id: u128)
    ensures
        is_v4_uuid(id),
{
    uuid::Uuid::new_v4().as_u128()
}

/// The time of day now, in the local time zone: `chrono::Local::now`,
/// read through `Timelike::{hour, minute, second, nanosecond}`. Which time
/// it is depends on the clock; the contract states the ranges that chrono
/// documents for the four readings (a leap second shows as a nanosecond
/// count of 1,000,000,000 or more).
#[verifier::external_body]
pub(crate) fn local_time_now() -> (t: LocalTime)
    ensures
        t.wf(),
{
    let now = chrono::Local::now();
    LocalTime {
        hour: now.hour(),
        minute: now.minute(),
        second: now.second(),
        nanosecond: now.nanosecond(),
    }
}

/// The extended grapheme clusters of a text, as
/// `UnicodeSegmentation::graphemes(s, true)` yields them.
pub uninterp spec fn grapheme_clusters(s: Seq<char>) -> Seq<Seq<char>>;

/// The display width in terminal columns of a text, as
/// `UnicodeWidthStr::width` computes it.
pub uninterp spec fn display_width(s: Seq<char>) -> nat;

/// The views of a sequence of strings.
pub open spec fn string_views(v: Seq<String>) -> Seq<Seq<char>> {
    v.map_values(|g: String| g@)
}

/// `UnicodeSegmentation::graphemes(s, true)`, collected. The clusters are
/// `grapheme_clusters(s)`; as the crate's iterator shows, each is a
/// non-empty slice of `s` and together, in order, they make up `s`.
#[verifier::external_body]
pub(crate) fn graphemes(s: &str) -> (gs: Vec<String>)
    ensures
        string_views(gs@) == grapheme_clusters(s@),
        string_views(gs@).flatten() == s@,
        forall|k: int| 0 <= k < gs@.len() ==> (#[trigger] gs@[k])@.len() > 0,
{
    s.graphemes(true).map(String::from).collect()
}

/// `UnicodeWidthStr::width`: the display width of `s`, `display_width(s)`.
/// The crate sums over the characters, so the empty text has width 0.
#[verifier::external_body]
pub(crate) fn width(s: &str) -> (w: usize)
    ensures
        w == display_width(s@),
        s@.len() == 0 ==> w == 0,
{
    UnicodeWidthStr::width(s)
}

/// The text that `String::from_utf8_lossy` makes of a byte sequence.
pub uninterp spec fn utf8_lossy(bytes: Seq<u8>) -> Seq<char>;

/// `String::from_utf8_lossy`: `utf8_lossy(bytes)`; on valid UTF-8 it is
/// the decoded text, as std documents.
#[verifier::external_body]
pub(crate) fn decode_lossy(bytes: &[u8]) -> (s: String)
    ensures
        s@ == utf8_lossy(bytes@),
        vstd::utf8::valid_utf8(bytes@) ==> s@ == vstd::utf8::decode_utf8(bytes@),
{
    String::from_utf8_lossy(bytes).into_owned()
}

/// Whether `parts` is a split of `area` in `direction` under the
/// constraints `cs` that ratatui's `Layout::split` can give.
pub uninterp spec fn split_by_layout(
    area: Area,
    direction: SplitDirection,
    cs: Seq<SplitConstraint>,
    parts: Seq<Area>,
) -> bool;

/// ratatui's `Layout::split` of `area` in `direction` under the
/// constraints `cs` (no margin, no spacing, the default flex). The parts
/// are what its constraint solver (cassowary) finds; where several
/// solutions are equally good, which one it picks depends on the order in
/// which it walks its `std` hash maps, seeded anew in each process, so the
/// result is stated as a relation
/// (`split_by_layout`), not as a function of the arguments. As the
/// source shows, there is one part per constraint, and each part spans
/// the whole area across the direction of the split.
#[verifier::external_body]
pub(crate) fn split_area(area: Area, direction: SplitDirection, cs: &Vec<SplitConstraint>) -> (parts: Vec<Area>)
    ensures
        split_by_layout(area, direction, cs@, parts@),
        parts@.len() == cs@.len(),
        forall|k: int| 0 <= k < parts@.len() ==> (match direction {
            SplitDirection::Horizontal => parts@[k].y == area.y && parts@[k].height == area.height,
            SplitDirection::Vertical => parts@[k].x == area.x && parts@[k].width == area.width,
        }),
{
    let dir = match direction {
        SplitDirection::Horizontal => Direction::Horizontal,
        SplitDirection::Vertical => Direction::Vertical,
    };
    let constraints = cs.iter().map(|c| match *c {
        SplitConstraint::Percentage(p) => Constraint::Percentage(p),
        SplitConstraint::Min(m) => Constraint::Min(m),
        SplitConstraint::Length(l) => Constraint::Length(l),
    });
    let rect = Rect { x: area.x, y: area.y, width: area.width, height: area.height };
    let rects = Layout::default().direction(dir).constraints(constraints).split(rect);
    rects.iter().map(|r| Area { x: r.x, y: r.y, width: r.width, height: r.height }).collect()
}

} // verus!
