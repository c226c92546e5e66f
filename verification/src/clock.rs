//! Times of day, and their `HH:MM:SS` text.

use vstd::prelude::*;
use crate::text::push_char;

verus! {

/// A local time of day as chrono reports it: hour, minute, second, and
/// nanoseconds since the whole second (1,000,000,000 and more during a
/// leap second).
#[derive(Debug, Clone, Copy, PartialEq, Eq, Structural)]
pub struct LocalTime {
    pub hour: u32,
    pub minute: u32,
    pub second: u32,
    pub nanosecond: u32,
}

impl LocalTime {
    /// The ranges in which chrono's readings fall.
    pub open spec fn wf(self) -> bool {
        &&& self.hour < 24
        &&& self.minute < 60
        &&& self.second < 60
        &&& self.nanosecond < 2_000_000_000
    }

    /// The second as `%S` shows it: 60 during a leap second.
    pub open spec fn shown_second(self) -> int {
        self.second + self.nanosecond / 1_000_000_000
    }
}

/// The digit character for `d` in `0..10`.
pub open spec fn digit_char(d: int) -> char {
    (('0' as int) + d) as char
}

/// `v` in `0..100` written with two digits, zero-padded.
pub open spec fn two_digit_text(v: int) -> Seq<char> {
    seq![digit_char(v / 10), digit_char(v % 10)]
}

/// `HH:MM:SS` for a time of day: what `format("%H:%M:%S")` writes.
pub open spec fn clock_text(t: LocalTime) -> Seq<char> {
    two_digit_text(t.hour as int) + seq![':'] + two_digit_text(t.minute as int) + seq![':']
        + two_digit_text(t.shown_second())
}

fn digit(d: u32) -> (c: char)
    requires
        d < 10,
    ensures
        c == digit_char(d as int),
{
    let c = ('0' as u8 + d as u8) as char;
    c
}

fn push_two_digits(s: &mut String, v: u32)
    requires
        v < 100,
    ensures
        final(s)@ == old(s)@ + two_digit_text(v as int),
{
    push_char(s, digit(v / 10));
    push_char(s, digit(v % 10));
}

/// `t` as `HH:MM:SS` text.
pub fn format_clock(t: &LocalTime) -> (s: String)
    requires
        t.wf(),
    ensures
        s@ == clock_text(*t),
        s@.len() == 8,
{
    let mut s = String::new();
    push_two_digits(&mut s, t.hour);
    push_char(&mut s, ':');
    push_two_digits(&mut s, t.minute);
    push_char(&mut s, ':');
    push_two_digits(&mut s, t.second + t.nanosecond / 1_000_000_000);
    s
}

} // verus!
