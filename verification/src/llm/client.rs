//! The streaming side of a chat completion: decoding the server-sent
//! events of the response body, and picking the text out of each chunk.

use vstd::prelude::*;
use crate::app::{done_token, error_token, DONE_TOKEN, ERROR_TOKEN};
use crate::model::openai::ChatCompletionChunk;
use crate::outside::{decode_lossy, string_views, utf8_lossy};
use vstd::utf8::{decode_utf8, valid_utf8};
use crate::text::{
    chars_of, is_white_space, lemma_trim_drop_white_space, line_scan, lines, split_lines, strip_cr, string_from_chars,
    trim, trim_bounds,
};

verus! {

broadcast use vstd::seq_lib::group_seq_properties;

/// The prefix of a server-sent `data` line.
pub open spec fn data_prefix() -> Seq<char> {
    seq!['d', 'a', 't', 'a', ':', ' ']
}

/// The payload that marks the end of the stream.
pub open spec fn done_payload() -> Seq<char> {
    seq!['[', 'D', 'O', 'N', 'E', ']']
}

/// The payload of a line when, trimmed, it is a `data: ` line.
pub open spec fn data_payload(line: Seq<char>) -> Option<Seq<char>> {
    let t = trim(line);
    if t.len() >= 6 && t.take(6) == data_prefix() {
        Some(t.skip(6))
    } else {
        None
    }
}

/// The payloads of the `data` lines among `ls`, in order, up to the
/// first `[DONE]`; and whether a `[DONE]` came.
pub open spec fn sse_scan(ls: Seq<Seq<char>>) -> (Seq<Seq<char>>, bool)
    decreases ls.len(),
{
    if ls.len() == 0 {
        (Seq::empty(), false)
    } else {
        let rest = sse_scan(ls.drop_first());
        match data_payload(ls[0]) {
            Some(d) => if d == done_payload() {
                (Seq::empty(), true)
            } else {
                (seq![d] + rest.0, rest.1)
            },
            None => rest,
        }
    }
}

/// The unfinished last line of the received text: the last line, when
/// the text does not end in `\\n` or `\\r`.
pub open spec fn carried_line(text: Seq<char>) -> Seq<char> {
    let ls = lines(text);
    if !(text.len() > 0 && (text.last() == '\n' || text.last() == '\r')) && ls.len() > 0 {
        ls.last()
    } else {
        Seq::empty()
    }
}

/// The lines of the received text that are complete.
pub open spec fn complete_lines(text: Seq<char>) -> Seq<Seq<char>> {
    let ls = lines(text);
    ls.take(ls.len() - (if carried_line(text).len() == 0 {
        0int
    } else {
        1int
    }))
}

/// The text that a piece of the response body is taken as: its UTF-8
/// decoding, with invalid sequences replaced as `String::from_utf8_lossy`
/// replaces them.
pub open spec fn received_text(bytes: Seq<u8>) -> Seq<char> {
    if valid_utf8(bytes) {
        decode_utf8(bytes)
    } else {
        utf8_lossy(bytes)
    }
}

/// What taking in `text` after the held-back line `buffer` gives: the
/// payloads of the lines it completes, whether a `[DONE]` came, and what
/// is held back after it (all the text once the stream is done).
pub open spec fn take_in(buffer: Seq<char>, text: Seq<char>) -> (Seq<Seq<char>>, bool, Seq<char>) {
    let all = buffer + text;
    let (ps, done) = sse_scan(complete_lines(all));
    (ps, done, if done {
        all
    } else {
        carried_line(all)
    })
}

/// What taking in the pieces of a response body one after the other,
/// after the held-back line `buffer`, gives: all the payloads, whether a
/// `[DONE]` came (the pieces after it are not read), and what is held
/// back at the end.
pub open spec fn decode_body(buffer: Seq<char>, pieces: Seq<Seq<u8>>) -> (
    Seq<Seq<char>>,
    bool,
    Seq<char>,
)
    decreases pieces.len(),
{
    if pieces.len() == 0 {
        (Seq::empty(), false, buffer)
    } else {
        let (p1, d1, b1) = take_in(buffer, received_text(pieces[0]));
        if d1 {
            (p1, true, b1)
        } else {
            let (p2, d2, b2) = decode_body(b1, pieces.drop_first());
            (p1 + p2, d2, b2)
        }
    }
}

/// What one piece of the response body yields: the `data` payloads of
/// the lines it completes, and whether the stream ended with `[DONE]`.
pub struct SseBatch {
    pub payloads: Vec<String>,
    pub done: bool,
}

/// The decoder of a server-sent event stream: it holds the unfinished
/// last line between pieces of the body.
pub struct SseDecoder {
    pub buffer: String,
}

/// The views of a vector of character vectors.
pub open spec fn char_views(v: Seq<Vec<char>>) -> Seq<Seq<char>> {
    v.map_values(|l: Vec<char>| l@)
}

/// Whether `cs[at..at + pat.len()]` is `pat`.
fn matches_at(cs: &Vec<char>, at: usize, end: usize, pat: &Vec<char>) -> (b: bool)
    requires
        at <= end <= cs.len(),
    ensures
        b == (end - at >= pat.len() && cs@.subrange(at as int, at + pat.len()) == pat@),
{
    if end - at < pat.len() {
        return false;
    }
    let mut j: usize = 0;
    while j < pat.len()
        invariant
            at + pat.len() <= end <= cs.len(),
            j <= pat.len(),
            forall|i: int| 0 <= i < j ==> cs@[at + i] == pat@[i],
        decreases pat.len() - j,
    {
        if cs[at + j] != pat[j] {
            assert(cs@.subrange(at as int, at + pat.len())[j as int] != pat@[j as int]);
            return false;
        }
        j += 1;
    }
    assert(cs@.subrange(at as int, at + pat.len()) == pat@);
    true
}

proof fn lemma_scan_step(ls: Seq<Seq<char>>, i: int)
    requires
        0 <= i < ls.len(),
    ensures
        ls.skip(i).drop_first() == ls.skip(i + 1),
        ls.skip(i)[0] == ls[i],
{
}

/// What a line of the stream is.
enum LineKind {
    Data(String),
    Done,
    Ignored,
}

/// Classifies one line as `data_payload` does.
fn classify_line(line: &Vec<char>, prefix: &Vec<char>, done_mark: &Vec<char>) -> (k: LineKind)
    requires
        prefix@ == data_prefix(),
        done_mark@ == done_payload(),
    ensures
        match k {
            LineKind::Data(d) => data_payload(line@) == Some(d@) && d@ != done_payload(),
            LineKind::Done => data_payload(line@) == Some(done_payload()),
            LineKind::Ignored => data_payload(line@) is None,
        },
{
    let (a, b) = trim_bounds(line, 0, line.len());
    assert(line@.subrange(0, line@.len() as int) == line@);
    let ghost t = line@.subrange(a as int, b as int);
    if matches_at(line, a, b, prefix) {
        assert(t.take(6) == line@.subrange(a as int, a + 6));
        assert(t.skip(6) == line@.subrange(a + 6, b as int));
        if b - (a + 6) == done_mark.len() && matches_at(line, a + 6, b, done_mark) {
            assert(line@.subrange(a + 6, b as int) == line@.subrange(a + 6, a + 6 + done_mark@.len()));
            return LineKind::Done;
        }
        assert(line@.subrange(a + 6, b as int) != done_payload()) by {
            if line@.subrange(a + 6, b as int) == done_payload() {
                assert(line@.subrange(a + 6, a + 6 + done_mark@.len()) == line@.subrange(
                    a + 6,
                    b as int,
                ));
            }
        }
        LineKind::Data(string_from_chars(line, a + 6, b))
    } else {
        proof {
            if t.len() >= 6 && t.take(6) == data_prefix() {
                assert(t.take(6) == line@.subrange(a as int, a + 6));
            }
        }
        LineKind::Ignored
    }
}

/// The payloads of the first `count` lines, as `sse_scan` finds them.
fn scan_lines(ls: &Vec<Vec<char>>, count: usize) -> (batch: SseBatch)
    requires
        count <= ls.len(),
    ensures
        ({
            let (ps, done) = sse_scan(char_views(ls@).take(count as int));
            &&& batch.payloads@.len() == ps.len()
            &&& forall|k: int| 0 <= k < ps.len() ==> #[trigger] batch.payloads@[k]@ == ps[k]
            &&& batch.done == done
        }),
{
    let ghost todo = char_views(ls@).take(count as int);
    let mut prefix: Vec<char> = Vec::new();
    prefix.push('d');
    prefix.push('a');
    prefix.push('t');
    prefix.push('a');
    prefix.push(':');
    prefix.push(' ');
    let mut done_mark: Vec<char> = Vec::new();
    done_mark.push('[');
    done_mark.push('D');
    done_mark.push('O');
    done_mark.push('N');
    done_mark.push('E');
    done_mark.push(']');
    assert(prefix@ == data_prefix());
    assert(done_mark@ == done_payload());
    let mut payloads: Vec<String> = Vec::new();
    let mut i: usize = 0;
    while i < count
        invariant
            count <= ls.len(),
            todo == char_views(ls@).take(count as int),
            i <= count,
            prefix@ == data_prefix(),
            done_mark@ == done_payload(),
            sse_scan(todo).1 == sse_scan(todo.skip(i as int)).1,
            sse_scan(todo).0.len() == payloads@.len() + sse_scan(todo.skip(i as int)).0.len(),
            forall|k: int|
                0 <= k < payloads@.len() ==> #[trigger] payloads@[k]@ == sse_scan(todo).0[k],
            forall|k: int|
                0 <= k < sse_scan(todo.skip(i as int)).0.len() ==> sse_scan(todo).0[payloads@.len()
                    + k] == #[trigger] sse_scan(todo.skip(i as int)).0[k],
        decreases count - i,
    {
        proof {
            lemma_scan_step(todo, i as int);
            assert(todo[i as int] == ls@[i as int]@);
        }
        match classify_line(&ls[i], &prefix, &done_mark) {
            LineKind::Done => {
                assert(sse_scan(todo.skip(i as int)).0.len() == 0);
                return SseBatch { payloads, done: true };
            },
            LineKind::Data(d) => {
                proof {
                    let rest = sse_scan(todo.skip(i + 1));
                    assert(sse_scan(todo.skip(i as int)).0 == seq![d@] + rest.0);
                    assert(sse_scan(todo.skip(i as int)).0[0] == d@);
                    assert(sse_scan(todo).0[payloads@.len() as int] == d@);
                    assert forall|k: int| 0 <= k < rest.0.len() implies sse_scan(todo).0[payloads@.len()
                        + 1 + k] == #[trigger] rest.0[k] by {
                        assert(sse_scan(todo.skip(i as int)).0[k + 1] == rest.0[k]);
                    }
                }
                payloads.push(d);
            },
            LineKind::Ignored => {},
        }
        i += 1;
    }
    proof {
        assert(todo.skip(count as int).len() == 0);
    }
    SseBatch { payloads, done: false }
}

proof fn lemma_line_scan_no_newline(text: Seq<char>)
    requires
        forall|i: int| 0 <= i < text.len() ==> text[i] != '\n',
    ensures
        crate::text::line_scan(text) == (Seq::<Seq<char>>::empty(), text),
    decreases text.len(),
{
    if text.len() > 0 {
        lemma_line_scan_no_newline(text.drop_last());
        assert(text.drop_last().push(text.last()) == text);
    }
}

/// A piece of text without a line end is held back whole: it completes
/// no line, so yields no payload, and is kept for the next piece.
pub proof fn lemma_partial_line_held(text: Seq<char>)
    requires
        forall|i: int| 0 <= i < text.len() ==> text[i] != '\n',
        text.len() == 0 || text.last() != '\r',
    ensures
        complete_lines(text).len() == 0,
        carried_line(text) == text,
{
    lemma_line_scan_no_newline(text);
    if text.len() > 0 {
        assert(lines(text) == seq![text]);
    } else {
        assert(lines(text).len() == 0);
    }
}

/// Text that ends a line leaves nothing held back: every line in it is
/// complete.
pub proof fn lemma_line_end_flushes(text: Seq<char>)
    requires
        text.len() > 0,
        text.last() == '\n' || text.last() == '\r',
    ensures
        carried_line(text).len() == 0,
        complete_lines(text) == lines(text),
{
    assert(lines(text).take(lines(text).len() as int) == lines(text));
}

/// A `[DONE]` line ends the stream: whatever lines follow it, the
/// payloads are those before it, and the stream is reported done.
pub proof fn lemma_done_ends_stream(before: Seq<Seq<char>>, line: Seq<char>, after: Seq<Seq<char>>)
    requires
        sse_scan(before).1 == false,
        data_payload(line) == Some(done_payload()),
    ensures
        sse_scan(before + seq![line] + after) == (sse_scan(before).0, true),
    decreases before.len(),
{
    if before.len() == 0 {
        assert(before + seq![line] + after == seq![line] + after);
        assert((seq![line] + after)[0] == line);
    } else {
        let all = before + seq![line] + after;
        assert(all[0] == before[0]);
        assert(all.drop_first() == before.drop_first() + seq![line] + after);
        lemma_done_ends_stream(before.drop_first(), line, after);
    }
}

proof fn lemma_line_scan_cur_no_newline(s: Seq<char>)
    ensures
        forall|i: int|
            0 <= i < crate::text::line_scan(s).1.len() ==> crate::text::line_scan(s).1[i] != '\n',
        s.len() > 0 && s.last() != '\n' ==> crate::text::line_scan(s).1.len() > 0,
        s.len() > 0 && s.last() == '\n' ==> crate::text::line_scan(s).1.len() == 0,
    decreases s.len(),
{
    if s.len() > 0 {
        lemma_line_scan_cur_no_newline(s.drop_last());
        let cur = crate::text::line_scan(s.drop_last()).1;
        if s.last() != '\n' {
            assert forall|i: int| 0 <= i < cur.push(s.last()).len() implies cur.push(s.last())[i]
                != '\n' by {
                if i < cur.len() {
                    assert(cur.push(s.last())[i] == cur[i]);
                }
            }
        }
    }
}

proof fn lemma_line_scan_concat(a: Seq<char>, b: Seq<char>)
    ensures
        ({
            let (d1, c1) = crate::text::line_scan(a);
            let (d2, c2) = crate::text::line_scan(c1 + b);
            crate::text::line_scan(a + b) == (d1 + d2, c2)
        }),
    decreases b.len(),
{
    let (d1, c1) = crate::text::line_scan(a);
    if b.len() == 0 {
        lemma_line_scan_cur_no_newline(a);
        lemma_line_scan_no_newline(c1);
        assert(a + b == a);
        assert(c1 + b == c1);
        assert(d1 + Seq::<Seq<char>>::empty() == d1);
    } else {
        let bp = b.drop_last();
        lemma_line_scan_concat(a, bp);
        assert((a + b).drop_last() == a + bp);
        assert((a + b).last() == b.last());
        assert((c1 + b).drop_last() == c1 + bp);
        assert((c1 + b).last() == b.last());
        let (d2p, c2p) = crate::text::line_scan(c1 + bp);
        if b.last() == '\n' {
            assert((d1 + d2p).push(crate::text::strip_cr(c2p)) == d1 + d2p.push(
                crate::text::strip_cr(c2p),
            ));
        }
    }
}

proof fn lemma_lines_nonempty(s: Seq<char>)
    requires
        s.len() > 0,
    ensures
        lines(s).len() > 0,
{
    lemma_line_scan_cur_no_newline(s);
    if s.last() == '\n' {
        assert(s.drop_last().push(s.last()) == s);
    }
}

proof fn lemma_scan_concat(a: Seq<Seq<char>>, b: Seq<Seq<char>>)
    requires
        !sse_scan(a).1,
    ensures
        sse_scan(a + b) == (sse_scan(a).0 + sse_scan(b).0, sse_scan(b).1),
    decreases a.len(),
{
    if a.len() == 0 {
        assert(a + b == b);
    } else {
        assert((a + b)[0] == a[0]);
        assert((a + b).drop_first() == a.drop_first() + b);
        lemma_scan_concat(a.drop_first(), b);
        match data_payload(a[0]) {
            Some(d) => {
                assert(seq![d] + sse_scan(a.drop_first()).0 + sse_scan(b).0 == seq![d] + (sse_scan(
                    a.drop_first(),
                ).0 + sse_scan(b).0));
            },
            None => {},
        }
    }
}

proof fn lemma_scan_concat_done(a: Seq<Seq<char>>, b: Seq<Seq<char>>)
    requires
        sse_scan(a).1,
    ensures
        sse_scan(a + b) == sse_scan(a),
    decreases a.len(),
{
    assert((a + b)[0] == a[0]);
    assert((a + b).drop_first() == a.drop_first() + b);
    if let Some(d) = data_payload(a[0]) {
        if d != done_payload() {
            lemma_scan_concat_done(a.drop_first(), b);
        }
    } else {
        lemma_scan_concat_done(a.drop_first(), b);
    }
}

proof fn lemma_split_plain(first: Seq<char>, second: Seq<char>)
    requires
        first.len() == 0 || first.last() != '\r',
    ensures
        !sse_scan(complete_lines(first)).1 ==> sse_scan(complete_lines(first + second)) == (sse_scan(
            complete_lines(first),
        ).0 + sse_scan(complete_lines(carried_line(first) + second)).0, sse_scan(
            complete_lines(carried_line(first) + second),
        ).1),
        sse_scan(complete_lines(first)).1 ==> sse_scan(complete_lines(first + second)) == sse_scan(
            complete_lines(first),
        ),
        carried_line(first + second) == carried_line(carried_line(first) + second),
{
    let (d1, c1) = crate::text::line_scan(first);
    lemma_line_scan_cur_no_newline(first);
    lemma_line_scan_concat(first, second);
    // The complete lines of `first` are the finished ones; the held-back
    // line is the one being read.
    if first.len() > 0 && first.last() != '\n' {
        assert(lines(first) == d1.push(c1));
        assert(carried_line(first) == c1);
        assert(d1.push(c1).take(d1.len() as int) == d1);
        assert(complete_lines(first) == d1);
    } else if first.len() > 0 {
        assert(lines(first) == d1);
        assert(carried_line(first) == c1);
        assert(d1.take(d1.len() as int) == d1);
        assert(complete_lines(first) == d1);
    } else {
        assert(c1.len() == 0 && d1.len() == 0);
        assert(carried_line(first) == c1);
        assert(complete_lines(first) == d1);
    }
    let rest = c1 + second;
    let (d2, c2) = crate::text::line_scan(rest);
    let whole = first + second;
    if second.len() == 0 {
        assert(whole == first);
        assert(rest == c1);
        lemma_line_scan_no_newline(c1);
        if c1.len() > 0 {
            assert(c1.last() == first.last());
            assert(lines(c1) == seq![c1]);
        }
        assert(complete_lines(rest).len() == 0);
        assert(carried_line(rest) == c1);
        assert(sse_scan(complete_lines(rest)) == (Seq::<Seq<char>>::empty(), false));
        assert(sse_scan(complete_lines(first)).0 + Seq::<Seq<char>>::empty() == sse_scan(
            complete_lines(first),
        ).0);
    } else {
        assert(whole.last() == second.last());
        assert(rest.last() == second.last());
        lemma_lines_nonempty(rest);
        assert(lines(whole) == d1 + lines(rest));
        let lr = lines(rest);
        assert((d1 + lr).last() == lr.last());
        assert(carried_line(whole) == carried_line(rest));
        let f: int = if carried_line(rest).len() == 0 {
            0
        } else {
            1
        };
        assert((d1 + lr).take(d1.len() + lr.len() - f) == d1 + lr.take(lr.len() - f));
        assert(complete_lines(whole) == d1 + complete_lines(rest));
        if sse_scan(d1).1 {
            lemma_scan_concat_done(d1, complete_lines(rest));
        } else {
            lemma_scan_concat(d1, complete_lines(rest));
        }
    }
}

/// What happens on the way to the reply's body, as the streaming side
/// sees it.
pub enum BodyEvent {
    /// The request could not be sent, or the server answered with a
    /// status other than success.
    RequestFailed,
    /// The next piece of the body arrived.
    Piece(Vec<u8>),
    /// Reading the body failed.
    PieceFailed,
    /// The body ended.
    Ended,
}

/// What the streaming side does after an event: parse and send on the
/// `payloads`, then, when there is a `marker`, send it and stop.
pub struct StreamStep {
    pub payloads: Vec<String>,
    pub marker: Option<String>,
}

impl SseDecoder {
    /// A decoder that has received nothing yet.
    pub fn new() -> (d: Self)
        ensures
            d.buffer@ == Seq::<char>::empty(),
    {
        SseDecoder { buffer: String::new() }
    }

    /// Takes in the next piece of the response body (decoded as UTF-8,
    /// invalid sequences replaced) and returns the payloads of the `data`
    /// lines it completes, up to a `[DONE]`. The unfinished last line is
    /// kept for the next piece.
    /// Reacts to an event of the reply's body: a failed request ends the
    /// stream with `__ERROR__`; a piece yields the payloads of the lines
    /// it completes (`feed`), and `__DONE__` after a `[DONE]`; a failed
    /// read and the end of the body end the stream with `__DONE__`.
    pub fn on_body_event(&mut self, event: BodyEvent) -> (step: StreamStep)
        ensures
            match event {
                BodyEvent::RequestFailed => {
                    &&& step.payloads@.len() == 0
                    &&& step.marker matches Some(m) && m@ == error_token()
                    &&& final(self).buffer@ == old(self).buffer@
                },
                BodyEvent::Piece(bytes) => {
                    &&& take_in(old(self).buffer@, received_text(bytes@)) == (
                        string_views(step.payloads@),
                        step.marker is Some,
                        final(self).buffer@,
                    )
                    &&& step.marker matches Some(m) ==> m@ == done_token()
                },
                _ => {
                    &&& step.payloads@.len() == 0
                    &&& step.marker matches Some(m) && m@ == done_token()
                    &&& final(self).buffer@ == old(self).buffer@
                },
            },
    {
        match event {
            BodyEvent::RequestFailed => StreamStep {
                payloads: Vec::new(),
                marker: Some(String::from_str(ERROR_TOKEN)),
            },
            BodyEvent::Piece(bytes) => {
                let batch = self.feed(bytes.as_slice());
                let marker = if batch.done {
                    Some(String::from_str(DONE_TOKEN))
                } else {
                    None
                };
                StreamStep { payloads: batch.payloads, marker }
            },
            _ => StreamStep { payloads: Vec::new(), marker: Some(String::from_str(DONE_TOKEN)) },
        }
    }

    pub fn feed(&mut self, bytes: &[u8]) -> (batch: SseBatch)
        ensures
            take_in(old(self).buffer@, received_text(bytes@)) == (
                string_views(batch.payloads@),
                batch.done,
                final(self).buffer@,
            ),
            ({
                let text = old(self).buffer@ + received_text(bytes@);
                let (ps, done) = sse_scan(complete_lines(text));
                &&& batch.payloads@.len() == ps.len()
                &&& forall|k: int| 0 <= k < ps.len() ==> #[trigger] batch.payloads@[k]@ == ps[k]
                &&& batch.done == done
                &&& !done ==> final(self).buffer@ == carried_line(text)
                &&& done ==> final(self).buffer@ == text
            }),
    {
        let added = decode_lossy(bytes);
        self.buffer.append(added.as_str());
        let cs = chars_of(self.buffer.as_str());
        let ls = split_lines(&cs);
        let ghost text = cs@;
        assert(char_views(ls@) == lines(text));
        let n = cs.len();
        let ends_line = n > 0 && (cs[n - 1] == '\n' || cs[n - 1] == '\r');
        let carry: Vec<char> = if !ends_line && ls.len() > 0 {
            let last = ls.len() - 1;
            let mut c: Vec<char> = Vec::new();
            let mut j: usize = 0;
            while j < ls[last].len()
                invariant
                    last < ls.len(),
                    j <= ls@[last as int].len(),
                    c@ == ls@[last as int]@.take(j as int),
                decreases ls@[last as int].len() - j,
            {
                c.push(ls[last][j]);
                assert(ls@[last as int]@.take(j + 1) == ls@[last as int]@.take(j as int).push(
                    ls@[last as int]@[j as int],
                ));
                j += 1;
            }
            assert(ls@[last as int]@.take(j as int) == ls@[last as int]@);
            c
        } else {
            Vec::new()
        };
        assert(carry@ == carried_line(text));
        let count = ls.len() - (if carry.len() == 0 {
            0
        } else {
            1
        });
        assert(char_views(ls@).take(count as int) == complete_lines(text));
        let batch = scan_lines(&ls, count);
        if !batch.done {
            self.buffer = string_from_chars(&carry, 0, carry.len());
            assert(carry@.subrange(0, carry@.len() as int) == carry@);
        }
        assert(string_views(batch.payloads@) == sse_scan(complete_lines(text)).0);
        batch
    }
}

/// The text that one chunk adds to the reply: the reasoning text and
/// then the content of its first choice, each when present.
pub open spec fn chunk_text(chunk: ChatCompletionChunk) -> Seq<Seq<char>> {
    if chunk.choices@.len() > 0 {
        let d = chunk.choices@[0].delta;
        (match d.reasoning_content {
            Some(r) => seq![r@],
            None => Seq::empty(),
        }) + (match d.content {
            Some(c) => seq![c@],
            None => Seq::empty(),
        })
    } else {
        Seq::empty()
    }
}

/// The tokens to stream back for one chunk: `chunk_text(chunk)`.
pub fn chunk_tokens(chunk: &ChatCompletionChunk) -> (tokens: Vec<String>)
    ensures
        tokens@.len() == chunk_text(*chunk).len(),
        forall|k: int| 0 <= k < tokens@.len() ==> #[trigger] tokens@[k]@ == chunk_text(*chunk)[k],
{
    let mut tokens: Vec<String> = Vec::new();
    if chunk.choices.len() > 0 {
        let choice = &chunk.choices[0];
        match &choice.delta.reasoning_content {
            Some(r) => tokens.push(r.clone()),
            None => {},
        }
        match &choice.delta.content {
            Some(c) => tokens.push(c.clone()),
            None => {},
        }
    }
    tokens
}

/// `Bearer {key}`: the value of the `Authorization` header for an API key.
pub fn bearer_value(key: &str) -> (v: String)
    ensures
        v@ == "Bearer "@ + key@,
{
    let mut v = String::from_str("Bearer ");
    v.append(key);
    v
}

proof fn lemma_scan_same_payloads(a: Seq<Seq<char>>, b: Seq<Seq<char>>)
    requires
        a.len() == b.len(),
        forall|k: int| 0 <= k < a.len() ==> data_payload(#[trigger] a[k]) == data_payload(b[k]),
    ensures
        sse_scan(a) == sse_scan(b),
    decreases a.len(),
{
    if a.len() > 0 {
        assert(data_payload(a[0]) == data_payload(b[0]));
        assert forall|k: int| 0 <= k < a.drop_first().len() implies data_payload(
            #[trigger] a.drop_first()[k],
        ) == data_payload(b.drop_first()[k]) by {
            assert(a.drop_first()[k] == a[k + 1]);
            assert(b.drop_first()[k] == b[k + 1]);
        }
        lemma_scan_same_payloads(a.drop_first(), b.drop_first());
    }
}

/// The split falls between the `\r` and the `\n` of a line end, or at the
/// end of the body.
proof fn lemma_split_after_cr(first: Seq<char>, second: Seq<char>)
    requires
        first.len() > 0,
        first.last() == '\r',
        second.len() == 0 || second[0] == '\n',
    ensures
        !sse_scan(complete_lines(first)).1 ==> sse_scan(complete_lines(first + second)) == (sse_scan(
            complete_lines(first),
        ).0 + sse_scan(complete_lines(carried_line(first) + second)).0, sse_scan(
            complete_lines(carried_line(first) + second),
        ).1),
        sse_scan(complete_lines(first)).1 ==> sse_scan(complete_lines(first + second)) == sse_scan(
            complete_lines(first),
        ),
        carried_line(first + second) == carried_line(carried_line(first) + second),
{
    let (d1, c1) = line_scan(first);
    lemma_line_scan_cur_no_newline(first);
    lemma_line_scan_no_newline(c1);
    assert(lines(first) == d1.push(c1));
    assert(carried_line(first) == Seq::<char>::empty());
    assert(d1.push(c1).take(d1.len() as int + 1) == d1.push(c1));
    assert(complete_lines(first) == d1.push(c1));
    assert(Seq::<char>::empty() + second == second);
    let whole = first + second;
    if second.len() == 0 {
        assert(whole == first);
        assert(lines(second).len() == 0);
        assert(complete_lines(second).len() == 0);
        assert(sse_scan(complete_lines(second)) == (Seq::<Seq<char>>::empty(), false));
        assert(sse_scan(complete_lines(first)).0 + Seq::<Seq<char>>::empty() == sse_scan(
            complete_lines(first),
        ).0);
    } else {
        let b = second.drop_first();
        let (db, cb) = line_scan(b);
        lemma_line_scan_cur_no_newline(b);
        // The line that ends with `\r\n` across the split.
        let a = c1.push('\n');
        assert(a.drop_last() == c1);
        assert(line_scan(a) == (seq![strip_cr(c1)], Seq::<char>::empty()));
        lemma_line_scan_concat(a, b);
        assert(Seq::<char>::empty() + b == b);
        assert(a + b == c1 + second);
        lemma_line_scan_concat(first, second);
        let sc1 = strip_cr(c1);
        assert(line_scan(whole) == (d1 + (seq![sc1] + db), cb));
        // The second piece alone starts with an empty line.
        let e = seq!['\n'];
        assert(e.drop_last() == Seq::<char>::empty());
        assert(e.last() == '\n');
        assert(line_scan(Seq::<char>::empty()) == (Seq::<Seq<char>>::empty(), Seq::<char>::empty()));
        assert(Seq::<Seq<char>>::empty().push(strip_cr(Seq::<char>::empty())) == seq![
            strip_cr(Seq::<char>::empty()),
        ]);
        assert(line_scan(e) == (seq![strip_cr(Seq::<char>::empty())], Seq::<char>::empty()));
        lemma_line_scan_concat(e, b);
        assert(e + b == second);
        assert(line_scan(second) == (seq![Seq::<char>::empty()] + db, cb));
        let lb = lines(b);
        assert(whole.last() == second.last());
        assert(lines(whole) == d1.push(sc1) + lb);
        assert(lines(second) == seq![Seq::<char>::empty()] + lb);
        if cb.len() > 0 {
            assert((d1.push(sc1) + lb).last() == lb.last());
            assert((seq![Seq::<char>::empty()] + lb).last() == lb.last());
        } else if b.len() == 0 {
            assert(second == e);
        }
        assert(carried_line(whole) == carried_line(second));
        let f: int = if carried_line(second).len() == 0 {
            0
        } else {
            1
        };
        let x = lb.take(lb.len() - f);
        assert(complete_lines(whole) == d1.push(sc1) + x);
        assert(complete_lines(second) == seq![Seq::<char>::empty()] + x);
        // The empty line yields nothing.
        assert((seq![Seq::<char>::empty()] + x)[0] == Seq::<char>::empty());
        assert((seq![Seq::<char>::empty()] + x).drop_first() == x);
        assert(data_payload(Seq::<char>::empty()) is None);
        assert(sse_scan(complete_lines(second)) == sse_scan(x));
        // A trailing `\r` does not change what a line says.
        assert(is_white_space(c1.last()));
        lemma_trim_drop_white_space(c1);
        assert(data_payload(sc1) == data_payload(c1));
        assert forall|k: int| 0 <= k < d1.push(sc1).len() implies data_payload(
            #[trigger] d1.push(sc1)[k],
        ) == data_payload(d1.push(c1)[k]) by {
            if k < d1.len() {
                assert(d1.push(sc1)[k] == d1.push(c1)[k]);
            }
        }
        lemma_scan_same_payloads(d1.push(sc1), d1.push(c1));
        if sse_scan(d1.push(sc1)).1 {
            lemma_scan_concat_done(d1.push(sc1), x);
        } else {
            lemma_scan_concat(d1.push(sc1), x);
        }
    }
}

/// Decoding does not depend on where the body is split: taking in text
/// `first` and then, after the held-back last line, text `second` yields
/// the same payloads, the same end and the same held-back line as taking
/// in `first + second` at once. A split between the `\r` and the `\n` of
/// a line end is no exception; one after a bare carriage return is, for
/// that `\r` completes a line that `second` might have continued.
pub proof fn lemma_split_text_decodes_alike(first: Seq<char>, second: Seq<char>)
    requires
        first.len() == 0 || first.last() != '\r' || second.len() == 0 || second[0] == '\n',
        !sse_scan(complete_lines(first)).1,
    ensures
        sse_scan(complete_lines(first + second)) == (sse_scan(complete_lines(first)).0 + sse_scan(
            complete_lines(carried_line(first) + second),
        ).0, sse_scan(complete_lines(carried_line(first) + second)).1),
        carried_line(first + second) == carried_line(carried_line(first) + second),
{
    if first.len() > 0 && first.last() == '\r' {
        lemma_split_after_cr(first, second);
    } else {
        lemma_split_plain(first, second);
    }
}

/// No line-ending character in `s`.
pub open spec fn no_line_ends(s: Seq<char>) -> bool {
    forall|i: int| 0 <= i < s.len() ==> #[trigger] s[i] != '\n' && s[i] != '\r'
}

/// Every carriage return in `s` is followed by a line feed.
pub open spec fn no_bare_cr(s: Seq<char>) -> bool {
    forall|j: int| 0 <= j < s.len() && #[trigger] s[j] == '\r' ==> j + 1 < s.len() && s[j + 1] == '\n'
}

proof fn lemma_decode_utf8_concat(a: Seq<u8>, b: Seq<u8>)
    requires
        valid_utf8(a),
        valid_utf8(b),
    ensures
        valid_utf8(a + b),
        decode_utf8(a + b) == decode_utf8(a) + decode_utf8(b),
    decreases a.len(),
{
    vstd::utf8::valid_utf8_concat(a, b);
    if a.len() == 0 {
        assert(a + b == b);
        assert(decode_utf8(a) == Seq::<char>::empty());
    } else {
        let rest = vstd::utf8::pop_first_scalar(a);
        assert(vstd::utf8::pop_first_scalar(a + b) == rest + b);
        assert(vstd::utf8::decode_first_scalar(a + b) == vstd::utf8::decode_first_scalar(a));
        assert(rest.len() < a.len());
        lemma_decode_utf8_concat(rest, b);
        let c = seq![vstd::utf8::decode_first_scalar(a) as char];
        assert(c + decode_utf8(rest + b) == c + decode_utf8(rest) + decode_utf8(b));
    }
}

proof fn lemma_line_scan_cur_suffix(s: Seq<char>)
    ensures
        line_scan(s).1.len() <= s.len(),
        line_scan(s).1 == s.skip(s.len() - line_scan(s).1.len()),
    decreases s.len(),
{
    if s.len() == 0 {
        assert(s.skip(0) == s);
    } else {
        lemma_line_scan_cur_suffix(s.drop_last());
        let cur = line_scan(s.drop_last()).1;
        if s.last() == '\n' {
            assert(s.skip(s.len() as int) == Seq::<char>::empty());
        } else {
            assert(s.skip(s.len() - cur.len() - 1) == s.drop_last().skip(
                s.drop_last().len() - cur.len(),
            ).push(s.last()));
        }
    }
}

/// The line held back after `first` has no line-ending character, when
/// every carriage return in `first + rest` is followed by a line feed.
proof fn lemma_carried_line_clean(first: Seq<char>, rest: Seq<char>)
    requires
        no_bare_cr(first + rest),
    ensures
        no_line_ends(carried_line(first)),
{
    let (d, cur) = line_scan(first);
    let c = carried_line(first);
    if c.len() > 0 {
        lemma_line_scan_cur_no_newline(first);
        lemma_line_scan_cur_suffix(first);
        assert(first.last() != '\n' && first.last() != '\r');
        assert(first.last() != '\n');
        assert(lines(first) == d.push(cur));
        assert(c == cur);
        let off = first.len() - cur.len();
        assert forall|i: int| 0 <= i < c.len() implies #[trigger] c[i] != '\n' && c[i] != '\r' by {
            assert(c[i] == first[off + i]);
            assert((first + rest)[off + i] == first[off + i]);
            if c[i] == '\r' {
                if i + 1 < c.len() {
                    assert((first + rest)[off + i + 1] == c[i + 1]);
                } else {
                    assert(first.last() == c[i]);
                }
            }
        }
    }
}

proof fn lemma_valid_flatten(pieces: Seq<Seq<u8>>)
    requires
        forall|k: int| 0 <= k < pieces.len() ==> valid_utf8(#[trigger] pieces[k]),
    ensures
        valid_utf8(pieces.flatten()),
    decreases pieces.len(),
{
    if pieces.len() == 0 {
        assert(pieces.flatten() == Seq::<u8>::empty());
    } else {
        let rest = pieces.drop_first();
        assert forall|k: int| 0 <= k < rest.len() implies valid_utf8(#[trigger] rest[k]) by {
            assert(rest[k] == pieces[k + 1]);
        }
        lemma_valid_flatten(rest);
        assert(valid_utf8(pieces[0]));
        vstd::utf8::valid_utf8_concat(pieces[0], rest.flatten());
    }
}

proof fn lemma_body_pieces(b: Seq<char>, pieces: Seq<Seq<u8>>)
    requires
        no_line_ends(b),
        forall|k: int| 0 <= k < pieces.len() ==> valid_utf8(#[trigger] pieces[k]),
        no_bare_cr(b + decode_utf8(pieces.flatten())),
    ensures
        valid_utf8(pieces.flatten()),
        ({
            let (p, d, nb) = decode_body(b, pieces);
            let (q, e, mb) = take_in(b, decode_utf8(pieces.flatten()));
            &&& p == q
            &&& d == e
            &&& !d ==> nb == mb
        }),
    decreases pieces.len(),
{
    lemma_valid_flatten(pieces);
    if pieces.len() == 0 {
        assert(pieces.flatten() == Seq::<u8>::empty());
        assert(decode_utf8(Seq::<u8>::empty()) == Seq::<char>::empty());
        assert(b + Seq::<char>::empty() == b);
        lemma_partial_line_held(b);
    } else {
        let rest = pieces.drop_first();
        let t0 = decode_utf8(pieces[0]);
        assert forall|k: int| 0 <= k < rest.len() implies valid_utf8(#[trigger] rest[k]) by {
            assert(rest[k] == pieces[k + 1]);
        }
        lemma_valid_flatten(rest);
        assert(valid_utf8(pieces[0]));
        assert(pieces.flatten() == pieces[0] + rest.flatten());
        lemma_decode_utf8_concat(pieces[0], rest.flatten());
        let r = decode_utf8(rest.flatten());
        let first = b + t0;
        assert(b + decode_utf8(pieces.flatten()) == first + r);
        assert(received_text(pieces[0]) == t0);
        let (p1, d1, b1) = take_in(b, t0);
        // Split the whole at the end of the first piece; a `\r` that ends
        // it is followed by the `\n` that starts the rest.
        if first.len() > 0 && first.last() == '\r' {
            assert((first + r)[first.len() - 1] == '\r');
            assert(r.len() > 0 && r[0] == (first + r)[first.len() as int]);
            lemma_split_after_cr(first, r);
        } else {
            lemma_split_plain(first, r);
        }
        if !d1 {
            lemma_carried_line_clean(first, r);
            assert(b1 == carried_line(first));
            assert forall|j: int| 0 <= j < (b1 + r).len() && #[trigger] (b1 + r)[j] == '\r' implies j
                + 1 < (b1 + r).len() && (b1 + r)[j + 1] == '\n' by {
                if j < b1.len() {
                    assert((b1 + r)[j] == b1[j]);
                } else {
                    let jr = j - b1.len();
                    assert((first + r)[first.len() + jr] == r[jr]);
                    assert((first + r)[first.len() + jr + 1] == r[jr + 1]);
                }
            }
            lemma_body_pieces(b1, rest);
        }
    }
}

/// Decoding does not depend on how the body is cut into pieces: taking
/// in the pieces one after the other yields the same payloads, the same
/// end and (while the stream goes on) the same held-back line as taking
/// in the whole body at once; when each piece is valid UTF-8 (every cut
/// falls between characters) and every carriage return of the body is
/// followed by a line feed.
pub proof fn lemma_body_split_decodes_alike(pieces: Seq<Seq<u8>>)
    requires
        forall|k: int| 0 <= k < pieces.len() ==> valid_utf8(#[trigger] pieces[k]),
        no_bare_cr(decode_utf8(pieces.flatten())),
    ensures
        decode_body(Seq::empty(), pieces).0 == decode_body(Seq::empty(), seq![pieces.flatten()]).0,
        decode_body(Seq::empty(), pieces).1 == decode_body(Seq::empty(), seq![pieces.flatten()]).1,
        !decode_body(Seq::empty(), pieces).1 ==> decode_body(Seq::empty(), pieces).2
            == decode_body(Seq::empty(), seq![pieces.flatten()]).2,
{
    let e = Seq::<char>::empty();
    assert(e + decode_utf8(pieces.flatten()) == decode_utf8(pieces.flatten()));
    lemma_body_pieces(e, pieces);
    let whole = seq![pieces.flatten()];
    assert(whole.flatten() == pieces.flatten()) by {
        assert(whole.drop_first().flatten() == Seq::<u8>::empty());
    }
    lemma_body_pieces(e, whole);
}

} // verus!
