//! The application state: the input line being edited, the
//! conversations, the chat scroll position and the reply being streamed.

use vstd::prelude::*;
use std::sync::mpsc::{Receiver, Sender};
use crate::model::openai::{Conversation, Message, Role};
use crate::outside::{arrived, channel, channel_ends_paired, grapheme_clusters, graphemes, string_views};
use crate::text::{blank, is_blank};

verus! {

broadcast use vstd::seq_lib::group_seq_properties;

/// The token that the streaming side sends when the reply is complete.
pub const DONE_TOKEN: &'static str = "__DONE__";

/// The token that the streaming side sends when the request failed.
pub const ERROR_TOKEN: &'static str = "__ERROR__";

/// The text of `DONE_TOKEN`.
pub open spec fn done_token() -> Seq<char> {
    "__DONE__"@
}

/// The text of `ERROR_TOKEN`.
pub open spec fn error_token() -> Seq<char> {
    "__ERROR__"@
}

/// Tokens that end a stream.
pub open spec fn is_end_token(t: Seq<char>) -> bool {
    t == done_token() || t == error_token()
}

/// How many tokens come before the first token that ends the stream
/// (all of them when none does).
pub open spec fn tokens_before_end(ts: Seq<Seq<char>>) -> int
    decreases ts.len(),
{
    if ts.len() == 0 {
        0
    } else if is_end_token(ts[0]) {
        0
    } else {
        1 + tokens_before_end(ts.drop_first())
    }
}

/// The text of the grapheme clusters of `s` before cluster `k` (all of
/// them when `k` is past the end).
pub open spec fn clusters_before(s: Seq<char>, k: int) -> Seq<char> {
    let g = grapheme_clusters(s);
    g.take(if k < g.len() { k } else { g.len() as int }).flatten()
}

/// The text of the grapheme clusters of `s` from cluster `k` on (none
/// when `k` is past the end).
pub open spec fn clusters_from(s: Seq<char>, k: int) -> Seq<char> {
    let g = grapheme_clusters(s);
    g.skip(if k < g.len() { k } else { g.len() as int }).flatten()
}

/// A key that the input line reacts to.
#[derive(Debug, Clone, Copy, PartialEq, Eq, Structural)]
pub enum Key {
    Enter,
    Char(char),
    Backspace,
    Left,
    Right,
    Other,
}

/// A terminal event, as far as the application reacts to it.
#[derive(Debug, Clone, Copy, PartialEq, Eq, Structural)]
pub enum InputEvent {
    /// A key event; `pressed` when it is a press (not a release or a
    /// repeat), `control_only` when Control is the only modifier held.
    Key { key: Key, pressed: bool, control_only: bool },
    ScrollUp,
    ScrollDown,
    Other,
}

/// A request that the application asks to have sent: the conversation's
/// messages, and the channel end on which to stream the reply back.
pub struct CompletionJob {
    pub messages: Vec<Message>,
    pub sender: Sender<String>,
}

/// What the event loop does after an event.
pub enum EventOutcome {
    Quit,
    Continue(Option<CompletionJob>),
}

/// The state of the chat client.
pub struct App {
    pub input_buffer: String,
    /// The cursor, counted in grapheme clusters of `input_buffer`.
    pub input_cursor: usize,
    pub conversations: Vec<Conversation>,
    pub current_conversation_index: usize,
    /// How many rows the chat view is scrolled up from the bottom.
    pub chat_scroll_offset: u16,
    pub llm_receiver: Option<Receiver<String>>,
    pub is_waiting_for_response: bool,
}

/// The scroll position after the wheel turns up: three rows more, at
/// most `u16::MAX`.
pub open spec fn scrolled_up(offset: u16) -> int {
    if offset + 3 <= u16::MAX {
        offset + 3
    } else {
        u16::MAX as int
    }
}

/// The scroll position after the wheel turns down: three rows fewer, at
/// least 0.
pub open spec fn scrolled_down(offset: u16) -> int {
    if offset >= 3 {
        offset - 3
    } else {
        0
    }
}

/// `new` is `old` with only the input line (buffer and cursor) changed.
pub open spec fn only_input_changed(old: App, new: App) -> bool {
    &&& new.conversations == old.conversations
    &&& new.current_conversation_index == old.current_conversation_index
    &&& new.chat_scroll_offset == old.chat_scroll_offset
    &&& new.llm_receiver == old.llm_receiver
    &&& new.is_waiting_for_response == old.is_waiting_for_response
}

/// The messages `new` are `old` with `s` appended to the last message
/// when that one is the assistant's, and unchanged otherwise.
pub open spec fn streamed_into(old: Seq<Message>, new: Seq<Message>, s: Seq<char>) -> bool {
    if old.len() > 0 && old.last().role == Role::Assistant {
        &&& new.len() == old.len()
        &&& forall|i: int| 0 <= i < old.len() - 1 ==> new[i] == old[i]
        &&& new.last().role == old.last().role
        &&& new.last().timestamp == old.last().timestamp
        &&& new.last().content@ == old.last().content@ + s
    } else {
        new == old
    }
}

/// The conversations `new` are `old` except for the messages of
/// conversation `idx`.
pub open spec fn conversation_updated(
    old: Seq<Conversation>,
    new: Seq<Conversation>,
    idx: int,
) -> bool {
    &&& new.len() == old.len()
    &&& forall|i: int| 0 <= i < old.len() && i != idx ==> new[i] == old[i]
    &&& new[idx].id == old[idx].id
    &&& new[idx].model == old[idx].model
    &&& new[idx].api_url == old[idx].api_url
}

/// The effect of `App::insert_char(ch)`.
pub open spec fn char_inserted(old: App, new: App, ch: char) -> bool {
    &&& new.input_buffer@ == clusters_before(old.input_buffer@, old.input_cursor as int) + seq![ch]
        + clusters_from(old.input_buffer@, old.input_cursor as int)
    &&& new.input_buffer@ == old.input_buffer@.insert(
        clusters_before(old.input_buffer@, old.input_cursor as int).len() as int,
        ch,
    )
    &&& old.input_buffer@ == clusters_before(old.input_buffer@, old.input_cursor as int)
        + clusters_from(old.input_buffer@, old.input_cursor as int)
    &&& new.input_cursor == old.input_cursor + 1
    &&& only_input_changed(old, new)
}

/// The effect of `App::delete_left()`.
pub open spec fn deleted_left(old: App, new: App) -> bool {
    &&& old.input_cursor > 0 ==> {
        &&& new.input_buffer@ == clusters_before(old.input_buffer@, old.input_cursor - 1)
            + clusters_from(old.input_buffer@, old.input_cursor as int)
        &&& new.input_cursor == old.input_cursor - 1
    }
    &&& old.input_cursor > 0 ==> {
        let p = clusters_before(old.input_buffer@, old.input_cursor - 1).len();
        let q = clusters_before(old.input_buffer@, old.input_cursor as int).len();
        &&& p <= q
        &&& new.input_buffer@ == old.input_buffer@.take(p as int) + old.input_buffer@.skip(
            q as int,
        )
    }
    &&& old.input_cursor == 0 ==> new.input_buffer == old.input_buffer && new.input_cursor == 0
    &&& only_input_changed(old, new)
}

/// The effect of submitting the input line: the conversation on screen
/// gains the user's message (the input line) and an empty assistant
/// message awaiting the reply; the input line is cleared, a reply is
/// awaited on a new channel, and the chat scrolls to the bottom.
pub open spec fn submitted(old: App, new: App) -> bool {
    let msgs = new.current().messages@;
    let n = old.current().messages@.len();
    &&& new.wf()
    &&& conversation_updated(
        old.conversations@,
        new.conversations@,
        old.current_conversation_index as int,
    )
    &&& new.current_conversation_index == old.current_conversation_index
    &&& msgs.len() == n + 2
    &&& msgs.take(n as int) == old.current().messages@
    &&& msgs[n as int].role == Role::User
    &&& msgs[n as int].content == old.input_buffer
    &&& msgs[n as int + 1].role == Role::Assistant
    &&& msgs[n as int + 1].content@ == Seq::<char>::empty()
    &&& new.input_buffer@ == Seq::<char>::empty()
    &&& new.input_cursor == 0
    &&& new.is_waiting_for_response
    &&& new.llm_receiver is Some
    &&& new.chat_scroll_offset == 0
}

/// The effect of `App::handle_input_key(key)`, and what it returns.
pub open spec fn key_handled(old: App, new: App, key: Key, job: Option<CompletionJob>) -> bool {
    match key {
        Key::Enter => if !is_blank(old.input_buffer@) {
            &&& submitted(old, new)
            &&& job is Some
            &&& job->0.messages@ == new.current().messages@
            &&& channel_ends_paired(job->0.sender, new.llm_receiver->0)
        } else {
            new == old && job is None
        },
        Key::Char(c) => char_inserted(old, new, c) && job is None,
        Key::Backspace => deleted_left(old, new) && job is None,
        Key::Left => {
            &&& new.input_cursor == (if old.input_cursor > 0 {
                old.input_cursor - 1
            } else {
                0
            })
            &&& new.input_buffer == old.input_buffer
            &&& only_input_changed(old, new)
            &&& job is None
        },
        Key::Right => {
            &&& new.input_cursor == (if old.input_cursor < grapheme_clusters(
                old.input_buffer@,
            ).len() {
                old.input_cursor + 1
            } else {
                old.input_cursor as int
            })
            &&& new.input_buffer == old.input_buffer
            &&& only_input_changed(old, new)
            &&& job is None
        },
        Key::Other => new == old && job is None,
    }
}

/// The effect of `App::handle_event(event)`, and what it returns.
pub open spec fn event_handled(old: App, new: App, event: InputEvent, outcome: EventOutcome) -> bool {
    &&& match event {
        InputEvent::Key { key, pressed, control_only } => if !pressed {
            new == old && outcome matches EventOutcome::Continue(None)
        } else if key == Key::Char('c') && control_only {
            new == old && outcome is Quit
        } else {
            outcome matches EventOutcome::Continue(job) && key_handled(old, new, key, job)
        },
        InputEvent::ScrollUp => {
            &&& new.chat_scroll_offset == scrolled_up(old.chat_scroll_offset)
            &&& outcome matches EventOutcome::Continue(None)
        },
        InputEvent::ScrollDown => {
            &&& new.chat_scroll_offset == scrolled_down(old.chat_scroll_offset)
            &&& outcome matches EventOutcome::Continue(None)
        },
        InputEvent::Other => new == old && outcome matches EventOutcome::Continue(None),
    }
    &&& (event is ScrollUp || event is ScrollDown) ==> {
        &&& new.input_buffer == old.input_buffer
        &&& new.input_cursor == old.input_cursor
        &&& new.conversations == old.conversations
        &&& new.current_conversation_index == old.current_conversation_index
        &&& new.llm_receiver == old.llm_receiver
        &&& new.is_waiting_for_response == old.is_waiting_for_response
    }
}

/// `x` and `y` hold the same input line and cursor, and agree on
/// everything else.
pub open spec fn same_state(x: App, y: App) -> bool {
    &&& x.input_buffer@ == y.input_buffer@
    &&& x.input_cursor == y.input_cursor
    &&& only_input_changed(x, y)
}

/// Whether `key` submits the input line of `app`: Enter on a line that
/// is not blank.
pub open spec fn submits(app: App, key: Key) -> bool {
    key is Enter && !is_blank(app.input_buffer@)
}

/// What a key handed on to the key handler needs: a `Char` key cannot
/// push the cursor past `usize::MAX`, and a submitted line goes to a
/// conversation that exists.
pub open spec fn event_allowed(app: App, event: InputEvent) -> bool {
    match event {
        InputEvent::Key { key, pressed, control_only } => (pressed && !(key == Key::Char('c')
            && control_only)) ==> (key_allowed(app, key) && (submits(app, key) ==> app.wf())),
        _ => true,
    }
}

/// A key handler may run only when `Char` keys cannot push the cursor
/// past `usize::MAX`.
pub open spec fn key_allowed(app: App, key: Key) -> bool {
    key is Char ==> app.input_cursor < usize::MAX
}

/// Whether `t` ends the stream.
fn ends_stream(t: &String) -> (b: bool)
    ensures
        b == is_end_token(t@),
{
    let done = String::from_str(DONE_TOKEN);
    let error = String::from_str(ERROR_TOKEN);
    *t == done || *t == error
}

proof fn lemma_tokens_before_end(ts: Seq<Seq<char>>)
    ensures
        0 <= tokens_before_end(ts) <= ts.len(),
        forall|i: int| 0 <= i < tokens_before_end(ts) ==> !is_end_token(#[trigger] ts[i]),
        tokens_before_end(ts) < ts.len() ==> is_end_token(ts[tokens_before_end(ts)]),
    decreases ts.len(),
{
    if ts.len() > 0 && !is_end_token(ts[0]) {
        lemma_tokens_before_end(ts.drop_first());
        assert forall|i: int| 0 <= i < tokens_before_end(ts) implies !is_end_token(
            #[trigger] ts[i],
        ) by {
            if i > 0 {
                assert(ts[i] == ts.drop_first()[i - 1]);
            }
        }
    }
}

proof fn lemma_streamed_into_trans(
    a: Seq<Message>,
    b: Seq<Message>,
    c: Seq<Message>,
    s1: Seq<char>,
    s2: Seq<char>,
)
    requires
        streamed_into(a, b, s1),
        streamed_into(b, c, s2),
    ensures
        streamed_into(a, c, s1 + s2),
{
    if a.len() > 0 && a.last().role == Role::Assistant {
        assert(b.len() > 0 && b.last().role == Role::Assistant);
        assert(b.last().content@ + s2 == a.last().content@ + (s1 + s2));
    }
}

/// Streaming does not depend on how the tokens are split into arrivals:
/// when a first batch holds no end token, taking it in and then a second
/// batch appends the same text, and ends at the same point, as taking in
/// both at once.
pub proof fn lemma_stream_batches_compose(ts1: Seq<Seq<char>>, ts2: Seq<Seq<char>>)
    requires
        tokens_before_end(ts1) == ts1.len(),
    ensures
        tokens_before_end(ts1 + ts2) == ts1.len() + tokens_before_end(ts2),
        (ts1 + ts2).take(tokens_before_end(ts1 + ts2)).flatten() == ts1.take(
            tokens_before_end(ts1),
        ).flatten() + ts2.take(tokens_before_end(ts2)).flatten(),
    decreases ts1.len(),
{
    lemma_tokens_before_end(ts2);
    if ts1.len() == 0 {
        assert(ts1 + ts2 == ts2);
        assert(ts1.take(0).flatten() == Seq::<char>::empty());
    } else {
        assert(!is_end_token(ts1[0]));
        let rest = ts1.drop_first();
        assert(tokens_before_end(rest) == rest.len());
        lemma_stream_batches_compose(rest, ts2);
        assert((ts1 + ts2).drop_first() == rest + ts2);
        assert((ts1 + ts2)[0] == ts1[0]);
        let k = tokens_before_end(ts1 + ts2);
        assert((ts1 + ts2).take(k) == seq![ts1[0]] + (rest + ts2).take(k - 1));
        vstd::seq_lib::lemma_flatten_concat(seq![ts1[0]], (rest + ts2).take(k - 1));
        assert(ts1.take(ts1.len() as int) == ts1);
        assert(rest.take(rest.len() as int) == rest);
        assert(ts1 == seq![ts1[0]] + rest);
        vstd::seq_lib::lemma_flatten_concat(seq![ts1[0]], rest);
        seq![ts1[0]].lemma_flatten_one_element();
    }
}

/// Only the two markers end a stream: a token ends it exactly when its
/// text is `__DONE__` or `__ERROR__`. Tokens that are neither are all taken
/// in, their text appended in order; a marker first ends the stream at
/// once; and the empty token (which a server sends for a chunk with empty
/// content) is taken in like any other, adding nothing.
pub proof fn lemma_only_markers_end_the_stream(ts: Seq<Seq<char>>)
    ensures
        (forall|i: int| 0 <= i < ts.len() ==> #[trigger] ts[i] != "__DONE__"@ && ts[i] != "__ERROR__"@)
            ==> tokens_before_end(ts) == ts.len(),
        ts.len() > 0 && (ts[0] == "__DONE__"@ || ts[0] == "__ERROR__"@) ==> tokens_before_end(ts)
            == 0,
        tokens_before_end(seq![Seq::<char>::empty()] + ts) == 1 + tokens_before_end(ts),
        (seq![Seq::<char>::empty()] + ts).take(1 + tokens_before_end(ts)).flatten() == ts.take(
            tokens_before_end(ts),
        ).flatten(),
    decreases ts.len(),
{
    reveal_strlit("__DONE__");
    reveal_strlit("__ERROR__");
    lemma_tokens_before_end(ts);
    if ts.len() > 0 {
        lemma_only_markers_end_the_stream(ts.drop_first());
        if forall|i: int| 0 <= i < ts.len() ==> #[trigger] ts[i] != "__DONE__"@ && ts[i] != "__ERROR__"@ {
            assert forall|i: int| 0 <= i < ts.drop_first().len() implies #[trigger] ts.drop_first()[i]
                != "__DONE__"@ && ts.drop_first()[i] != "__ERROR__"@ by {
                assert(ts.drop_first()[i] == ts[i + 1]);
            }
            assert(ts[0] != "__DONE__"@ && ts[0] != "__ERROR__"@);
        }
    }
    let e = Seq::<char>::empty();
    let all = seq![e] + ts;
    assert(e != "__DONE__"@ && e != "__ERROR__"@) by {
        assert("__DONE__"@.len() == 8);
        assert("__ERROR__"@.len() == 9);
    }
    assert(all[0] == e);
    assert(all.drop_first() == ts);
    let k = tokens_before_end(ts);
    assert(all.take(1 + k) == seq![e] + ts.take(k));
    vstd::seq_lib::lemma_flatten_concat(seq![e], ts.take(k));
    seq![e].lemma_flatten_one_element();
    assert(e + ts.take(k).flatten() == ts.take(k).flatten());
}

/// Turning the wheel up and then down returns to the same scroll
/// position, unless the first turn hit `u16::MAX`.
pub proof fn lemma_scroll_up_down(offset: u16)
    requires
        offset + 3 <= u16::MAX,
    ensures
        scrolled_down(scrolled_up(offset) as u16) == offset,
{
}

/// Left then Right returns the cursor to where it was, when it was within
/// the line and not at its start.
pub proof fn lemma_left_right(a: App, b: App, c: App, j1: Option<CompletionJob>, j2: Option<CompletionJob>)
    requires
        0 < a.input_cursor <= grapheme_clusters(a.input_buffer@).len(),
        key_handled(a, b, Key::Left, j1),
        key_handled(b, c, Key::Right, j2),
    ensures
        c.input_cursor == a.input_cursor,
        c.input_buffer == a.input_buffer,
        only_input_changed(a, c),
{
}

/// A typed character or Backspace does what `insert_char` or
/// `delete_left` does on the same state, whatever modifiers are held
/// (save Control alone with `c`, which quits), and asks for no request.
pub proof fn lemma_typing_keys_edit_as_methods(
    old: App,
    new: App,
    by_method: App,
    key: Key,
    control_only: bool,
    outcome: EventOutcome,
)
    requires
        key is Char || key is Backspace,
        !(key == Key::Char('c') && control_only),
        event_handled(old, new, InputEvent::Key { key, pressed: true, control_only }, outcome),
        match key {
            Key::Char(ch) => char_inserted(old, by_method, ch),
            _ => deleted_left(old, by_method),
        },
    ensures
        same_state(new, by_method),
        outcome matches EventOutcome::Continue(None),
{
}

/// Backspace undoes a typed character that stands as a grapheme cluster
/// of its own: when the clusters of the line after `insert_char(ch)` are
/// the clusters before it with `ch` as one more at the cursor, a
/// following `delete_left` restores the line and the cursor.
pub proof fn lemma_delete_undoes_insert(a: App, b: App, c: App, ch: char)
    requires
        a.input_cursor <= grapheme_clusters(a.input_buffer@).len(),
        char_inserted(a, b, ch),
        grapheme_clusters(b.input_buffer@) == grapheme_clusters(a.input_buffer@).take(
            a.input_cursor as int,
        ) + seq![seq![ch]] + grapheme_clusters(a.input_buffer@).skip(a.input_cursor as int),
        deleted_left(b, c),
    ensures
        c.input_buffer@ == a.input_buffer@,
        c.input_cursor == a.input_cursor,
        only_input_changed(a, c),
{
    let k = a.input_cursor as int;
    let g = grapheme_clusters(a.input_buffer@);
    let gb = grapheme_clusters(b.input_buffer@);
    assert(gb.take(k) == g.take(k));
    assert(gb.skip(k + 1) == g.skip(k));
    assert(clusters_before(b.input_buffer@, k) == g.take(k).flatten());
    assert(clusters_from(b.input_buffer@, k + 1) == g.skip(k).flatten());
    assert(clusters_before(a.input_buffer@, k) == g.take(k).flatten());
    assert(clusters_from(a.input_buffer@, k) == g.skip(k).flatten());
}

/// What a submitted line gets back: once the reply has streamed in, the
/// conversation holds the user's line and, after it, the assistant's
/// message made of exactly the streamed text.
pub proof fn lemma_reply_is_streamed_text(
    old: App,
    mid: App,
    new_messages: Seq<Message>,
    streamed: Seq<char>,
)
    requires
        submitted(old, mid),
        streamed_into(mid.current().messages@, new_messages, streamed),
    ensures
        new_messages.len() == old.current().messages@.len() + 2,
        new_messages[old.current().messages@.len() as int].content == old.input_buffer,
        new_messages[old.current().messages@.len() as int].role == Role::User,
        new_messages.last().role == Role::Assistant,
        new_messages.last().content@ == streamed,
{
    let n = old.current().messages@.len();
    let msgs = mid.current().messages@;
    assert(msgs.last() == msgs[n as int + 1]);
    assert(msgs[n as int + 1].content@ + streamed == streamed);
    assert(new_messages[n as int] == msgs[n as int]);
}

/// The text of the strings `gs[a..b]`, one after the other.
pub fn concat_clusters(gs: &Vec<String>, a: usize, b: usize) -> (s: String)
    requires
        a <= b <= gs.len(),
    ensures
        s@ == string_views(gs@).subrange(a as int, b as int).flatten(),
{
    let mut s = String::new();
    let mut i = a;
    while i < b
        invariant
            a <= i <= b <= gs.len(),
            s@ == string_views(gs@).subrange(a as int, i as int).flatten(),
        decreases b - i,
    {
        proof {
            let v = string_views(gs@);
            assert(v.subrange(a as int, i + 1) == v.subrange(a as int, i as int).push(v[i as int]));
            v.subrange(a as int, i as int).lemma_flatten_push(v[i as int]);
        }
        s.append(gs[i].as_str());
        i += 1;
    }
    s
}

proof fn lemma_split_flatten(g: Seq<Seq<char>>, k: int)
    requires
        0 <= k <= g.len(),
    ensures
        g.flatten() == g.take(k).flatten() + g.skip(k).flatten(),
{
    vstd::seq_lib::lemma_flatten_concat(g.take(k), g.skip(k));
    assert(g.take(k) + g.skip(k) == g);
}

impl App {
    /// The conversation index is in range.
    pub open spec fn wf(&self) -> bool {
        self.current_conversation_index < self.conversations.len()
    }

    /// The conversation on screen.
    pub open spec fn current(&self) -> Conversation {
        self.conversations@[self.current_conversation_index as int]
    }

    /// A client with an empty input line and one empty conversation.
    pub fn new() -> (app: Self)
        ensures
            app.wf(),
            app.input_buffer@ == Seq::<char>::empty(),
            app.input_cursor == 0,
            app.conversations.len() == 1,
            app.current_conversation_index == 0,
            app.current().messages@ == Seq::<Message>::empty(),
            app.current().model@ == crate::model::openai::default_model(),
            app.current().api_url@ == crate::model::openai::default_api_url(),
            crate::outside::is_v4_uuid(app.current().id),
            app.chat_scroll_offset == 0,
            app.llm_receiver is None,
            !app.is_waiting_for_response,
    {
        let mut conversations = Vec::new();
        conversations.push(Conversation::new());
        App {
            input_buffer: String::new(),
            input_cursor: 0,
            conversations,
            current_conversation_index: 0,
            chat_scroll_offset: 0,
            llm_receiver: None,
            is_waiting_for_response: false,
        }
    }

    /// The conversation on screen.
    pub fn current_conversation(&self) -> (c: &Conversation)
        requires
            self.wf(),
        ensures
            *c == self.current(),
    {
        &self.conversations[self.current_conversation_index]
    }

    /// Appends `message` to the conversation on screen.
    pub fn add_message_to_current_conversation(&mut self, message: Message)
        requires
            old(self).wf(),
        ensures
            final(self).wf(),
            conversation_updated(
                old(self).conversations@,
                final(self).conversations@,
                old(self).current_conversation_index as int,
            ),
            final(self).current().messages@ == old(self).current().messages@.push(message),
            final(self).input_buffer == old(self).input_buffer,
            final(self).input_cursor == old(self).input_cursor,
            final(self).current_conversation_index == old(self).current_conversation_index,
            final(self).chat_scroll_offset == old(self).chat_scroll_offset,
            final(self).llm_receiver == old(self).llm_receiver,
            final(self).is_waiting_for_response == old(self).is_waiting_for_response,
    {
        let idx = self.current_conversation_index;
        self.conversations[idx].add_message(message);
    }

    /// Appends streamed text to the last message of the conversation on
    /// screen, when that message is the assistant's.
    pub fn add_streaming_content(&mut self, string: String)
        requires
            old(self).wf(),
        ensures
            final(self).wf(),
            conversation_updated(
                old(self).conversations@,
                final(self).conversations@,
                old(self).current_conversation_index as int,
            ),
            streamed_into(old(self).current().messages@, final(self).current().messages@, string@),
            final(self).input_buffer == old(self).input_buffer,
            final(self).input_cursor == old(self).input_cursor,
            final(self).current_conversation_index == old(self).current_conversation_index,
            final(self).chat_scroll_offset == old(self).chat_scroll_offset,
            final(self).llm_receiver == old(self).llm_receiver,
            final(self).is_waiting_for_response == old(self).is_waiting_for_response,
    {
        let idx = self.current_conversation_index;
        let n = self.conversations[idx].messages.len();
        if n > 0 && self.conversations[idx].messages[n - 1].role == Role::Assistant {
            self.conversations[idx].messages[n - 1].content.append(string.as_str());
        }
    }

    /// Inserts `ch` at the cursor, which counts grapheme clusters, and
    /// moves the cursor one step right. The text before and after the
    /// cursor keeps every character, in order.
    #[verifier::rlimit(30)]
    pub fn insert_char(&mut self, ch: char)
        requires
            old(self).input_cursor < usize::MAX,
        ensures
            char_inserted(*old(self), *final(self), ch),
    {
        let gs = graphemes(self.input_buffer.as_str());
        let k = if self.input_cursor < gs.len() {
            self.input_cursor
        } else {
            gs.len()
        };
        let mut buffer = concat_clusters(&gs, 0, k);
        crate::text::push_char(&mut buffer, ch);
        let after = concat_clusters(&gs, k, gs.len());
        buffer.append(after.as_str());
        proof {
            let g = string_views(gs@);
            assert(g.subrange(0, k as int) == g.take(k as int));
            assert(g.subrange(k as int, g.len() as int) == g.skip(k as int));
            lemma_split_flatten(g, k as int);
            let old_text = self.input_buffer@;
            let p = g.take(k as int).flatten().len();
            assert(old_text.take(p as int) == g.take(k as int).flatten());
            assert(old_text.skip(p as int) == g.skip(k as int).flatten());
            assert(old_text.insert(p as int, ch) == old_text.take(p as int) + seq![ch]
                + old_text.skip(p as int));
            assert(old_text == old_text.take(p as int) + old_text.skip(p as int));
        }
        self.input_buffer = buffer;
        self.input_cursor += 1;
    }

    /// Deletes the grapheme cluster before the cursor and moves the cursor
    /// one step left; does nothing with the cursor at the start.
    pub fn delete_left(&mut self)
        ensures
            deleted_left(*old(self), *final(self)),
    {
        if self.input_cursor > 0 {
            let gs = graphemes(self.input_buffer.as_str());
            let c = self.input_cursor;
            let k1 = if c - 1 < gs.len() {
                c - 1
            } else {
                gs.len()
            };
            let k2 = if c < gs.len() {
                c
            } else {
                gs.len()
            };
            let mut buffer = concat_clusters(&gs, 0, k1);
            let after = concat_clusters(&gs, k2, gs.len());
            buffer.append(after.as_str());
            proof {
                let g = string_views(gs@);
                let old_text = self.input_buffer@;
                assert(g.subrange(0, k1 as int) == g.take(k1 as int));
                assert(g.subrange(k2 as int, g.len() as int) == g.skip(k2 as int));
                lemma_split_flatten(g, k1 as int);
                lemma_split_flatten(g, k2 as int);
                lemma_split_flatten(g.take(k2 as int), k1 as int);
                assert(g.take(k2 as int).take(k1 as int) == g.take(k1 as int));
                let p = g.take(k1 as int).flatten().len();
                let q = g.take(k2 as int).flatten().len();
                assert(old_text.take(p as int) == g.take(k1 as int).flatten());
                assert(old_text.skip(q as int) == g.skip(k2 as int).flatten());
            }
            self.input_buffer = buffer;
            self.input_cursor -= 1;
        }
    }

    /// Reacts to a key on the input line: Enter submits a non-blank line,
    /// a character is inserted, Backspace deletes left, Left and Right
    /// move the cursor by one grapheme cluster within the line. Returns
    /// the request to send when a line was submitted.
    pub fn handle_input_key(&mut self, key: Key) -> (job: Option<CompletionJob>)
        requires
            submits(*old(self), key) ==> old(self).wf(),
            key_allowed(*old(self), key),
        ensures
            old(self).wf() ==> final(self).wf(),
            key_handled(*old(self), *final(self), key, job),
    {
        match key {
            Key::Enter => {
                if !blank(self.input_buffer.as_str()) {
                    let ghost old_app = *self;
                    let user_msg = Message::new(Role::User, self.input_buffer.clone());
                    self.add_message_to_current_conversation(user_msg);
                    self.add_message_to_current_conversation(
                        Message::new(Role::Assistant, String::new()),
                    );
                    self.input_buffer = String::new();
                    self.input_cursor = 0;
                    self.is_waiting_for_response = true;
                    let (sender, receiver) = channel();
                    self.llm_receiver = Some(receiver);
                    let messages = self.current_conversation().messages.clone();
                    self.chat_scroll_offset = 0;
                    proof {
                        let n = old_app.current().messages@.len();
                        assert(self.current().messages@.take(n as int)
                            == old_app.current().messages@);
                        assert(messages@ == self.current().messages@);
                    }
                    Some(CompletionJob { messages, sender })
                } else {
                    None
                }
            },
            Key::Char(c) => {
                self.insert_char(c);
                None
            },
            Key::Backspace => {
                self.delete_left();
                None
            },
            Key::Left => {
                if self.input_cursor > 0 {
                    self.input_cursor -= 1;
                }
                None
            },
            Key::Right => {
                let len = graphemes(self.input_buffer.as_str()).len();
                if self.input_cursor < len {
                    self.input_cursor += 1;
                }
                None
            },
            Key::Other => None,
        }
    }

    /// Takes in the tokens that have arrived from the streaming side, in
    /// order: tokens before the first end token (`__DONE__` or
    /// `__ERROR__`) are appended to the reply being streamed, scrolling
    /// the chat to the bottom; at an end token the reply is no longer
    /// awaited and the rest is ignored. Returns whether an end token came.
    pub fn consume_stream_tokens(&mut self, tokens: &Vec<String>) -> (finished: bool)
        requires
            tokens_before_end(string_views(tokens@)) > 0 ==> old(self).wf(),
        ensures
            ({
                let ts = string_views(tokens@);
                let k = tokens_before_end(ts);
                &&& old(self).wf() ==> final(self).wf()
                &&& finished == (k < ts.len())
                &&& conversation_updated(
                    old(self).conversations@,
                    final(self).conversations@,
                    old(self).current_conversation_index as int,
                )
                &&& streamed_into(
                    old(self).current().messages@,
                    final(self).current().messages@,
                    ts.take(k).flatten(),
                )
                &&& final(self).chat_scroll_offset == (if k > 0 {
                    0
                } else {
                    old(self).chat_scroll_offset
                })
                &&& final(self).is_waiting_for_response == (if finished {
                    false
                } else {
                    old(self).is_waiting_for_response
                })
            }),
            final(self).input_buffer == old(self).input_buffer,
            final(self).input_cursor == old(self).input_cursor,
            final(self).current_conversation_index == old(self).current_conversation_index,
            final(self).llm_receiver == old(self).llm_receiver,
    {
        let ghost ts = string_views(tokens@);
        let ghost start = *self;
        proof {
            lemma_tokens_before_end(ts);
        }
        let mut done = false;
        let mut i: usize = 0;
        while i < tokens.len()
            invariant_except_break
                !done,
            invariant
                ts == string_views(tokens@),
                0 <= i <= tokens_before_end(ts) <= ts.len(),
                forall|j: int| 0 <= j < tokens_before_end(ts) ==> !is_end_token(#[trigger] ts[j]),
                tokens_before_end(ts) < ts.len() ==> is_end_token(ts[tokens_before_end(ts)]),
                (tokens_before_end(ts) > 0 || start.wf()) ==> self.wf(),
                conversation_updated(
                    start.conversations@,
                    self.conversations@,
                    start.current_conversation_index as int,
                ),
                streamed_into(
                    start.current().messages@,
                    self.current().messages@,
                    ts.take(i as int).flatten(),
                ),
                self.chat_scroll_offset == (if i > 0 {
                    0
                } else {
                    start.chat_scroll_offset
                }),
                self.is_waiting_for_response == start.is_waiting_for_response,
                self.input_buffer == start.input_buffer,
                self.input_cursor == start.input_cursor,
                self.current_conversation_index == start.current_conversation_index,
                self.llm_receiver == start.llm_receiver,
            ensures
                done ==> i == tokens_before_end(ts) && i < ts.len(),
                !done ==> i == ts.len(),
            decreases tokens.len() - i,
        {
            proof {
                assert(ts[i as int] == tokens@[i as int]@);
            }
            if ends_stream(&tokens[i]) {
                done = true;
                break;
            }
            let ghost before = *self;
            self.add_streaming_content(tokens[i].clone());
            self.chat_scroll_offset = 0;
            proof {
                assert(ts[i as int] == tokens@[i as int]@);
                lemma_streamed_into_trans(
                    start.current().messages@,
                    before.current().messages@,
                    self.current().messages@,
                    ts.take(i as int).flatten(),
                    ts[i as int],
                );
                assert(ts.take(i + 1) == ts.take(i as int).push(ts[i as int]));
                ts.take(i as int).lemma_flatten_push(ts[i as int]);
            }
            i += 1;
        }
        if done {
            self.is_waiting_for_response = false;
        }
        done
    }

    /// Takes in whatever the streaming side has sent so far, as
    /// `consume_stream_tokens` does; the channel is kept while the reply
    /// is unfinished and dropped once it ends. Does nothing when no reply
    /// is being streamed.
    pub fn handle_streaming_response(&mut self)
        requires
            old(self).llm_receiver is Some ==> old(self).wf(),
        ensures
            old(self).wf() ==> final(self).wf(),
            old(self).llm_receiver is None ==> *final(self) == *old(self),
            old(self).llm_receiver is Some ==> exists|ts: Seq<Seq<char>>| #![trigger tokens_before_end(ts)]
                {
                    let k = tokens_before_end(ts);
                    &&& conversation_updated(
                        old(self).conversations@,
                        final(self).conversations@,
                        old(self).current_conversation_index as int,
                    )
                    &&& streamed_into(
                        old(self).current().messages@,
                        final(self).current().messages@,
                        ts.take(k).flatten(),
                    )
                    &&& final(self).chat_scroll_offset == (if k > 0 {
                        0
                    } else {
                        old(self).chat_scroll_offset
                    })
                    &&& k < ts.len() ==> !final(self).is_waiting_for_response
                        && final(self).llm_receiver is None
                    &&& k == ts.len() ==> final(self).is_waiting_for_response
                        == old(self).is_waiting_for_response && final(self).llm_receiver
                        == old(self).llm_receiver
                },
            final(self).input_buffer == old(self).input_buffer,
            final(self).input_cursor == old(self).input_cursor,
            final(self).current_conversation_index == old(self).current_conversation_index,
    {
        if self.llm_receiver.is_none() {
            return;
        }
        let receiver = self.llm_receiver.take().unwrap();
        let tokens = arrived(&receiver);
        let finished = self.consume_stream_tokens(&tokens);
        if !finished {
            self.llm_receiver = Some(receiver);
        }
        proof {
            let ts = string_views(tokens@);
            assert(tokens_before_end(ts) <= ts.len()) by {
                lemma_tokens_before_end(ts);
            }
        }
    }

    /// Reacts to a terminal event: Ctrl+C (pressed, Control alone) quits;
    /// other key presses go to `handle_input_key`; the mouse wheel scrolls
    /// the chat by three rows, up or down, within `0..=u16::MAX`.
    pub fn handle_event(&mut self, event: InputEvent) -> (outcome: EventOutcome)
        requires
            event_allowed(*old(self), event),
        ensures
            old(self).wf() ==> final(self).wf(),
            event_handled(*old(self), *final(self), event, outcome),
    {
        match event {
            InputEvent::Key { key, pressed, control_only } => {
                if !pressed {
                    EventOutcome::Continue(None)
                } else if key == Key::Char('c') && control_only {
                    EventOutcome::Quit
                } else {
                    EventOutcome::Continue(self.handle_input_key(key))
                }
            },
            InputEvent::ScrollUp => {
                self.chat_scroll_offset = self.chat_scroll_offset.saturating_add(3);
                EventOutcome::Continue(None)
            },
            InputEvent::ScrollDown => {
                self.chat_scroll_offset = self.chat_scroll_offset.saturating_sub(3);
                EventOutcome::Continue(None)
            },
            InputEvent::Other => EventOutcome::Continue(None),
        }
    }
}

} // verus!
