use llm_chat::app::{App, EventOutcome, InputEvent, Key};
use llm_chat::model::openai::{Message, Role};

fn app_with(text: &str) -> App {
    let mut app = App::new();
    for c in text.chars() {
        app.insert_char(c);
    }
    app
}

#[test]
fn new_app_is_idle() {
    let app = App::new();
    assert_eq!(app.input_buffer, "");
    assert_eq!(app.input_cursor, 0);
    assert_eq!(app.conversations.len(), 1);
    assert_eq!(app.current_conversation_index, 0);
    assert!(app.current_conversation().messages.is_empty());
    assert_eq!(app.chat_scroll_offset, 0);
    assert!(app.llm_receiver.is_none());
    assert!(!app.is_waiting_for_response);
}

#[test]
fn typing_appends_and_moves_cursor() {
    let app = app_with("héllo");
    assert_eq!(app.input_buffer, "héllo");
    assert_eq!(app.input_cursor, 5);
}

#[test]
fn insert_in_the_middle_after_moving_left() {
    let mut app = app_with("ac");
    app.handle_input_key(Key::Left);
    assert_eq!(app.input_cursor, 1);
    app.insert_char('b');
    assert_eq!(app.input_buffer, "abc");
    assert_eq!(app.input_cursor, 2);
}

#[test]
fn insert_counts_grapheme_clusters() {
    // "e" + combining acute accent is one cluster.
    let mut app = app_with("e\u{301}x");
    assert_eq!(app.input_cursor, 3);
    app.input_cursor = 1;
    app.insert_char('y');
    assert_eq!(app.input_buffer, "e\u{301}yx");
    assert_eq!(app.input_cursor, 2);
}

#[test]
fn insert_past_the_end_appends() {
    let mut app = app_with("ab");
    app.input_cursor = 10;
    app.insert_char('c');
    assert_eq!(app.input_buffer, "abc");
    assert_eq!(app.input_cursor, 11);
}

#[test]
fn insert_keeps_other_characters() {
    // The law of insert_char, on concrete values: exactly one character
    // more, the rest in place.
    let mut app = app_with("你好世界");
    app.input_cursor = 2;
    let before: Vec<char> = app.input_buffer.chars().collect();
    app.insert_char('!');
    let after: Vec<char> = app.input_buffer.chars().collect();
    assert_eq!(after.len(), before.len() + 1);
    let mut expected = before.clone();
    expected.insert(2, '!');
    assert_eq!(after, expected);
}

#[test]
fn delete_left_removes_one_cluster() {
    let mut app = app_with("ae\u{301}b");
    // clusters: "a", "é", "b"; the cursor counted 4 characters typed.
    app.input_cursor = 2;
    app.delete_left();
    assert_eq!(app.input_buffer, "ab");
    assert_eq!(app.input_cursor, 1);
    app.delete_left();
    assert_eq!(app.input_buffer, "b");
    assert_eq!(app.input_cursor, 0);
    app.delete_left();
    assert_eq!(app.input_buffer, "b");
    assert_eq!(app.input_cursor, 0);
}

#[test]
fn delete_left_past_the_end() {
    let mut app = app_with("ab");
    app.input_cursor = 5;
    app.delete_left();
    assert_eq!(app.input_buffer, "ab");
    assert_eq!(app.input_cursor, 4);
    app.input_cursor = 3;
    app.delete_left();
    assert_eq!(app.input_buffer, "ab");
    assert_eq!(app.input_cursor, 2);
    app.delete_left();
    assert_eq!(app.input_buffer, "a");
    assert_eq!(app.input_cursor, 1);
}

#[test]
fn backspace_and_arrows() {
    let mut app = app_with("xyz");
    assert!(app.handle_input_key(Key::Backspace).is_none());
    assert_eq!(app.input_buffer, "xy");
    app.handle_input_key(Key::Right);
    assert_eq!(app.input_cursor, 2);
    app.handle_input_key(Key::Left);
    app.handle_input_key(Key::Left);
    app.handle_input_key(Key::Left);
    assert_eq!(app.input_cursor, 0);
    app.handle_input_key(Key::Right);
    assert_eq!(app.input_cursor, 1);
    assert!(app.handle_input_key(Key::Other).is_none());
    assert_eq!(app.input_buffer, "xy");
    assert_eq!(app.input_cursor, 1);
}

#[test]
fn right_stops_at_the_last_cluster() {
    let mut app = app_with("e\u{301}");
    // two characters typed, one cluster
    assert_eq!(app.input_cursor, 2);
    app.handle_input_key(Key::Right);
    assert_eq!(app.input_cursor, 2);
    app.input_cursor = 0;
    app.handle_input_key(Key::Right);
    app.handle_input_key(Key::Right);
    assert_eq!(app.input_cursor, 1);
}

#[test]
fn enter_on_blank_input_does_nothing() {
    let mut app = app_with(" \t ");
    let job = app.handle_input_key(Key::Enter);
    assert!(job.is_none());
    assert_eq!(app.input_buffer, " \t ");
    assert!(app.current_conversation().messages.is_empty());
    assert!(!app.is_waiting_for_response);
    assert!(app.llm_receiver.is_none());
}

#[test]
fn enter_submits_the_line() {
    let mut app = app_with("hello");
    app.chat_scroll_offset = 7;
    let job = app.handle_input_key(Key::Enter).expect("a request");
    let msgs = &app.current_conversation().messages;
    assert_eq!(msgs.len(), 2);
    assert_eq!(msgs[0].role, Role::User);
    assert_eq!(msgs[0].content, "hello");
    assert_eq!(msgs[1].role, Role::Assistant);
    assert_eq!(msgs[1].content, "");
    assert_eq!(job.messages.len(), 2);
    assert_eq!(job.messages[0].content, "hello");
    assert_eq!(app.input_buffer, "");
    assert_eq!(app.input_cursor, 0);
    assert!(app.is_waiting_for_response);
    assert!(app.llm_receiver.is_some());
    assert_eq!(app.chat_scroll_offset, 0);
}

#[test]
fn streamed_reply_arrives_through_the_channel() {
    let mut app = app_with("hi");
    let job = app.handle_input_key(Key::Enter).unwrap();
    job.sender.send("Hel".to_string()).unwrap();
    job.sender.send("lo".to_string()).unwrap();
    app.chat_scroll_offset = 4;
    app.handle_streaming_response();
    assert_eq!(app.current_conversation().messages[1].content, "Hello");
    assert_eq!(app.chat_scroll_offset, 0);
    assert!(app.is_waiting_for_response);
    assert!(app.llm_receiver.is_some());
    job.sender.send("!".to_string()).unwrap();
    job.sender.send("__DONE__".to_string()).unwrap();
    job.sender.send("ignored".to_string()).unwrap();
    app.handle_streaming_response();
    assert_eq!(app.current_conversation().messages[1].content, "Hello!");
    assert!(!app.is_waiting_for_response);
    assert!(app.llm_receiver.is_none());
    // Nothing streams any more.
    app.handle_streaming_response();
    assert_eq!(app.current_conversation().messages[1].content, "Hello!");
}

#[test]
fn nothing_arrived_changes_nothing() {
    let mut app = app_with("hi");
    let _job = app.handle_input_key(Key::Enter).unwrap();
    app.chat_scroll_offset = 5;
    app.handle_streaming_response();
    assert_eq!(app.chat_scroll_offset, 5);
    assert!(app.is_waiting_for_response);
    assert!(app.llm_receiver.is_some());
}

#[test]
fn error_token_ends_the_reply() {
    let mut app = app_with("hi");
    let job = app.handle_input_key(Key::Enter).unwrap();
    job.sender.send("__ERROR__".to_string()).unwrap();
    app.handle_streaming_response();
    assert_eq!(app.current_conversation().messages[1].content, "");
    assert!(!app.is_waiting_for_response);
    assert!(app.llm_receiver.is_none());
}

fn tokens(ts: &[&str]) -> Vec<String> {
    ts.iter().map(|t| t.to_string()).collect()
}

fn waiting_app() -> App {
    let mut app = App::new();
    app.add_message_to_current_conversation(Message::new(Role::User, "q".to_string()));
    app.add_message_to_current_conversation(Message::new(Role::Assistant, String::new()));
    app.is_waiting_for_response = true;
    app
}

#[test]
fn consume_stops_at_the_first_end_token() {
    let mut app = waiting_app();
    app.chat_scroll_offset = 3;
    let finished = app.consume_stream_tokens(&tokens(&["a", "b", "__DONE__", "c"]));
    assert!(finished);
    assert_eq!(app.current_conversation().messages[1].content, "ab");
    assert!(!app.is_waiting_for_response);
    assert_eq!(app.chat_scroll_offset, 0);
}

#[test]
fn consume_end_first_keeps_scroll() {
    let mut app = waiting_app();
    app.chat_scroll_offset = 3;
    assert!(app.consume_stream_tokens(&tokens(&["__ERROR__", "x"])));
    assert_eq!(app.chat_scroll_offset, 3);
    assert_eq!(app.current_conversation().messages[1].content, "");
}

#[test]
fn stream_batches_compose() {
    // The same tokens, in one batch or in two, give the same reply.
    let mut one = waiting_app();
    one.consume_stream_tokens(&tokens(&["a", "b", "__DONE__"]));
    let mut two = waiting_app();
    assert!(!two.consume_stream_tokens(&tokens(&["a"])));
    assert!(two.consume_stream_tokens(&tokens(&["b", "__DONE__"])));
    assert_eq!(
        one.current_conversation().messages[1].content,
        two.current_conversation().messages[1].content
    );
    assert_eq!(one.is_waiting_for_response, two.is_waiting_for_response);
}

#[test]
fn streaming_into_a_user_message_changes_nothing() {
    let mut app = App::new();
    app.add_message_to_current_conversation(Message::new(Role::User, "q".to_string()));
    app.add_streaming_content("x".to_string());
    assert_eq!(app.current_conversation().messages[0].content, "q");
    let mut empty = App::new();
    empty.add_streaming_content("x".to_string());
    assert!(empty.current_conversation().messages.is_empty());
}

#[test]
fn control_c_quits() {
    let mut app = app_with("ab");
    let out = app.handle_event(InputEvent::Key { key: Key::Char('c'), pressed: true, control_only: true });
    assert!(matches!(out, EventOutcome::Quit));
    assert_eq!(app.input_buffer, "ab");
}

#[test]
fn plain_c_is_typed_and_releases_are_ignored() {
    let mut app = App::new();
    let out = app.handle_event(InputEvent::Key { key: Key::Char('c'), pressed: true, control_only: false });
    assert!(matches!(out, EventOutcome::Continue(None)));
    assert_eq!(app.input_buffer, "c");
    let out = app.handle_event(InputEvent::Key { key: Key::Char('d'), pressed: false, control_only: false });
    assert!(matches!(out, EventOutcome::Continue(None)));
    assert_eq!(app.input_buffer, "c");
}

#[test]
fn enter_event_returns_the_job() {
    let mut app = app_with("q");
    let out = app.handle_event(InputEvent::Key { key: Key::Enter, pressed: true, control_only: false });
    match out {
        EventOutcome::Continue(Some(job)) => assert_eq!(job.messages.len(), 2),
        _ => panic!("expected a request"),
    }
}

#[test]
fn mouse_wheel_scrolls_within_range() {
    let mut app = App::new();
    app.handle_event(InputEvent::ScrollUp);
    assert_eq!(app.chat_scroll_offset, 3);
    app.handle_event(InputEvent::ScrollDown);
    app.handle_event(InputEvent::ScrollDown);
    assert_eq!(app.chat_scroll_offset, 0);
    app.chat_scroll_offset = u16::MAX - 1;
    app.handle_event(InputEvent::ScrollUp);
    assert_eq!(app.chat_scroll_offset, u16::MAX);
    assert!(matches!(app.handle_event(InputEvent::Other), EventOutcome::Continue(None)));
}

#[test]
fn left_then_right_restores_the_cursor() {
    let mut app = app_with("abc");
    app.input_cursor = 2;
    app.handle_input_key(Key::Left);
    app.handle_input_key(Key::Right);
    assert_eq!(app.input_cursor, 2);
    assert_eq!(app.input_buffer, "abc");
}

#[test]
fn wheel_up_then_down_restores_the_scroll() {
    let mut app = App::new();
    app.chat_scroll_offset = 10;
    app.handle_event(InputEvent::ScrollUp);
    app.handle_event(InputEvent::ScrollDown);
    assert_eq!(app.chat_scroll_offset, 10);
}

#[test]
fn reply_holds_exactly_the_streamed_text() {
    let mut app = app_with("question");
    let job = app.handle_input_key(Key::Enter).unwrap();
    for t in ["An", "swer", " here", "__DONE__"] {
        job.sender.send(t.to_string()).unwrap();
    }
    app.handle_streaming_response();
    let msgs = &app.current_conversation().messages;
    assert_eq!(msgs.len(), 2);
    assert_eq!(msgs[0].content, "question");
    assert_eq!(msgs[0].role, Role::User);
    assert_eq!(msgs[1].role, Role::Assistant);
    assert_eq!(msgs[1].content, "Answer here");
}

#[test]
fn typing_keys_edit_as_the_methods_do() {
    for control_only in [false, true] {
        let mut by_key = app_with("héllo");
        by_key.handle_event(InputEvent::Key { key: Key::Left, pressed: true, control_only: false });
        let mut by_method = app_with("héllo");
        by_method.handle_event(InputEvent::Key { key: Key::Left, pressed: true, control_only: false });
        let out = by_key.handle_event(InputEvent::Key { key: Key::Char('x'), pressed: true, control_only });
        assert!(matches!(out, EventOutcome::Continue(None)));
        by_method.insert_char('x');
        assert_eq!(by_key.input_buffer, by_method.input_buffer);
        assert_eq!(by_key.input_cursor, by_method.input_cursor);
        let out = by_key.handle_event(InputEvent::Key { key: Key::Backspace, pressed: true, control_only });
        assert!(matches!(out, EventOutcome::Continue(None)));
        by_method.delete_left();
        assert_eq!(by_key.input_buffer, by_method.input_buffer);
        assert_eq!(by_key.input_cursor, by_method.input_cursor);
        assert_eq!(by_key.input_buffer, "héllo");
    }
}

#[test]
fn backspace_undoes_a_typed_character() {
    for cursor in 0..=3 {
        let mut app = app_with("a中b");
        app.input_cursor = cursor;
        app.insert_char('文');
        app.delete_left();
        assert_eq!(app.input_buffer, "a中b");
        assert_eq!(app.input_cursor, cursor);
    }
}
