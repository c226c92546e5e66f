use llm_chat::clock::{format_clock, LocalTime};
use llm_chat::model::conversation::Conversation as PlainConversation;
use llm_chat::model::message::Message as PlainMessage;
use llm_chat::model::openai::{Conversation, Message, Role};
use llm_chat::model::role::Role as PlainRole;

#[test]
fn role_labels() {
    assert_eq!(Role::User.to_string(), "User");
    assert_eq!(Role::Assistant.to_string(), "Assistant");
    assert_eq!(PlainRole::User.to_string(), "User");
    assert_eq!(PlainRole::Assistant.to_string(), "Assistant");
}

#[test]
fn new_conversation_has_defaults() {
    let c = Conversation::new();
    assert!(c.messages.is_empty());
    assert_eq!(c.model, "default");
    assert_eq!(c.api_url, "http://localhost:8000/v1/chat/completions");
}

#[test]
fn conversations_get_distinct_ids() {
    let a = Conversation::new();
    let b = Conversation::new();
    assert_ne!(a.id, b.id);
    assert_eq!(uuid::Uuid::from_u128(a.id).get_version_num(), 4);
    assert_eq!(uuid::Uuid::from_u128(b.id).get_version_num(), 4);
    assert_eq!(uuid::Uuid::from_u128(a.id).get_variant(), uuid::Variant::RFC4122);
    let p = PlainConversation::new();
    assert_eq!(uuid::Uuid::from_u128(p.id).get_version_num(), 4);
}

#[test]
fn add_message_appends_in_order() {
    let mut c = Conversation::new();
    let id = c.id;
    c.add_message(Message::new(Role::User, "first".to_string()));
    c.add_message(Message::new(Role::Assistant, "second".to_string()));
    assert_eq!(c.messages.len(), 2);
    assert_eq!(c.messages[0].content, "first");
    assert_eq!(c.messages[0].role, Role::User);
    assert_eq!(c.messages[1].content, "second");
    assert_eq!(c.messages[1].role, Role::Assistant);
    assert_eq!(c.id, id);
}

fn is_clock_text(s: &str) -> bool {
    let b = s.as_bytes();
    b.len() == 8
        && b[2] == b':'
        && b[5] == b':'
        && [0, 1, 3, 4, 6, 7].iter().all(|&i| b[i].is_ascii_digit())
        && s[0..2].parse::<u32>().unwrap() <= 23
        && s[3..5].parse::<u32>().unwrap() <= 59
        && s[6..8].parse::<u32>().unwrap() <= 60
}

#[test]
fn message_is_stamped_with_clock_time() {
    let m = Message::new(Role::User, "hi".to_string());
    assert_eq!(m.content, "hi");
    assert_eq!(m.role, Role::User);
    assert!(is_clock_text(&m.timestamp), "{}", m.timestamp);
}

#[test]
fn plain_message_and_conversation() {
    let m = PlainMessage::new(PlainRole::Assistant, "ok".to_string());
    assert_eq!(m.content, "ok");
    assert!(m.timestamp.hour < 24 && m.timestamp.minute < 60 && m.timestamp.second < 60);
    let mut c = PlainConversation::new();
    assert!(c.messages.is_empty());
    c.add_message(m.clone());
    assert_eq!(c.messages.len(), 1);
    assert_eq!(c.messages[0].content, "ok");
    assert_eq!(c.messages[0].role, PlainRole::Assistant);
}

#[test]
fn clock_text_is_zero_padded() {
    let t = LocalTime { hour: 7, minute: 5, second: 9, nanosecond: 0 };
    assert_eq!(format_clock(&t), "07:05:09");
    let t = LocalTime { hour: 23, minute: 59, second: 59, nanosecond: 999_999_999 };
    assert_eq!(format_clock(&t), "23:59:59");
}

#[test]
fn leap_second_shows_as_sixty() {
    let t = LocalTime { hour: 23, minute: 59, second: 59, nanosecond: 1_500_000_000 };
    assert_eq!(format_clock(&t), "23:59:60");
}
