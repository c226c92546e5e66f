use llm_chat::llm::client::{bearer_value, chunk_tokens, BodyEvent, SseDecoder};
use llm_chat::model::openai::{ChatCompletionChunk, Choice, Delta};

#[test]
fn complete_data_lines_yield_payloads() {
    let mut d = SseDecoder::new();
    let b = d.feed(b"data: {\"a\":1}\n\ndata: two\n");
    assert_eq!(b.payloads, vec!["{\"a\":1}", "two"]);
    assert!(!b.done);
    assert_eq!(d.buffer, "");
}

#[test]
fn partial_line_is_held_until_completed() {
    let mut d = SseDecoder::new();
    let b = d.feed(b"data: hel");
    assert!(b.payloads.is_empty());
    assert!(!b.done);
    assert_eq!(d.buffer, "data: hel");
    let b = d.feed(b"lo\r\ndata: x");
    assert_eq!(b.payloads, vec!["hello"]);
    assert_eq!(d.buffer, "data: x");
}

#[test]
fn done_ends_the_stream() {
    let mut d = SseDecoder::new();
    let b = d.feed(b"data: a\ndata: [DONE]\ndata: b\n");
    assert_eq!(b.payloads, vec!["a"]);
    assert!(b.done);
}

#[test]
fn other_lines_are_ignored_and_lines_are_trimmed() {
    let mut d = SseDecoder::new();
    let b = d.feed(b"event: message\nid: 3\n  data: x y  \ndata:nospace\n: comment\n");
    assert_eq!(b.payloads, vec!["x y"]);
    assert!(!b.done);
}

#[test]
fn done_must_be_exact() {
    let mut d = SseDecoder::new();
    let b = d.feed(b"data: [DONE] \ndata: [DONE]x\n");
    // trimming removes the trailing space of the first line
    assert!(b.done);
    assert!(b.payloads.is_empty());
    let mut d = SseDecoder::new();
    let b = d.feed(b"data: [DONE]x\n");
    assert!(!b.done);
    assert_eq!(b.payloads, vec!["[DONE]x"]);
}

#[test]
fn trailing_carriage_return_completes_the_line() {
    let mut d = SseDecoder::new();
    let b = d.feed(b"data: a\r");
    assert_eq!(b.payloads, vec!["a"]);
    assert_eq!(d.buffer, "");
}

#[test]
fn invalid_utf8_is_replaced() {
    let mut d = SseDecoder::new();
    let b = d.feed(b"data: a\xffb\n");
    assert_eq!(b.payloads, vec!["a\u{fffd}b"]);
}

#[test]
fn line_end_flushes_the_buffer() {
    let mut d = SseDecoder::new();
    d.feed(b"data: x");
    assert_eq!(d.buffer, "data: x");
    let b = d.feed(b"\n");
    assert_eq!(b.payloads, vec!["x"]);
    assert_eq!(d.buffer, "");
}

fn chunk(reasoning: Option<&str>, content: Option<&str>) -> ChatCompletionChunk {
    ChatCompletionChunk {
        id: "c1".to_string(),
        object: "chat.completion.chunk".to_string(),
        created: 0,
        model: "m".to_string(),
        choices: vec![Choice {
            index: 0,
            delta: Delta {
                role: None,
                content: content.map(|s| s.to_string()),
                reasoning_content: reasoning.map(|s| s.to_string()),
            },
            finish_reason: None,
        }],
    }
}

#[test]
fn chunk_gives_reasoning_then_content() {
    assert_eq!(chunk_tokens(&chunk(Some("think"), Some("say"))), vec!["think", "say"]);
    assert_eq!(chunk_tokens(&chunk(None, Some("say"))), vec!["say"]);
    assert_eq!(chunk_tokens(&chunk(Some("think"), None)), vec!["think"]);
    assert!(chunk_tokens(&chunk(None, None)).is_empty());
}

#[test]
fn chunk_without_choices_gives_nothing() {
    let mut c = chunk(Some("x"), Some("y"));
    c.choices.clear();
    assert!(chunk_tokens(&c).is_empty());
}

#[test]
fn only_the_first_choice_counts() {
    let mut c = chunk(None, Some("first"));
    c.choices.push(Choice {
        index: 1,
        delta: Delta { role: None, content: Some("second".to_string()), reasoning_content: None },
        finish_reason: None,
    });
    assert_eq!(chunk_tokens(&c), vec!["first"]);
}

#[test]
fn bearer_header() {
    assert_eq!(bearer_value("sk-123"), "Bearer sk-123");
    assert_eq!(bearer_value(""), "Bearer ");
}

fn decode_pieces(pieces: &[&[u8]]) -> (Vec<String>, bool, String) {
    let mut d = SseDecoder::new();
    let mut all = Vec::new();
    for p in pieces {
        let b = d.feed(p);
        all.extend(b.payloads);
        if b.done {
            return (all, true, d.buffer);
        }
    }
    (all, false, d.buffer)
}

#[test]
fn splitting_the_body_does_not_matter() {
    let whole: &[u8] = b"data: {\"x\":1}\r\n\r\ndata: second\ndata: thi";
    let at_once = decode_pieces(&[whole]);
    for cut in 0..whole.len() {
        let split = decode_pieces(&[&whole[..cut], &whole[cut..]]);
        assert_eq!(split, at_once, "cut at {}", cut);
    }
    assert_eq!(at_once.0, vec!["{\"x\":1}", "second"]);
    assert_eq!(at_once.2, "data: thi");
}

#[test]
fn a_bare_carriage_return_at_a_cut_completes_the_line() {
    let split = decode_pieces(&[b"data: a\r", b"data: b\n"]);
    let at_once = decode_pieces(&[b"data: a\rdata: b\n"]);
    assert_eq!(split.0, vec!["a", "b"]);
    assert_eq!(at_once.0, vec!["a\rdata: b"]);
}

#[test]
fn a_line_end_split_between_cr_and_lf_decodes_alike() {
    let split = decode_pieces(&[b"data: a\r", b"\ndata: b\r", b"\n"]);
    let at_once = decode_pieces(&[b"data: a\r\ndata: b\r\n"]);
    assert_eq!(split, at_once);
    assert_eq!(at_once.0, vec!["a", "b"]);
    assert_eq!(at_once.2, "");
}

#[test]
fn cutting_the_body_into_many_pieces_does_not_matter() {
    let whole = "data: é中\r\n\r\ndata: two\ndata: [DONE]\ndata: after\n";
    let bytes = whole.as_bytes();
    let at_once = decode_pieces(&[bytes]);
    assert_eq!(at_once.0, vec!["é中", "two"]);
    assert!(at_once.1);
    let cuts: Vec<usize> = (0..=bytes.len()).filter(|&i| whole.is_char_boundary(i)).collect();
    for &a in &cuts {
        for &b in &cuts {
            if a > b {
                continue;
            }
            let split = decode_pieces(&[&bytes[..a], &bytes[a..b], &bytes[b..]]);
            assert_eq!(split.0, at_once.0, "cuts at {} and {}", a, b);
            assert_eq!(split.1, at_once.1, "cuts at {} and {}", a, b);
        }
    }
}

#[test]
fn body_events_send_the_end_markers() {
    let mut d = SseDecoder::new();
    let step = d.on_body_event(BodyEvent::RequestFailed);
    assert!(step.payloads.is_empty());
    assert_eq!(step.marker.as_deref(), Some("__ERROR__"));

    let mut d = SseDecoder::new();
    let step = d.on_body_event(BodyEvent::Piece(b"data: a\ndata: b".to_vec()));
    assert_eq!(step.payloads, vec!["a"]);
    assert_eq!(step.marker, None);
    assert_eq!(d.buffer, "data: b");
    let step = d.on_body_event(BodyEvent::Piece(b"\ndata: [DONE]\n".to_vec()));
    assert_eq!(step.payloads, vec!["b"]);
    assert_eq!(step.marker.as_deref(), Some("__DONE__"));

    let mut d = SseDecoder::new();
    let step = d.on_body_event(BodyEvent::PieceFailed);
    assert!(step.payloads.is_empty());
    assert_eq!(step.marker.as_deref(), Some("__DONE__"));
    let step = d.on_body_event(BodyEvent::Ended);
    assert_eq!(step.marker.as_deref(), Some("__DONE__"));
}
