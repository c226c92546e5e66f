use llm_chat::clock::LocalTime;
use llm_chat::model::message::Message;
use llm_chat::model::role::Role;
use llm_chat::ui::chat_view::{
    border_plan, plan_chat_view, BorderPlan, BubbleColor, ContentDraw, RenderedMessage, ScrollbarPlan,
};
use llm_chat::ui::Area;

fn noon() -> LocalTime {
    LocalTime { hour: 12, minute: 0, second: 0, nanosecond: 0 }
}

fn msg(role: Role, text: &str) -> Message {
    Message { role, content: text.to_string(), timestamp: noon() }
}

#[test]
fn user_message_bubble() {
    let r = RenderedMessage::from_message(&msg(Role::User, "hi"), 28).unwrap();
    assert_eq!(r.content_lines, vec!["hi"]);
    assert_eq!(r.bubble_width, 4);
    assert_eq!(r.bubble_height, 3);
    assert_eq!(r.info_height, 1);
    assert_eq!(r.color, BubbleColor::Green);
    assert_eq!(r.role, Role::User);
    assert_eq!(r.timestamp_str, "12:00:00");
}

#[test]
fn assistant_message_bubble_wraps() {
    let r = RenderedMessage::from_message(&msg(Role::Assistant, "aaaa bbbb cccc"), 9).unwrap();
    assert_eq!(r.content_lines, vec!["aaaa bbbb", "cccc"]);
    assert_eq!(r.bubble_width, 11);
    assert_eq!(r.bubble_height, 4);
    assert_eq!(r.color, BubbleColor::Blue);
}

#[test]
fn bubble_width_is_capped() {
    // "abcdefghij" breaks into "abcd", "efgh", "ij": 4 wide, 3 lines.
    let r = RenderedMessage::from_message(&msg(Role::User, "abcdefghij"), 4).unwrap();
    assert_eq!(r.bubble_width, 6);
    assert_eq!(r.bubble_height, 5);
}

#[test]
fn oversized_limit_does_not_fit() {
    assert!(RenderedMessage::from_message(&msg(Role::User, "x"), 65534).is_none());
}

#[test]
fn border_plans() {
    let full = Area { x: 0, y: 0, width: 4, height: 3 };
    assert_eq!(border_plan(full, 0, 3), Some(BorderPlan { sides: true, top: true, bottom: true }));
    let lower = Area { x: 0, y: 0, width: 4, height: 2 };
    assert_eq!(border_plan(lower, 1, 3), Some(BorderPlan { sides: true, top: false, bottom: true }));
    assert_eq!(border_plan(lower, 0, 3), Some(BorderPlan { sides: true, top: true, bottom: false }));
    let empty = Area { x: 0, y: 0, width: 4, height: 0 };
    assert_eq!(border_plan(empty, 0, 3), Some(BorderPlan { sides: false, top: false, bottom: false }));
    let one = Area { x: 0, y: 0, width: 4, height: 1 };
    assert_eq!(border_plan(one, u16::MAX, 3), None);
    // A one-row bubble that is not clipped shows only its top edge.
    assert_eq!(border_plan(one, 0, 1), Some(BorderPlan { sides: true, top: true, bottom: false }));
}

#[test]
fn single_message_layout() {
    let inner = Area { x: 0, y: 0, width: 100, height: 20 };
    let plan = plan_chat_view(inner, &vec![msg(Role::User, "hi")], 0).unwrap();
    assert_eq!(plan.scroll_offset, 0);
    assert_eq!(plan.rendered.len(), 1);
    assert_eq!(plan.draws.len(), 1);
    let d = plan.draws[0];
    assert_eq!(d.index, 0);
    assert_eq!(d.info, Some(Area { x: 1, y: 0, width: 20, height: 1 }));
    let b = d.bubble.unwrap();
    assert_eq!(b.rect, Area { x: 1, y: 1, width: 4, height: 3 });
    assert_eq!(b.clip_top, 0);
    assert_eq!(b.borders, BorderPlan { sides: true, top: true, bottom: true });
    assert_eq!(
        b.content,
        Some(ContentDraw { rect: Area { x: 2, y: 2, width: 2, height: 1 }, first_line: 0, line_count: 1 })
    );
    assert_eq!(
        plan.scrollbar,
        Some(ScrollbarPlan { area: inner, total_height: 4, visible_height: 20, scroll_offset: 0 })
    );
}

#[test]
fn empty_view_or_conversation_draws_nothing() {
    let msgs = vec![msg(Role::User, "hi")];
    let plan = plan_chat_view(Area { x: 0, y: 0, width: 0, height: 10 }, &msgs, 7).unwrap();
    assert_eq!(plan.scroll_offset, 7);
    assert!(plan.draws.is_empty() && plan.rendered.is_empty() && plan.scrollbar.is_none());
    let plan = plan_chat_view(Area { x: 0, y: 0, width: 10, height: 10 }, &vec![], 7).unwrap();
    assert_eq!(plan.scroll_offset, 7);
    assert!(plan.draws.is_empty());
}

fn three() -> Vec<Message> {
    vec![msg(Role::User, "m"), msg(Role::Assistant, "m"), msg(Role::User, "m")]
}

#[test]
fn scroll_is_clamped_to_the_top() {
    let inner = Area { x: 0, y: 0, width: 40, height: 5 };
    let plan = plan_chat_view(inner, &three(), 100).unwrap();
    assert_eq!(plan.scroll_offset, 9);
    assert_eq!(plan.draws.len(), 1);
    assert_eq!(plan.draws[0].index, 0);
    assert_eq!(plan.draws[0].bubble.unwrap().rect, Area { x: 1, y: 1, width: 3, height: 3 });
    assert_eq!(
        plan.scrollbar,
        Some(ScrollbarPlan { area: inner, total_height: 14, visible_height: 5, scroll_offset: 0 })
    );
    // Clamping again changes nothing.
    let again = plan_chat_view(inner, &three(), plan.scroll_offset).unwrap();
    assert_eq!(again.scroll_offset, 9);
}

#[test]
fn bottom_of_a_long_conversation() {
    let inner = Area { x: 0, y: 0, width: 40, height: 5 };
    let plan = plan_chat_view(inner, &three(), 0).unwrap();
    assert_eq!(plan.scroll_offset, 0);
    assert_eq!(plan.draws.len(), 1);
    let d = plan.draws[0];
    assert_eq!(d.index, 2);
    assert_eq!(d.info, Some(Area { x: 1, y: 0, width: 20, height: 1 }));
    let b = d.bubble.unwrap();
    assert_eq!(b.rect, Area { x: 1, y: 1, width: 3, height: 3 });
    assert_eq!(
        b.content,
        Some(ContentDraw { rect: Area { x: 2, y: 2, width: 1, height: 1 }, first_line: 0, line_count: 1 })
    );
    assert_eq!(
        plan.scrollbar,
        Some(ScrollbarPlan { area: inner, total_height: 14, visible_height: 5, scroll_offset: 9 })
    );
}

#[test]
fn fitting_conversation_resets_scroll_and_draws_in_order() {
    let inner = Area { x: 0, y: 0, width: 40, height: 50 };
    let plan = plan_chat_view(inner, &three(), 12).unwrap();
    assert_eq!(plan.scroll_offset, 0);
    let indices: Vec<usize> = plan.draws.iter().map(|d| d.index).collect();
    assert_eq!(indices, vec![0, 1, 2]);
    for d in &plan.draws {
        if let Some(c) = d.bubble.and_then(|b| b.content) {
            assert!(c.first_line + c.line_count <= plan.rendered[d.index].content_lines.len());
        }
    }
    let rows: Vec<u16> = plan.draws.iter().map(|d| d.info.unwrap().y).collect();
    assert_eq!(rows, vec![0, 5, 10]);
}
