use llm_chat::app::App;
use llm_chat::ui::input::calculate_cursor_position;
use llm_chat::ui::Area;

fn typed(text: &str) -> App {
    let mut app = App::new();
    for c in text.chars() {
        app.insert_char(c);
    }
    app
}

#[test]
fn cursor_follows_the_text_width() {
    let area = Area { x: 0, y: 0, width: 10, height: 3 };
    assert_eq!(calculate_cursor_position(&typed("ab"), area), Some((3, 1)));
    assert_eq!(calculate_cursor_position(&typed("你"), area), Some((3, 1)));
    let mut app = typed("abc");
    app.input_cursor = 0;
    assert_eq!(calculate_cursor_position(&app, area), Some((1, 1)));
}

#[test]
fn cursor_offset_by_the_area() {
    let area = Area { x: 5, y: 7, width: 10, height: 3 };
    assert_eq!(calculate_cursor_position(&typed("ab"), area), Some((8, 8)));
}

#[test]
fn cursor_outside_the_box_is_hidden() {
    let area = Area { x: 0, y: 0, width: 3, height: 3 };
    assert_eq!(calculate_cursor_position(&typed("ab"), area), None);
    assert_eq!(calculate_cursor_position(&typed("a"), area), Some((2, 1)));
}
