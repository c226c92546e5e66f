use llm_chat::ui::layout::screen_areas;
use llm_chat::ui::Area;
use ratatui::layout::{Constraint, Direction, Layout, Rect};

fn area(x: u16, y: u16, width: u16, height: u16) -> Area {
    Area { x, y, width, height }
}

fn to_area(r: Rect) -> Area {
    Area { x: r.x, y: r.y, width: r.width, height: r.height }
}

#[test]
fn screen_is_split_into_sidebar_chat_and_input() {
    let s = screen_areas(area(0, 0, 100, 30));
    assert_eq!(s.sidebar, area(0, 0, 20, 30));
    assert_eq!(s.right, area(20, 0, 80, 30));
    assert_eq!(s.chat, area(20, 0, 80, 27));
    assert_eq!(s.input, area(20, 27, 80, 3));
}

#[test]
fn screen_areas_match_ratatui_layout() {
    for (w, h) in [(80u16, 24u16), (120, 40), (33, 9), (10, 4), (0, 0)] {
        let rect = Rect::new(0, 0, w, h);
        let halves = Layout::default()
            .direction(Direction::Horizontal)
            .constraints([Constraint::Percentage(20), Constraint::Percentage(80)])
            .split(rect);
        let rows = Layout::default()
            .direction(Direction::Vertical)
            .constraints([Constraint::Min(5), Constraint::Length(3)])
            .split(halves[1]);
        let s = screen_areas(to_area(rect));
        assert_eq!(s.sidebar, to_area(halves[0]));
        assert_eq!(s.right, to_area(halves[1]));
        assert_eq!(s.chat, to_area(rows[0]));
        assert_eq!(s.input, to_area(rows[1]));
        assert_eq!(s.sidebar.height, h);
        assert_eq!(s.chat.width, s.right.width);
    }
}
