use itui::buffer::Buffer;
use itui::layout::{Margin, Rect};
use itui::style::{Color, Style};
use itui::symbols;
use itui::widgets::tabs::Tabs;

fn render(tabs: &Tabs, area: Rect) -> Buffer {
    let mut buf = Buffer::empty(area);
    tabs.render(area, &mut buf);
    buf
}

#[test]
fn widgets_tabs_should_not_panic_on_narrow_areas() {
    let tabs = Tabs::default().titles(&["Tab1", "Tab2"]).margin(Margin { horizontal: 0, vertical: 0 });
    let buf = render(&tabs, Rect { x: 0, y: 0, width: 1, height: 1 });
    let expected = Buffer::with_lines(vec!["T"]);
    assert_eq!(buf, expected);
}

#[test]
fn widgets_tabs_should_truncate_the_last_item() {
    let tabs = Tabs::default()
        .titles(&["Tab1", "Tab2"])
        .margin(Margin { horizontal: 0, vertical: 0 })
        .divider(symbols::line::VERTICAL);
    let buf = render(&tabs, Rect { x: 0, y: 0, width: 9, height: 1 });
    let line = format!("Tab1 {} Ta", symbols::line::VERTICAL);
    let expected = Buffer::with_lines(vec![line.as_str()]);
    assert_eq!(buf, expected);
}

#[test]
fn widgets_tabs_should_not_panic_on_narrow_areas_with_margin() {
    let tabs = Tabs::default()
        .titles(&["Tab1", "Tab2"])
        .margin(Margin { horizontal: 3, vertical: 0 })
        .divider(symbols::line::VERTICAL);
    let buf = render(&tabs, Rect { x: 0, y: 0, width: 3, height: 1 });
    let expected = Buffer::with_lines(vec!["   "]);
    assert_eq!(buf, expected);
}

fn horizontal_case(margin: u16, width: u16, expected: String) {
    let tabs = Tabs::default()
        .titles(&["Tab1", "Tab2"])
        .margin(Margin { horizontal: margin, vertical: 0 })
        .divider(symbols::line::VERTICAL);
    let buf = render(&tabs, Rect { x: 0, y: 0, width, height: 1 });
    assert_eq!(buf, Buffer::with_lines(vec![expected.as_str()]));
}

#[test]
fn widgets_tabs_should_respect_left_margin() {
    horizontal_case(0, 11, format!("Tab1 {} Tab2", symbols::line::VERTICAL));
    horizontal_case(1, 13, format!(" Tab1 {} Tab2 ", symbols::line::VERTICAL));
    horizontal_case(2, 15, format!("  Tab1 {} Tab2  ", symbols::line::VERTICAL));
    horizontal_case(3, 3, "   ".to_string());
}

#[test]
fn widgets_tabs_should_respect_right_margin() {
    horizontal_case(1, 12, format!(" Tab1 {} Tab ", symbols::line::VERTICAL));
    horizontal_case(2, 13, format!("  Tab1 {} Ta  ", symbols::line::VERTICAL));
    horizontal_case(2, 10, format!("  Tab1 {}  ", symbols::line::VERTICAL));
    horizontal_case(3, 10, "   Tab1   ".to_string());
    horizontal_case(3, 6, "      ".to_string());
}

fn vertical_case(margin: u16, height: u16, expected: Vec<String>) {
    let tabs = Tabs::default()
        .titles(&["Tab1", "Tab2"])
        .margin(Margin { horizontal: 0, vertical: margin })
        .divider(symbols::line::VERTICAL);
    let buf = render(&tabs, Rect { x: 0, y: 0, width: 11, height });
    let lines: Vec<&str> = expected.iter().map(|s| s.as_str()).collect();
    assert_eq!(buf, Buffer::with_lines(lines));
}

#[test]
fn widgets_tabs_should_respect_vertical_margin() {
    vertical_case(0, 1, vec![format!("Tab1 {} Tab2", symbols::line::VERTICAL)]);
    vertical_case(1, 3, vec![" ".repeat(11), format!("Tab1 {} Tab2", symbols::line::VERTICAL), " ".repeat(11)]);
    vertical_case(
        2,
        5,
        vec![
            " ".repeat(11),
            " ".repeat(11),
            format!("Tab1 {} Tab2", symbols::line::VERTICAL),
            " ".repeat(11),
            " ".repeat(11),
        ],
    );
    vertical_case(1, 2, vec![" ".repeat(11), " ".repeat(11)]);
    vertical_case(2, 4, vec![" ".repeat(11), " ".repeat(11), " ".repeat(11), " ".repeat(11)]);
    vertical_case(2, 3, vec![" ".repeat(11), " ".repeat(11), " ".repeat(11)]);
}

#[test]
fn tabs_highlight_the_selected_title() {
    let tabs = Tabs::default()
        .titles(&["A", "B"])
        .select(1)
        .highlight_style(Style::default().fg(Color::Yellow));
    let buf = render(&tabs, Rect { x: 0, y: 0, width: 5, height: 1 });
    assert_eq!(buf.get(4, 0).symbol, "B");
    assert_eq!(buf.get(4, 0).style.fg, Color::Yellow);
    assert_eq!(buf.get(0, 0).style.fg, Color::Reset);
}
