use itui::buffer::Buffer;
use itui::layout::{Corner, Rect};
use itui::style::{Color, Modifier, Style};
use itui::text::{Span, Spans, Text};
use itui::widgets::list::{List, ListItem, ListState};
use itui::widgets::multi_list::{MultiListState, MutliList};

fn item(s: &str) -> ListItem {
    ListItem::new(Text::raw(s))
}

#[test]
fn list_draws_the_window_around_the_selection() {
    let list = List::new(vec![item("one"), item("two"), item("three"), item("four")])
        .select(Some(3))
        .highlight_symbol(">")
        .highlight_style(Style::default().fg(Color::Red));
    let area = Rect { x: 0, y: 0, width: 5, height: 3 };
    let mut buf = Buffer::empty(area);
    let mut state = ListState::default();
    list.draw(area, &mut buf, &mut state);
    assert_eq!(state.offset, 1);
    let mut expected = Buffer::with_lines(vec![" two ", " thre", ">four"]);
    for x in 0..5 {
        expected.get_mut(x, 2).set_fg(Color::Red);
    }
    assert_eq!(buf, expected);
}

#[test]
fn list_from_the_bottom_left_corner() {
    let list = List::new(vec![item("a"), item("b")]).start_corner(Corner::BottomLeft);
    let area = Rect { x: 0, y: 0, width: 3, height: 3 };
    let mut buf = Buffer::empty(area);
    let mut state = ListState { offset: 1 };
    list.draw(area, &mut buf, &mut state);
    // Without a selection the list starts from the first item, and no blanks are put in front.
    assert_eq!(state.offset, 0);
    assert_eq!(buf, Buffer::with_lines(vec!["   ", "b  ", "a  "]));
}

#[test]
fn list_item_styles_and_multi_line_items() {
    let spans = Spans(vec![Span::raw("x"), Span::styled("yz", Style::default().fg(Color::Blue))]);
    let items = vec![
        ListItem::new(Text { lines: vec![spans, Spans(vec![Span::raw("w")])] })
            .style(Style::default().bg(Color::Green).modifier(Modifier::BOLD())),
    ];
    let list = List::new(items).style(Style::default().fg(Color::White));
    let area = Rect { x: 0, y: 0, width: 2, height: 2 };
    let mut buf = Buffer::empty(area);
    let mut state = ListState::default();
    list.draw(area, &mut buf, &mut state);
    // The line is cut at the width; the item's style is laid over the list's.
    assert_eq!(buf.get(0, 0).symbol, "x");
    assert_eq!(buf.get(1, 0).symbol, "y");
    assert_eq!(buf.get(1, 0).style.fg, Color::Blue);
    assert_eq!(buf.get(0, 1).symbol, "w");
    assert_eq!(buf.get(1, 1).style, Style::default().fg(Color::White).bg(Color::Green).modifier(Modifier::BOLD()));
}

#[test]
fn style_patch_keeps_unset_colors() {
    let base = Style::default().fg(Color::White).bg(Color::Black).modifier(Modifier::ITALIC());
    let over = Style::default().fg(Color::Red).modifier(Modifier::BOLD());
    assert_eq!(base.patch(over), Style::default().fg(Color::Red).bg(Color::Black).modifier(Modifier::ITALIC().union(Modifier::BOLD())));
}

#[test]
fn multi_list_marks_selected_and_highlighted_items() {
    let list = MutliList::new(vec![item("a"), item("b"), item("c")])
        .highlight_symbol(">")
        .selected_style(Style::default().fg(Color::Green))
        .highlight_style(Style::default().bg(Color::Red));
    let mut state = MultiListState::default();
    state.select(1);
    state.highlight(Some(2));
    let area = Rect { x: 0, y: 0, width: 4, height: 3 };
    let mut buf = Buffer::empty(area);
    list.draw(area, &mut buf, &mut state);
    // Only the highlighted item is shifted.
    assert_eq!(state.offset, 0);
    let mut expected = Buffer::with_lines(vec!["a   ", "b   ", ">c  "]);
    for x in 0..4 {
        expected.get_mut(x, 1).set_fg(Color::Green);
        expected.get_mut(x, 2).set_bg(Color::Red);
    }
    assert_eq!(buf, expected);
}

#[test]
fn multi_list_brings_the_offset_back_onto_the_items() {
    let list = MutliList::new(vec![item("a"), item("b"), item("c")]);
    let mut state = MultiListState::default();
    state.offset = 7;
    let area = Rect { x: 0, y: 0, width: 2, height: 3 };
    let mut buf = Buffer::empty(area);
    list.draw(area, &mut buf, &mut state);
    assert_eq!(state.offset, 0);
    assert_eq!(buf, Buffer::with_lines(vec!["a ", "b ", "c "]));
}

#[test]
fn text_patch_style_lays_the_style_over_every_span() {
    let mut text = Text { lines: vec![Spans(vec![Span::raw("a"), Span::styled("b", Style::default().fg(Color::Blue))])] };
    text.patch_style(Style::default().fg(Color::Red).bg(Color::Black));
    assert_eq!(text.lines[0].0[0].content, "a");
    assert_eq!(text.lines[0].0[0].style, Style::default().fg(Color::Red).bg(Color::Black));
    assert_eq!(text.lines[0].0[1].style, Style::default().fg(Color::Red).bg(Color::Black));
}

#[test]
fn span_styled_graphemes_patch_and_skip_line_breaks() {
    let span = Span::styled("a\ne\u{301}", Style::default().fg(Color::Yellow));
    let gs = span.styled_graphemes(Style::default().bg(Color::Black));
    let symbols: Vec<&str> = gs.iter().map(|g| g.symbol).collect();
    assert_eq!(symbols, vec!["a", "e\u{301}"]);
    assert_eq!(gs[0].style, Style::default().fg(Color::Yellow).bg(Color::Black));
}
