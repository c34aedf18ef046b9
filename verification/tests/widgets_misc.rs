use itui::buffer::Buffer;
use itui::layout::{Corner, Direction, Rect};
use itui::style::{Color, Modifier, Style};
use itui::symbols::bar;
use itui::text::{Span, Spans, Text};
use itui::widgets::ansi::{apply_sgr, parse_u8, Ansi, AnsiBuffer, Ctl};
use itui::widgets::barchart::BarChart;
use itui::widgets::histogram::Histogram;
use itui::widgets::list::{List, ListItem, ListState};
use itui::widgets::multi_list::{MultiListState, MutliList};
use itui::widgets::sparkline::Sparkline;
use itui::widgets::text::{Parser, Text as TextWidget};
use itui::widgets::window::visible_bounds;

fn items(heights: &[usize]) -> Vec<ListItem> {
    heights
        .iter()
        .map(|h| {
            let lines: Vec<Spans> = (0..*h).map(|_| Spans(vec![Span::raw("x")])).collect();
            ListItem::new(Text { lines })
        })
        .collect()
}

#[test]
fn window_follows_the_selection() {
    let hs = vec![1, 1, 1, 1, 1];
    // everything from the offset fits
    assert_eq!(visible_bounds(&hs, None, 0, 5), (0, 5));
    // the selection below the window pulls it down
    assert_eq!(visible_bounds(&hs, Some(4), 0, 2), (3, 5));
    // the selection above the window pulls it up
    assert_eq!(visible_bounds(&hs, Some(1), 3, 2), (1, 3));
    // a selection past the end counts as the last item
    assert_eq!(visible_bounds(&hs, Some(9), 0, 3), (2, 5));
    // an item taller than the viewport is shown alone, as an empty window at its place
    let tall = vec![1, 5, 1];
    assert_eq!(visible_bounds(&tall, Some(1), 0, 3), (1, 1));
}

#[test]
fn list_state_offset_follows_the_window() {
    let list = List::new(items(&[2, 2, 2, 2])).select(Some(3));
    let mut state = ListState::default();
    assert_eq!(list.visible_items(&mut state, 4), (2, 4));
    assert_eq!(state.offset, 2);
    let list = List::new(items(&[2, 2, 2, 2]));
    let mut state = ListState { offset: 3 };
    assert_eq!(list.visible_items(&mut state, 4), (0, 2));
    assert_eq!(state.offset, 0);
    assert_eq!(ListItem::new(Text::raw("a\nb")).height(), 2);
    assert_eq!(list.start_corner, Corner::TopLeft);
}

#[test]
fn multi_list_state_selection() {
    let mut state = MultiListState::default();
    state.select(2);
    state.select(4);
    state.toggle_selection(2);
    state.toggle_selection(7);
    state.deselect(4);
    assert!(state.get_selections().contains(&7));
    assert_eq!(state.get_selections().len(), 1);
    state.highlight(Some(1));
    assert_eq!(state.get_highlight(), Some(1));
    let list = MutliList::new(items(&[1, 1, 1]));
    // the offset is first brought back onto the last item
    assert_eq!(list.get_items_bounds(Some(0), 10, 2), (0, 2));
    assert_eq!(list.get_items_bounds(None, 10, 5), (0, 3));
}

#[test]
fn sparkline_draws_bars_in_eighths() {
    let mut buf = Buffer::empty(Rect { x: 0, y: 0, width: 4, height: 1 });
    let data = [0, 4, 8, 16];
    Sparkline::default().data(&data).max(8).draw(Rect { x: 0, y: 0, width: 4, height: 1 }, &mut buf);
    let line = format!(" {}{}{}", bar::HALF, bar::FULL, bar::FULL);
    assert_eq!(buf, Buffer::with_lines(vec![line.as_str()]));

    let mut buf = Buffer::empty(Rect { x: 0, y: 0, width: 2, height: 2 });
    let data = [3, 1];
    Sparkline::default().data(&data).draw(Rect { x: 0, y: 0, width: 2, height: 2 }, &mut buf);
    // the largest value fills the two rows: 16 eighths; the other gets 16 / 3 = 5
    let top = format!("{} ", bar::FULL);
    let bottom = format!("{}{}", bar::FULL, bar::FIVE_EIGHTHS);
    assert_eq!(buf, Buffer::with_lines(vec![top.as_str(), bottom.as_str()]));
}

#[test]
fn barchart_draws_bars_values_and_labels() {
    let data = [("a", 1), ("b", 2)];
    let chart = BarChart::default().data(&data).bar_width(3).bar_gap(1);
    assert_eq!(chart.values, vec!["1".to_string(), "2".to_string()]);
    let mut buf = Buffer::empty(Rect { x: 0, y: 0, width: 8, height: 3 });
    chart.draw(Rect { x: 0, y: 0, width: 8, height: 3 }, &mut buf);
    // heights: 1 * 3 * 8 / 2 = 12 and 2 * 3 * 8 / 2 = 24 eighths, over the two upper rows
    let l0 = format!("{}{}{} {}{}{} ", bar::HALF, bar::HALF, bar::HALF, bar::FULL, bar::FULL, bar::FULL);
    let l1 = format!("{}1{} {}2{} ", bar::FULL, bar::FULL, bar::FULL, bar::FULL);
    assert_eq!(buf, Buffer::with_lines(vec![l0.as_str(), l1.as_str(), "a   b   "]));
}

#[test]
fn histogram_counts_values_into_buckets() {
    let data = [1, 2, 2, 3, 9];
    let h = Histogram::default().data(&data, 3);
    // the range 1..=9 holds 9 values: buckets of 3, counting 0..3, 3..6 and 6..9; 9 is in none
    assert_eq!(h.buckets, vec![3, 1, 0]);
    assert_eq!(h.values, vec!["0".to_string(), "3".to_string(), "6".to_string()]);
    assert_eq!(h.max, Some(3));
    // one bucket of size 1 counts the values below 1
    let one = [1];
    assert_eq!(Histogram::default().data(&one, 1).buckets, vec![0]);
}

#[test]
fn histogram_renders_bars_and_labels() {
    let data = [0, 0, 1];
    let h = Histogram::default().data(&data, 2).bar_gap(0);
    let mut buf = Buffer::empty(Rect { x: 0, y: 0, width: 4, height: 2 });
    h.render(Rect { x: 0, y: 0, width: 4, height: 2 }, &mut buf);
    // two buckets of width 2; counts 2 and 1, the first full, the second half; each count is
    // printed on the row above the labels, which is the bars' row here
    let l0 = format!("2{}1{}", bar::FULL, bar::HALF);
    assert_eq!(buf, Buffer::with_lines(vec![l0.as_str(), "0 1 "]));
}

#[test]
fn text_widget_parses_color_marks() {
    let mut p = Parser::new("a{red bc}\\{d", Color::White);
    assert_eq!(p.next(), Some(("a", Color::White)));
    assert_eq!(p.next(), Some(("b", Color::Red)));
    assert_eq!(p.next(), Some(("c", Color::Red)));
    assert_eq!(p.next(), Some(("{", Color::White)));
    assert_eq!(p.next(), Some(("d", Color::White)));
    assert_eq!(p.next(), None);
}

#[test]
fn text_widget_draws_and_wraps() {
    let mut t = TextWidget::default();
    t.text("ab{green c}\nd").wrap(true).color(Color::Blue);
    let mut buf = Buffer::empty(Rect { x: 0, y: 0, width: 2, height: 3 });
    t.draw(Rect { x: 0, y: 0, width: 2, height: 3 }, &mut buf);
    assert_eq!(buf.get(0, 0).symbol, "a");
    assert_eq!(buf.get(1, 0).style.fg, Color::Blue);
    // the grapheme that reaches past the right edge moves the next ones to the next row, and is
    // itself dropped
    assert_eq!(buf.get(0, 1).symbol, " ");
    assert_eq!(buf.get(0, 2).symbol, "d");
    assert_eq!(buf.get(0, 2).style.fg, Color::Blue);
}

#[test]
fn ansi_codes_style_the_data() {
    let mut style = Style::default();
    apply_sgr(1, &mut style);
    apply_sgr(31, &mut style);
    assert_eq!(style, Style { fg: Color::Red, bg: Color::Reset, modifier: Modifier::BOLD() });
    apply_sgr(0, &mut style);
    assert_eq!(style, Style::default());
    assert_eq!(parse_u8("+42"), Some(42));
    assert_eq!(parse_u8("256"), None);
    assert_eq!(parse_u8("4a"), None);
    assert_eq!(parse_u8(""), None);

    let mut buf = AnsiBuffer::empty();
    buf.handle(Ansi::Data("a".to_string()));
    buf.handle(Ansi::Data("b".to_string()));
    buf.handle(Ansi::Command(Ctl::CSI, 109, "32".to_string(), vec![]));
    buf.handle(Ansi::Data("c".to_string()));
    buf.compact();
    assert_eq!(buf.buf.len(), 3);
    let texts = buf.as_text();
    assert_eq!(texts.len(), 2);
    assert_eq!(texts[0].lines[0].0[0].content, "ab");
    assert_eq!(texts[1].lines[0].0[0].style.fg, Color::Green);
}

#[test]
fn text_raw_splits_lines() {
    let t = Text::raw("one\r\ntwo\n\nthree\n");
    let lines: Vec<String> = t.lines.iter().map(|l| l.0[0].content.clone()).collect();
    assert_eq!(lines, vec!["one", "two", "", "three"]);
    assert_eq!(t.height(), 4);
    assert_eq!(t.width(), 5);
    assert_eq!(Text::raw("").height(), 0);
    assert_eq!(Span::raw("日本").width(), 4);
}

#[test]
fn direction_is_kept() {
    assert_eq!(Direction::Horizontal, Direction::Horizontal);
}
