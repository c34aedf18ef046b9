use itui::buffer::Buffer;
use itui::layout::Rect;
use itui::style::{Color, Style};
use itui::symbols::line::NORMAL;
use itui::text::{Span, Spans};
use itui::widgets::gauge::{GaugeBar, LineGaugeBar};

fn bar(filled: u16, partial: Option<&'static str>, label_fill: Option<u16>, label: &str) -> GaugeBar<'static> {
    GaugeBar {
        block: None,
        style: Style::new(),
        gauge_style: Style::new().fg(Color::Red).bg(Color::Blue),
        label: Span::raw(label),
        filled,
        partial,
        label_fill,
    }
}

#[test]
fn gauge_bar_swaps_colors_over_the_filled_columns() {
    let area = Rect::new(0, 0, 10, 3);
    let mut buf = Buffer::empty(area);
    bar(5, None, None, "50%").draw(area, &mut buf);
    let gauge = Style::new().fg(Color::Red).bg(Color::Blue);
    let filled = Style::new().fg(Color::Blue).bg(Color::Red);
    assert_eq!(buf.get(0, 0).style, filled);
    assert_eq!(buf.get(4, 2).style, filled);
    assert_eq!(buf.get(5, 0).style, gauge);
    assert_eq!(buf.get(9, 2).style, gauge);
    // The label is centered on the middle row, in its own style where the fill does not reach.
    assert_eq!(buf.get(3, 1).symbol, "5");
    assert_eq!(buf.get(3, 1).style, filled);
    assert_eq!(buf.get(5, 1).symbol, "%");
    assert_eq!(buf.get(5, 1).style, Style::new());
    assert_eq!(buf.get(6, 1).style, gauge);
}

#[test]
fn gauge_bar_draws_the_partly_filled_column() {
    let area = Rect::new(0, 0, 10, 3);
    let mut buf = Buffer::empty(area);
    bar(2, Some("▌"), Some(3), "25%").draw(area, &mut buf);
    let gauge = Style::new().fg(Color::Red).bg(Color::Blue);
    assert_eq!(buf.get(2, 0).symbol, "▌");
    assert_eq!(buf.get(2, 2).symbol, "▌");
    assert_eq!(buf.get(2, 0).style, gauge);
    assert_eq!(buf.get(1, 0).style, Style::new().fg(Color::Blue).bg(Color::Red));
}

#[test]
fn gauge_bar_colors_up_to_the_rounded_fill_inside_the_label() {
    let area = Rect::new(0, 0, 10, 1);
    let mut buf = Buffer::empty(area);
    // The fill ends at column 4, inside the label that spans columns 3 to 5, so the colors
    // reach the rounded fill of 5 columns on the label's row.
    bar(4, Some("▌"), Some(5), "50%").draw(area, &mut buf);
    let filled = Style::new().fg(Color::Blue).bg(Color::Red);
    assert_eq!(buf.get(4, 0).style, filled);
    assert_eq!(buf.get(4, 0).symbol, "0");
    assert_eq!(buf.get(5, 0).style, Style::new());
}

fn line_bar(label: &str) -> LineGaugeBar<'static> {
    LineGaugeBar {
        block: None,
        style: Style::new(),
        gauge_style: Style::new().fg(Color::Red).bg(Color::Blue),
        label: Spans(vec![Span::raw(label)]),
        line_set: NORMAL(),
    }
}

#[test]
fn line_gauge_draws_its_line_after_the_label() {
    let area = Rect::new(0, 0, 10, 1);
    let mut buf = Buffer::empty(area);
    let gauge = line_bar("50%");
    assert_eq!(gauge.draw_label(area, &mut buf), Some((4, 0)));
    gauge.draw_line(&mut buf, 4, 7, 10, 0);
    assert_eq!(buf.get(0, 0).symbol, "5");
    assert_eq!(buf.get(3, 0).symbol, " ");
    for x in 4..10 {
        assert_eq!(buf.get(x, 0).symbol, "─");
    }
    assert_eq!(buf.get(4, 0).style, Style::new().fg(Color::Red));
    assert_eq!(buf.get(6, 0).style, Style::new().fg(Color::Red));
    assert_eq!(buf.get(7, 0).style, Style::new().fg(Color::Blue));
    assert_eq!(buf.get(9, 0).style, Style::new().fg(Color::Blue));
}

#[test]
fn line_gauge_has_no_line_where_the_label_fills_the_row() {
    let area = Rect::new(0, 0, 3, 1);
    let mut buf = Buffer::empty(area);
    assert_eq!(line_bar("50%").draw_label(area, &mut buf), None);
    assert_eq!(buf, Buffer::with_lines(vec!["50%"]));
}
