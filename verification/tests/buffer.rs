use itui::buffer::{Buffer, Cell};
use itui::layout::Rect;
use itui::style::{Color, Modifier, Style};

#[test]
fn it_translates_to_and_from_coordinates() {
    let rect = Rect::new(200, 100, 50, 80);
    let buf = Buffer::empty(rect);

    // First cell is at the upper left corner.
    assert_eq!(buf.pos_of(0), (200, 100));
    assert_eq!(buf.index_of(200, 100), 0);

    // Last cell is in the lower right.
    assert_eq!(buf.pos_of(buf.content.len() - 1), (249, 179));
    assert_eq!(buf.index_of(249, 179), buf.content.len() - 1);
}

#[test]
fn buffer_doc_example_sets_strings_and_chars() {
    let mut buf = Buffer::empty(Rect { x: 0, y: 0, width: 10, height: 5 });
    buf.get_mut(0, 2).set_symbol("x");
    assert_eq!(buf.get(0, 2).symbol, "x");
    buf.set_string(3, 0, "string", Style::default().fg(Color::Red).bg(Color::White));
    assert_eq!(
        buf.get(5, 0),
        &Cell {
            symbol: String::from("r"),
            style: Style { fg: Color::Red, bg: Color::White, modifier: Modifier::empty() },
        }
    );
    buf.get_mut(5, 0).set_char('x');
    assert_eq!(buf.get(5, 0).symbol, "x");
}

#[test]
fn set_stringn_stops_at_limit_and_line_end() {
    let mut buf = Buffer::empty(Rect { x: 0, y: 0, width: 5, height: 2 });
    buf.set_stringn(1, 0, "abcdef", 2, Style::default());
    assert_eq!(buf, Buffer::with_lines(vec![" ab  ", "     "]));
    buf.set_string(3, 1, "xyz", Style::default());
    assert_eq!(buf, Buffer::with_lines(vec![" ab  ", "   xy"]));
}

#[test]
fn set_string_writes_one_grapheme_cluster_per_cell() {
    let mut buf = Buffer::empty(Rect { x: 0, y: 0, width: 3, height: 1 });
    buf.set_string(0, 0, "e\u{301}x", Style::default());
    assert_eq!(buf.get(0, 0).symbol, "e\u{301}");
    assert_eq!(buf.get(1, 0).symbol, "x");
    assert_eq!(buf.get(2, 0).symbol, " ");
}

#[test]
fn with_lines_builds_the_widest_area() {
    let buf = Buffer::with_lines(vec!["ab", "cde"]);
    assert_eq!(buf.area, Rect { x: 0, y: 0, width: 3, height: 2 });
    assert_eq!(buf.get(2, 0).symbol, " ");
    assert_eq!(buf.get(2, 1).symbol, "e");
}

#[test]
fn merge_keeps_both_buffers_by_coordinates() {
    let mut one = Buffer::filled(Rect { x: 0, y: 0, width: 2, height: 2 }, &Cell { symbol: String::from("1"), style: Style::default() });
    let two = Buffer::filled(Rect { x: 1, y: 1, width: 2, height: 2 }, &Cell { symbol: String::from("2"), style: Style::default() });
    one.merge(&two);
    assert_eq!(one.area, Rect { x: 0, y: 0, width: 3, height: 3 });
    assert_eq!(one, Buffer::with_lines(vec!["11 ", "122", " 22"]));
}

#[test]
fn resize_and_reset_keep_the_length() {
    let mut buf = Buffer::with_lines(vec!["abc", "def"]);
    buf.resize(Rect { x: 0, y: 0, width: 2, height: 1 });
    assert_eq!(buf.content.len(), 2);
    assert_eq!(buf.get(1, 0).symbol, "b");
    buf.resize(Rect { x: 0, y: 0, width: 2, height: 2 });
    assert_eq!(buf.content.len(), 4);
    assert_eq!(buf.get(1, 1).symbol, " ");
    buf.reset();
    assert_eq!(buf, Buffer::empty(Rect { x: 0, y: 0, width: 2, height: 2 }));
}

#[test]
fn cell_setters_chain_and_reset() {
    let mut cell = Cell::default();
    cell.set_symbol("a").set_fg(Color::Red).set_bg(Color::Blue).set_modifier(Modifier::BOLD());
    assert_eq!(cell.symbol, "a");
    assert_eq!(cell.style, Style { fg: Color::Red, bg: Color::Blue, modifier: Modifier::BOLD() });
    cell.reset();
    assert_eq!(cell, Cell::default());
}

#[test]
fn set_style_and_background_restyle_a_region() {
    let mut buf = Buffer::with_lines(vec!["ab", "cd"]);
    buf.set_background(Rect { x: 1, y: 0, width: 1, height: 2 }, Color::Green);
    assert_eq!(buf.get(1, 1).style.bg, Color::Green);
    assert_eq!(buf.get(0, 1).style.bg, Color::Reset);
    let red = Style::default().fg(Color::Red);
    buf.set_style(Rect { x: 0, y: 1, width: 2, height: 1 }, red);
    assert_eq!(buf.get(1, 1).style, red);
    assert_eq!(buf.get(1, 1).symbol, "d");
    assert_eq!(buf.get(1, 0).style.bg, Color::Green);
}

#[test]
fn diff_gives_the_changed_cells_in_order() {
    let prev = Buffer::with_lines(vec!["abc", "def"]);
    let mut next = Buffer::with_lines(vec!["abx", "yef"]);
    next.get_mut(2, 1).set_fg(Color::Red);
    let updates = prev.diff(&next);
    let coords: Vec<(u16, u16)> = updates.iter().map(|(x, y, _)| (*x, *y)).collect();
    assert_eq!(coords, vec![(2, 0), (0, 1), (2, 1)]);
    assert_eq!(updates[0].2.symbol, "x");
    assert_eq!(updates[2].2.style.fg, Color::Red);

    // Drawing the updates over the previous buffer gives the next one.
    let mut redrawn = prev.clone();
    for (x, y, cell) in &updates {
        *redrawn.get_mut(*x, *y) = (*cell).clone();
    }
    assert_eq!(redrawn, next);
    assert!(next.diff(&next).is_empty());
}
