use itui::buffer::Buffer;
use itui::layout::Rect;
use itui::style::{Color, Style};
use itui::widgets::block::{Block, BorderType};
use itui::widgets::clear::Clear;
use itui::widgets::Borders;

#[test]
fn it_draws_a_block() {
    let mut buf = Buffer::empty(Rect { x: 0, y: 0, width: 10, height: 10 });
    Block::default()
        .title("Title")
        .borders(Borders::ALL())
        .title_style(Style::default().fg(Color::LightBlue))
        .draw(Rect { x: 0, y: 0, width: 8, height: 8 }, &mut buf);
    let mut expected = Buffer::with_lines(vec![
        "┌Title─┐  ",
        "│      │  ",
        "│      │  ",
        "│      │  ",
        "│      │  ",
        "│      │  ",
        "│      │  ",
        "└──────┘  ",
        "          ",
        "          ",
    ]);
    for x in 1..=5 {
        expected.get_mut(x, 0).set_fg(Color::LightBlue);
    }
    assert_eq!(&expected, &buf);
}

#[test]
fn widgets_block_renders() {
    let mut buf = Buffer::empty(Rect { x: 0, y: 0, width: 10, height: 10 });
    let block = Block::default()
        .title("Title")
        .title_style(Style::default().fg(Color::LightBlue))
        .borders(Borders::ALL());
    block.draw(Rect { x: 0, y: 0, width: 8, height: 8 }, &mut buf);
    let mut expected = Buffer::with_lines(vec![
        "┌Title─┐  ",
        "│      │  ",
        "│      │  ",
        "│      │  ",
        "│      │  ",
        "│      │  ",
        "│      │  ",
        "└──────┘  ",
        "          ",
        "          ",
    ]);
    for x in 1..=5 {
        expected.get_mut(x, 0).set_fg(Color::LightBlue);
    }
    assert_eq!(expected, buf);
}

#[test]
fn block_draws_nothing_below_two_cells() {
    let mut buf = Buffer::empty(Rect { x: 0, y: 0, width: 4, height: 1 });
    Block::default().title("Test").borders(Borders::ALL()).draw(Rect { x: 0, y: 0, width: 4, height: 1 }, &mut buf);
    assert_eq!(buf, Buffer::empty(Rect { x: 0, y: 0, width: 4, height: 1 }));
}

#[test]
fn block_border_types_and_partial_borders() {
    let mut buf = Buffer::empty(Rect { x: 0, y: 0, width: 4, height: 3 });
    Block::default().borders(Borders::ALL()).border_type(BorderType::Double).draw(Rect { x: 0, y: 0, width: 4, height: 3 }, &mut buf);
    assert_eq!(buf, Buffer::with_lines(vec!["╔══╗", "║  ║", "╚══╝"]));

    let mut buf = Buffer::empty(Rect { x: 0, y: 0, width: 4, height: 3 });
    Block::default().borders(Borders::ALL()).border_type(BorderType::Rounded).draw(Rect { x: 0, y: 0, width: 4, height: 3 }, &mut buf);
    assert_eq!(buf, Buffer::with_lines(vec!["╭──╮", "│  │", "╰──╯"]));

    let mut buf = Buffer::empty(Rect { x: 0, y: 0, width: 5, height: 3 });
    Block::default().title("Ab").borders(Borders::LEFT().union(Borders::BOTTOM())).draw(Rect { x: 1, y: 0, width: 4, height: 3 }, &mut buf);
    assert_eq!(buf, Buffer::with_lines(vec![" │Ab ", " │   ", " └───"]));
}

#[test]
fn block_inner_takes_off_borders_and_title_row() {
    let area = Rect { x: 1, y: 1, width: 10, height: 5 };
    assert_eq!(Block::default().borders(Borders::ALL()).inner(area), Rect { x: 2, y: 2, width: 8, height: 3 });
    assert_eq!(Block::default().title("t").inner(area), Rect { x: 1, y: 2, width: 10, height: 4 });
    assert_eq!(Block::default().inner(area), area);
    assert_eq!(Block::default().borders(Borders::ALL()).inner(Rect { x: 1, y: 1, width: 1, height: 5 }), Rect::default());
}

#[test]
fn block_background_and_outside_cells() {
    let mut buf = Buffer::with_lines(vec!["xxxx", "xxxx", "xxxx"]);
    Block::default().style(Style::default().bg(Color::Red)).draw(Rect { x: 1, y: 1, width: 2, height: 2 }, &mut buf);
    assert_eq!(buf.get(1, 1).style.bg, Color::Red);
    assert_eq!(buf.get(2, 2).style.bg, Color::Red);
    assert_eq!(buf.get(0, 0).style.bg, Color::Reset);
    assert_eq!(buf.get(3, 2).style.bg, Color::Reset);
    assert_eq!(buf.get(1, 1).symbol, "x");
}

#[test]
fn borders_flags() {
    let lr = Borders::LEFT().union(Borders::RIGHT());
    assert!(lr.contains(Borders::LEFT()));
    assert!(lr.intersects(Borders::RIGHT()));
    assert!(!lr.intersects(Borders::TOP()));
    assert!(Borders::ALL().contains(lr));
    assert!(!Borders::ALL().intersects(Borders::NONE()));
    assert_eq!(Borders::ALL().bits(), 30);
}

#[test]
fn clear_resets_an_area() {
    let mut buf = Buffer::with_lines(vec!["abc", "def"]);
    buf.get_mut(1, 0).set_fg(Color::Red);
    Clear.render(Rect { x: 1, y: 0, width: 2, height: 2 }, &mut buf);
    assert_eq!(buf, Buffer::with_lines(vec!["a  ", "d  "]));
}
