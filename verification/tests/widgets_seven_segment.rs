use itui::buffer::Buffer;
use itui::layout::Rect;
use itui::widgets::seven_segment::SevenSegment;

fn draw(width: u16, height: u16, area: Rect) -> Buffer {
    let mut buf = Buffer::empty(Rect { x: 0, y: 0, width, height });
    let display = SevenSegment::new("12:34:56.78, 90").unwrap();
    display.render(area, &mut buf);
    buf
}

#[test]
fn widgets_seven_segment_full() {
    let buf = draw(60, 5, Rect { x: 1, y: 1, width: 58, height: 3 });
    let expected = Buffer::with_lines(vec![
        "                                                            ",
        "    ╷ ╶──┐ ╶──┐ ╷  ╷ ┌──╴ ┌──╴ ╶──┐ ┌──┐      ┌──┐ ┌──┐     ",
        "    │ ┌──┘: ──┤ └──┤:└──┐ ├──┐    │ ├──┤      └──┤ │  │     ",
        "    ╵ └──╴ ╶──┘    ╵ ╶──┘ └──┘.   ╵ └──┘,     ╶──┘ └──┘     ",
        "                                                            ",
    ]);
    assert_eq!(buf, expected);
}

#[test]
fn widgets_seven_segment_half() {
    let buf = draw(28, 5, Rect { x: 1, y: 1, width: 27, height: 3 });
    let expected = Buffer::with_lines(vec![
        "                            ",
        "    ╷ ╶──┐ ╶──┐ ╷  ╷ ┌──╴ ┌─",
        "    │ ┌──┘: ──┤ └──┤:└──┐ ├─",
        "    ╵ └──╴ ╶──┘    ╵ ╶──┘ └─",
        "                            ",
    ]);
    assert_eq!(buf, expected);
}

#[test]
fn widgets_seven_segment_trim() {
    let buf = draw(54, 3, Rect { x: 0, y: 0, width: 54, height: 3 });
    let expected = Buffer::with_lines(vec![
        "   ╷ ╶──┐ ╶──┐ ╷  ╷ ┌──╴ ┌──╴ ╶──┐ ┌──┐      ┌──┐ ┌──┐",
        "   │ ┌──┘: ──┤ └──┤:└──┐ ├──┐    │ ├──┤      └──┤ │  │",
        "   ╵ └──╴ ╶──┘    ╵ ╶──┘ └──┘.   ╵ └──┘,     ╶──┘ └──┘",
    ]);
    assert_eq!(buf, expected);
}

#[test]
fn seven_segment_rejects_the_first_undisplayable_char() {
    assert_eq!(SevenSegment::new("12a:b").err(), Some('a'));
    assert_eq!(SevenSegment::new("").map(|d| d.top.len()).ok(), Some(0));
}

#[test]
fn seven_segment_rows_and_spacing() {
    let d = SevenSegment::new("8 8").unwrap();
    // two wide glyphs of four columns with a blank column before each following one
    assert_eq!(d.top.len(), 14);
    assert_eq!(d.centre.len(), 14);
    assert_eq!(d.bottom.len(), 14);
    let d = SevenSegment::new("1:1").unwrap();
    assert_eq!(d.top.len(), 9);
    assert_eq!(d.centre[4].symbol, ":");
}

#[test]
fn seven_segment_draws_only_the_rows_that_fit() {
    let mut buf = Buffer::empty(Rect { x: 0, y: 0, width: 4, height: 1 });
    SevenSegment::new("0").unwrap().render(Rect { x: 0, y: 0, width: 4, height: 1 }, &mut buf);
    assert_eq!(buf, Buffer::with_lines(vec!["┌──┐"]));
}
