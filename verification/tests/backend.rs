use itui::backend::{draw_commands, modifier_diff, Attribute, DrawCommand};
use itui::buffer::Cell;
use itui::error::Error;
use itui::style::{Color, Modifier, Style};
use itui::widgets::canvas::{MapResolution, WorldMap};

#[test]
fn modifier_diff_ends_removed_then_starts_added() {
    let from = Modifier::BOLD().union(Modifier::DIM()).union(Modifier::ITALIC());
    let to = Modifier::DIM().union(Modifier::UNDERLINED());
    // Ending bold ends dim too, so dim comes back right away.
    assert_eq!(
        modifier_diff(from, to),
        vec![Attribute::NormalIntensity, Attribute::Dim, Attribute::NoItalic, Attribute::Underlined]
    );
    assert_eq!(modifier_diff(to, to), vec![]);
    assert_eq!(
        modifier_diff(Modifier::SLOW_BLINK().union(Modifier::REVERSED()), Modifier::RAPID_BLINK()),
        vec![Attribute::NoReverse, Attribute::NoBlink, Attribute::RapidBlink]
    );
    assert_eq!(
        modifier_diff(Modifier::empty(), Modifier::CROSSED_OUT().union(Modifier::BOLD())),
        vec![Attribute::Bold, Attribute::CrossedOut]
    );
}

#[test]
fn draw_commands_move_only_when_not_adjacent() {
    let a = Cell { symbol: "a".to_string(), style: Style::default() };
    let b = Cell { symbol: "b".to_string(), style: Style::default().fg(Color::Red) };
    let c = Cell { symbol: "c".to_string(), style: Style::default().fg(Color::Red).modifier(Modifier::BOLD()) };
    let content = vec![(0, 0, &a), (1, 0, &b), (5, 2, &c)];
    assert_eq!(
        draw_commands(&content),
        vec![
            DrawCommand::MoveTo(0, 0),
            DrawCommand::Print(&a.symbol),
            DrawCommand::SetForeground(Color::Red),
            DrawCommand::Print(&b.symbol),
            DrawCommand::MoveTo(5, 2),
            DrawCommand::SetAttribute(Attribute::Bold),
            DrawCommand::Print(&c.symbol),
            DrawCommand::ResetStyle,
        ]
    );
    assert_eq!(draw_commands(&vec![]), vec![DrawCommand::ResetStyle]);
}

#[test]
fn error_messages() {
    let backend: Error<u8, u8> = Error::Backend(1);
    let frame: Error<u8, u8> = Error::DrawFrame(2);
    assert_eq!(backend.message(), "failed to execute backend operation");
    assert_eq!(frame.message(), "failed to draw frame");
}

#[test]
fn world_map_defaults() {
    assert_eq!(MapResolution::default(), MapResolution::Low);
    assert_eq!(WorldMap::default(), WorldMap { resolution: MapResolution::Low, color: Color::Reset });
}
