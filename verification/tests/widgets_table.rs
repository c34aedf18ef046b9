use itui::buffer::Buffer;
use itui::layout::{Constraint, Rect};
use itui::style::{Color, Style};
use itui::widgets::block::Block;
use itui::widgets::table::{Row, Table, TableState};
use itui::widgets::Borders;

fn strings(items: &[&str]) -> Vec<String> {
    items.iter().map(|s| s.to_string()).collect()
}

fn sample_table<'a>() -> Table<'a> {
    Table::new(
        strings(&["Head1", "Head2", "Head3"]),
        vec![
            Row::Data(strings(&["Row11", "Row12", "Row13"])),
            Row::Data(strings(&["Row21", "Row22", "Row23"])),
            Row::Data(strings(&["Row31", "Row32", "Row33"])),
            Row::Data(strings(&["Row41", "Row42", "Row43"])),
        ],
    )
    .block(Block::default().borders(Borders::ALL()))
}

fn render(table: &Table, widths: &[u16], state: &mut TableState) -> Buffer {
    let area = Rect { x: 0, y: 0, width: 30, height: 10 };
    let mut buf = Buffer::empty(area);
    table.draw(area, &mut buf, state, widths);
    buf
}

#[test]
fn table_draws_columns_with_their_spacing() {
    let mut state = TableState::default();
    assert_eq!(
        render(&sample_table().column_spacing(0), &[5, 5, 5], &mut state),
        Buffer::with_lines(vec![
            "┌────────────────────────────┐",
            "│Head1Head2Head3             │",
            "│                            │",
            "│Row11Row12Row13             │",
            "│Row21Row22Row23             │",
            "│Row31Row32Row33             │",
            "│Row41Row42Row43             │",
            "│                            │",
            "│                            │",
            "└────────────────────────────┘",
        ])
    );
    assert_eq!(
        render(&sample_table().column_spacing(6), &[5, 5, 5], &mut state),
        Buffer::with_lines(vec![
            "┌────────────────────────────┐",
            "│Head1      Head2      Head3 │",
            "│                            │",
            "│Row11      Row12      Row13 │",
            "│Row21      Row22      Row23 │",
            "│Row31      Row32      Row33 │",
            "│Row41      Row42      Row43 │",
            "│                            │",
            "│                            │",
            "└────────────────────────────┘",
        ])
    );
    assert_eq!(
        render(&sample_table().column_spacing(7), &[5, 5, 4], &mut state),
        Buffer::with_lines(vec![
            "┌────────────────────────────┐",
            "│Head1       Head2       Head│",
            "│                            │",
            "│Row11       Row12       Row1│",
            "│Row21       Row22       Row2│",
            "│Row31       Row32       Row3│",
            "│Row41       Row42       Row4│",
            "│                            │",
            "│                            │",
            "└────────────────────────────┘",
        ])
    );
}

#[test]
fn table_cuts_cells_to_their_columns() {
    let mut state = TableState::default();
    assert_eq!(
        render(&sample_table(), &[1, 1, 1], &mut state),
        Buffer::with_lines(vec![
            "┌────────────────────────────┐",
            "│H H H                       │",
            "│                            │",
            "│R R R                       │",
            "│R R R                       │",
            "│R R R                       │",
            "│R R R                       │",
            "│                            │",
            "│                            │",
            "└────────────────────────────┘",
        ])
    );
}

#[test]
fn table_highlights_the_selected_row_and_follows_it() {
    let table = sample_table().highlight_symbol(">> ").highlight_style(Style::default().fg(Color::Red));
    let area = Rect { x: 0, y: 0, width: 20, height: 5 };
    let mut buf = Buffer::empty(area);
    let mut state = TableState::default();
    state.select(Some(3));
    table.draw(area, &mut buf, &mut state, &[8, 5]);
    // The room below the header and the gap is one row: the selected one.
    assert_eq!(state.offset, 3);
    assert_eq!(state.selected(), Some(3));
    let mut expected = Buffer::with_lines(vec![
        "┌──────────────────┐",
        "│Head1    Head2    │",
        "│                  │",
        "│>> Row41 Row42    │",
        "└──────────────────┘",
    ]);
    for x in (1..=8).chain(10..=14) {
        expected.get_mut(x, 3).set_fg(Color::Red);
    }
    assert_eq!(buf, expected);

    // With nothing selected, the rows start again from the first, behind blanks.
    state.select(None);
    assert_eq!(state.offset, 0);
    let mut buf = Buffer::empty(area);
    table.draw(area, &mut buf, &mut state, &[8, 5]);
    assert_eq!(
        buf,
        Buffer::with_lines(vec![
            "┌──────────────────┐",
            "│Head1    Head2    │",
            "│                  │",
            "│   Row11 Row12    │",
            "└──────────────────┘",
        ])
    );
}

#[test]
fn table_keeps_offset_when_no_rows_fit() {
    let table = sample_table().header_gap(3);
    let area = Rect { x: 0, y: 0, width: 20, height: 5 };
    let mut buf = Buffer::empty(area);
    let mut state = TableState { offset: 2, selected: Some(0) };
    table.draw(area, &mut buf, &mut state, &[5]);
    assert_eq!(state.offset, 2);
    assert_eq!(buf.get(1, 1).symbol, "H");
    assert_eq!(buf.get(1, 3).symbol, " ");
}

#[test]
fn table_styled_rows_keep_their_style() {
    let table = Table::new(
        strings(&["A"]),
        vec![Row::StyledData(strings(&["x"]), Style::default().fg(Color::Green)), Row::Data(strings(&["y"]))],
    )
    .header_gap(0);
    let area = Rect { x: 0, y: 0, width: 3, height: 3 };
    let mut buf = Buffer::empty(area);
    let mut state = TableState::default();
    table.draw(area, &mut buf, &mut state, &[2]);
    assert_eq!(buf.get(0, 0).symbol, "A");
    assert_eq!(buf.get(0, 1).symbol, "x");
    assert_eq!(buf.get(0, 1).style.fg, Color::Green);
    assert_eq!(buf.get(0, 2).symbol, "y");
    assert_eq!(buf.get(0, 2).style.fg, Color::Reset);
}

#[test]
fn table_state_and_builders() {
    let mut state = TableState::default();
    assert_eq!(state.selected(), None);
    state.select(Some(2));
    assert_eq!(state.selected(), Some(2));
    let widths = [Constraint::Length(5), Constraint::Percentage(50)];
    let table = Table::default().widths(&widths).header_gap(2).column_spacing(3);
    assert_eq!(table.widths.len(), 2);
    assert_eq!(table.header_gap, 2);
    assert_eq!(table.column_spacing, 3);
    assert!(table.rows.is_empty());
}
