use itui::buffer::Buffer;
use itui::layout::{Constraint, Rect};
use itui::style::Style;
use itui::text::{Span, Spans};
use itui::widgets::chart::{ChartLayout, ChartOutline, GraphType};

fn outline(names: Vec<String>, constraints: (Constraint, Constraint)) -> ChartOutline<'static> {
    ChartOutline {
        block: None,
        style: Style::new(),
        x_axis_style: Style::new(),
        y_axis_style: Style::new(),
        dataset_styles: names.iter().map(|_| Style::new()).collect(),
        x_labels: None,
        y_labels: None,
        x_title: Some(Spans(vec![Span::raw("X axis")])),
        y_title: Some(Spans(vec![Span::raw("Y axis")])),
        dataset_names: names,
        hidden_legend_constraints: constraints,
    }
}

#[test]
fn it_should_hide_the_legend() {
    let cases = [
        (
            Rect::new(0, 0, 100, 100),
            (Constraint::Ratio(1, 4), Constraint::Ratio(1, 4)),
            Some(Rect::new(88, 0, 12, 12)),
        ),
        (Rect::new(0, 0, 100, 100), (Constraint::Ratio(1, 10), Constraint::Ratio(1, 4)), None),
    ];
    for (chart_area, constraints, legend_area) in cases {
        let names = (0..10).map(|i| format!("Dataset #{}", i)).collect::<Vec<_>>();
        let layout = outline(names, constraints).layout(chart_area);
        assert_eq!(layout.legend_area, legend_area);
    }
}

#[test]
fn chart_layout_places_labels_axes_and_graph() {
    let chart = ChartOutline {
        block: None,
        style: Style::new(),
        x_axis_style: Style::new(),
        y_axis_style: Style::new(),
        dataset_styles: vec![],
        x_labels: Some(vec![Span::raw("0"), Span::raw("10")]),
        y_labels: Some(vec![Span::raw("0"), Span::raw("100")]),
        x_title: None,
        y_title: None,
        dataset_names: vec![],
        hidden_legend_constraints: (Constraint::Ratio(1, 4), Constraint::Ratio(1, 4)),
    };
    let layout = chart.layout(Rect::new(0, 0, 20, 10));
    assert_eq!(
        layout,
        ChartLayout {
            title_x: None,
            title_y: None,
            label_x: Some(9),
            label_y: Some(0),
            axis_x: Some(8),
            axis_y: Some(3),
            legend_area: None,
            graph_area: Rect::new(4, 0, 16, 8),
        }
    );
}

#[test]
fn chart_layout_places_titles() {
    let names = vec!["ab".to_string()];
    let layout = outline(names, (Constraint::Ratio(1, 2), Constraint::Ratio(1, 2))).layout(Rect::new(2, 1, 20, 10));
    assert_eq!(layout.graph_area, Rect::new(2, 1, 20, 10));
    assert_eq!(layout.title_x, Some((16, 10)));
    assert_eq!(layout.title_y, Some((2, 1)));
    // Two cells wider than the name, two rows higher than one name, in the top right corner.
    assert_eq!(layout.legend_area, Some(Rect::new(18, 1, 4, 3)));
}

#[test]
fn chart_layout_of_an_empty_area_places_nothing() {
    let layout = outline(vec![], (Constraint::Ratio(1, 4), Constraint::Ratio(1, 4))).layout(Rect::new(3, 3, 0, 5));
    assert_eq!(layout, ChartLayout::default());
    assert_eq!(GraphType::default(), GraphType::Scatter);
}

fn labelled() -> ChartOutline<'static> {
    ChartOutline {
        block: None,
        style: Style::new(),
        x_axis_style: Style::new(),
        y_axis_style: Style::new(),
        dataset_styles: vec![],
        x_labels: Some(vec![Span::raw("0"), Span::raw("10")]),
        y_labels: Some(vec![Span::raw("0"), Span::raw("100")]),
        x_title: None,
        y_title: None,
        dataset_names: vec![],
        hidden_legend_constraints: (Constraint::Ratio(1, 4), Constraint::Ratio(1, 4)),
    }
}

#[test]
fn chart_frame_draws_labels_and_axes() {
    let area = Rect::new(0, 0, 20, 10);
    let mut buf = Buffer::empty(area);
    let graph = labelled().draw_frame(area, &mut buf);
    assert_eq!(graph, Some(Rect::new(4, 0, 16, 8)));
    let expected = Buffer::with_lines(vec![
        "100│                ",
        "   │                ",
        "   │                ",
        "   │                ",
        "   │                ",
        "   │                ",
        "   │                ",
        "0  │                ",
        "   └────────────────",
        "   0             10 ",
    ]);
    assert_eq!(buf, expected);
}

#[test]
fn chart_frame_of_an_empty_area_draws_nothing() {
    let mut buf = Buffer::empty(Rect::new(0, 0, 5, 5));
    let graph = labelled().draw_frame(Rect::new(0, 0, 0, 5), &mut buf);
    assert_eq!(graph, None);
    assert_eq!(buf, Buffer::empty(Rect::new(0, 0, 5, 5)));
}

#[test]
fn chart_overlay_draws_legend_and_titles() {
    let chart = outline(vec!["ab".to_string()], (Constraint::Ratio(1, 2), Constraint::Ratio(1, 2)));
    let area = Rect::new(2, 1, 20, 10);
    let mut buf = Buffer::empty(Rect::new(0, 0, 22, 11));
    chart.draw_overlay(area, &mut buf);
    let expected = Buffer::with_lines(vec![
        "                      ",
        "  Y axis          ┌──┐",
        "                  │ab│",
        "                  └──┘",
        "                      ",
        "                      ",
        "                      ",
        "                      ",
        "                      ",
        "                      ",
        "                X axis",
    ]);
    assert_eq!(buf, expected);
}
