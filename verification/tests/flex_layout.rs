use itui::flex_layout::{FlexGrow, FlexLayout, FlexShrink, FlexSpace, LayoutOverflowError};
use itui::layout::{Direction, Rect};

#[test]
fn flex_layout_splits_into_equal_columns() {
    let layout = FlexLayout::new(Direction::Horizontal)
        .gap(FlexSpace::new(2))
        .margins(FlexSpace::new(2))
        .flex_spaces(vec![
            FlexSpace::new(0).growable(),
            FlexSpace::new(0).growable(),
            FlexSpace::new(0).growable(),
        ]);
    let screen_area = Rect { x: 0, y: 0, width: 100, height: 100 };
    // If the space cannot be distributed exactly, the first items get the leftover space.
    assert_eq!(
        layout.split(screen_area),
        vec![
            Rect { x: 2, y: 0, width: 31, height: 100 },
            Rect { x: 35, y: 0, width: 31, height: 100 },
            Rect { x: 68, y: 0, width: 30, height: 100 },
        ]
    );
    assert!(layout.try_split(screen_area).is_ok());
}

#[test]
fn flex_layout_keeps_ideal_sizes_that_fit_exactly() {
    let layout = FlexLayout::new(Direction::Vertical)
        .margin_start(FlexSpace::new(1))
        .flex_spaces(vec![FlexSpace::new(3), FlexSpace::new(6)]);
    let area = Rect { x: 4, y: 5, width: 7, height: 10 };
    assert_eq!(
        layout.try_split(area),
        Ok(vec![Rect { x: 4, y: 6, width: 7, height: 3 }, Rect { x: 4, y: 9, width: 7, height: 6 }])
    );
}

#[test]
fn flex_layout_shrinks_by_shares() {
    let layout = FlexLayout::new(Direction::Horizontal).flex_spaces(vec![
        FlexSpace::new(10).shrinkable(),
        FlexSpace::new(10).shrinkage(FlexShrink::new(3)),
    ]);
    let area = Rect { x: 0, y: 0, width: 16, height: 1 };
    assert_eq!(
        layout.try_split(area),
        Ok(vec![Rect { x: 0, y: 0, width: 9, height: 1 }, Rect { x: 9, y: 0, width: 7, height: 1 }])
    );
}

#[test]
fn flex_layout_respects_min_and_max_sizes() {
    let layout = FlexLayout::new(Direction::Vertical).flex_spaces(vec![
        FlexSpace::new(10).shrinkage(FlexShrink::new(1).min_size(8)),
        FlexSpace::new(10).shrinkable(),
    ]);
    assert_eq!(
        layout.split(Rect { x: 0, y: 0, width: 3, height: 12 }),
        vec![Rect { x: 0, y: 0, width: 3, height: 8 }, Rect { x: 0, y: 8, width: 3, height: 4 }]
    );

    let layout = FlexLayout::new(Direction::Horizontal).flex_spaces(vec![
        FlexSpace::new(0).growth(FlexGrow::new(1).max_size(5)),
        FlexSpace::new(0).growable(),
    ]);
    assert_eq!(
        layout.split(Rect { x: 1, y: 1, width: 20, height: 2 }),
        vec![Rect { x: 1, y: 1, width: 5, height: 2 }, Rect { x: 6, y: 1, width: 15, height: 2 }]
    );
}

#[test]
fn flex_layout_reports_overflow_and_cuts_off() {
    let layout = FlexLayout::new(Direction::Horizontal)
        .flex_spaces(vec![FlexSpace::new(10), FlexSpace::new(10)]);
    let area = Rect { x: 0, y: 0, width: 15, height: 1 };
    assert_eq!(
        layout.try_split(area),
        Err(LayoutOverflowError { min_size: 20, actual_size: 15, direction: Direction::Horizontal })
    );
    assert_eq!(
        layout.split(area),
        vec![Rect { x: 0, y: 0, width: 10, height: 1 }, Rect { x: 10, y: 0, width: 5, height: 1 }]
    );
}

#[test]
fn flex_layout_does_not_grow_rigid_spaces() {
    // Nothing can grow: the spaces keep their ideal sizes and no error is reported.
    let layout = FlexLayout::new(Direction::Horizontal).flex_spaces(vec![FlexSpace::new(2), FlexSpace::new(3)]);
    assert_eq!(
        layout.try_split(Rect { x: 0, y: 0, width: 10, height: 1 }),
        Ok(vec![Rect { x: 0, y: 0, width: 2, height: 1 }, Rect { x: 2, y: 0, width: 3, height: 1 }])
    );
}

#[test]
fn flex_layout_overflows_exactly_below_the_smallest_sizes() {
    let layout = FlexLayout::new(Direction::Horizontal).flex_spaces(vec![
        FlexSpace::new(10).shrinkage(FlexShrink::new(1).min_size(8)),
        FlexSpace::new(10).shrinkage(FlexShrink::new(1).min_size(9)),
    ]);
    // The smallest sizes add up to 17.
    assert_eq!(
        layout.try_split(Rect { x: 0, y: 0, width: 15, height: 1 }),
        Err(LayoutOverflowError { min_size: 17, actual_size: 15, direction: Direction::Horizontal })
    );
    assert_eq!(
        layout.try_split(Rect { x: 0, y: 0, width: 17, height: 1 }),
        Ok(vec![Rect { x: 0, y: 0, width: 8, height: 1 }, Rect { x: 8, y: 0, width: 9, height: 1 }])
    );
}
