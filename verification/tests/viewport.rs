use itui::layout::Rect;
use itui::viewport::{initial_viewport, inserted_area, resized_viewport, viewport_after_insert, ViewportVariant};

fn screen() -> Rect {
    Rect { x: 0, y: 0, width: 80, height: 24 }
}

#[test]
fn initial_viewports() {
    assert_eq!(initial_viewport(ViewportVariant::Fullscreen, screen(), (5, 20)), (screen(), (0, 0), 0));
    // An inline viewport starts on the cursor's row, moved up where the screen lacks rows.
    assert_eq!(
        initial_viewport(ViewportVariant::Inline(10), screen(), (5, 20)),
        (Rect { x: 0, y: 14, width: 80, height: 10 }, (5, 20), 9)
    );
    assert_eq!(
        initial_viewport(ViewportVariant::Inline(4), screen(), (5, 2)),
        (Rect { x: 0, y: 2, width: 80, height: 4 }, (5, 2), 3)
    );
    // It is never higher than the screen.
    assert_eq!(
        initial_viewport(ViewportVariant::Inline(30), screen(), (0, 3)),
        (Rect { x: 0, y: 0, width: 80, height: 24 }, (0, 3), 23)
    );
    let fixed = Rect { x: 2, y: 3, width: 10, height: 5 };
    assert_eq!(initial_viewport(ViewportVariant::Fixed(fixed), screen(), (7, 7)), (fixed, (2, 3), 0));
}

#[test]
fn resized_viewports() {
    let small = Rect { x: 0, y: 0, width: 40, height: 12 };
    assert_eq!(resized_viewport(ViewportVariant::Fullscreen, small, 3, 3, screen()), (small, 0));
    let fixed = Rect { x: 2, y: 3, width: 10, height: 5 };
    assert_eq!(resized_viewport(ViewportVariant::Fixed(fixed), small, 3, 3, fixed), (fixed, 0));
    assert_eq!(
        resized_viewport(ViewportVariant::Inline(10), screen(), 20, 15, Rect { x: 0, y: 14, width: 80, height: 10 }),
        (Rect { x: 0, y: 14, width: 80, height: 10 }, 8)
    );
}

#[test]
fn inserting_lines_above_an_inline_viewport() {
    let viewport = Rect { x: 0, y: 14, width: 80, height: 10 };
    let (area, lines) = inserted_area(3, screen(), viewport).unwrap();
    assert_eq!((area, lines), (Rect { x: 0, y: 14, width: 80, height: 3 }, 3));
    assert_eq!(viewport_after_insert(screen(), area, 10), Some(Rect { x: 0, y: 14, width: 80, height: 10 }));

    // At the bottom of the screen, the lines move up and the viewport stays on the screen.
    let viewport = Rect { x: 0, y: 20, width: 80, height: 4 };
    let (area, lines) = inserted_area(6, screen(), viewport).unwrap();
    assert_eq!((area, lines), (Rect { x: 0, y: 18, width: 80, height: 6 }, 6));
    let moved = viewport_after_insert(screen(), area, 4).unwrap();
    assert_eq!(moved, Rect { x: 0, y: 20, width: 80, height: 4 });
    assert!(moved.y + moved.height <= 24);

    // Never more lines than the screen is high.
    let (area, lines) = inserted_area(100, screen(), viewport).unwrap();
    assert_eq!((area.height, lines), (24, 24));
}

#[test]
fn inserting_lines_off_the_screen_is_refused() {
    assert_eq!(inserted_area(3, screen(), Rect { x: 0, y: 30, width: 80, height: 4 }), None);
    assert_eq!(viewport_after_insert(screen(), Rect { x: 0, y: 22, width: 80, height: 5 }, 4), None);
}
