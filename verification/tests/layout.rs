use itui::layout::{Constraint, Margin, Rect};

#[test]
fn test_rect_size_truncation() {
    for width in 256u16..300u16 {
        for height in 256u16..300u16 {
            let rect = Rect::new(0, 0, width, height);
            rect.area(); // Should not panic.
            assert!(rect.width < width || rect.height < height);
            // The target dimensions are rounded down so the math will not be too precise
            // but let's make sure the ratios don't diverge crazily.
            assert!(
                (f64::from(rect.width) / f64::from(rect.height)
                    - f64::from(width) / f64::from(height))
                .abs()
                    < 1.0
            )
        }
    }

    // One dimension below 255, one above. Area above max u16.
    let width = 900;
    let height = 100;
    let rect = Rect::new(0, 0, width, height);
    assert_ne!(rect.width, 900);
    assert_ne!(rect.height, 100);
    assert!(rect.width < width || rect.height < height);
}

#[test]
fn test_rect_size_preservation() {
    for width in 0..256u16 {
        for height in 0..256u16 {
            let rect = Rect::new(0, 0, width, height);
            rect.area(); // Should not panic.
            assert_eq!(rect.width, width);
            assert_eq!(rect.height, height);
        }
    }

    // One dimension below 255, one above. Area below max u16.
    let rect = Rect::new(0, 0, 300, 100);
    assert_eq!(rect.width, 300);
    assert_eq!(rect.height, 100);
}

#[test]
fn rect_union_and_intersection() {
    let a = Rect::new(0, 0, 4, 4);
    let b = Rect::new(2, 3, 4, 4);
    assert_eq!(a.union(b), Rect { x: 0, y: 0, width: 6, height: 7 });
    assert_eq!(b.union(a), a.union(b));
    assert!(a.intersects(b));
    assert_eq!(a.intersection(b), Rect { x: 2, y: 3, width: 2, height: 1 });
    let c = Rect::new(4, 0, 2, 2);
    assert!(!a.intersects(c));
    assert_eq!(a.intersection(c).area(), 0);
}

#[test]
fn rect_inner_takes_the_margin_off_each_side() {
    let r = Rect::new(1, 2, 10, 6);
    assert_eq!(r.inner(&Margin { vertical: 1, horizontal: 2 }), Rect { x: 3, y: 3, width: 6, height: 4 });
    assert_eq!(r.inner(&Margin { vertical: 4, horizontal: 0 }), Rect { x: 0, y: 0, width: 0, height: 0 });
    assert_eq!(r.left(), 1);
    assert_eq!(r.right(), 11);
    assert_eq!(r.top(), 2);
    assert_eq!(r.bottom(), 8);
}

#[test]
fn rect_new_keeps_the_aspect_ratio_when_it_shrinks() {
    let rect = Rect::new(0, 0, 900, 100);
    assert_eq!(rect, Rect { x: 0, y: 0, width: 767, height: 85 });
    assert!(u32::from(rect.width) * u32::from(rect.height) <= 65535);
}

#[test]
fn constraint_apply() {
    assert_eq!(Constraint::Percentage(50).apply(11), 5);
    assert_eq!(Constraint::Ratio(1, 3).apply(9), 3);
    assert_eq!(Constraint::Length(20).apply(10), 10);
    assert_eq!(Constraint::Max(4).apply(10), 4);
    assert_eq!(Constraint::Min(4).apply(2), 4);
}
