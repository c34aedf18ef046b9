use itui::style::{Color, Modifier, Style};

#[test]
fn modifier_union_keeps_both_and_difference_drops_the_other() {
    let a = Modifier::BOLD().union(Modifier::ITALIC());
    let b = Modifier::ITALIC().union(Modifier::REVERSED());
    let u = a.union(b);
    assert!(u.contains(a) && u.contains(b));
    let d = u.difference(b);
    assert!(!d.intersects(b));
    assert_eq!(d, a.difference(b));
    assert_eq!(d, Modifier::BOLD());
    assert!(Modifier::all().contains(u));
    assert!(Modifier::empty().is_empty());

    let mut m = Modifier::DIM();
    m.insert(Modifier::HIDDEN());
    assert!(m.contains(Modifier::HIDDEN()));
    m.remove(Modifier::DIM());
    assert_eq!(m, Modifier::HIDDEN());
}

#[test]
fn style_builders_and_reset() {
    let mut s = Style::default().fg(Color::Red).bg(Color::Blue).modifier(Modifier::BOLD());
    assert_eq!(s.fg, Color::Red);
    assert_eq!(s.bg, Color::Blue);
    assert_eq!(s.modifier, Modifier::BOLD());
    s.reset();
    assert_eq!(s, Style::new());
    assert_eq!(Style::new(), Style::default());
}
