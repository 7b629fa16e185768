use wscb_atlas::geom::{Point, Rect, Size};

#[test]
fn contains_is_closed_on_top_left_open_on_bottom_right() {
    let r = Rect::new(10, 10, 5, 5);
    assert!(r.contains(Point::new(10, 10)));
    assert!(r.contains(Point::new(14, 14)));
    assert!(!r.contains(Point::new(15, 10)));
    assert!(!r.contains(Point::new(10, 15)));
    assert!(!r.contains(Point::new(9, 10)));
    assert!(!r.contains(Point::new(10, 9)));
}

#[test]
fn contains_zero_size_holds_nothing() {
    let r = Rect::new(3, 3, 0, 0);
    assert!(!r.contains(Point::new(3, 3)));
}

#[test]
fn size_outset_adds_padding_on_both_sides() {
    assert_eq!(Size::new(10, 20).outset(3), Size::new(16, 26));
    assert_eq!(Size::new(0, 0).outset(0), Size::new(0, 0));
}

#[test]
fn size_outset_saturates() {
    let s = Size::new(u32::MAX - 1, 2).outset(1);
    assert_eq!(s, Size::new(u32::MAX, 4));
}

#[test]
fn size_inset_saturates_at_zero() {
    assert_eq!(Size::new(10, 20).inset(3), Size::new(4, 14));
    assert_eq!(Size::new(5, 5).inset(3), Size::new(0, 0));
}

#[test]
fn size_area_and_saturation() {
    assert_eq!(Size::new(6, 7).area(), 42);
    assert_eq!(Size::new(u32::MAX, 2).area(), u32::MAX);
}

#[test]
fn size_max_dimension_is_per_axis() {
    assert_eq!(
        Size::new(10, 50).max_dimension(Size::new(20, 5)),
        Size::new(20, 50)
    );
}

#[test]
fn rect_inset_moves_edges_inward() {
    let r = Rect::new(10, 20, 8, 9).inset(2);
    assert_eq!(r, Rect::new(12, 22, 4, 5));
}
