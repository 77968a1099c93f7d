use monotile::geometry::{sat_add, sat_sub, Point, Rect, Size, AREA_LIMIT, GEO_LIMIT};

fn rect(x: i32, y: i32, w: i32, h: i32) -> Rect {
    Rect::new(Point::new(x, y), Size::new(w, h))
}

#[test]
fn saturating_sum_and_difference() {
    assert_eq!(sat_add(1, 2), 3);
    assert_eq!(sat_add(i32::MAX, 1), i32::MAX);
    assert_eq!(sat_add(i32::MIN, -1), i32::MIN);
    assert_eq!(sat_sub(5, 7), -2);
    assert_eq!(sat_sub(i32::MIN, 1), i32::MIN);
    assert_eq!(sat_sub(i32::MAX, -1), i32::MAX);
}

#[test]
fn point_difference_saturates() {
    assert_eq!(Point::new(10, 20).sub(Point::new(3, 30)), Point::new(7, -10));
    assert_eq!(
        Point::new(i32::MIN, i32::MAX).sub(Point::new(1, -1)),
        Point::new(i32::MIN, i32::MAX)
    );
}

#[test]
fn constructors() {
    assert_eq!(Rect::zero(), rect(0, 0, 0, 0));
    assert_eq!(Rect::from_size(Size::new(3, 4)), rect(0, 0, 3, 4));
}

#[test]
fn empty_extents() {
    assert!(Rect::zero().is_empty());
    assert!(rect(1, 2, 0, 5).is_empty());
    assert!(Size::new(5, 0).is_empty());
    assert!(!rect(0, 0, 1, 1).is_empty());
    assert!(!Size::new(-1, 3).is_empty());
}

#[test]
fn contains_point_is_half_open() {
    let r = rect(10, 20, 5, 5);
    assert!(r.contains(Point::new(10, 20)));
    assert!(r.contains(Point::new(14, 24)));
    assert!(!r.contains(Point::new(15, 20)));
    assert!(!r.contains(Point::new(10, 25)));
    assert!(!r.contains(Point::new(9, 20)));
}

#[test]
fn contains_rect_includes_itself() {
    let r = rect(0, 0, 10, 10);
    assert!(r.contains_rect(r));
    assert!(r.contains_rect(rect(2, 2, 8, 8)));
    assert!(!r.contains_rect(rect(2, 2, 9, 8)));
    assert!(!r.contains_rect(rect(-1, 0, 5, 5)));
}

#[test]
fn touching_rects_do_not_overlap() {
    let main = rect(10, 10, 10, 10);
    assert!(!main.overlaps(rect(10, 0, 10, 10)));
    assert!(!main.overlaps(rect(0, 10, 10, 10)));
    assert!(!main.overlaps(rect(20, 10, 10, 10)));
    assert!(main.overlaps(rect(19, 19, 10, 10)));
}

#[test]
fn intersection_of_overlapping() {
    let a = rect(0, 0, 10, 10);
    let b = rect(5, 6, 10, 10);
    assert_eq!(a.intersection(b), Some(rect(5, 6, 5, 4)));
    assert_eq!(b.intersection(a), Some(rect(5, 6, 5, 4)));
    assert_eq!(a.intersection(rect(10, 0, 5, 5)), None);
    assert_eq!(a.intersection(rect(2, 2, 3, 3)), Some(rect(2, 2, 3, 3)));
}

#[test]
fn intersection_saturates_at_the_far_edge() {
    let a = rect(i32::MAX - 10, 0, 100, 10);
    let b = rect(i32::MAX - 5, 0, 100, 10);
    assert_eq!(a.intersection(b), Some(rect(i32::MAX - 5, 0, 5, 10)));
}

#[test]
fn fits_decides_the_limits() {
    assert!(rect(0, 0, 1000, 800).fits(AREA_LIMIT));
    assert!(rect(-AREA_LIMIT, AREA_LIMIT, AREA_LIMIT, -AREA_LIMIT).fits(AREA_LIMIT));
    assert!(!rect(AREA_LIMIT + 1, 0, 1, 1).fits(AREA_LIMIT));
    assert!(rect(AREA_LIMIT + 1, 0, 1, 1).fits(GEO_LIMIT));
    assert!(!rect(0, 0, 1, GEO_LIMIT + 1).fits(GEO_LIMIT));
}
