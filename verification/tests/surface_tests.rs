use goofy_os::surface::Rect;

#[test]
fn rect_intersects_overlapping() {
    let a = Rect::new(0, 0, 10, 10);
    let b = Rect::new(5, 5, 10, 10);
    assert!(a.intersects(&b));
    assert!(b.intersects(&a));
}

#[test]
fn rect_union_covers_both() {
    let a = Rect::new(0, 0, 10, 10);
    let b = Rect::new(20, 30, 5, 5);
    let u = a.union(&b);
    assert_eq!((u.x, u.y, u.width, u.height), (0, 0, 25, 35));
}
