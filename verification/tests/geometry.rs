use stroke_selection::geometry::{map_coord, Aabb, Vec2};

fn aabb(min_x: i64, min_y: i64, max_x: i64, max_y: i64) -> Aabb {
    Aabb::new(min_x, min_y, max_x, max_y)
}

#[test]
fn contains_borders_included() {
    let outer = aabb(0, 0, 10, 10);
    assert!(outer.contains(&aabb(0, 0, 10, 10)));
    assert!(outer.contains(&aabb(2, 3, 7, 9)));
    assert!(!outer.contains(&aabb(-1, 0, 10, 10)));
    assert!(!outer.contains(&aabb(0, 0, 11, 10)));
}

#[test]
fn intersects_borders_included() {
    let a = aabb(0, 0, 10, 10);
    assert!(a.intersects(&aabb(10, 10, 20, 20)));
    assert!(a.intersects(&aabb(5, 5, 7, 7)));
    assert!(!a.intersects(&aabb(11, 0, 20, 10)));
    assert!(!a.intersects(&aabb(0, 11, 10, 20)));
}

#[test]
fn merge_is_the_union_box() {
    let a = aabb(0, 5, 4, 9);
    let b = aabb(2, 1, 8, 6);
    assert_eq!(a.merge(&b), aabb(0, 1, 8, 9));
    assert_eq!(b.merge(&a), aabb(0, 1, 8, 9));
}

#[test]
fn translate_shifts_corners() {
    let a = aabb(1, 2, 3, 4);
    let moved = a.translate(Vec2::new(10, -20));
    assert_eq!(moved, aabb(11, -18, 13, -16));
}

#[test]
fn translate_negation_restores() {
    let a = aabb(-5, 0, 5, 10);
    let v = Vec2::new(17, 23);
    assert_eq!(a.translate(v).translate(v.neg()), a);
}

#[test]
fn map_coord_scales_exactly() {
    // [0, 4] onto [0, 8]: doubling.
    assert_eq!(map_coord(0, 0, 4, 0, 8), 0);
    assert_eq!(map_coord(1, 0, 4, 0, 8), 2);
    assert_eq!(map_coord(4, 0, 4, 0, 8), 8);
    // [0, 3] onto [0, 7]: endpoints exact, interior rounded down.
    assert_eq!(map_coord(0, 0, 3, 0, 7), 0);
    assert_eq!(map_coord(1, 0, 3, 0, 7), 2);
    assert_eq!(map_coord(3, 0, 3, 0, 7), 7);
    // Degenerate source axis: the coordinate only moves with the interval.
    assert_eq!(map_coord(5, 5, 5, 9, 12), 9);
}
