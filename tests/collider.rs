use platformer::collider::{BoxCollider, Vec2};

fn boxed(x: i64, y: i64, w: i64, h: i64) -> BoxCollider {
    BoxCollider::new(Vec2::new(x, y), Vec2::new(w, h))
}

#[test]
fn touching_edges_overlap() {
    let mut a = boxed(0, 0, 10, 10);
    let b = boxed(10, 0, 10, 10);
    assert!(a.CheckCollision(&b));
}

#[test]
fn gap_on_x_does_not_overlap() {
    let mut a = boxed(0, 0, 10, 10);
    let b = boxed(11, 0, 10, 10);
    assert!(!a.CheckCollision(&b));
}

#[test]
fn gap_on_y_does_not_overlap() {
    let mut a = boxed(0, 0, 10, 10);
    let b = boxed(3, -21, 10, 10);
    assert!(!a.CheckCollision(&b));
}

#[test]
fn overlap_is_symmetric() {
    let cases = [
        (boxed(0, 0, 10, 10), boxed(9, 9, 10, 10)),
        (boxed(0, 0, 3, 5), boxed(2, 4, 1, 3)),
        (boxed(-5, 7, 4, 4), boxed(5, 7, 4, 4)),
        (boxed(0, 0, 1, 1), boxed(1, 0, 1, 1)),
    ];
    for (a, b) in cases.iter() {
        let mut a1 = *a;
        let mut b1 = *b;
        assert_eq!(a1.CheckCollision(b), b1.CheckCollision(a));
    }
}

#[test]
fn same_center_overlaps() {
    let mut a = boxed(123, -456, 1, 1);
    let b = boxed(123, -456, 1000, 3);
    assert!(a.CheckCollision(&b));
}

#[test]
fn separated_beyond_half_extents() {
    // half-extents 2.5 and 1.5 sum to 4; centers 5 apart on y
    let mut a = boxed(0, 0, 5, 5);
    let b = boxed(0, 5, 3, 3);
    assert!(!a.CheckCollision(&b));
    // odd sizes: exactly touching at 4
    let c = boxed(0, 4, 3, 3);
    assert!(a.CheckCollision(&c));
}

#[test]
fn check_collision_keeps_box() {
    let mut a = boxed(1, 2, 3, 4);
    let b = boxed(100, 100, 1, 1);
    a.CheckCollision(&b);
    assert_eq!(a, boxed(1, 2, 3, 4));
}
