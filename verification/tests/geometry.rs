use card_boundary::card;
use card_boundary::data::{Point, Rectangle};

fn rect(ax: usize, ay: usize, bx: usize, by: usize) -> Rectangle {
    Rectangle::new(Point { x: ax, y: ay }, Point { x: bx, y: by })
}

#[test]
fn card_test_get_corners() {
    let test_box = rect(2, 2, 38, 54);

    assert_eq!(card::get_corners(40, 56), test_box);
    // smallest edge used matches test_box
    assert_eq!(card::get_corners(49, 56), test_box);
    assert_eq!(card::get_corners(40, 59), test_box);
    // smallest edge used does not match test_box
    assert_ne!(card::get_corners(39, 56), test_box);
    assert_ne!(card::get_corners(40, 54), test_box);
}

#[test]
fn boundary_test_get_corners() {
    let test_box = rect(2, 2, 38, 54);

    assert_eq!(card_boundary::boundary::get_corners(40, 56), test_box);
    // smallest edge used matches test_box
    assert_eq!(card_boundary::boundary::get_corners(49, 56), test_box);
    assert_eq!(card_boundary::boundary::get_corners(40, 59), test_box);
    // smallest edge used does not match test_box
    assert_ne!(card_boundary::boundary::get_corners(39, 56), test_box);
    assert_ne!(card_boundary::boundary::get_corners(40, 54), test_box);
}

#[test]
fn test_contains() {
    let r = rect(5, 5, 10, 10);

    assert!(r.contains(&rect(6, 6, 9, 9)));
    assert!(!r.contains(&rect(4, 6, 9, 9)));
}

#[test]
fn test_contains_is_strict() {
    let r = rect(5, 5, 10, 10);

    // sharing any edge with the outer rectangle is not strict containment
    assert!(!r.contains(&rect(5, 5, 10, 10)));
    assert!(!r.contains(&rect(5, 6, 9, 9)));
    assert!(!r.contains(&rect(6, 6, 10, 9)));
}

#[test]
fn test_clamped_grow_stays_in_bound() {
    let bound = rect(0, 0, 100, 100);
    let r = rect(5, 5, 10, 10);

    // a growth amount far past the unclamped-safe range clips to the bound
    let grown = r.clamped_grow(usize::MAX, &bound);
    assert_eq!(grown, rect(0, 0, 99, 99));

    // a moderate growth moves each coordinate by exactly n
    assert_eq!(r.clamped_grow(3, &bound), rect(2, 2, 13, 13));

    // a bound away from the origin clips the top-left corner to it
    let bound2 = rect(4, 4, 100, 100);
    assert_eq!(r.clamped_grow(50, &bound2), rect(4, 4, 60, 60));
}

#[test]
fn test_clamped_shrink_stays_in_bound() {
    let bound = rect(0, 0, 100, 100);
    let r = rect(10, 10, 90, 90);

    assert_eq!(r.clamped_shrink(30, &bound), rect(40, 40, 60, 60));
    assert_eq!(rect(0, 0, 98, 98).clamped_shrink(40, &bound), rect(40, 40, 58, 58));
}

#[test]
fn test_grow_shrink_roundtrip() {
    let r = rect(10, 12, 30, 40);
    assert_eq!(r.grow(5).shrink(5), r);
    assert_eq!(r.width(), 20);
    assert_eq!(r.height(), 28);
    assert_eq!(r.x_range(), 10..30);
    assert_eq!(r.y_range(), 12..40);
    let corners = r.iter();
    assert_eq!(corners.len(), 2);
    assert_eq!(corners[0], Point { x: 10, y: 12 });
    assert_eq!(corners[1], Point { x: 30, y: 40 });
    assert_eq!(Rectangle::from_dimensions(7, 9), rect(0, 0, 7, 9));
    assert_eq!(r.top_left(), Point { x: 10, y: 12 });
    assert_eq!(r.bottom_right(), Point { x: 30, y: 40 });
}
