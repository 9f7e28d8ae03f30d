use card_boundary::data::{Point, Rectangle};
use card_boundary::edge::{PointIter, RectangleInRectangleWindow, RectangleWindow, Window};

fn rect(ax: usize, ay: usize, bx: usize, by: usize) -> Rectangle {
    Rectangle::new(Point { x: ax, y: ay }, Point { x: bx, y: by })
}

fn collect<I: PointIter>(mut it: I) -> Vec<Point> {
    let mut points = Vec::new();
    while let Some(p) = it.next() {
        points.push(p);
    }
    points
}

#[test]
fn test_rect_window() {
    let window = RectangleWindow::new(rect(0, 0, 10, 10));
    let points = collect(window.gradient());

    assert_eq!(points.len(), 100);
    assert_eq!(points.iter().map(|&p| p.x).max(), Some(9));
    assert_eq!(points.iter().map(|&p| p.y).max(), Some(9));
}

#[test]
fn test_rect_in_rect_window() {
    let window = RectangleInRectangleWindow::new(rect(0, 0, 10, 10), rect(2, 2, 6, 6));
    let points = collect(window.gradient());

    assert_eq!(points.len(), 84);
}

#[test]
fn test_rect_window_process_is_inset() {
    let window = RectangleWindow::new(rect(0, 0, 10, 10));
    let points = collect(window.process());

    assert_eq!(points.len(), 64);
    assert_eq!(points.iter().map(|&p| p.x).min(), Some(1));
    assert_eq!(points.iter().map(|&p| p.y).min(), Some(1));
    assert_eq!(points.iter().map(|&p| p.x).max(), Some(8));
    assert_eq!(points.iter().map(|&p| p.y).max(), Some(8));
}

#[test]
fn test_frame_window_count_matches_areas() {
    // outer area minus inner area, exactly
    let window = RectangleInRectangleWindow::new(rect(1, 1, 11, 21), rect(3, 4, 7, 9));
    let points = collect(window.gradient());
    assert_eq!(points.len(), 10 * 20 - 4 * 5);

    // the sequence is restartable: a second iteration yields the same points
    let again = collect(window.gradient());
    assert_eq!(points, again);

    // no yielded point lies inside the inner rectangle, all lie in the outer
    for p in &points {
        assert!(p.x >= 1 && p.x < 11 && p.y >= 1 && p.y < 21);
        assert!(!(p.x >= 3 && p.x < 7 && p.y >= 4 && p.y < 9));
    }
}

#[test]
fn test_frame_window_process_ring() {
    let window = RectangleInRectangleWindow::new(rect(0, 0, 20, 20), rect(6, 6, 12, 12));
    let points = collect(window.process());

    // outer inset by one, inner grown by one
    assert_eq!(points.len(), 18 * 18 - 8 * 8);
    assert_eq!(window.outer(), rect(0, 0, 20, 20));
    assert_eq!(window.inner(), rect(6, 6, 12, 12));
}
