use card_boundary::card;
use card_boundary::data::Rectangle;
use card_boundary::edge::CannyBuilder;
use card_boundary::frame::{Frame, Rgba};

fn white() -> Rgba {
    Rgba { r: 255, g: 255, b: 255, a: 255 }
}

fn edge() -> Rgba {
    Rgba { r: 0, g: 0, b: 0, a: 254 }
}

fn blank_frame(width: usize, height: usize, fill: Rgba) -> Frame {
    let mut data = Vec::with_capacity(width * height * 4);
    for _ in 0..width * height {
        data.push(fill.r);
        data.push(fill.g);
        data.push(fill.b);
        data.push(fill.a);
    }
    Frame::from_rgba_bytes(width, height, data)
}

/// A white frame with the ideal card outline drawn in the edge colour.
fn outlined_frame(width: usize, height: usize) -> (Frame, Rectangle) {
    let mut frame = blank_frame(width, height, white());
    let boundary = card::get_corners(width, height);
    boundary.draw(&mut frame, edge());
    (frame, boundary)
}

fn erase_row(frame: &mut Frame, y: usize, x0: usize, x1: usize) {
    for x in x0..x1 {
        frame.put_pixel(x, y, white());
    }
}

#[test]
fn test_supports_default_config() {
    assert!(card::supports_default_config(100, 140));
    assert!(card::supports_default_config(640, 480));
    assert!(!card::supports_default_config(10, 10));
    assert!(!card::supports_default_config(1, 500));
}

#[test]
fn test_detect_centered_outline() {
    // a correctly aligned card-shaped outline: the card is reported present
    let (mut frame, _) = outlined_frame(100, 140);
    let mut detector = card::Detector::builder().build(100, 140);

    assert!(detector.detect(&mut frame));
}

#[test]
fn test_detect_tolerates_one_missing_side() {
    // the same frame with the full top side erased still passes 3 of 4
    let (mut frame, boundary) = outlined_frame(100, 140);
    let tl = boundary.top_left();
    let br = boundary.bottom_right();
    erase_row(&mut frame, tl.y, tl.x, br.x);
    let mut detector = card::Detector::builder().build(100, 140);

    assert!(detector.detect(&mut frame));
}

#[test]
fn test_detect_rejects_two_missing_sides() {
    let (mut frame, boundary) = outlined_frame(100, 140);
    let tl = boundary.top_left();
    let br = boundary.bottom_right();
    erase_row(&mut frame, tl.y, tl.x, br.x);
    erase_row(&mut frame, br.y, tl.x, br.x);
    let mut detector = card::Detector::builder().build(100, 140);

    assert!(!detector.detect(&mut frame));
}

fn count_colour(frame: &Frame, colour: Rgba) -> usize {
    let mut n = 0;
    for y in 0..frame.height() {
        for x in 0..frame.width() {
            if frame.get_pixel(x, y) == colour {
                n += 1;
            }
        }
    }
    n
}

#[test]
fn test_detect_accumulates_edges() {
    // repeated detection on the same engine and frame is not idempotent by
    // design: edge markings accumulate across calls
    let mut frame = blank_frame(30, 30, white());
    for y in 5..25 {
        frame.put_pixel(15, y, Rgba { r: 50, g: 0, b: 0, a: 255 });
    }
    let line = Rgba { r: 0, g: 0, b: 0, a: 255 };
    let mut canny = CannyBuilder::new(30, 30).line_colour(line).build();

    canny.detect(&mut frame);
    let first = count_colour(&frame, line);
    assert!(first > 0);
    let mut marked = Vec::new();
    for y in 0..30 {
        for x in 0..30 {
            if frame.get_pixel(x, y) == line {
                marked.push((x, y));
            }
        }
    }

    canny.detect(&mut frame);
    let second = count_colour(&frame, line);
    // everything marked by the first call is still marked
    for &(x, y) in &marked {
        assert_eq!(frame.get_pixel(x, y), line);
    }
    // and the second pass marked strictly more pixels
    assert!(second > first);
}

#[test]
fn test_detect_reads_luminance_not_channels() {
    // two colours with very different channels but the same 8-bit luminance:
    // (84, 0, 0) and (0, 25, 0) both have luminance 17, so the frame is flat
    // to the detector and no edge may be marked anywhere
    let mut frame = blank_frame(24, 24, Rgba { r: 84, g: 0, b: 0, a: 255 });
    for y in 0..24 {
        for x in 12..24 {
            frame.put_pixel(x, y, Rgba { r: 0, g: 25, b: 0, a: 255 });
        }
    }
    let line = Rgba { r: 1, g: 2, b: 3, a: 255 };
    let mut canny = CannyBuilder::new(24, 24).line_colour(line).build();

    canny.detect(&mut frame);
    assert_eq!(count_colour(&frame, line), 0);
}

#[test]
fn test_detect_marks_step_edge() {
    // a hard step between dark and bright halves is marked along the step
    let mut frame = blank_frame(20, 20, Rgba { r: 10, g: 10, b: 10, a: 255 });
    for y in 0..20 {
        for x in 10..20 {
            frame.put_pixel(x, y, white());
        }
    }
    let line = Rgba { r: 0, g: 0, b: 0, a: 255 };
    let mut canny = CannyBuilder::new(20, 20).line_colour(line).build();

    canny.detect(&mut frame);
    assert!(count_colour(&frame, line) > 0);
}

#[test]
fn test_frame_from_raw() {
    assert!(Frame::from_raw(2, 2, vec![0u8; 16]).is_some());
    assert!(Frame::from_raw(2, 2, vec![0u8; 15]).is_none());
    assert!(Frame::from_raw(2, 2, vec![0u8; 17]).is_none());
}

#[test]
fn test_frame_pixels_roundtrip() {
    let mut frame = blank_frame(3, 2, white());
    frame.put_pixel(2, 1, Rgba { r: 9, g: 8, b: 7, a: 6 });
    assert_eq!(frame.get_pixel(2, 1), Rgba { r: 9, g: 8, b: 7, a: 6 });
    assert_eq!(frame.get_pixel(0, 0), white());
    let raw = frame.into_raw();
    assert_eq!(raw.len(), 24);
    assert_eq!(&raw[20..24], &[9, 8, 7, 6]);
}

#[test]
fn test_top_level_detector() {
    let (frame, _) = outlined_frame(100, 140);
    let input = frame.into_raw();
    let input_len = input.len();
    let mut detector = card_boundary::Detector::new(100, 140);
    assert!(!detector.boundary_match());

    let output = detector.detect(input);

    assert!(detector.boundary_match());
    assert_eq!(output.len(), input_len);
}

#[test]
fn test_detector_dimensions() {
    let detector = card_boundary::card::Detector::builder()
        .card_edge_width(0)
        .detection_window_width(20)
        .build(120, 168);
    assert_eq!(detector.width(), 120);
    assert_eq!(detector.height(), 168);
}

#[test]
fn test_boundary_detect_full_outline() {
    // the whole-perimeter scorer: a fully drawn outline scores above 90%
    let line = Rgba { r: 0, g: 0, b: 0, a: 255 };
    let mut frame = blank_frame(100, 140, white());
    let boundary = card_boundary::boundary::get_corners(100, 140);
    boundary.draw(&mut frame, line);

    assert!(card_boundary::boundary::detect(&mut frame, line));
}

#[test]
fn test_boundary_detect_missing_side_fails() {
    // one whole missing side drops the pooled score under 90%
    let line = Rgba { r: 0, g: 0, b: 0, a: 255 };
    let mut frame = blank_frame(100, 140, white());
    let boundary = card_boundary::boundary::get_corners(100, 140);
    boundary.draw(&mut frame, line);
    let tl = boundary.top_left();
    let br = boundary.bottom_right();
    erase_row(&mut frame, tl.y, tl.x, br.x);

    assert!(!card_boundary::boundary::detect(&mut frame, line));
}
