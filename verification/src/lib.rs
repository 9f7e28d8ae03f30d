//! Deciding whether a card-shaped rectangular outline sits inside a
//! pre-computed target region of an RGBA frame.
//!
//! The crate builds up from axis-aligned rectangle geometry (`data`), through
//! detection windows and a windowed Canny edge engine (`edge`), to the
//! boundary scorer (`card`) that votes on whether a card of 5:7 aspect ratio
//! is correctly positioned in a frame.
use vstd::prelude::*;

pub mod boundary;
pub mod card;
pub mod data;
pub mod edge;
pub mod frame;

verus! {

use crate::frame::{Frame, Rgba};

/// Preallocated card detector for one frame size, with its most recent
/// presence decision.
pub struct Detector {
    detector: card::Detector,
    boundary_match: bool,
}

impl Detector {
    pub closed spec fn wf(self) -> bool {
        self.detector.wf()
    }

    pub closed spec fn spec_width(self) -> usize {
        self.detector.spec_width()
    }

    pub closed spec fn spec_height(self) -> usize {
        self.detector.spec_height()
    }

    pub closed spec fn spec_boundary_match(self) -> bool {
        self.boundary_match
    }

    pub closed spec fn spec_detector(self) -> card::Detector {
        self.detector
    }

    /// Create a new detector of a given size, with the default thresholds:
    /// card edge draw width 3, detection window width 20, hysteresis
    /// thresholds 150 and 200.
    pub fn new(width: u32, height: u32) -> (r: Detector)
        requires
            card::detector_config_ok(width as int, height as int, 3, 20, 150),
        ensures
            r.wf(),
            r.spec_width() == width,
            r.spec_height() == height,
            !r.spec_boundary_match(),
    {
        let detector = card::Detector::builder().card_edge_width(3).detection_window_width(
            20,
        ).low_threshold(150).high_threshold(200).build(width as usize, height as usize);
        Detector { detector, boundary_match: false }
    }

    /// Has a box been seen by the most recent `detect` call?
    pub fn boundary_match(&self) -> (r: bool)
        ensures
            r == self.spec_boundary_match(),
    {
        self.boundary_match
    }

    /// Run card detection on a raw RGBA byte buffer, returning the annotated
    /// buffer and recording the presence decision.
    pub fn detect(&mut self, input: Vec<u8>) -> (r: Vec<u8>)
        requires
            old(self).wf(),
            input.len() == old(self).spec_width() * old(self).spec_height() * 4,
        ensures
            final (self).wf(),
            final (self).spec_width() == old(self).spec_width(),
            final (self).spec_height() == old(self).spec_height(),
            r.len() == input.len(),
            exists|img0: Frame, img1: Frame, f1: Frame|
                {
                    &&& img0.wf()
                    &&& img0.spec_width() == old(self).spec_width()
                    &&& img0.spec_height() == old(self).spec_height()
                    &&& forall|x: int, y: int|
                        0 <= x < img0.spec_width() && 0 <= y < img0.spec_height()
                            ==> #[trigger] img0.pixel(x, y) == (Rgba {
                            r: input@[4 * (y * img0.spec_width() + x)],
                            g: input@[4 * (y * img0.spec_width() + x) + 1],
                            b: input@[4 * (y * img0.spec_width() + x) + 2],
                            a: input@[4 * (y * img0.spec_width() + x) + 3],
                        })
                    &&& #[trigger] card::detect_post(
                        old(self).spec_detector(),
                        img0,
                        img1,
                        f1,
                        final (self).spec_boundary_match(),
                    )
                    &&& forall|x: int, y: int|
                        0 <= x < img0.spec_width() && 0 <= y < img0.spec_height() ==> r@[4 * (y
                            * img0.spec_width() + x)] == (#[trigger] img1.pixel(x, y)).r && r@[4 * (
                        y * img0.spec_width() + x) + 1] == img1.pixel(x, y).g && r@[4 * (y
                            * img0.spec_width() + x) + 2] == img1.pixel(x, y).b && r@[4 * (y
                            * img0.spec_width() + x) + 3] == img1.pixel(x, y).a
                },
    {
        let width = self.detector.width();
        let height = self.detector.height();
        let mut frame = Frame::from_rgba_bytes(width, height, input);
        let ghost img0 = frame;
        self.boundary_match = self.detector.detect(&mut frame);
        let ghost img1 = frame;
        let out = frame.into_raw();
        proof {
            let f1 = choose|f1: Frame|
                #[trigger] card::detect_post(
                    old(self).spec_detector(),
                    img0,
                    img1,
                    f1,
                    self.boundary_match,
                );
            assert(card::detect_post(
                old(self).spec_detector(),
                img0,
                img1,
                f1,
                self.spec_boundary_match(),
            ));
            assert(forall|x: int, y: int|
                0 <= x < img0.spec_width() && 0 <= y < img0.spec_height()
                    ==> #[trigger] img0.pixel(x, y) == (Rgba {
                    r: input@[4 * (y * img0.spec_width() + x)],
                    g: input@[4 * (y * img0.spec_width() + x) + 1],
                    b: input@[4 * (y * img0.spec_width() + x) + 2],
                    a: input@[4 * (y * img0.spec_width() + x) + 3],
                }));
            assert(forall|x: int, y: int|
                0 <= x < img0.spec_width() && 0 <= y < img0.spec_height() ==> out@[4 * (y
                    * img0.spec_width() + x)] == (#[trigger] img1.pixel(x, y)).r && out@[4 * (y
                    * img0.spec_width() + x) + 1] == img1.pixel(x, y).g && out@[4 * (y
                    * img0.spec_width() + x) + 2] == img1.pixel(x, y).b && out@[4 * (y
                    * img0.spec_width() + x) + 3] == img1.pixel(x, y).a);
        }
        out
    }
}

} // verus!
