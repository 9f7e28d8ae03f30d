//! Scoring a pre-computed ideal boundary directly against an edge-marked
//! frame, over the whole perimeter at once.
//!
//! Unlike the per-side voting of the card detector, this scorer pools the
//! hits of all four boundary lines into one fraction of the perimeter.
use vstd::prelude::*;

verus! {

use crate::card::{
    column_has_edge, count_cols, count_hits, count_rows, draw_col_strips, draw_row_strips,
    hit_colour, lemma_count_cols_flags, lemma_count_rows_flags, miss_colour, row_has_edge,
    scan_columns, scan_rows, spec_corners,
};
use crate::data::Rectangle;
use crate::frame::{Frame, Rgba};

/// Get the corners of the ideal card boundary for a frame.
pub fn get_corners(width: u32, height: u32) -> (r: Rectangle)
    requires
        2 <= width,
        2 <= height,
    ensures
        r == spec_corners(width as int, height as int),
        r.wf(),
{
    crate::card::get_corners(width as usize, height as usize)
}

/// The lower edge of a perpendicular band of half-width `bw` around line `v`,
/// clamped to the frame.
pub open spec fn band_lo(v: int, bw: int) -> int {
    if bw > v {
        0
    } else {
        v - bw
    }
}

/// The upper exclusive edge of a perpendicular band of half-width `bw`
/// around line `v`, clamped to the frame size `n`.
pub open spec fn band_hi(v: int, bw: int, n: int) -> int {
    if v + bw > n {
        n
    } else {
        v + bw
    }
}

/// The total number of boundary samples with an edge pixel in their band:
/// one sample per column of the two horizontal boundary lines, one per
/// interior row of the two vertical boundary lines.
pub open spec fn perimeter_hits(f: Frame, rect: Rectangle, line: Rgba) -> int {
    let w = f.spec_width();
    let h = f.spec_height();
    let bwh = (w + 19) / 20;
    let bwv = (h + 19) / 20;
    count_cols(
        f,
        rect.top_left.x as int,
        rect.bottom_right.x as int,
        band_lo(rect.top_left.y as int, bwh),
        band_hi(rect.top_left.y as int, bwh, h),
        line,
    ) + count_cols(
        f,
        rect.top_left.x as int,
        rect.bottom_right.x as int,
        band_lo(rect.bottom_right.y as int, bwh),
        band_hi(rect.bottom_right.y as int, bwh, h),
        line,
    ) + count_rows(
        f,
        rect.top_left.y + 1,
        rect.bottom_right.y - 1,
        band_lo(rect.top_left.x as int, bwv),
        band_hi(rect.top_left.x as int, bwv, w),
        line,
    ) + count_rows(
        f,
        rect.top_left.y + 1,
        rect.bottom_right.y - 1,
        band_lo(rect.bottom_right.x as int, bwv),
        band_hi(rect.bottom_right.x as int, bwv, w),
        line,
    )
}

/// The boundary is considered matched when the sampled hits exceed 90% of
/// the boundary's perimeter.
pub open spec fn spec_boundary_decision(f: Frame, rect: Rectangle, line: Rgba) -> bool {
    10 * perimeter_hits(f, rect, line) > 9 * (2 * rect.spec_width() + 2 * rect.spec_height())
}

/// The colour of pixel `(x, y)` after the diagnostics of `detect` are drawn
/// over `f`: the two horizontal boundary lines and the interior parts of the
/// two vertical ones carry the hit or miss colour of their sample, every
/// other pixel is untouched.  The four painted lines are disjoint.
pub open spec fn boundary_overlay_pixel(f: Frame, rect: Rectangle, line: Rgba, x: int, y: int) -> Rgba {
    let w = f.spec_width();
    let h = f.spec_height();
    let bwh = (w + 19) / 20;
    let bwv = (h + 19) / 20;
    if y == rect.top_left.y && rect.top_left.x <= x < rect.bottom_right.x {
        if column_has_edge(f, x, band_lo(y, bwh), band_hi(y, bwh, h), line) {
            hit_colour()
        } else {
            miss_colour()
        }
    } else if y == rect.bottom_right.y && rect.top_left.x <= x < rect.bottom_right.x {
        if column_has_edge(f, x, band_lo(y, bwh), band_hi(y, bwh, h), line) {
            hit_colour()
        } else {
            miss_colour()
        }
    } else if x == rect.top_left.x && rect.top_left.y + 1 <= y < rect.bottom_right.y - 1 {
        if row_has_edge(f, y, band_lo(x, bwv), band_hi(x, bwv, w), line) {
            hit_colour()
        } else {
            miss_colour()
        }
    } else if x == rect.bottom_right.x && rect.top_left.y + 1 <= y < rect.bottom_right.y - 1 {
        if row_has_edge(f, y, band_lo(x, bwv), band_hi(x, bwv, w), line) {
            hit_colour()
        } else {
            miss_colour()
        }
    } else {
        f.pixel(x, y)
    }
}

/// Score the ideal boundary of `buffer` against the pixels already carrying
/// `line_colour`: sample every column of the two horizontal boundary lines
/// and every interior row of the two vertical ones, each against a
/// perpendicular band 5% of the frame wide, paint each sample with the hit
/// or miss colour, and report whether the hits exceed 90% of the perimeter.
/// All samples are taken from the frame as it was handed in.
#[verifier::rlimit(100)]
pub fn detect(buffer: &mut Frame, line_colour: Rgba) -> (r: bool)
    requires
        old(buffer).wf(),
        2 <= old(buffer).spec_width() <= u32::MAX,
        2 <= old(buffer).spec_height() <= u32::MAX,
        spec_corners(old(buffer).spec_width(), old(buffer).spec_height()).bottom_right.x < old(
            buffer,
        ).spec_width(),
        spec_corners(old(buffer).spec_width(), old(buffer).spec_height()).bottom_right.y < old(
            buffer,
        ).spec_height(),
        spec_corners(old(buffer).spec_width(), old(buffer).spec_height()).spec_width() > 2,
        spec_corners(old(buffer).spec_width(), old(buffer).spec_height()).spec_height() > 2,
    ensures
        final (buffer).wf(),
        final (buffer).spec_width() == old(buffer).spec_width(),
        final (buffer).spec_height() == old(buffer).spec_height(),
        r == spec_boundary_decision(
            *old(buffer),
            spec_corners(old(buffer).spec_width(), old(buffer).spec_height()),
            line_colour,
        ),
        forall|x: int, y: int|
            0 <= x < old(buffer).spec_width() && 0 <= y < old(buffer).spec_height()
                ==> #[trigger] final (buffer).pixel(x, y) == boundary_overlay_pixel(
                *old(buffer),
                spec_corners(old(buffer).spec_width(), old(buffer).spec_height()),
                line_colour,
                x,
                y,
            ),
{
    let ghost f0 = *buffer;
    let width = buffer.width();
    let height = buffer.height();
    let rectangle = crate::card::get_corners(width, height);
    let ghost rect = rectangle;
    let bwh = ((width as u64 + 19) / 20) as usize;
    let bwv = ((height as u64 + 19) / 20) as usize;
    proof {
        assert(bwh == (old(buffer).spec_width() + 19) / 20);
        assert(bwv == (old(buffer).spec_height() + 19) / 20);
    }
    let tl = rectangle.top_left();
    let br = rectangle.bottom_right();

    let top_lo = if bwh > tl.y {
        0
    } else {
        tl.y - bwh
    };
    let top_hi = if tl.y + bwh > height {
        height
    } else {
        tl.y + bwh
    };
    let bot_lo = if bwh > br.y {
        0
    } else {
        br.y - bwh
    };
    let bot_hi = if (br.y as u64) + (bwh as u64) > (height as u64) {
        height
    } else {
        br.y + bwh
    };
    let left_lo = if bwv > tl.x {
        0
    } else {
        tl.x - bwv
    };
    let left_hi = if (tl.x as u64) + (bwv as u64) > (width as u64) {
        width
    } else {
        tl.x + bwv
    };
    let right_lo = if bwv > br.x {
        0
    } else {
        br.x - bwv
    };
    let right_hi = if (br.x as u64) + (bwv as u64) > (width as u64) {
        width
    } else {
        br.x + bwv
    };

    let flags_top = scan_columns(buffer, tl.x, br.x, top_lo, top_hi, line_colour);
    let flags_bottom = scan_columns(buffer, tl.x, br.x, bot_lo, bot_hi, line_colour);
    let flags_left = scan_rows(buffer, tl.y + 1, br.y - 1, left_lo, left_hi, line_colour);
    let flags_right = scan_rows(buffer, tl.y + 1, br.y - 1, right_lo, right_hi, line_colour);
    let hits: u64 = count_hits(&flags_top) as u64 + count_hits(&flags_bottom) as u64 + count_hits(
        &flags_left,
    ) as u64 + count_hits(&flags_right) as u64;
    proof {
        lemma_count_cols_flags(
            f0,
            tl.x as int,
            top_lo as int,
            top_hi as int,
            line_colour,
            flags_top@,
            flags_top.len() as int,
        );
        lemma_count_cols_flags(
            f0,
            tl.x as int,
            bot_lo as int,
            bot_hi as int,
            line_colour,
            flags_bottom@,
            flags_bottom.len() as int,
        );
        lemma_count_rows_flags(
            f0,
            tl.y + 1,
            left_lo as int,
            left_hi as int,
            line_colour,
            flags_left@,
            flags_left.len() as int,
        );
        lemma_count_rows_flags(
            f0,
            tl.y + 1,
            right_lo as int,
            right_hi as int,
            line_colour,
            flags_right@,
            flags_right.len() as int,
        );
        assert(hits == perimeter_hits(f0, rect, line_colour));
    }

    let circumference: u64 = rectangle.width() as u64 * 2 + rectangle.height() as u64 * 2;
    let r = 10 * hits > 9 * circumference;

    draw_col_strips(buffer, &flags_top, tl.x, tl.y, tl.y + 1);
    let ghost g1 = *buffer;
    draw_col_strips(buffer, &flags_bottom, tl.x, br.y, br.y + 1);
    let ghost g2 = *buffer;
    draw_row_strips(buffer, &flags_left, tl.y + 1, tl.x, tl.x + 1);
    let ghost g3 = *buffer;
    draw_row_strips(buffer, &flags_right, tl.y + 1, br.x, br.x + 1);
    proof {
        assert forall|x: int, y: int|
            0 <= x < f0.spec_width() && 0 <= y < f0.spec_height() implies #[trigger] buffer.pixel(
            x,
            y,
        ) == boundary_overlay_pixel(f0, rect, line_colour, x, y) by {
            if x == br.x && tl.y + 1 <= y < br.y - 1 {
            } else {
                assert(buffer.pixel(x, y) == g3.pixel(x, y));
                if x == tl.x && tl.y + 1 <= y < br.y - 1 {
                } else {
                    assert(g3.pixel(x, y) == g2.pixel(x, y));
                    if y == br.y && tl.x <= x < br.x {
                    } else {
                        assert(g2.pixel(x, y) == g1.pixel(x, y));
                        if y == tl.y && tl.x <= x < br.x {
                        } else {
                            assert(g1.pixel(x, y) == f0.pixel(x, y));
                        }
                    }
                }
            }
        }
    }
    r
}

} // verus!
