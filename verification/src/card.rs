//! Deciding whether a playing card is present exactly in the expected
//! boundary of a frame.
use vstd::prelude::*;

verus! {

use crate::data::{Point, Rectangle};
use crate::edge::{
    lemma_ring_window_fits, supp_seq, hysteresis_rel, pidx, Canny, RectangleInRectangleWindow,
    Window,
};
use crate::frame::{Frame, Rgba};

/// The sentinel colour written for a confirmed edge pixel.
pub open spec fn edge_colour() -> Rgba {
    Rgba { r: 0, g: 0, b: 0, a: 254 }
}

/// The diagnostic colour for a boundary sample with no edge nearby.
pub open spec fn miss_colour() -> Rgba {
    Rgba { r: 255, g: 0, b: 0, a: 255 }
}

/// The diagnostic colour for a boundary sample with an edge nearby.
pub open spec fn hit_colour() -> Rgba {
    Rgba { r: 0, g: 255, b: 0, a: 255 }
}

/// The width of the 5:7 box inscribed in a `width` by `height` frame.
pub open spec fn card_fit_width(width: int, height: int) -> int {
    if 7 * width > 5 * height {
        5 * height / 7
    } else {
        width
    }
}

/// The height of the 5:7 box inscribed in a `width` by `height` frame.
pub open spec fn card_fit_height(width: int, height: int) -> int {
    if 7 * width > 5 * height {
        height
    } else {
        7 * width / 5
    }
}

/// The ideal card rectangle for a frame: the largest 5:7 box anchored at the
/// origin, inset on all sides by a margin of 5% of the box's width, floored.
pub open spec fn spec_corners(width: int, height: int) -> Rectangle {
    let fw = card_fit_width(width, height);
    let fh = card_fit_height(width, height);
    let margin = fw / 20;
    Rectangle {
        top_left: Point { x: margin as usize, y: margin as usize },
        bottom_right: Point { x: (fw - margin) as usize, y: (fh - margin) as usize },
    }
}

/// The inscribed box is at least one pixel wide, is taller than wide, and the
/// margin leaves a rectangle of positive size.
proof fn lemma_fit_box(width: int, height: int)
    requires
        2 <= width,
        2 <= height,
    ensures
        1 <= card_fit_width(width, height) <= width,
        card_fit_width(width, height) <= card_fit_height(width, height) <= height,
        2 * (card_fit_width(width, height) / 20) < card_fit_width(width, height),
        0 <= card_fit_width(width, height) / 20,
{
    let fw = card_fit_width(width, height);
    let fh = card_fit_height(width, height);
    if 7 * width > 5 * height {
        vstd::arithmetic::div_mod::lemma_fundamental_div_mod(5 * height, 7);
        vstd::arithmetic::div_mod::lemma_mod_bound(5 * height, 7);
    } else {
        vstd::arithmetic::div_mod::lemma_fundamental_div_mod(7 * width, 5);
        vstd::arithmetic::div_mod::lemma_mod_bound(7 * width, 5);
    }
    vstd::arithmetic::div_mod::lemma_fundamental_div_mod(fw, 20);
    vstd::arithmetic::div_mod::lemma_mod_bound(fw, 20);
}

/// Get the corners of the ideal card boundary for a frame.
pub fn get_corners(width: usize, height: usize) -> (r: Rectangle)
    requires
        2 <= width <= u32::MAX,
        2 <= height <= u32::MAX,
    ensures
        r == spec_corners(width as int, height as int),
        r.wf(),
{
    proof {
        lemma_fit_box(width as int, height as int);
    }
    let w64 = width as u64;
    let h64 = height as u64;
    let fw: u64;
    let fh: u64;
    if 7 * w64 > 5 * h64 {
        fw = 5 * h64 / 7;
        fh = h64;
    } else {
        fw = w64;
        fh = 7 * w64 / 5;
    }
    let margin = fw / 20;
    Rectangle::new(
        Point { x: margin as usize, y: margin as usize },
        Point { x: (fw - margin) as usize, y: (fh - margin) as usize },
    )
}

/// For every frame wider and taller than 40 pixels, the ideal card boundary
/// is a well-formed rectangle lying strictly inside the frame, and its
/// proportions follow the 5:7 card ratio up to the rounding of the two
/// integer divisions: the inscribed box satisfies
/// `-6 <= 7 * fit_width - 5 * fit_height <= 4`, and the boundary is that box
/// inset by the same margin on all four sides.
pub proof fn lemma_corners_in_frame(width: int, height: int)
    requires
        40 < width <= u32::MAX,
        40 < height <= u32::MAX,
    ensures
        spec_corners(width, height).wf(),
        spec_corners(width, height).top_left.x >= 1,
        spec_corners(width, height).top_left.y >= 1,
        spec_corners(width, height).bottom_right.x < width,
        spec_corners(width, height).bottom_right.y < height,
        -6 <= 7 * card_fit_width(width, height) - 5 * card_fit_height(width, height) <= 4,
        spec_corners(width, height).spec_width() == card_fit_width(width, height) - 2 * (
        card_fit_width(width, height) / 20),
        spec_corners(width, height).spec_height() == card_fit_height(width, height) - 2 * (
        card_fit_width(width, height) / 20),
{
    let fw = card_fit_width(width, height);
    let fh = card_fit_height(width, height);
    let margin = fw / 20;
    lemma_fit_box(width, height);
    if 7 * width > 5 * height {
        vstd::arithmetic::div_mod::lemma_fundamental_div_mod(5 * height, 7);
        vstd::arithmetic::div_mod::lemma_mod_bound(5 * height, 7);
    } else {
        vstd::arithmetic::div_mod::lemma_fundamental_div_mod(7 * width, 5);
        vstd::arithmetic::div_mod::lemma_mod_bound(7 * width, 5);
    }
    vstd::arithmetic::div_mod::lemma_fundamental_div_mod(fw, 20);
    vstd::arithmetic::div_mod::lemma_mod_bound(fw, 20);
    assert(fw >= 20) by {
        if 7 * width > 5 * height {
            assert(5 * height >= 205);
        }
    }
}

/// `true` at the columns `x0 <= x < x1` where some pixel in rows
/// `y0 <= y < y1` carries the edge colour.
pub open spec fn column_has_edge(f: Frame, x: int, y0: int, y1: int, edge: Rgba) -> bool {
    exists|y: int| y0 <= y < y1 && #[trigger] f.pixel(x, y) == edge
}

/// `true` at the rows `y0 <= y < y1` where some pixel in columns
/// `x0 <= x < x1` carries the edge colour.
pub open spec fn row_has_edge(f: Frame, y: int, x0: int, x1: int, edge: Rgba) -> bool {
    exists|x: int| x0 <= x < x1 && #[trigger] f.pixel(x, y) == edge
}

/// The number of `true` entries among the first `n` of `s`.
pub open spec fn count_trues(s: Seq<bool>, n: int) -> int
    decreases n,
{
    if n <= 0 {
        0
    } else {
        count_trues(s, n - 1) + if s[n - 1] {
            1int
        } else {
            0int
        }
    }
}

/// Scan one column band: whether any pixel of column `x` in rows
/// `[y0, y1)` carries the edge colour.
fn scan_column(img: &Frame, x: usize, y0: usize, y1: usize, edge: Rgba) -> (b: bool)
    requires
        img.wf(),
        x < img.spec_width(),
        y1 <= img.spec_height(),
    ensures
        b == column_has_edge(*img, x as int, y0 as int, y1 as int, edge),
{
    let mut y = y0;
    while y < y1
        invariant
            img.wf(),
            x < img.spec_width(),
            y0 <= y,
            y1 <= img.spec_height(),
            forall|j: int| y0 <= j < y ==> #[trigger] img.pixel(x as int, j) != edge,
        decreases y1 - y,
    {
        if img.get_pixel(x, y) == edge {
            return true;
        }
        y = y + 1;
    }
    false
}

/// Scan one row band: whether any pixel of row `y` in columns `[x0, x1)`
/// carries the edge colour.
fn scan_row(img: &Frame, y: usize, x0: usize, x1: usize, edge: Rgba) -> (b: bool)
    requires
        img.wf(),
        y < img.spec_height(),
        x1 <= img.spec_width(),
    ensures
        b == row_has_edge(*img, y as int, x0 as int, x1 as int, edge),
{
    let mut x = x0;
    while x < x1
        invariant
            img.wf(),
            y < img.spec_height(),
            x0 <= x,
            x1 <= img.spec_width(),
            forall|i: int| x0 <= i < x ==> #[trigger] img.pixel(i, y as int) != edge,
        decreases x1 - x,
    {
        if img.get_pixel(x, y) == edge {
            return true;
        }
        x = x + 1;
    }
    false
}

/// One hit flag per column of `[x0, x1)`, from the band rows `[y0, y1)`.
pub(crate) fn scan_columns(img: &Frame, x0: usize, x1: usize, y0: usize, y1: usize, edge: Rgba) -> (flags:
    Vec<bool>)
    requires
        img.wf(),
        x0 <= x1,
        x1 <= img.spec_width(),
        y1 <= img.spec_height(),
    ensures
        flags.len() == x1 - x0,
        forall|i: int|
            0 <= i < flags.len() ==> flags@[i] == column_has_edge(
                *img,
                x0 + i,
                y0 as int,
                y1 as int,
                edge,
            ),
{
    let mut flags: Vec<bool> = Vec::new();
    let mut x = x0;
    while x < x1
        invariant
            img.wf(),
            x0 <= x <= x1,
            x1 <= img.spec_width(),
            y1 <= img.spec_height(),
            flags.len() == x - x0,
            forall|i: int|
                0 <= i < flags.len() ==> flags@[i] == column_has_edge(
                    *img,
                    x0 + i,
                    y0 as int,
                    y1 as int,
                    edge,
                ),
        decreases x1 - x,
    {
        let b = scan_column(img, x, y0, y1, edge);
        flags.push(b);
        x = x + 1;
    }
    flags
}

/// One hit flag per row of `[y0, y1)`, from the band columns `[x0, x1)`.
pub(crate) fn scan_rows(img: &Frame, y0: usize, y1: usize, x0: usize, x1: usize, edge: Rgba) -> (flags: Vec<
    bool,
>)
    requires
        img.wf(),
        y0 <= y1,
        y1 <= img.spec_height(),
        x1 <= img.spec_width(),
    ensures
        flags.len() == y1 - y0,
        forall|i: int|
            0 <= i < flags.len() ==> flags@[i] == row_has_edge(
                *img,
                y0 + i,
                x0 as int,
                x1 as int,
                edge,
            ),
{
    let mut flags: Vec<bool> = Vec::new();
    let mut y = y0;
    while y < y1
        invariant
            img.wf(),
            y0 <= y <= y1,
            y1 <= img.spec_height(),
            x1 <= img.spec_width(),
            flags.len() == y - y0,
            forall|i: int|
                0 <= i < flags.len() ==> flags@[i] == row_has_edge(
                    *img,
                    y0 + i,
                    x0 as int,
                    x1 as int,
                    edge,
                ),
        decreases y1 - y,
    {
        let b = scan_row(img, y, x0, x1, edge);
        flags.push(b);
        y = y + 1;
    }
    flags
}

/// Count the `true` entries of a flag vector.
pub(crate) fn count_hits(flags: &Vec<bool>) -> (n: usize)
    ensures
        n == count_trues(flags@, flags.len() as int),
        n <= flags.len(),
{
    let mut n: usize = 0;
    let mut k: usize = 0;
    while k < flags.len()
        invariant
            k <= flags.len(),
            n == count_trues(flags@, k as int),
            n <= k,
        decreases flags.len() - k,
    {
        if flags[k] {
            n = n + 1;
        }
        k = k + 1;
    }
    n
}

/// The number of columns in `[x0, x1)` whose band rows `[y0, y1)` hold an
/// edge pixel.
pub open spec fn count_cols(f: Frame, x0: int, x1: int, y0: int, y1: int, edge: Rgba) -> int
    decreases x1 - x0,
{
    if x1 <= x0 {
        0
    } else {
        count_cols(f, x0, x1 - 1, y0, y1, edge) + if column_has_edge(f, x1 - 1, y0, y1, edge) {
            1int
        } else {
            0int
        }
    }
}

/// The number of rows in `[y0, y1)` whose band columns `[x0, x1)` hold an
/// edge pixel.
pub open spec fn count_rows(f: Frame, y0: int, y1: int, x0: int, x1: int, edge: Rgba) -> int
    decreases y1 - y0,
{
    if y1 <= y0 {
        0
    } else {
        count_rows(f, y0, y1 - 1, x0, x1, edge) + if row_has_edge(f, y1 - 1, x0, x1, edge) {
            1int
        } else {
            0int
        }
    }
}

pub(crate) proof fn lemma_count_cols_flags(
    f: Frame,
    x0: int,
    y0: int,
    y1: int,
    edge: Rgba,
    flags: Seq<bool>,
    n: int,
)
    requires
        0 <= n <= flags.len(),
        forall|i: int| 0 <= i < flags.len() ==> flags[i] == column_has_edge(f, x0 + i, y0, y1, edge),
    ensures
        count_trues(flags, n) == count_cols(f, x0, x0 + n, y0, y1, edge),
    decreases n,
{
    if n > 0 {
        lemma_count_cols_flags(f, x0, y0, y1, edge, flags, n - 1);
    }
}

pub(crate) proof fn lemma_count_rows_flags(
    f: Frame,
    y0: int,
    x0: int,
    x1: int,
    edge: Rgba,
    flags: Seq<bool>,
    n: int,
)
    requires
        0 <= n <= flags.len(),
        forall|i: int| 0 <= i < flags.len() ==> flags[i] == row_has_edge(f, y0 + i, x0, x1, edge),
    ensures
        count_trues(flags, n) == count_rows(f, y0, y0 + n, x0, x1, edge),
    decreases n,
{
    if n > 0 {
        lemma_count_rows_flags(f, y0, x0, x1, edge, flags, n - 1);
    }
}

/// A side passes when more than 80% of its samples registered a hit.
pub open spec fn side_passes(hits: int, len: int) -> bool {
    5 * hits > 4 * len
}

/// The presence decision on the frame `f1` left behind by the edge engine:
/// each of the four boundary sides is scored by the fraction of its samples
/// with an edge pixel in the perpendicular band between the inner and outer
/// boundary, and the card counts as present when at least three of the four
/// sides pass.
pub open spec fn spec_decision(f1: Frame, b: Rectangle, inner: Rectangle, outer: Rectangle) -> bool {
    let top = count_cols(
        f1,
        b.top_left.x as int,
        b.bottom_right.x as int,
        outer.top_left.y as int,
        inner.top_left.y as int,
        edge_colour(),
    );
    let bottom = count_cols(
        f1,
        b.top_left.x as int,
        b.bottom_right.x as int,
        inner.bottom_right.y as int,
        outer.bottom_right.y as int,
        edge_colour(),
    );
    let left = count_rows(
        f1,
        b.top_left.y as int,
        b.bottom_right.y as int,
        outer.top_left.x as int,
        inner.top_left.x as int,
        edge_colour(),
    );
    let right = count_rows(
        f1,
        b.top_left.y as int,
        b.bottom_right.y as int,
        inner.bottom_right.x as int,
        outer.bottom_right.x as int,
        edge_colour(),
    );
    let votes = (if side_passes(top, b.spec_width()) {
        1int
    } else {
        0int
    }) + (if side_passes(bottom, b.spec_width()) {
        1int
    } else {
        0int
    }) + (if side_passes(left, b.spec_height()) {
        1int
    } else {
        0int
    }) + (if side_passes(right, b.spec_height()) {
        1int
    } else {
        0int
    });
    votes >= 3
}

/// The colour of pixel `(x, y)` after the four diagnostic strips have been
/// drawn over `f1`: each strip is `cew + 1` pixels deep, drawn from the
/// boundary line towards the boundary's interior; the strips are drawn in the
/// order top, bottom, left, right, so a later strip wins where they overlap.
pub open spec fn overlay_pixel(
    f1: Frame,
    b: Rectangle,
    inner: Rectangle,
    outer: Rectangle,
    cew: int,
    x: int,
    y: int,
) -> Rgba {
    if b.bottom_right.x - cew <= x <= b.bottom_right.x && b.top_left.y <= y < b.bottom_right.y {
        if row_has_edge(
            f1,
            y,
            inner.bottom_right.x as int,
            outer.bottom_right.x as int,
            edge_colour(),
        ) {
            hit_colour()
        } else {
            miss_colour()
        }
    } else if b.top_left.x <= x <= b.top_left.x + cew && b.top_left.y <= y < b.bottom_right.y {
        if row_has_edge(f1, y, outer.top_left.x as int, inner.top_left.x as int, edge_colour()) {
            hit_colour()
        } else {
            miss_colour()
        }
    } else if b.bottom_right.y - cew <= y <= b.bottom_right.y && b.top_left.x <= x
        < b.bottom_right.x {
        if column_has_edge(
            f1,
            x,
            inner.bottom_right.y as int,
            outer.bottom_right.y as int,
            edge_colour(),
        ) {
            hit_colour()
        } else {
            miss_colour()
        }
    } else if b.top_left.y <= y <= b.top_left.y + cew && b.top_left.x <= x < b.bottom_right.x {
        if column_has_edge(f1, x, outer.top_left.y as int, inner.top_left.y as int, edge_colour()) {
            hit_colour()
        } else {
            miss_colour()
        }
    } else {
        f1.pixel(x, y)
    }
}

/// Draw one vertical diagnostic strip per flag: column `x0 + i` gets the hit
/// colour over rows `[ys, ye)` when `flags[i]` holds, the miss colour
/// otherwise.
pub(crate) fn draw_col_strips(img: &mut Frame, flags: &Vec<bool>, x0: usize, ys: usize, ye: usize)
    requires
        old(img).wf(),
        ys <= ye,
        ye <= old(img).spec_height(),
        x0 + flags.len() <= old(img).spec_width(),
    ensures
        final (img).wf(),
        final (img).spec_width() == old(img).spec_width(),
        final (img).spec_height() == old(img).spec_height(),
        forall|i: int, j: int|
            0 <= i < old(img).spec_width() && 0 <= j < old(img).spec_height() && x0 <= i < x0
                + flags.len() && ys <= j < ye ==> #[trigger] final (img).pixel(i, j) == (if flags@[i
                - x0] {
                hit_colour()
            } else {
                miss_colour()
            }),
        forall|i: int, j: int|
            0 <= i < old(img).spec_width() && 0 <= j < old(img).spec_height() && !(x0 <= i < x0
                + flags.len() && ys <= j < ye) ==> #[trigger] final (img).pixel(i, j) == old(
                img,
            ).pixel(i, j),
{
    let mut k: usize = 0;
    while k < flags.len()
        invariant
            img.wf(),
            img.spec_width() == old(img).spec_width(),
            img.spec_height() == old(img).spec_height(),
            k <= flags.len(),
            ys <= ye,
            ye <= img.spec_height(),
            x0 + flags.len() <= img.spec_width(),
            forall|i: int, j: int|
                0 <= i < old(img).spec_width() && 0 <= j < old(img).spec_height() && x0 <= i < x0
                    + k && ys <= j < ye ==> #[trigger] img.pixel(i, j) == (if flags@[i - x0] {
                    hit_colour()
                } else {
                    miss_colour()
                }),
            forall|i: int, j: int|
                0 <= i < old(img).spec_width() && 0 <= j < old(img).spec_height() && !(x0 <= i < x0
                    + k && ys <= j < ye) ==> #[trigger] img.pixel(i, j) == old(img).pixel(i, j),
        decreases flags.len() - k,
    {
        proof {
            img.lemma_dims_bounded();
        }
        let colour = if flags[k] {
            Rgba { r: 0, g: 255, b: 0, a: 255 }
        } else {
            Rgba { r: 255, g: 0, b: 0, a: 255 }
        };
        crate::data::draw_vline(img, x0 + k, ys, ye, colour);
        k = k + 1;
    }
}

/// Draw one horizontal diagnostic strip per flag: row `y0 + i` gets the hit
/// colour over columns `[xs, xe)` when `flags[i]` holds, the miss colour
/// otherwise.
pub(crate) fn draw_row_strips(img: &mut Frame, flags: &Vec<bool>, y0: usize, xs: usize, xe: usize)
    requires
        old(img).wf(),
        xs <= xe,
        xe <= old(img).spec_width(),
        y0 + flags.len() <= old(img).spec_height(),
    ensures
        final (img).wf(),
        final (img).spec_width() == old(img).spec_width(),
        final (img).spec_height() == old(img).spec_height(),
        forall|i: int, j: int|
            0 <= i < old(img).spec_width() && 0 <= j < old(img).spec_height() && y0 <= j < y0
                + flags.len() && xs <= i < xe ==> #[trigger] final (img).pixel(i, j) == (if flags@[j
                - y0] {
                hit_colour()
            } else {
                miss_colour()
            }),
        forall|i: int, j: int|
            0 <= i < old(img).spec_width() && 0 <= j < old(img).spec_height() && !(y0 <= j < y0
                + flags.len() && xs <= i < xe) ==> #[trigger] final (img).pixel(i, j) == old(
                img,
            ).pixel(i, j),
{
    let mut k: usize = 0;
    while k < flags.len()
        invariant
            img.wf(),
            img.spec_width() == old(img).spec_width(),
            img.spec_height() == old(img).spec_height(),
            k <= flags.len(),
            xs <= xe,
            xe <= img.spec_width(),
            y0 + flags.len() <= img.spec_height(),
            forall|i: int, j: int|
                0 <= i < old(img).spec_width() && 0 <= j < old(img).spec_height() && y0 <= j < y0
                    + k && xs <= i < xe ==> #[trigger] img.pixel(i, j) == (if flags@[j - y0] {
                    hit_colour()
                } else {
                    miss_colour()
                }),
            forall|i: int, j: int|
                0 <= i < old(img).spec_width() && 0 <= j < old(img).spec_height() && !(y0 <= j < y0
                    + k && xs <= i < xe) ==> #[trigger] img.pixel(i, j) == old(img).pixel(i, j),
        decreases flags.len() - k,
    {
        proof {
            img.lemma_dims_bounded();
        }
        let colour = if flags[k] {
            Rgba { r: 0, g: 255, b: 0, a: 255 }
        } else {
            Rgba { r: 255, g: 0, b: 0, a: 255 }
        };
        crate::data::draw_hline(img, y0 + k, xs, xe, colour);
        k = k + 1;
    }
}

/// The rectangle covering a whole frame.
pub open spec fn frame_rect(width: int, height: int) -> Rectangle {
    Rectangle {
        top_left: Point { x: 0, y: 0 },
        bottom_right: Point { x: width as usize, y: height as usize },
    }
}

/// A detector configuration that can be built: the frame is large enough for
/// the ideal boundary to sit strictly inside it, the drawn strip depth fits
/// inside the boundary, and the detection ring derived from the window width
/// is a well-formed frame window with the margins the edge engine needs.
pub open spec fn detector_config_ok(width: int, height: int, cew: int, dww: int, low: u16) -> bool {
    let b = spec_corners(width, height);
    let n = dww / 2;
    let outer = b.spec_clamped_grow(n, frame_rect(width, height));
    let inner = b.spec_clamped_shrink(n, frame_rect(width, height));
    &&& 2 <= width <= u32::MAX
    &&& 2 <= height <= u32::MAX
    &&& width * height * 4 <= usize::MAX
    &&& low >= 1
    &&& b.bottom_right.x < width
    &&& b.bottom_right.y < height
    &&& 0 <= cew
    &&& cew < b.spec_width()
    &&& cew < b.spec_height()
    &&& outer.wf()
    &&& inner.wf()
    &&& outer.spec_contains(inner)
    &&& outer.top_left.x + 1 < inner.top_left.x - 1
    &&& outer.top_left.y + 1 < inner.top_left.y - 1
    &&& inner.bottom_right.x + 1 < outer.bottom_right.x - 1
    &&& inner.bottom_right.y + 1 < outer.bottom_right.y - 1
}

/// Detect whether a playing card is present exactly in the boundary.
pub struct Detector {
    card_edge_width: usize,
    canny: Canny<RectangleInRectangleWindow>,
    boundary: Rectangle,
    inner_boundary: Rectangle,
    outer_boundary: Rectangle,
}

/// What `Detector::detect` promises, given the frame `f1` that the edge
/// engine leaves behind: `f1` relates to the input frame by the edge engine's
/// contract, the decision is the three-of-four vote over the four side scores
/// measured on `f1`, and the returned frame is `f1` with the four diagnostic
/// strips drawn over it.
pub open spec fn detect_post(d: Detector, img0: Frame, img1: Frame, f1: Frame, r: bool) -> bool {
    let ring = RectangleInRectangleWindow {
        outer: d.spec_outer_boundary(),
        inner: d.spec_inner_boundary(),
    };
    let b = d.spec_boundary();
    &&& hysteresis_rel(
        img0,
        f1,
        ring.process_seq(),
        supp_seq(ring, img0),
        (d.spec_low() * d.spec_low()) as int,
        (d.spec_high() * d.spec_high()) as int,
        edge_colour(),
    )
    &&& forall|k: int|
        0 <= k < ring.process_seq().len() && supp_seq(ring, img0)[pidx(
            img0.spec_width(),
            #[trigger] ring.process_seq()[k],
        )] >= d.spec_high() * d.spec_high() ==> f1.pixel(
            ring.process_seq()[k].x as int,
            ring.process_seq()[k].y as int,
        ).r == edge_colour().r
    &&& forall|x: int, y: int|
        0 <= x < img0.spec_width() && 0 <= y < img0.spec_height() && #[trigger] f1.pixel(x, y)
            != img0.pixel(x, y) ==> crate::edge::weak_neighbours_marked(
            f1,
            supp_seq(ring, img0),
            (d.spec_low() * d.spec_low()) as int,
            Point { x: x as usize, y: y as usize },
            edge_colour().r,
        )
    &&& forall|x: int, y: int|
        0 <= x < img0.spec_width() && 0 <= y < img0.spec_height() && #[trigger] f1.pixel(x, y)
            != img0.pixel(x, y) ==> crate::edge::link_reachable(
            Point { x: x as usize, y: y as usize },
            ring.process_seq(),
            supp_seq(ring, img0),
            (d.spec_low() * d.spec_low()) as int,
            (d.spec_high() * d.spec_high()) as int,
            img0,
            edge_colour().r,
        )
    &&& r == spec_decision(f1, b, d.spec_inner_boundary(), d.spec_outer_boundary())
    &&& forall|x: int, y: int|
        0 <= x < img0.spec_width() && 0 <= y < img0.spec_height() ==> #[trigger] img1.pixel(x, y)
            == overlay_pixel(
            f1,
            b,
            d.spec_inner_boundary(),
            d.spec_outer_boundary(),
            d.spec_card_edge_width() as int,
            x,
            y,
        )
}

impl Detector {
    pub closed spec fn spec_width(self) -> usize {
        self.canny.spec_width()
    }

    pub closed spec fn spec_height(self) -> usize {
        self.canny.spec_height()
    }

    pub closed spec fn spec_boundary(self) -> Rectangle {
        self.boundary
    }

    pub closed spec fn spec_inner_boundary(self) -> Rectangle {
        self.inner_boundary
    }

    pub closed spec fn spec_outer_boundary(self) -> Rectangle {
        self.outer_boundary
    }

    pub closed spec fn spec_card_edge_width(self) -> usize {
        self.card_edge_width
    }

    pub closed spec fn spec_low(self) -> u16 {
        self.canny.spec_low()
    }

    pub closed spec fn spec_high(self) -> u16 {
        self.canny.spec_high()
    }

    pub closed spec fn wf(self) -> bool {
        &&& self.canny.wf()
        &&& self.canny.spec_window() == (RectangleInRectangleWindow {
            outer: self.outer_boundary,
            inner: self.inner_boundary,
        })
        &&& self.canny.spec_line_colour() == edge_colour()
        &&& self.boundary.wf()
        &&& self.outer_boundary.wf()
        &&& self.inner_boundary.wf()
        &&& self.outer_boundary.spec_contains(self.inner_boundary)
        &&& self.boundary.bottom_right.x < self.canny.spec_width()
        &&& self.boundary.bottom_right.y < self.canny.spec_height()
        &&& self.outer_boundary.bottom_right.x < self.canny.spec_width()
        &&& self.outer_boundary.bottom_right.y < self.canny.spec_height()
        &&& self.card_edge_width < self.boundary.spec_width()
        &&& self.card_edge_width < self.boundary.spec_height()
        &&& self.canny.spec_width() <= u32::MAX
        &&& self.canny.spec_height() <= u32::MAX
    }

    /// Create a builder object to help create this detector.
    pub fn builder() -> (r: DetectorBuilder)
        ensures
            r.spec_card_edge_width_opt() is None,
            r.spec_detection_window_width_opt() is None,
            r.spec_low_threshold_opt() is None,
            r.spec_high_threshold_opt() is None,
    {
        DetectorBuilder::default()
    }

    fn new(
        width: usize,
        height: usize,
        card_edge_width: usize,
        detection_window_width: usize,
        low_threshold: u16,
        high_threshold: u16,
    ) -> (r: Self)
        requires
            detector_config_ok(
                width as int,
                height as int,
                card_edge_width as int,
                detection_window_width as int,
                low_threshold,
            ),
        ensures
            r.wf(),
            r.spec_width() == width,
            r.spec_height() == height,
            r.spec_boundary() == spec_corners(width as int, height as int),
            r.spec_outer_boundary() == spec_corners(width as int, height as int).spec_clamped_grow(
                (detection_window_width / 2) as int,
                frame_rect(width as int, height as int),
            ),
            r.spec_inner_boundary() == spec_corners(
                width as int,
                height as int,
            ).spec_clamped_shrink(
                (detection_window_width / 2) as int,
                frame_rect(width as int, height as int),
            ),
            r.spec_card_edge_width() == card_edge_width,
            r.spec_low() == low_threshold,
            r.spec_high() == high_threshold,
    {
        let image_rect = Rectangle::from_dimensions(width, height);
        let boundary = get_corners(width, height);
        let n = detection_window_width / 2;
        let ghost souter = boundary.spec_clamped_grow(n as int, image_rect);
        let ghost sinner = boundary.spec_clamped_shrink(n as int, image_rect);
        proof {
            assert(image_rect == frame_rect(width as int, height as int));
            assert(0 <= crate::data::spec_clamp_sub(
                boundary.top_left.x as int,
                n as int,
                image_rect.top_left.x as int,
            ) <= boundary.top_left.x);
            assert(0 <= crate::data::spec_clamp_sub(
                boundary.top_left.y as int,
                n as int,
                image_rect.top_left.y as int,
            ) <= boundary.top_left.y);
            assert(0 <= crate::data::spec_clamp_add(
                boundary.bottom_right.x as int,
                n as int,
                image_rect.bottom_right.x as int,
            ) <= width - 1);
            assert(0 <= crate::data::spec_clamp_add(
                boundary.bottom_right.y as int,
                n as int,
                image_rect.bottom_right.y as int,
            ) <= height - 1);
            assert(0 <= crate::data::spec_clamp_add(
                boundary.top_left.x as int,
                n as int,
                image_rect.bottom_right.x as int,
            ) <= width - 1);
            assert(0 <= crate::data::spec_clamp_add(
                boundary.top_left.y as int,
                n as int,
                image_rect.bottom_right.y as int,
            ) <= height - 1);
            assert(0 <= crate::data::spec_clamp_sub(
                boundary.bottom_right.x as int,
                n as int,
                image_rect.top_left.x as int,
            ) <= boundary.bottom_right.x);
            assert(0 <= crate::data::spec_clamp_sub(
                boundary.bottom_right.y as int,
                n as int,
                image_rect.top_left.y as int,
            ) <= boundary.bottom_right.y);
        }
        let outer_boundary = boundary.clamped_grow(n, &image_rect);
        let inner_boundary = boundary.clamped_shrink(n, &image_rect);
        proof {
            assert(outer_boundary == souter);
            assert(inner_boundary == sinner);
        }
        let window = RectangleInRectangleWindow::new(outer_boundary, inner_boundary);
        proof {
            lemma_ring_window_fits(window, width, height);
        }
        let canny = Canny::new(
            width,
            height,
            low_threshold,
            high_threshold,
            Rgba { r: 0, g: 0, b: 0, a: 254 },
            window,
        );
        Detector { card_edge_width, canny, boundary, inner_boundary, outer_boundary }
    }

    /// Width of the image the detector was built for.
    pub fn width(&self) -> (r: usize)
        ensures
            r == self.spec_width(),
    {
        self.canny.width()
    }

    /// Height of the image the detector was built for.
    pub fn height(&self) -> (r: usize)
        ensures
            r == self.spec_height(),
    {
        self.canny.height()
    }

    /// Detect if a card is in the boundary: run the edge engine restricted to
    /// the detection ring, score each of the four boundary sides by the edge
    /// pixels in its perpendicular band, draw the hit and miss strips, and
    /// vote.
    pub fn detect(&mut self, img: &mut Frame) -> (r: bool)
        requires
            old(self).wf(),
            old(img).wf(),
            old(img).spec_width() == old(self).spec_width(),
            old(img).spec_height() == old(self).spec_height(),
        ensures
            final (self).wf(),
            final (self).spec_width() == old(self).spec_width(),
            final (self).spec_height() == old(self).spec_height(),
            final (self).spec_boundary() == old(self).spec_boundary(),
            final (self).spec_inner_boundary() == old(self).spec_inner_boundary(),
            final (self).spec_outer_boundary() == old(self).spec_outer_boundary(),
            final (self).spec_card_edge_width() == old(self).spec_card_edge_width(),
            final (self).spec_low() == old(self).spec_low(),
            final (self).spec_high() == old(self).spec_high(),
            final (img).wf(),
            final (img).spec_width() == old(img).spec_width(),
            final (img).spec_height() == old(img).spec_height(),
            exists|f1: Frame| #[trigger] detect_post(*old(self), *old(img), *final (img), f1, r),
    {
        let ghost w = self.canny.spec_width() as int;
        let ghost h = self.canny.spec_height() as int;
        proof {
            assert(old(self).wf());
        }
        let b = self.boundary;
        let inner = self.inner_boundary;
        let outer = self.outer_boundary;
        let cew = self.card_edge_width;
        let ec = Rgba { r: 0, g: 0, b: 0, a: 254 };
        self.canny.detect(img);
        let ghost f1 = *img;
        let flags_top = scan_columns(img, b.top_left.x, b.bottom_right.x, outer.top_left.y, inner.top_left.y, ec);
        let flags_bottom = scan_columns(img, b.top_left.x, b.bottom_right.x, inner.bottom_right.y, outer.bottom_right.y, ec);
        let flags_left = scan_rows(img, b.top_left.y, b.bottom_right.y, outer.top_left.x, inner.top_left.x, ec);
        let flags_right = scan_rows(img, b.top_left.y, b.bottom_right.y, inner.bottom_right.x, outer.bottom_right.x, ec);
        let t = count_hits(&flags_top);
        let bo = count_hits(&flags_bottom);
        let l = count_hits(&flags_left);
        let ri = count_hits(&flags_right);
        proof {
            lemma_count_cols_flags(
                f1,
                b.top_left.x as int,
                outer.top_left.y as int,
                inner.top_left.y as int,
                ec,
                flags_top@,
                flags_top.len() as int,
            );
            lemma_count_cols_flags(
                f1,
                b.top_left.x as int,
                inner.bottom_right.y as int,
                outer.bottom_right.y as int,
                ec,
                flags_bottom@,
                flags_bottom.len() as int,
            );
            lemma_count_rows_flags(
                f1,
                b.top_left.y as int,
                outer.top_left.x as int,
                inner.top_left.x as int,
                ec,
                flags_left@,
                flags_left.len() as int,
            );
            lemma_count_rows_flags(
                f1,
                b.top_left.y as int,
                inner.bottom_right.x as int,
                outer.bottom_right.x as int,
                ec,
                flags_right@,
                flags_right.len() as int,
            );
        }
        let bw = b.bottom_right.x - b.top_left.x;
        let bh = b.bottom_right.y - b.top_left.y;
        let mut votes: u32 = 0;
        if 5 * (t as u64) > 4 * (bw as u64) {
            votes = votes + 1;
        }
        if 5 * (bo as u64) > 4 * (bw as u64) {
            votes = votes + 1;
        }
        if 5 * (l as u64) > 4 * (bh as u64) {
            votes = votes + 1;
        }
        if 5 * (ri as u64) > 4 * (bh as u64) {
            votes = votes + 1;
        }
        let r = votes >= 3;
        proof {
            assert(r == spec_decision(f1, b, inner, outer));
        }
        let ghost g0 = *img;
        draw_col_strips(img, &flags_top, b.top_left.x, b.top_left.y, b.top_left.y + cew + 1);
        let ghost g1 = *img;
        draw_col_strips(img, &flags_bottom, b.top_left.x, b.bottom_right.y - cew, b.bottom_right.y + 1);
        let ghost g2 = *img;
        draw_row_strips(img, &flags_left, b.top_left.y, b.top_left.x, b.top_left.x + cew + 1);
        let ghost g3 = *img;
        draw_row_strips(img, &flags_right, b.top_left.y, b.bottom_right.x - cew, b.bottom_right.x + 1);
        proof {
            assert forall|x: int, y: int| 0 <= x < w && 0 <= y < h implies #[trigger] img.pixel(
                x,
                y,
            ) == overlay_pixel(f1, b, inner, outer, cew as int, x, y) by {
                if b.bottom_right.x - cew <= x <= b.bottom_right.x && b.top_left.y <= y
                    < b.bottom_right.y {
                } else {
                    assert(img.pixel(x, y) == g3.pixel(x, y));
                    if b.top_left.x <= x <= b.top_left.x + cew && b.top_left.y <= y
                        < b.bottom_right.y {
                    } else {
                        assert(g3.pixel(x, y) == g2.pixel(x, y));
                        if b.bottom_right.y - cew <= y <= b.bottom_right.y && b.top_left.x <= x
                            < b.bottom_right.x {
                        } else {
                            assert(g2.pixel(x, y) == g1.pixel(x, y));
                            if b.top_left.y <= y <= b.top_left.y + cew && b.top_left.x <= x
                                < b.bottom_right.x {
                            } else {
                                assert(g1.pixel(x, y) == g0.pixel(x, y));
                            }
                        }
                    }
                }
            }
            assert(detect_post(*old(self), *old(img), *img, f1, r));
        }
        r
    }
}

/// Builder for a card detector.
pub struct DetectorBuilder {
    card_edge_width: Option<usize>,
    detection_window_width: Option<usize>,
    low_threshold: Option<u16>,
    high_threshold: Option<u16>,
}

impl Default for DetectorBuilder {
    /// A builder with every knob left at its default.
    fn default() -> (r: DetectorBuilder)
        ensures
            r.spec_card_edge_width_opt() is None,
            r.spec_detection_window_width_opt() is None,
            r.spec_low_threshold_opt() is None,
            r.spec_high_threshold_opt() is None,
    {
        DetectorBuilder {
            card_edge_width: None,
            detection_window_width: None,
            low_threshold: None,
            high_threshold: None,
        }
    }
}

impl DetectorBuilder {
    pub closed spec fn spec_card_edge_width_opt(self) -> Option<usize> {
        self.card_edge_width
    }

    pub closed spec fn spec_detection_window_width_opt(self) -> Option<usize> {
        self.detection_window_width
    }

    pub closed spec fn spec_low_threshold_opt(self) -> Option<u16> {
        self.low_threshold
    }

    pub closed spec fn spec_high_threshold_opt(self) -> Option<u16> {
        self.high_threshold
    }

    /// The drawn-line thickness the built detector will use (default 3).
    pub open spec fn eff_card_edge_width(self) -> usize {
        match self.spec_card_edge_width_opt() {
            Some(v) => v,
            None => 3,
        }
    }

    /// The detection window width the built detector will use (default 20,
    /// that is up to 10 pixels either side of the ideal boundary).
    pub open spec fn eff_detection_window_width(self) -> usize {
        match self.spec_detection_window_width_opt() {
            Some(v) => v,
            None => 20,
        }
    }

    /// The hysteresis low threshold the built detector will use (default 150).
    pub open spec fn eff_low_threshold(self) -> u16 {
        match self.spec_low_threshold_opt() {
            Some(v) => v,
            None => 150,
        }
    }

    /// The hysteresis high threshold the built detector will use (default 200).
    pub open spec fn eff_high_threshold(self) -> u16 {
        match self.spec_high_threshold_opt() {
            Some(v) => v,
            None => 200,
        }
    }

    /// Width in pixels of the drawn card edge.
    ///
    /// A line is drawn showing the boundary of where the card is expected;
    /// this is how thick that drawn line should be.
    pub fn card_edge_width(self, value: usize) -> (r: Self)
        ensures
            r.spec_card_edge_width_opt() == Some(value),
            r.spec_detection_window_width_opt() == self.spec_detection_window_width_opt(),
            r.spec_low_threshold_opt() == self.spec_low_threshold_opt(),
            r.spec_high_threshold_opt() == self.spec_high_threshold_opt(),
    {
        DetectorBuilder { card_edge_width: Some(value), ..self }
    }

    /// Width of the detection window around the card edge.
    ///
    /// When detecting whether a card is in the boundary we check the pixels
    /// either side of where we expect the card to be.  This value defines how
    /// many pixels in total; a value of 20 means up to 10 pixels either side.
    pub fn detection_window_width(self, value: usize) -> (r: Self)
        ensures
            r.spec_card_edge_width_opt() == self.spec_card_edge_width_opt(),
            r.spec_detection_window_width_opt() == Some(value),
            r.spec_low_threshold_opt() == self.spec_low_threshold_opt(),
            r.spec_high_threshold_opt() == self.spec_high_threshold_opt(),
    {
        DetectorBuilder { detection_window_width: Some(value), ..self }
    }

    /// The low threshold of the hysteresis stage of the Canny edge detector.
    pub fn low_threshold(self, value: u16) -> (r: Self)
        ensures
            r.spec_card_edge_width_opt() == self.spec_card_edge_width_opt(),
            r.spec_detection_window_width_opt() == self.spec_detection_window_width_opt(),
            r.spec_low_threshold_opt() == Some(value),
            r.spec_high_threshold_opt() == self.spec_high_threshold_opt(),
    {
        DetectorBuilder { low_threshold: Some(value), ..self }
    }

    /// The high threshold of the hysteresis stage of the Canny edge detector.
    pub fn high_threshold(self, value: u16) -> (r: Self)
        ensures
            r.spec_card_edge_width_opt() == self.spec_card_edge_width_opt(),
            r.spec_detection_window_width_opt() == self.spec_detection_window_width_opt(),
            r.spec_low_threshold_opt() == self.spec_low_threshold_opt(),
            r.spec_high_threshold_opt() == Some(value),
    {
        DetectorBuilder { high_threshold: Some(value), ..self }
    }

    /// Build the detector for a frame size.
    pub fn build(&self, width: usize, height: usize) -> (r: Detector)
        requires
            detector_config_ok(
                width as int,
                height as int,
                self.eff_card_edge_width() as int,
                self.eff_detection_window_width() as int,
                self.eff_low_threshold(),
            ),
        ensures
            r.wf(),
            r.spec_width() == width,
            r.spec_height() == height,
            r.spec_boundary() == spec_corners(width as int, height as int),
            r.spec_outer_boundary() == spec_corners(width as int, height as int).spec_clamped_grow(
                (self.eff_detection_window_width() / 2) as int,
                frame_rect(width as int, height as int),
            ),
            r.spec_inner_boundary() == spec_corners(
                width as int,
                height as int,
            ).spec_clamped_shrink(
                (self.eff_detection_window_width() / 2) as int,
                frame_rect(width as int, height as int),
            ),
            r.spec_card_edge_width() == self.eff_card_edge_width(),
            r.spec_low() == self.eff_low_threshold(),
            r.spec_high() == self.eff_high_threshold(),
    {
        let cew = match self.card_edge_width {
            Some(v) => v,
            None => 3,
        };
        let dww = match self.detection_window_width {
            Some(v) => v,
            None => 20,
        };
        let low = match self.low_threshold {
            Some(v) => v,
            None => 150,
        };
        let high = match self.high_threshold {
            Some(v) => v,
            None => 200,
        };
        Detector::new(width, height, cew, dww, low, high)
    }
}

/// Whether a frame size can be built into a detector with the default knobs
/// (card edge width 3, detection window width 20, low threshold 150),
/// decided at run time.
pub fn supports_default_config(width: usize, height: usize) -> (b: bool)
    ensures
        b == detector_config_ok(width as int, height as int, 3, 20, 150),
{
    if width < 2 || width > 0xffff_ffff || height < 2 || height > 0xffff_ffff {
        return false;
    }
    let bytes_ok = match width.checked_mul(height) {
        Some(p) => match p.checked_mul(4) {
            Some(_) => true,
            None => false,
        },
        None => false,
    };
    if !bytes_ok {
        return false;
    }
    let b0 = get_corners(width, height);
    let n: usize = 10;
    let o_tlx = crate::data::clamp_sub(b0.top_left.x, n, 0);
    let o_tly = crate::data::clamp_sub(b0.top_left.y, n, 0);
    let o_brx = crate::data::clamp_add(b0.bottom_right.x, n, width);
    let o_bry = crate::data::clamp_add(b0.bottom_right.y, n, height);
    let i_tlx = crate::data::clamp_add(b0.top_left.x, n, width);
    let i_tly = crate::data::clamp_add(b0.top_left.y, n, height);
    let i_brx = crate::data::clamp_sub(b0.bottom_right.x, n, 0);
    let i_bry = crate::data::clamp_sub(b0.bottom_right.y, n, 0);
    b0.bottom_right.x < width && b0.bottom_right.y < height && b0.top_left.x + 3
        < b0.bottom_right.x && b0.top_left.y + 3 < b0.bottom_right.y && o_tlx < o_brx && o_tly
        < o_bry && i_tlx < i_brx && i_tly < i_bry && o_tlx < i_tlx && o_tly < i_tly && i_brx
        < o_brx && i_bry < o_bry && o_tlx + 2 < i_tlx && o_tly + 2 < i_tly && i_brx + 2 < o_brx
        && i_bry + 2 < o_bry
}

} // verus!
