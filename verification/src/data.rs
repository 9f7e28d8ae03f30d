use vstd::prelude::*;

verus! {

use crate::frame::{Frame, Rgba};

/// A pixel coordinate: `x` grows rightwards, `y` grows downwards.
#[derive(Clone, Copy, Debug, PartialEq, Eq, Structural)]
pub struct Point {
    pub x: usize,
    pub y: usize,
}

/// An axis-aligned rectangle given by its top-left and bottom-right corners.
///
/// A well-formed rectangle has strictly positive width and height.  When the
/// rectangle is read as a set of pixel coordinates (`covers`, `x_range`,
/// `y_range`) the bottom-right corner is exclusive.
#[derive(Clone, Copy, Debug, PartialEq, Eq, Structural)]
pub struct Rectangle {
    pub top_left: Point,
    pub bottom_right: Point,
}

/// `value - n`, clamped from below so that the result never drops under `min`.
pub open spec fn spec_clamp_sub(value: int, n: int, min: int) -> int {
    if value > min && n <= value - min {
        value - n
    } else {
        min
    }
}

/// `value + n`, clamped from above so that the result never reaches `max`.
/// `max` plays the role of an exclusive bound: the largest result is `max - 1`.
pub open spec fn spec_clamp_add(value: int, n: int, max: int) -> int {
    if value + n + 1 <= max {
        value + n
    } else {
        max - 1
    }
}

pub(crate) fn clamp_sub(value: usize, n: usize, min: usize) -> (r: usize)
    ensures
        r == spec_clamp_sub(value as int, n as int, min as int),
{
    if value > min && n <= value - min {
        value - n
    } else {
        min
    }
}

pub(crate) fn clamp_add(value: usize, n: usize, max: usize) -> (r: usize)
    requires
        max >= 1,
    ensures
        r == spec_clamp_add(value as int, n as int, max as int),
{
    if value < max && n <= max - 1 - value {
        value + n
    } else {
        max - 1
    }
}

/// Paint the pixels `(x0, y) .. (x1, y)` (exclusive on the right) with `colour`.
pub(crate) fn draw_hline(img: &mut Frame, y: usize, x0: usize, x1: usize, colour: Rgba)
    requires
        old(img).wf(),
        y < old(img).spec_height(),
        x0 <= x1,
        x1 <= old(img).spec_width(),
    ensures
        final (img).wf(),
        final (img).spec_width() == old(img).spec_width(),
        final (img).spec_height() == old(img).spec_height(),
        forall|i: int, j: int|
            0 <= i < old(img).spec_width() && 0 <= j < old(img).spec_height() && j == y && x0 <= i
                < x1 ==> #[trigger] final (img).pixel(i, j) == colour,
        forall|i: int, j: int|
            0 <= i < old(img).spec_width() && 0 <= j < old(img).spec_height() && !(j == y && x0 <= i
                < x1) ==> #[trigger] final (img).pixel(i, j) == old(img).pixel(i, j),
{
    let mut x: usize = x0;
    while x < x1
        invariant
            img.wf(),
            img.spec_width() == old(img).spec_width(),
            img.spec_height() == old(img).spec_height(),
            y < img.spec_height(),
            x0 <= x <= x1,
            x1 <= img.spec_width(),
            forall|i: int, j: int|
                0 <= i < old(img).spec_width() && 0 <= j < old(img).spec_height() && j == y && x0
                    <= i < x ==> #[trigger] img.pixel(i, j) == colour,
            forall|i: int, j: int|
                0 <= i < old(img).spec_width() && 0 <= j < old(img).spec_height() && !(j == y && x0
                    <= i < x) ==> #[trigger] img.pixel(i, j) == old(img).pixel(i, j),
        decreases x1 - x,
    {
        img.put_pixel(x, y, colour);
        x = x + 1;
    }
}

/// Paint the pixels `(x, y0) .. (x, y1)` (exclusive at the bottom) with `colour`.
pub(crate) fn draw_vline(img: &mut Frame, x: usize, y0: usize, y1: usize, colour: Rgba)
    requires
        old(img).wf(),
        x < old(img).spec_width(),
        y0 <= y1,
        y1 <= old(img).spec_height(),
    ensures
        final (img).wf(),
        final (img).spec_width() == old(img).spec_width(),
        final (img).spec_height() == old(img).spec_height(),
        forall|i: int, j: int|
            0 <= i < old(img).spec_width() && 0 <= j < old(img).spec_height() && i == x && y0 <= j
                < y1 ==> #[trigger] final (img).pixel(i, j) == colour,
        forall|i: int, j: int|
            0 <= i < old(img).spec_width() && 0 <= j < old(img).spec_height() && !(i == x && y0 <= j
                < y1) ==> #[trigger] final (img).pixel(i, j) == old(img).pixel(i, j),
{
    let mut y: usize = y0;
    while y < y1
        invariant
            img.wf(),
            img.spec_width() == old(img).spec_width(),
            img.spec_height() == old(img).spec_height(),
            x < img.spec_width(),
            y0 <= y <= y1,
            y1 <= img.spec_height(),
            forall|i: int, j: int|
                0 <= i < old(img).spec_width() && 0 <= j < old(img).spec_height() && i == x && y0
                    <= j < y ==> #[trigger] img.pixel(i, j) == colour,
            forall|i: int, j: int|
                0 <= i < old(img).spec_width() && 0 <= j < old(img).spec_height() && !(i == x && y0
                    <= j < y) ==> #[trigger] img.pixel(i, j) == old(img).pixel(i, j),
        decreases y1 - y,
    {
        img.put_pixel(x, y, colour);
        y = y + 1;
    }
}

impl Rectangle {
    /// Strictly positive width and height.
    pub open spec fn wf(self) -> bool {
        self.top_left.x < self.bottom_right.x && self.top_left.y < self.bottom_right.y
    }

    pub open spec fn spec_width(self) -> int {
        self.bottom_right.x - self.top_left.x
    }

    pub open spec fn spec_height(self) -> int {
        self.bottom_right.y - self.top_left.y
    }

    /// The coordinate `(x, y)` lies in the rectangle; the bottom-right corner
    /// is exclusive.
    pub open spec fn covers(self, x: int, y: int) -> bool {
        &&& self.top_left.x <= x < self.bottom_right.x
        &&& self.top_left.y <= y < self.bottom_right.y
    }

    /// The rectangle with both corners moved outward by `n`, at the spec level.
    pub open spec fn spec_grow(self, n: int) -> Rectangle {
        Rectangle {
            top_left: Point {
                x: (self.top_left.x - n) as usize,
                y: (self.top_left.y - n) as usize,
            },
            bottom_right: Point {
                x: (self.bottom_right.x + n) as usize,
                y: (self.bottom_right.y + n) as usize,
            },
        }
    }

    /// The rectangle with both corners moved inward by `n`, at the spec level.
    pub open spec fn spec_shrink(self, n: int) -> Rectangle {
        Rectangle {
            top_left: Point {
                x: (self.top_left.x + n) as usize,
                y: (self.top_left.y + n) as usize,
            },
            bottom_right: Point {
                x: (self.bottom_right.x - n) as usize,
                y: (self.bottom_right.y - n) as usize,
            },
        }
    }

    /// `clamped_grow` at the spec level.
    pub open spec fn spec_clamped_grow(self, n: int, rect: Rectangle) -> Rectangle {
        Rectangle {
            top_left: Point {
                x: spec_clamp_sub(self.top_left.x as int, n, rect.top_left.x as int) as usize,
                y: spec_clamp_sub(self.top_left.y as int, n, rect.top_left.y as int) as usize,
            },
            bottom_right: Point {
                x: spec_clamp_add(self.bottom_right.x as int, n, rect.bottom_right.x as int) as usize,
                y: spec_clamp_add(self.bottom_right.y as int, n, rect.bottom_right.y as int) as usize,
            },
        }
    }

    /// `clamped_shrink` at the spec level.
    pub open spec fn spec_clamped_shrink(self, n: int, rect: Rectangle) -> Rectangle {
        Rectangle {
            top_left: Point {
                x: spec_clamp_add(self.top_left.x as int, n, rect.bottom_right.x as int) as usize,
                y: spec_clamp_add(self.top_left.y as int, n, rect.bottom_right.y as int) as usize,
            },
            bottom_right: Point {
                x: spec_clamp_sub(self.bottom_right.x as int, n, rect.top_left.x as int) as usize,
                y: spec_clamp_sub(self.bottom_right.y as int, n, rect.top_left.y as int) as usize,
            },
        }
    }

    /// `other` lies strictly in the interior of `self`.
    pub open spec fn spec_contains(self, other: Rectangle) -> bool {
        &&& self.top_left.x < other.top_left.x
        &&& self.top_left.y < other.top_left.y
        &&& self.bottom_right.x > other.bottom_right.x
        &&& self.bottom_right.y > other.bottom_right.y
    }

    pub fn new(top_left: Point, bottom_right: Point) -> (r: Self)
        requires
            top_left.x < bottom_right.x,
            top_left.y < bottom_right.y,
        ensures
            r == (Rectangle { top_left, bottom_right }),
    {
        Rectangle { top_left, bottom_right }
    }

    /// The rectangle from the origin to `(width, height)`.
    pub fn from_dimensions(width: usize, height: usize) -> (r: Self)
        requires
            width > 0,
            height > 0,
        ensures
            r == (Rectangle {
                top_left: Point { x: 0, y: 0 },
                bottom_right: Point { x: width, y: height },
            }),
    {
        Self::new(Point { x: 0, y: 0 }, Point { x: width, y: height })
    }

    pub fn top_left(&self) -> (p: Point)
        ensures
            p == self.top_left,
    {
        self.top_left
    }

    pub fn bottom_right(&self) -> (p: Point)
        ensures
            p == self.bottom_right,
    {
        self.bottom_right
    }

    /// The two corner points, top-left first.
    pub fn iter(&self) -> (v: Vec<Point>)
        ensures
            v@ == seq![self.top_left, self.bottom_right],
    {
        let mut v: Vec<Point> = Vec::new();
        v.push(self.top_left);
        v.push(self.bottom_right);
        proof {
            assert(v@ =~= seq![self.top_left, self.bottom_right]);
        }
        v
    }

    pub fn x_range(&self) -> (r: core::ops::Range<usize>)
        ensures
            r.start == self.top_left.x,
            r.end == self.bottom_right.x,
    {
        self.top_left.x..self.bottom_right.x
    }

    pub fn y_range(&self) -> (r: core::ops::Range<usize>)
        ensures
            r.start == self.top_left.y,
            r.end == self.bottom_right.y,
    {
        self.top_left.y..self.bottom_right.y
    }

    pub fn width(&self) -> (r: usize)
        requires
            self.wf(),
        ensures
            r == self.spec_width(),
    {
        self.bottom_right.x - self.top_left.x
    }

    pub fn height(&self) -> (r: usize)
        requires
            self.wf(),
        ensures
            r == self.spec_height(),
    {
        self.bottom_right.y - self.top_left.y
    }

    /// Both corners moved outward by `n`.
    pub fn grow(&self, n: usize) -> (r: Self)
        requires
            n <= self.top_left.x,
            n <= self.top_left.y,
            self.bottom_right.x + n <= usize::MAX,
            self.bottom_right.y + n <= usize::MAX,
            self.wf(),
        ensures
            r == (Rectangle {
                top_left: Point {
                    x: (self.top_left.x - n) as usize,
                    y: (self.top_left.y - n) as usize,
                },
                bottom_right: Point {
                    x: (self.bottom_right.x + n) as usize,
                    y: (self.bottom_right.y + n) as usize,
                },
            }),
    {
        Self::new(
            Point { x: self.top_left.x - n, y: self.top_left.y - n },
            Point { x: self.bottom_right.x + n, y: self.bottom_right.y + n },
        )
    }

    /// Both corners moved outward by `n`, each coordinate clamped so that it
    /// stays inside `rect`.
    pub fn clamped_grow(&self, n: usize, rect: &Rectangle) -> (r: Self)
        requires
            rect.bottom_right.x >= 1,
            rect.bottom_right.y >= 1,
            spec_clamp_sub(self.top_left.x as int, n as int, rect.top_left.x as int)
                < spec_clamp_add(self.bottom_right.x as int, n as int, rect.bottom_right.x as int),
            spec_clamp_sub(self.top_left.y as int, n as int, rect.top_left.y as int)
                < spec_clamp_add(self.bottom_right.y as int, n as int, rect.bottom_right.y as int),
        ensures
            r.top_left.x == spec_clamp_sub(self.top_left.x as int, n as int, rect.top_left.x as int),
            r.top_left.y == spec_clamp_sub(self.top_left.y as int, n as int, rect.top_left.y as int),
            r.bottom_right.x == spec_clamp_add(
                self.bottom_right.x as int,
                n as int,
                rect.bottom_right.x as int,
            ),
            r.bottom_right.y == spec_clamp_add(
                self.bottom_right.y as int,
                n as int,
                rect.bottom_right.y as int,
            ),
            r.wf(),
    {
        Self::new(
            Point {
                x: clamp_sub(self.top_left.x, n, rect.top_left.x),
                y: clamp_sub(self.top_left.y, n, rect.top_left.y),
            },
            Point {
                x: clamp_add(self.bottom_right.x, n, rect.bottom_right.x),
                y: clamp_add(self.bottom_right.y, n, rect.bottom_right.y),
            },
        )
    }

    /// Both corners moved inward by `n`.
    pub fn shrink(&self, n: usize) -> (r: Self)
        requires
            self.spec_width() > 2 * n,
            self.spec_height() > 2 * n,
        ensures
            r == (Rectangle {
                top_left: Point {
                    x: (self.top_left.x + n) as usize,
                    y: (self.top_left.y + n) as usize,
                },
                bottom_right: Point {
                    x: (self.bottom_right.x - n) as usize,
                    y: (self.bottom_right.y - n) as usize,
                },
            }),
    {
        Self::new(
            Point { x: self.top_left.x + n, y: self.top_left.y + n },
            Point { x: self.bottom_right.x - n, y: self.bottom_right.y - n },
        )
    }

    /// Both corners moved inward by `n`, each coordinate clamped so that it
    /// stays inside `rect`.
    pub fn clamped_shrink(&self, n: usize, rect: &Rectangle) -> (r: Self)
        requires
            rect.bottom_right.x >= 1,
            rect.bottom_right.y >= 1,
            spec_clamp_add(self.top_left.x as int, n as int, rect.bottom_right.x as int)
                < spec_clamp_sub(self.bottom_right.x as int, n as int, rect.top_left.x as int),
            spec_clamp_add(self.top_left.y as int, n as int, rect.bottom_right.y as int)
                < spec_clamp_sub(self.bottom_right.y as int, n as int, rect.top_left.y as int),
        ensures
            r.top_left.x == spec_clamp_add(
                self.top_left.x as int,
                n as int,
                rect.bottom_right.x as int,
            ),
            r.top_left.y == spec_clamp_add(
                self.top_left.y as int,
                n as int,
                rect.bottom_right.y as int,
            ),
            r.bottom_right.x == spec_clamp_sub(
                self.bottom_right.x as int,
                n as int,
                rect.top_left.x as int,
            ),
            r.bottom_right.y == spec_clamp_sub(
                self.bottom_right.y as int,
                n as int,
                rect.top_left.y as int,
            ),
            r.wf(),
    {
        Self::new(
            Point {
                x: clamp_add(self.top_left.x, n, rect.bottom_right.x),
                y: clamp_add(self.top_left.y, n, rect.bottom_right.y),
            },
            Point {
                x: clamp_sub(self.bottom_right.x, n, rect.top_left.x),
                y: clamp_sub(self.bottom_right.y, n, rect.top_left.y),
            },
        )
    }

    /// The coordinate `(x, y)` lies on one of the four border lines drawn by
    /// `draw`: the two horizontal lines at `top_left.y` and `bottom_right.y`,
    /// and the two vertical lines at `top_left.x` and `bottom_right.x`.
    pub open spec fn on_border(self, x: int, y: int) -> bool {
        ||| ((y == self.top_left.y || y == self.bottom_right.y) && self.top_left.x <= x
            < self.bottom_right.x)
        ||| ((x == self.top_left.x || x == self.bottom_right.x) && self.top_left.y <= y
            < self.bottom_right.y)
    }

    /// Draw the four border lines of the rectangle into `img`.
    pub fn draw(&self, img: &mut Frame, colour: Rgba)
        requires
            self.wf(),
            old(img).wf(),
            self.bottom_right.x < old(img).spec_width(),
            self.bottom_right.y < old(img).spec_height(),
        ensures
            final (img).wf(),
            final (img).spec_width() == old(img).spec_width(),
            final (img).spec_height() == old(img).spec_height(),
            forall|i: int, j: int|
                0 <= i < old(img).spec_width() && 0 <= j < old(img).spec_height()
                    && self.on_border(i, j) ==> #[trigger] final (img).pixel(i, j) == colour,
            forall|i: int, j: int|
                0 <= i < old(img).spec_width() && 0 <= j < old(img).spec_height()
                    && !self.on_border(i, j) ==> #[trigger] final (img).pixel(i, j) == old(
                    img,
                ).pixel(i, j),
    {
        draw_hline(img, self.top_left.y, self.top_left.x, self.bottom_right.x, colour);
        draw_hline(img, self.bottom_right.y, self.top_left.x, self.bottom_right.x, colour);
        draw_vline(img, self.top_left.x, self.top_left.y, self.bottom_right.y, colour);
        draw_vline(img, self.bottom_right.x, self.top_left.y, self.bottom_right.y, colour);
    }

    /// Strict containment: every corner of `other` lies strictly inside `self`.
    pub fn contains(&self, other: &Rectangle) -> (r: bool)
        ensures
            r == self.spec_contains(*other),
    {
        self.top_left.x < other.top_left.x && self.top_left.y < other.top_left.y
            && self.bottom_right.x > other.bottom_right.x
            && self.bottom_right.y > other.bottom_right.y
    }
}

/// A coordinate clamped downward never leaves `[min, max(value, min)]`: growing
/// a rectangle inside a bound can never move its top-left corner above the
/// bound's own top-left corner, however large `n` is.
pub proof fn lemma_clamp_sub_in_bound(value: int, n: int, min: int)
    requires
        n >= 0,
        min <= value,
    ensures
        min <= spec_clamp_sub(value, n, min) <= value,
{
}

/// A coordinate clamped upward never reaches `max`: growing a rectangle inside
/// a bound keeps its exclusive bottom-right corner at most at the bound's,
/// however large `n` is.
pub proof fn lemma_clamp_add_in_bound(value: int, n: int, max: int)
    requires
        n >= 0,
        value < max,
    ensures
        value <= spec_clamp_add(value, n, max) <= max - 1,
{
}

/// Clamped growing never produces a coordinate outside the bound rectangle,
/// for every `n`, including values far past the unclamped-safe range: the
/// result's corners stay within `[bound.top_left, bound.bottom_right)`.
pub proof fn lemma_clamped_grow_in_bound(s: Rectangle, n: usize, bound: Rectangle)
    requires
        bound.wf(),
        bound.top_left.x <= s.top_left.x,
        bound.top_left.y <= s.top_left.y,
        s.bottom_right.x <= bound.bottom_right.x,
        s.bottom_right.y <= bound.bottom_right.y,
    ensures
        bound.top_left.x <= spec_clamp_sub(s.top_left.x as int, n as int, bound.top_left.x as int)
            <= s.top_left.x,
        bound.top_left.y <= spec_clamp_sub(s.top_left.y as int, n as int, bound.top_left.y as int)
            <= s.top_left.y,
        spec_clamp_add(s.bottom_right.x as int, n as int, bound.bottom_right.x as int)
            <= bound.bottom_right.x - 1,
        spec_clamp_add(s.bottom_right.y as int, n as int, bound.bottom_right.y as int)
            <= bound.bottom_right.y - 1,
{
}

/// Clamped shrinking never produces a coordinate outside the bound rectangle,
/// for every `n`, including values far past the unclamped-safe range.
pub proof fn lemma_clamped_shrink_in_bound(s: Rectangle, n: usize, bound: Rectangle)
    requires
        bound.wf(),
        bound.top_left.x <= s.top_left.x,
        bound.top_left.y <= s.top_left.y,
        s.bottom_right.x <= bound.bottom_right.x,
        s.bottom_right.y <= bound.bottom_right.y,
    ensures
        spec_clamp_add(s.top_left.x as int, n as int, bound.bottom_right.x as int)
            <= bound.bottom_right.x - 1,
        spec_clamp_add(s.top_left.y as int, n as int, bound.bottom_right.y as int)
            <= bound.bottom_right.y - 1,
        bound.top_left.x <= spec_clamp_sub(s.bottom_right.x as int, n as int, bound.top_left.x as int),
        bound.top_left.y <= spec_clamp_sub(s.bottom_right.y as int, n as int, bound.top_left.y as int),
{
}

} // verus!
