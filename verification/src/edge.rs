//! Windowed Canny edge detection.
//!
//! A `Window` restricts the detector to a sub-region of the frame: either a
//! filled rectangle, or a frame-shaped ring (an outer rectangle minus the
//! interior of an inner rectangle), used to skip a card's interior when only
//! its border is of interest.
use vstd::prelude::*;

verus! {

use crate::data::{Point, Rectangle};
use crate::frame::{Frame, Rgba};

/// A restartable, finite source of pixel coordinates, yielded in a fixed
/// row-major order.
pub trait PointIter: Sized {
    spec fn wf(&self) -> bool;

    /// The points this iterator will still yield, in order.
    spec fn remaining(&self) -> Seq<Point>;

    fn next(&mut self) -> (r: Option<Point>)
        requires
            old(self).wf(),
        ensures
            final (self).wf(),
            old(self).remaining().len() == 0 ==> r is None && final (self).remaining() == old(self).remaining(),
            old(self).remaining().len() > 0 ==> r == Some(old(self).remaining()[0]) && final (self).remaining() == old(self).remaining().drop_first(),
    ;
}

/// A window within which the edge detection runs.
///
/// It produces two point sequences: the gradient extent (every coordinate
/// that needs the full 3x3 kernel evaluated) and the process extent (the
/// gradient extent inset by one pixel on all sides, so that non-maximum
/// suppression and hysteresis can read all eight neighbours).
pub trait Window: Sized {
    type Iter: PointIter;

    spec fn wf(&self) -> bool;

    /// The window can be inset by one pixel to form its process extent.
    spec fn process_wf(&self) -> bool;

    /// The points that need to be visited by the edge detection operator.
    spec fn gradient_seq(&self) -> Seq<Point>;

    /// The points that need to be visited by non-maximum suppression and
    /// hysteresis.
    spec fn process_seq(&self) -> Seq<Point>;

    /// The points that need to be visited by the edge detection operator.
    fn gradient(&self) -> (it: Self::Iter)
        requires
            self.wf(),
        ensures
            it.wf(),
            it.remaining() == self.gradient_seq(),
    ;

    /// The points that need to be visited by non-maximum suppression and
    /// hysteresis.
    fn process(&self) -> (it: Self::Iter)
        requires
            self.wf(),
            self.process_wf(),
        ensures
            it.wf(),
            it.remaining() == self.process_seq(),
    ;
}

/// All points of `rect`, row-major (y outer, x inner), top-left first.
pub open spec fn filled_seq(rect: Rectangle) -> Seq<Point> {
    Seq::new(
        (rect.spec_width() * rect.spec_height()) as nat,
        |k: int|
            Point {
                x: (rect.top_left.x + k % rect.spec_width()) as usize,
                y: (rect.top_left.y + k / rect.spec_width()) as usize,
            },
    )
}

/// The row-major position of `p` within `rect`.
pub open spec fn rect_index(rect: Rectangle, p: Point) -> int {
    (p.y - rect.top_left.y) * rect.spec_width() + (p.x - rect.top_left.x)
}

/// `filled_seq` lists exactly the points covered by the rectangle, and the
/// point at row-major position `rect_index(rect, p)` is `p` itself.
pub proof fn lemma_filled_seq_index(rect: Rectangle, p: Point)
    requires
        rect.wf(),
        rect.covers(p.x as int, p.y as int),
    ensures
        0 <= rect_index(rect, p) < filled_seq(rect).len(),
        filled_seq(rect)[rect_index(rect, p)] == p,
{
    let w = rect.spec_width();
    let dx = p.x - rect.top_left.x;
    let dy = p.y - rect.top_left.y;
    let k = rect_index(rect, p);
    crate::frame::lemma_row_major_bounds(dx, dy, w, rect.spec_height());
    vstd::arithmetic::div_mod::lemma_fundamental_div_mod_converse(k, w, dy, dx);
}

/// Simplest form of edge detection window: all points of one rectangle.
#[derive(Clone, Copy)]
pub struct RectangleWindow {
    pub rectangle: Rectangle,
}

impl RectangleWindow {
    /// The rectangle whose points the window yields.
    pub open spec fn spec_rectangle(self) -> Rectangle {
        self.rectangle
    }

    pub fn new(rectangle: Rectangle) -> (r: Self)
        ensures
            r.spec_rectangle() == rectangle,
    {
        RectangleWindow { rectangle }
    }
}

/// Iterator over the points of a `RectangleWindow`, row-major.
pub struct RectangleWindowIterator {
    pub rectangle: Rectangle,
    pub next: Option<Point>,
}

impl PointIter for RectangleWindowIterator {
    open spec fn wf(&self) -> bool {
        &&& self.rectangle.wf()
        &&& match self.next {
            None => true,
            Some(p) => self.rectangle.covers(p.x as int, p.y as int),
        }
    }

    open spec fn remaining(&self) -> Seq<Point> {
        match self.next {
            None => Seq::empty(),
            Some(p) => filled_seq(self.rectangle).skip(rect_index(self.rectangle, p)),
        }
    }

    fn next(&mut self) -> (r: Option<Point>) {
        match self.next {
            Some(next) => {
                proof {
                    lemma_filled_seq_index(self.rectangle, next);
                }
                let ghost s = filled_seq(self.rectangle);
                let ghost i = rect_index(self.rectangle, next);
                if next.x == self.rectangle.bottom_right.x - 1 {
                    if next.y == self.rectangle.bottom_right.y - 1 {
                        self.next = None;
                        proof {
                            assert(i == s.len() - 1) by {
                                assert((next.y - self.rectangle.top_left.y + 1)
                                    * self.rectangle.spec_width() == (next.y
                                    - self.rectangle.top_left.y) * self.rectangle.spec_width()
                                    + self.rectangle.spec_width()) by (nonlinear_arith);
                                assert(self.rectangle.spec_height() * self.rectangle.spec_width()
                                    == self.rectangle.spec_width() * self.rectangle.spec_height())
                                    by (nonlinear_arith);
                            }
                            assert(s.skip(i).drop_first() =~= Seq::<Point>::empty());
                        }
                    } else {
                        let q = Point { x: self.rectangle.top_left.x, y: next.y + 1 };
                        self.next = Some(q);
                        proof {
                            assert(rect_index(self.rectangle, q) == i + 1) by {
                                assert((next.y - self.rectangle.top_left.y + 1)
                                    * self.rectangle.spec_width() == (next.y
                                    - self.rectangle.top_left.y) * self.rectangle.spec_width()
                                    + self.rectangle.spec_width()) by (nonlinear_arith);
                            }
                            lemma_filled_seq_index(self.rectangle, q);
                            assert(s.skip(i).drop_first() =~= s.skip(i + 1));
                        }
                    }
                } else {
                    let q = Point { x: next.x + 1, y: next.y };
                    self.next = Some(q);
                    proof {
                        lemma_filled_seq_index(self.rectangle, q);
                        assert(s.skip(i).drop_first() =~= s.skip(i + 1));
                    }
                }
                Some(next)
            },
            None => None,
        }
    }
}

impl Window for RectangleWindow {
    type Iter = RectangleWindowIterator;

    open spec fn wf(&self) -> bool {
        self.rectangle.wf()
    }

    open spec fn process_wf(&self) -> bool {
        self.rectangle.spec_width() > 2 && self.rectangle.spec_height() > 2
    }

    open spec fn gradient_seq(&self) -> Seq<Point> {
        filled_seq(self.rectangle)
    }

    open spec fn process_seq(&self) -> Seq<Point> {
        filled_seq(self.rectangle.spec_shrink(1))
    }

    fn gradient(&self) -> (it: RectangleWindowIterator) {
        let next = self.rectangle.top_left();
        let it = RectangleWindowIterator { rectangle: self.rectangle, next: Some(next) };
        proof {
            assert(it.remaining() =~= self.gradient_seq());
        }
        it
    }

    fn process(&self) -> (it: RectangleWindowIterator) {
        let rectangle = self.rectangle.shrink(1);
        let next = rectangle.top_left();
        let it = RectangleWindowIterator { rectangle, next: Some(next) };
        proof {
            assert(rectangle == self.rectangle.spec_shrink(1));
            assert(next == rectangle.top_left);
            assert((next.y - rectangle.top_left.y) * rectangle.spec_width() == 0) by (nonlinear_arith)
                requires
                    next.y == rectangle.top_left.y,
            ;
            assert(rect_index(rectangle, next) == 0);
            assert(filled_seq(rectangle).skip(0) =~= filled_seq(rectangle));
            assert(it.remaining() =~= self.process_seq());
        }
        it
    }
}

/// The points `(x0, y) .. (x1, y)`, left to right; empty when `x1 <= x0`.
pub open spec fn row_pts(x0: int, x1: int, y: int) -> Seq<Point> {
    Seq::new(
        if x1 > x0 {
            (x1 - x0) as nat
        } else {
            0
        },
        |k: int| Point { x: (x0 + k) as usize, y: y as usize },
    )
}

/// A detection window shaped like a window frame: all points of the outer
/// rectangle that do not lie in the interior of the inner rectangle.
#[derive(Clone, Copy)]
pub struct RectangleInRectangleWindow {
    pub outer: Rectangle,
    pub inner: Rectangle,
}

impl RectangleInRectangleWindow {
    /// Create a new window-frame shaped detection window.
    pub fn new(outer: Rectangle, inner: Rectangle) -> (r: Self)
        requires
            outer.wf(),
            inner.wf(),
            outer.spec_contains(inner),
        ensures
            r == (RectangleInRectangleWindow { outer, inner }),
    {
        Self { outer, inner }
    }

    /// Return the inner rectangle.
    pub fn inner(&self) -> (r: Rectangle)
        ensures
            r == self.inner,
    {
        self.inner
    }

    /// Return the outer rectangle.
    pub fn outer(&self) -> (r: Rectangle)
        ensures
            r == self.outer,
    {
        self.outer
    }

    /// `(x, y)` lies in the ring: inside the outer rectangle but not inside
    /// the inner one.
    pub open spec fn in_ring(self, x: int, y: int) -> bool {
        self.outer.covers(x, y) && !self.inner.covers(x, y)
    }

    /// The ring points of row `y`, left to right.
    pub open spec fn row_seq(self, y: int) -> Seq<Point> {
        if self.inner.top_left.y <= y < self.inner.bottom_right.y {
            row_pts(self.outer.top_left.x as int, self.inner.top_left.x as int, y) + row_pts(
                self.inner.bottom_right.x as int,
                self.outer.bottom_right.x as int,
                y,
            )
        } else {
            row_pts(self.outer.top_left.x as int, self.outer.bottom_right.x as int, y)
        }
    }

    /// The ring points of rows `y` and below, row-major.
    pub open spec fn rows_from(self, y: int) -> Seq<Point>
        decreases self.outer.bottom_right.y - y,
    {
        if y >= self.outer.bottom_right.y {
            Seq::empty()
        } else {
            self.row_seq(y) + self.rows_from(y + 1)
        }
    }

    /// All ring points, row-major, top-left first.
    pub open spec fn points(self) -> Seq<Point> {
        self.rows_from(self.outer.top_left.y as int)
    }

    /// The ring points of `p`'s own row from `p` rightwards.
    pub open spec fn row_rest(self, p: Point) -> Seq<Point> {
        if self.inner.top_left.y <= p.y < self.inner.bottom_right.y && p.x
            < self.inner.top_left.x {
            row_pts(p.x as int, self.inner.top_left.x as int, p.y as int) + row_pts(
                self.inner.bottom_right.x as int,
                self.outer.bottom_right.x as int,
                p.y as int,
            )
        } else {
            row_pts(p.x as int, self.outer.bottom_right.x as int, p.y as int)
        }
    }

    /// The ring points from `p` onwards, row-major.
    pub open spec fn remaining_at(self, p: Point) -> Seq<Point> {
        self.row_rest(p) + self.rows_from(p.y + 1)
    }

    /// The window derived for non-maximum suppression and hysteresis: the
    /// outer rectangle inset by one, the inner one grown by one.
    pub open spec fn spec_process_window(self) -> Self {
        RectangleInRectangleWindow {
            outer: self.outer.spec_shrink(1),
            inner: self.inner.spec_grow(1),
        }
    }
}

/// `row_pts` lists exactly the points of row `y` with `x0 <= x < x1`.
pub proof fn lemma_row_pts_membership(x0: int, x1: int, y: int, p: Point)
    requires
        0 <= x0,
        0 <= y,
        x1 <= usize::MAX,
        y <= usize::MAX,
    ensures
        row_pts(x0, x1, y).contains(p) <==> (x0 <= p.x < x1 && p.y == y),
{
    let s = row_pts(x0, x1, y);
    if s.contains(p) {
        let k = choose|k: int| 0 <= k < s.len() && s[k] == p;
        assert(p.x == x0 + k && p.y == y);
    }
    if x0 <= p.x < x1 && p.y == y {
        assert(s.contains(p)) by {
            assert(s[p.x - x0] == p);
        }
    }
}

/// The ring points of rows `y0` and below are exactly the ring points whose
/// row is at least `y0`.
pub proof fn lemma_ring_membership(w: RectangleInRectangleWindow, y0: int, p: Point)
    requires
        w.outer.wf(),
        w.inner.wf(),
        w.outer.spec_contains(w.inner),
        y0 >= w.outer.top_left.y,
    ensures
        w.rows_from(y0).contains(p) <==> (w.in_ring(p.x as int, p.y as int) && p.y >= y0),
    decreases w.outer.bottom_right.y - y0,
{
    if y0 >= w.outer.bottom_right.y {
        // the sequence is empty, and no ring point has a row this far down
    } else {
        lemma_ring_membership(w, y0 + 1, p);
        let row = w.row_seq(y0);
        assert(row.contains(p) <==> (w.in_ring(p.x as int, p.y as int) && p.y == y0)) by {
            if w.inner.top_left.y <= y0 < w.inner.bottom_right.y {
                let a = row_pts(w.outer.top_left.x as int, w.inner.top_left.x as int, y0);
                let b = row_pts(
                    w.inner.bottom_right.x as int,
                    w.outer.bottom_right.x as int,
                    y0,
                );
                vstd::seq_lib::lemma_seq_concat_contains_all_elements(a, b, p);
                lemma_row_pts_membership(
                    w.outer.top_left.x as int,
                    w.inner.top_left.x as int,
                    y0,
                    p,
                );
                lemma_row_pts_membership(
                    w.inner.bottom_right.x as int,
                    w.outer.bottom_right.x as int,
                    y0,
                    p,
                );
            } else {
                lemma_row_pts_membership(
                    w.outer.top_left.x as int,
                    w.outer.bottom_right.x as int,
                    y0,
                    p,
                );
            }
        }
        assert(w.rows_from(y0) == row + w.rows_from(y0 + 1));
        vstd::seq_lib::lemma_seq_concat_contains_all_elements(row, w.rows_from(y0 + 1), p);
    }
}

/// Every point the window yields lies in its ring.
pub proof fn lemma_ring_points_in_ring(w: RectangleInRectangleWindow)
    requires
        w.outer.wf(),
        w.inner.wf(),
        w.outer.spec_contains(w.inner),
    ensures
        forall|k: int|
            0 <= k < w.points().len() ==> w.in_ring(
                #[trigger] w.points()[k].x as int,
                w.points()[k].y as int,
            ),
{
    assert forall|k: int| 0 <= k < w.points().len() implies w.in_ring(
        #[trigger] w.points()[k].x as int,
        w.points()[k].y as int,
    ) by {
        let p = w.points()[k];
        assert(w.points().contains(p)) by {
            assert(w.points()[k] == p);
        }
        lemma_ring_membership(w, w.outer.top_left.y as int, p);
    }
}

/// The number of ring rows at or below row `y` that overlap the inner
/// rectangle.
pub open spec fn inner_rows_below(w: RectangleInRectangleWindow, y: int) -> int {
    if y >= w.inner.bottom_right.y {
        0
    } else if y >= w.inner.top_left.y {
        w.inner.bottom_right.y - y
    } else {
        w.inner.bottom_right.y - w.inner.top_left.y
    }
}

proof fn lemma_ring_rows_len(w: RectangleInRectangleWindow, y: int)
    requires
        w.outer.wf(),
        w.inner.wf(),
        w.outer.spec_contains(w.inner),
        y <= w.outer.bottom_right.y,
    ensures
        w.rows_from(y).len() == (w.outer.bottom_right.y - y) * w.outer.spec_width()
            - inner_rows_below(w, y) * w.inner.spec_width(),
    decreases w.outer.bottom_right.y - y,
{
    let wo = w.outer.spec_width();
    let wi = w.inner.spec_width();
    if y >= w.outer.bottom_right.y {
        assert((w.outer.bottom_right.y - y) * wo == 0) by (nonlinear_arith)
            requires
                w.outer.bottom_right.y - y == 0,
        ;
    } else {
        lemma_ring_rows_len(w, y + 1);
        assert((w.outer.bottom_right.y - y) * wo == (w.outer.bottom_right.y - (y + 1)) * wo + wo)
            by (nonlinear_arith);
        if w.inner.top_left.y <= y < w.inner.bottom_right.y {
            assert(w.row_seq(y).len() == wo - wi);
            assert(inner_rows_below(w, y) * wi == inner_rows_below(w, y + 1) * wi + wi)
                by (nonlinear_arith)
                requires
                    inner_rows_below(w, y) == inner_rows_below(w, y + 1) + 1,
            ;
        } else {
            assert(w.row_seq(y).len() == wo);
            assert(inner_rows_below(w, y) == inner_rows_below(w, y + 1));
        }
    }
}

/// The gradient extent of a frame-shaped window holds exactly
/// outer-area-minus-inner-area many points.
pub proof fn lemma_ring_point_count(w: RectangleInRectangleWindow)
    requires
        w.outer.wf(),
        w.inner.wf(),
        w.outer.spec_contains(w.inner),
    ensures
        w.points().len() == w.outer.spec_width() * w.outer.spec_height() - w.inner.spec_width()
            * w.inner.spec_height(),
{
    let y0 = w.outer.top_left.y as int;
    lemma_ring_rows_len(w, y0);
    assert((w.outer.bottom_right.y - y0) * w.outer.spec_width() == w.outer.spec_width()
        * w.outer.spec_height()) by (nonlinear_arith)
        requires
            w.outer.bottom_right.y - y0 == w.outer.spec_height(),
    ;
    assert(inner_rows_below(w, y0) * w.inner.spec_width() == w.inner.spec_width()
        * w.inner.spec_height()) by (nonlinear_arith)
        requires
            inner_rows_below(w, y0) == w.inner.spec_height(),
    ;
}

/// Iterator over the ring points of a `RectangleInRectangleWindow`.
pub struct RectangleInRectangleWindowIterator {
    pub window: RectangleInRectangleWindow,
    pub next: Option<Point>,
}

impl PointIter for RectangleInRectangleWindowIterator {
    open spec fn wf(&self) -> bool {
        &&& self.window.outer.wf()
        &&& self.window.inner.wf()
        &&& self.window.outer.spec_contains(self.window.inner)
        &&& match self.next {
            None => true,
            Some(p) => self.window.in_ring(p.x as int, p.y as int),
        }
    }

    open spec fn remaining(&self) -> Seq<Point> {
        match self.next {
            None => Seq::empty(),
            Some(p) => self.window.remaining_at(p),
        }
    }

    fn next(&mut self) -> (r: Option<Point>) {
        let ghost w = self.window;
        match self.next {
            Some(next) => {
                if next.x == self.window.inner.top_left.x - 1 && next.y
                    >= self.window.inner.top_left.y && next.y < self.window.inner.bottom_right.y {
                    let q = Point { x: self.window.inner.bottom_right.x, y: next.y };
                    self.next = Some(q);
                    proof {
                        assert(w.row_rest(next)[0] == next);
                        assert(w.remaining_at(next).drop_first() =~= w.remaining_at(q));
                    }
                } else if next.x == self.window.outer.bottom_right.x - 1 {
                    if next.y == self.window.outer.bottom_right.y - 1 {
                        self.next = None;
                        proof {
                            assert(w.row_rest(next)[0] == next);
                            assert(w.remaining_at(next).drop_first() =~= Seq::<Point>::empty());
                        }
                    } else {
                        let q = Point { x: self.window.outer.top_left.x, y: next.y + 1 };
                        self.next = Some(q);
                        proof {
                            assert(w.row_rest(next)[0] == next);
                            assert(w.rows_from(next.y + 1) == w.row_seq(next.y + 1) + w.rows_from(
                                next.y + 2,
                            ));
                            assert(w.remaining_at(next).drop_first() =~= w.remaining_at(q));
                        }
                    }
                } else {
                    let q = Point { x: next.x + 1, y: next.y };
                    self.next = Some(q);
                    proof {
                        assert(w.row_rest(next)[0] == next);
                        assert(w.remaining_at(next).drop_first() =~= w.remaining_at(q));
                    }
                }
                Some(next)
            },
            None => None,
        }
    }
}

impl Window for RectangleInRectangleWindow {
    type Iter = RectangleInRectangleWindowIterator;

    open spec fn wf(&self) -> bool {
        self.outer.wf() && self.inner.wf() && self.outer.spec_contains(self.inner)
    }

    /// The process window (outer inset by one, inner grown by one) must again
    /// be a well-formed ring: a margin of at least three pixels between the
    /// inner and the outer rectangle on every side.
    open spec fn process_wf(&self) -> bool {
        &&& self.outer.top_left.x + 1 < self.inner.top_left.x - 1
        &&& self.outer.top_left.y + 1 < self.inner.top_left.y - 1
        &&& self.inner.bottom_right.x + 1 < self.outer.bottom_right.x - 1
        &&& self.inner.bottom_right.y + 1 < self.outer.bottom_right.y - 1
    }

    open spec fn gradient_seq(&self) -> Seq<Point> {
        self.points()
    }

    open spec fn process_seq(&self) -> Seq<Point> {
        self.spec_process_window().points()
    }

    fn gradient(&self) -> (it: RectangleInRectangleWindowIterator) {
        let next = self.outer.top_left();
        let it = RectangleInRectangleWindowIterator { window: *self, next: Some(next) };
        proof {
            assert(self.rows_from(self.outer.top_left.y as int) == self.row_seq(
                self.outer.top_left.y as int,
            ) + self.rows_from(self.outer.top_left.y + 1));
            assert(it.remaining() =~= self.gradient_seq());
        }
        it
    }

    fn process(&self) -> (it: RectangleInRectangleWindowIterator) {
        let window = RectangleInRectangleWindow {
            outer: self.outer.shrink(1),
            inner: self.inner.grow(1),
        };
        let next = window.outer.top_left();
        let it = RectangleInRectangleWindowIterator { window, next: Some(next) };
        proof {
            assert(window == self.spec_process_window());
            assert(window.rows_from(window.outer.top_left.y as int) == window.row_seq(
                window.outer.top_left.y as int,
            ) + window.rows_from(window.outer.top_left.y + 1));
            assert(it.remaining() =~= self.process_seq());
        }
        it
    }
}

/// A coordinate clamped to `[0, n - 1]`: out-of-frame kernel samples repeat
/// the border pixel.
pub open spec fn clip_coord(v: int, n: int) -> int {
    if v < 0 {
        0
    } else if v >= n {
        n - 1
    } else {
        v
    }
}

/// The grayscale sample at `(x, y)`, with out-of-range coordinates clamped to
/// the border (replicate-border sampling).
pub open spec fn sample(gray: Seq<u8>, w: int, h: int, x: int, y: int) -> int {
    gray[clip_coord(y, h) * w + clip_coord(x, w)] as int
}

/// The response of the 3x3 horizontal Sobel kernel
/// `[-1, 0, 1; -2, 0, 2; -1, 0, 1]` at `(x, y)`.
pub open spec fn sobel_h(gray: Seq<u8>, w: int, h: int, x: int, y: int) -> int {
    sample(gray, w, h, x + 1, y - 1) + 2 * sample(gray, w, h, x + 1, y) + sample(
        gray,
        w,
        h,
        x + 1,
        y + 1,
    ) - sample(gray, w, h, x - 1, y - 1) - 2 * sample(gray, w, h, x - 1, y) - sample(
        gray,
        w,
        h,
        x - 1,
        y + 1,
    )
}

/// The response of the 3x3 vertical Sobel kernel
/// `[-1, -2, -1; 0, 0, 0; 1, 2, 1]` at `(x, y)`.
pub open spec fn sobel_v(gray: Seq<u8>, w: int, h: int, x: int, y: int) -> int {
    sample(gray, w, h, x - 1, y + 1) + 2 * sample(gray, w, h, x, y + 1) + sample(
        gray,
        w,
        h,
        x + 1,
        y + 1,
    ) - sample(gray, w, h, x - 1, y - 1) - 2 * sample(gray, w, h, x, y - 1) - sample(
        gray,
        w,
        h,
        x + 1,
        y - 1,
    )
}

/// A value saturated to the signed 16-bit range.
pub open spec fn clamp_i16(v: int) -> int {
    if v >= 32767 {
        32767
    } else if v <= -32768 {
        -32768
    } else {
        v
    }
}

/// The saturated horizontal gradient at `(x, y)`.
pub open spec fn grad_h(gray: Seq<u8>, w: int, h: int, x: int, y: int) -> int {
    clamp_i16(sobel_h(gray, w, h, x, y))
}

/// The saturated vertical gradient at `(x, y)`.
pub open spec fn grad_v(gray: Seq<u8>, w: int, h: int, x: int, y: int) -> int {
    clamp_i16(sobel_v(gray, w, h, x, y))
}

/// The squared gradient magnitude at `(x, y)`.
pub open spec fn grad_mag2(gray: Seq<u8>, w: int, h: int, x: int, y: int) -> int {
    grad_h(gray, w, h, x, y) * grad_h(gray, w, h, x, y) + grad_v(gray, w, h, x, y) * grad_v(
        gray,
        w,
        h,
        x,
        y,
    )
}

/// The point with row-major index `i` in a raster of width `w`.
pub open spec fn idx_point(w: int, i: int) -> Point {
    Point { x: (i % w) as usize, y: (i / w) as usize }
}

/// The row-major index of point `p` in a raster of width `w`.
pub open spec fn pidx(w: int, p: Point) -> int {
    p.y * w + p.x
}

/// The squared-magnitude buffer after the gradient pass: the Sobel magnitude
/// at every point of the window's gradient extent, zero everywhere else.
pub open spec fn mag_seq(pts: Seq<Point>, gray: Seq<u8>, w: int, h: int) -> Seq<u64> {
    Seq::new(
        (w * h) as nat,
        |i: int|
            if pts.contains(idx_point(w, i)) {
                grad_mag2(gray, w, h, i % w, i / w) as u64
            } else {
                0u64
            },
    )
}

fn clipped(v: usize, delta: usize, n: usize) -> (r: usize)
    requires
        delta <= 2,
        v + 2 <= usize::MAX,
        n >= 1,
    ensures
        r == clip_coord(v + delta - 1, n as int),
        r < n,
{
    let t = v + delta;
    if t == 0 {
        0
    } else if t - 1 >= n {
        n - 1
    } else {
        t - 1
    }
}

fn sample_at(image: &Vec<u8>, width: usize, height: usize, x: usize, y: usize) -> (r: u8)
    requires
        x < width,
        y < height,
        image.len() == width * height,
    ensures
        r == image@[y * width + x],
{
    proof {
        crate::frame::lemma_row_major_bounds(x as int, y as int, width as int, height as int);
    }
    image[y * width + x]
}

/// Saturate a kernel response to the signed 16-bit range.
#[inline]
fn clamp(x: i32) -> (r: i16)
    ensures
        r == clamp_i16(x as int),
{
    if x < i16::MAX as i32 {
        if x > i16::MIN as i32 {
            x as i16
        } else {
            i16::MIN
        }
    } else {
        i16::MAX
    }
}


proof fn lemma_gradient_step(
    total: Seq<Point>,
    width: usize,
    height: usize,
    image: Seq<u8>,
    h0: Seq<i16>,
    v0: Seq<i16>,
    o0: Seq<u64>,
    h1: Seq<i16>,
    v1: Seq<i16>,
    o1: Seq<u64>,
    done: int,
    hv: i16,
    vv: i16,
    m2: u64,
)
    requires
        0 <= done < total.len(),
        forall|k: int|
            0 <= k < total.len() ==> (#[trigger] total[k]).x < width && total[k].y < height,
        forall|k: int|
            0 <= k < done ==> h0[pidx(width as int, #[trigger] total[k])] == grad_h(
                image,
                width as int,
                height as int,
                total[k].x as int,
                total[k].y as int,
            ) && v0[pidx(width as int, total[k])] == grad_v(
                image,
                width as int,
                height as int,
                total[k].x as int,
                total[k].y as int,
            ) && o0[pidx(width as int, total[k])] == grad_mag2(
                image,
                width as int,
                height as int,
                total[k].x as int,
                total[k].y as int,
            ),
        hv == grad_h(image, width as int, height as int, total[done].x as int, total[done].y as int),
        vv == grad_v(image, width as int, height as int, total[done].x as int, total[done].y as int),
        m2 == grad_mag2(
            image,
            width as int,
            height as int,
            total[done].x as int,
            total[done].y as int,
        ),
        h0.len() == width * height,
        v0.len() == width * height,
        o0.len() == width * height,
        h1 == h0.update(pidx(width as int, total[done]), hv),
        v1 == v0.update(pidx(width as int, total[done]), vv),
        o1 == o0.update(pidx(width as int, total[done]), m2),
    ensures
        forall|k: int|
            0 <= k < done + 1 ==> h1[pidx(width as int, #[trigger] total[k])] == grad_h(
                image,
                width as int,
                height as int,
                total[k].x as int,
                total[k].y as int,
            ) && v1[pidx(width as int, total[k])] == grad_v(
                image,
                width as int,
                height as int,
                total[k].x as int,
                total[k].y as int,
            ) && o1[pidx(width as int, total[k])] == grad_mag2(
                image,
                width as int,
                height as int,
                total[k].x as int,
                total[k].y as int,
            ),
        forall|i: int| 0 <= i < width * height && i != pidx(width as int, total[done]) ==> h1[i] == h0[i] && v1[i] == v0[i] && o1[i] == o0[i],
{
    let w = width as int;
    let p = total[done];
    crate::frame::lemma_row_major_bounds(p.x as int, p.y as int, w, height as int);
    assert forall|k: int| 0 <= k < done + 1 implies (h1[pidx(w, #[trigger] total[k])] == grad_h(
        image,
        w,
        height as int,
        total[k].x as int,
        total[k].y as int,
    ) && v1[pidx(w, total[k])] == grad_v(
        image,
        w,
        height as int,
        total[k].x as int,
        total[k].y as int,
    ) && o1[pidx(w, total[k])] == grad_mag2(
        image,
        w,
        height as int,
        total[k].x as int,
        total[k].y as int,
    )) by {
        let q = total[k];
        crate::frame::lemma_row_major_bounds(q.x as int, q.y as int, w, height as int);
        if k < done && pidx(w, q) == pidx(w, p) {
            crate::frame::lemma_row_major_injective(q.x as int, q.y as int, p.x as int, p.y as int, w);
        }
    }
}

/// Apply both Sobel kernels at every point of the window's gradient extent,
/// storing the saturated responses and their squared magnitude.
#[verifier::rlimit(60)]
fn gradient<T: Window>(
    width: usize,
    height: usize,
    image: &Vec<u8>,
    hout: &mut Vec<i16>,
    vout: &mut Vec<i16>,
    out: &mut Vec<u64>,
    window: &T,
)
    requires
        window.wf(),
        width >= 1,
        height >= 1,
        width * height * 4 <= usize::MAX,
        image.len() == width * height,
        old(hout).len() == width * height,
        old(vout).len() == width * height,
        old(out).len() == width * height,
        forall|k: int|
            0 <= k < window.gradient_seq().len() ==> (#[trigger] window.gradient_seq()[k]).x
                < width && window.gradient_seq()[k].y < height,
    ensures
        final (hout).len() == width * height,
        final (vout).len() == width * height,
        final (out).len() == width * height,
        forall|k: int|
            0 <= k < window.gradient_seq().len() ==> final (hout)@[pidx(
                width as int,
                #[trigger] window.gradient_seq()[k],
            )] == grad_h(
                image@,
                width as int,
                height as int,
                window.gradient_seq()[k].x as int,
                window.gradient_seq()[k].y as int,
            ) && final (vout)@[pidx(width as int, window.gradient_seq()[k])] == grad_v(
                image@,
                width as int,
                height as int,
                window.gradient_seq()[k].x as int,
                window.gradient_seq()[k].y as int,
            ) && final (out)@[pidx(width as int, window.gradient_seq()[k])] == grad_mag2(
                image@,
                width as int,
                height as int,
                window.gradient_seq()[k].x as int,
                window.gradient_seq()[k].y as int,
            ),
        forall|i: int|
            0 <= i < width * height && !window.gradient_seq().contains(idx_point(width as int, i))
                ==> final (hout)@[i] == old(hout)@[i] && final (vout)@[i] == old(vout)@[i]
                && final (out)@[i] == old(out)@[i],
{
    let ghost total = window.gradient_seq();
    let ghost w = width as int;
    let ghost h = height as int;
    let mut it = window.gradient();
    let ghost mut done: int = 0;
    loop
        invariant
            it.wf(),
            0 <= done <= total.len(),
            it.remaining() == total.skip(done),
            width >= 1,
            height >= 1,
            width * height * 4 <= usize::MAX,
            image.len() == width * height,
            hout.len() == width * height,
            vout.len() == width * height,
            out.len() == width * height,
            total == window.gradient_seq(),
            w == width as int,
            h == height as int,
            forall|k: int|
                0 <= k < total.len() ==> (#[trigger] total[k]).x < width && total[k].y < height,
            forall|k: int|
                0 <= k < done ==> hout@[pidx(w, #[trigger] total[k])] == grad_h(
                    image@,
                    w,
                    h,
                    total[k].x as int,
                    total[k].y as int,
                ) && vout@[pidx(w, total[k])] == grad_v(
                    image@,
                    w,
                    h,
                    total[k].x as int,
                    total[k].y as int,
                ) && out@[pidx(w, total[k])] == grad_mag2(
                    image@,
                    w,
                    h,
                    total[k].x as int,
                    total[k].y as int,
                ),
            forall|i: int|
                0 <= i < width * height && !total.contains(idx_point(w, i)) ==> hout@[i] == old(
                    hout,
                )@[i] && vout@[i] == old(vout)@[i] && out@[i] == old(out)@[i],
        ensures
            done == total.len(),
            hout.len() == width * height,
            vout.len() == width * height,
            out.len() == width * height,
            forall|k: int|
                0 <= k < done ==> hout@[pidx(w, #[trigger] total[k])] == grad_h(
                    image@,
                    w,
                    h,
                    total[k].x as int,
                    total[k].y as int,
                ) && vout@[pidx(w, total[k])] == grad_v(
                    image@,
                    w,
                    h,
                    total[k].x as int,
                    total[k].y as int,
                ) && out@[pidx(w, total[k])] == grad_mag2(
                    image@,
                    w,
                    h,
                    total[k].x as int,
                    total[k].y as int,
                ),
            forall|i: int|
                0 <= i < width * height && !total.contains(idx_point(w, i)) ==> hout@[i] == old(
                    hout,
                )@[i] && vout@[i] == old(vout)@[i] && out@[i] == old(out)@[i],
        decreases it.remaining().len(),
    {
        let next = it.next();
        match next {
            None => {
                proof {
                    assert(done == total.len());
                }
                break ;
            },
            Some(p) => {
                proof {
                    assert(p == total[done]);
                    assert(it.remaining() =~= total.skip(done + 1));
                    assert(width * 4 <= width * height * 4 && height * 4 <= width * height * 4)
                        by (nonlinear_arith)
                        requires
                            width >= 1,
                            height >= 1,
                    ;
                }
                let xm = clipped(p.x, 0, width);
                let x0 = clipped(p.x, 1, width);
                let xp = clipped(p.x, 2, width);
                let ym = clipped(p.y, 0, height);
                let y0 = clipped(p.y, 1, height);
                let yp = clipped(p.y, 2, height);
                let s_mm = sample_at(image, width, height, xm, ym) as i32;
                let s_0m = sample_at(image, width, height, x0, ym) as i32;
                let s_pm = sample_at(image, width, height, xp, ym) as i32;
                let s_m0 = sample_at(image, width, height, xm, y0) as i32;
                let s_p0 = sample_at(image, width, height, xp, y0) as i32;
                let s_mp = sample_at(image, width, height, xm, yp) as i32;
                let s_0p = sample_at(image, width, height, x0, yp) as i32;
                let s_pp = sample_at(image, width, height, xp, yp) as i32;
                let hacc: i32 = s_pm + 2 * s_p0 + s_pp - s_mm - 2 * s_m0 - s_mp;
                let vacc: i32 = s_mp + 2 * s_0p + s_pp - s_mm - 2 * s_0m - s_pm;
                let hv = clamp(hacc);
                let vv = clamp(vacc);
                proof {
                    assert(0 <= (hv as int) * (hv as int) <= 0x4000_0000) by (nonlinear_arith)
                        requires
                            -0x8000 <= hv <= 0x7fff,
                    ;
                    assert(0 <= (vv as int) * (vv as int) <= 0x4000_0000) by (nonlinear_arith)
                        requires
                            -0x8000 <= vv <= 0x7fff,
                    ;
                }
                let m2: u64 = ((hv as i64) * (hv as i64) + (vv as i64) * (vv as i64)) as u64;
                proof {
                    assert(s_mm == sample(image@, w, h, p.x - 1, p.y - 1));
                    assert(s_0m == sample(image@, w, h, p.x as int, p.y - 1));
                    assert(s_pm == sample(image@, w, h, p.x + 1, p.y - 1));
                    assert(s_m0 == sample(image@, w, h, p.x - 1, p.y as int));
                    assert(s_p0 == sample(image@, w, h, p.x + 1, p.y as int));
                    assert(s_mp == sample(image@, w, h, p.x - 1, p.y + 1));
                    assert(s_0p == sample(image@, w, h, p.x as int, p.y + 1));
                    assert(s_pp == sample(image@, w, h, p.x + 1, p.y + 1));
                    assert(hacc == sobel_h(image@, w, h, p.x as int, p.y as int));
                    assert(vacc == sobel_v(image@, w, h, p.x as int, p.y as int));
                    assert(hv == grad_h(image@, w, h, p.x as int, p.y as int));
                    assert(vv == grad_v(image@, w, h, p.x as int, p.y as int));
                    assert(m2 == grad_mag2(image@, w, h, p.x as int, p.y as int));
                    crate::frame::lemma_row_major_bounds(p.x as int, p.y as int, w, h);
                }
                let ghost h0 = hout@;
                let ghost v0 = vout@;
                let ghost o0 = out@;
                let i = p.y * width + p.x;
                hout.set(i, hv);
                vout.set(i, vv);
                out.set(i, m2);
                proof {
                    vstd::arithmetic::div_mod::lemma_fundamental_div_mod_converse(
                        i as int,
                        w,
                        p.y as int,
                        p.x as int,
                    );
                    assert(total.contains(idx_point(w, i as int))) by {
                        assert(total[done] == idx_point(w, i as int));
                    }
                    lemma_gradient_step(
                        total,
                        width,
                        height,
                        image@,
                        h0,
                        v0,
                        o0,
                        hout@,
                        vout@,
                        out@,
                        done,
                        hv,
                        vv,
                        m2,
                    );
                    done = done + 1;
                }
            },
        }
    }
    proof {
        assert forall|k: int| 0 <= k < window.gradient_seq().len() implies (hout@[pidx(
            width as int,
            #[trigger] window.gradient_seq()[k],
        )] == grad_h(
            image@,
            width as int,
            height as int,
            window.gradient_seq()[k].x as int,
            window.gradient_seq()[k].y as int,
        ) && vout@[pidx(width as int, window.gradient_seq()[k])] == grad_v(
            image@,
            width as int,
            height as int,
            window.gradient_seq()[k].x as int,
            window.gradient_seq()[k].y as int,
        ) && out@[pidx(width as int, window.gradient_seq()[k])] == grad_mag2(
            image@,
            width as int,
            height as int,
            window.gradient_seq()[k].x as int,
            window.gradient_seq()[k].y as int,
        )) by {
            assert(total[k] == window.gradient_seq()[k]);
            assert(hout@[pidx(width as int, total[k])] == grad_h(
                image@,
                width as int,
                height as int,
                total[k].x as int,
                total[k].y as int,
            ));
            assert(vout@[pidx(width as int, total[k])] == grad_v(
                image@,
                width as int,
                height as int,
                total[k].x as int,
                total[k].y as int,
            ));
            assert(out@[pidx(width as int, total[k])] == grad_mag2(
                image@,
                width as int,
                height as int,
                total[k].x as int,
                total[k].y as int,
            ));
        }
    }
}

/// One of the four 45-degree bands of the gradient angle, folded into
/// `[0, 180)` degrees.
#[derive(Clone, Copy, Debug, PartialEq, Eq, Structural)]
pub enum Direction {
    Horizontal,
    Diagonal45,
    Vertical,
    Diagonal135,
}

pub open spec fn int_abs(v: int) -> int {
    if v < 0 {
        -v
    } else {
        v
    }
}

/// The direction band of a gradient `(gx, gy)`, with band boundaries at
/// 22.5, 67.5, 112.5 and 157.5 degrees of the folded angle.  The boundaries
/// are decided exactly in integer arithmetic: the folded angle is below 22.5
/// degrees iff `|gy| < (sqrt(2) - 1) |gx|`, that is iff
/// `(|gy| + |gx|)^2 < 2 |gx|^2`, and above 67.5 degrees iff
/// `|gy| > (sqrt(2) + 1) |gx|`, that is iff `|gy| > |gx|` and
/// `(|gy| - |gx|)^2 > 2 |gx|^2`.  A zero horizontal gradient counts as
/// vertical, including the zero gradient itself.
pub open spec fn direction(gx: int, gy: int) -> Direction {
    let ax = int_abs(gx);
    let ay = int_abs(gy);
    if ax == 0 {
        Direction::Vertical
    } else if (ay + ax) * (ay + ax) < 2 * ax * ax {
        Direction::Horizontal
    } else if ay > ax && (ay - ax) * (ay - ax) > 2 * ax * ax {
        Direction::Vertical
    } else if (gx > 0) == (gy > 0) {
        Direction::Diagonal45
    } else {
        Direction::Diagonal135
    }
}

/// The first perpendicular neighbour that non-maximum suppression compares
/// against, as a linear buffer index.
pub open spec fn nms_cmp1(d: Direction, w: int, x: int, y: int) -> int {
    match d {
        Direction::Horizontal => y * w + x - 1,
        Direction::Diagonal45 => (y + 1) * w + x + 1,
        Direction::Vertical => (y - 1) * w + x,
        Direction::Diagonal135 => (y + 1) * w + x - 1,
    }
}

/// The second perpendicular neighbour that non-maximum suppression compares
/// against.  In the vertical band this index is `y + 1 + x`, without the
/// multiplication by the row stride; the detector's output is defined by
/// exactly this table.
pub open spec fn nms_cmp2(d: Direction, w: int, x: int, y: int) -> int {
    match d {
        Direction::Horizontal => y * w + x + 1,
        Direction::Diagonal45 => (y - 1) * w + x - 1,
        Direction::Vertical => y + 1 + x,
        Direction::Diagonal135 => (y - 1) * w + x + 1,
    }
}

/// The suppressed squared magnitude at `(x, y)`: the value from `g` if it is
/// at least both of its direction-perpendicular neighbours, zero otherwise.
pub open spec fn nms_value(g: Seq<u64>, gx: int, gy: int, w: int, x: int, y: int) -> u64 {
    let d = direction(gx, gy);
    let pixel = g[y * w + x];
    if pixel < g[nms_cmp1(d, w, x, y)] || pixel < g[nms_cmp2(d, w, x, y)] {
        0u64
    } else {
        pixel
    }
}

/// Classify a gradient into its direction band.
fn direction_of(gx: i16, gy: i16) -> (d: Direction)
    ensures
        d == direction(gx as int, gy as int),
{
    let ax: i64 = if gx < 0 {
        -(gx as i64)
    } else {
        gx as i64
    };
    let ay: i64 = if gy < 0 {
        -(gy as i64)
    } else {
        gy as i64
    };
    proof {
        assert(0 <= (ay + ax) * (ay + ax) <= 0x1_0000_0000) by (nonlinear_arith)
            requires
                0 <= ay + ax <= 0x10000,
        ;
        assert(0 <= ax * ax <= 0x4000_0000) by (nonlinear_arith)
            requires
                0 <= ax <= 0x8000,
        ;
        assert(0 <= 2 * ax * ax <= 0x8000_0000) by (nonlinear_arith)
            requires
                0 <= ax <= 0x8000,
        ;
        assert(0 <= (ay - ax) * (ay - ax) <= 0x1_0000_0000) by (nonlinear_arith)
            requires
                -0x8000 <= ay - ax <= 0x8000,
        ;
    }
    if ax == 0 {
        Direction::Vertical
    } else if (ay + ax) * (ay + ax) < 2 * ax * ax {
        Direction::Horizontal
    } else if ay > ax && (ay - ax) * (ay - ax) > 2 * ax * ax {
        Direction::Vertical
    } else if (gx > 0) == (gy > 0) {
        Direction::Diagonal45
    } else {
        Direction::Diagonal135
    }
}

proof fn lemma_nms_step(
    total: Seq<Point>,
    width: usize,
    height: usize,
    g: Seq<u64>,
    gxs: Seq<i16>,
    gys: Seq<i16>,
    o0: Seq<u64>,
    o1: Seq<u64>,
    done: int,
    v: u64,
)
    requires
        0 <= done < total.len(),
        forall|k: int|
            0 <= k < total.len() ==> (#[trigger] total[k]).x < width && total[k].y < height,
        forall|k: int|
            0 <= k < done ==> o0[pidx(width as int, #[trigger] total[k])] == nms_value(
                g,
                gxs[pidx(width as int, total[k])] as int,
                gys[pidx(width as int, total[k])] as int,
                width as int,
                total[k].x as int,
                total[k].y as int,
            ),
        v == nms_value(
            g,
            gxs[pidx(width as int, total[done])] as int,
            gys[pidx(width as int, total[done])] as int,
            width as int,
            total[done].x as int,
            total[done].y as int,
        ),
        o0.len() == width * height,
        o1 == o0.update(pidx(width as int, total[done]), v),
    ensures
        forall|k: int|
            0 <= k < done + 1 ==> o1[pidx(width as int, #[trigger] total[k])] == nms_value(
                g,
                gxs[pidx(width as int, total[k])] as int,
                gys[pidx(width as int, total[k])] as int,
                width as int,
                total[k].x as int,
                total[k].y as int,
            ),
        forall|i: int|
            0 <= i < width * height && i != pidx(width as int, total[done]) ==> o1[i] == o0[i],
{
    let w = width as int;
    let p = total[done];
    crate::frame::lemma_row_major_bounds(p.x as int, p.y as int, w, height as int);
    assert forall|k: int| 0 <= k < done + 1 implies (o1[pidx(w, #[trigger] total[k])] == nms_value(
        g,
        gxs[pidx(w, total[k])] as int,
        gys[pidx(w, total[k])] as int,
        w,
        total[k].x as int,
        total[k].y as int,
    )) by {
        let q = total[k];
        crate::frame::lemma_row_major_bounds(q.x as int, q.y as int, w, height as int);
        if k < done && pidx(w, q) == pidx(w, p) {
            crate::frame::lemma_row_major_injective(q.x as int, q.y as int, p.x as int, p.y as int, w);
        }
    }
}

/// Zero out every squared magnitude that is not a local maximum along the
/// direction perpendicular to its edge, producing single-pixel-wide ridges.
fn non_maximum_suppression<T: Window>(
    width: usize,
    height: usize,
    g: &Vec<u64>,
    gx: &Vec<i16>,
    gy: &Vec<i16>,
    out: &mut Vec<u64>,
    window: &T,
)
    requires
        window.wf(),
        window.process_wf(),
        width * height * 4 <= usize::MAX,
        g.len() == width * height,
        gx.len() == width * height,
        gy.len() == width * height,
        old(out).len() == width * height,
        forall|k: int|
            0 <= k < window.process_seq().len() ==> 1 <= (#[trigger] window.process_seq()[k]).x
                && window.process_seq()[k].x + 2 <= width && 1 <= window.process_seq()[k].y
                && window.process_seq()[k].y + 2 <= height,
    ensures
        final (out).len() == width * height,
        forall|k: int|
            0 <= k < window.process_seq().len() ==> final (out)@[pidx(
                width as int,
                #[trigger] window.process_seq()[k],
            )] == nms_value(
                g@,
                gx@[pidx(width as int, window.process_seq()[k])] as int,
                gy@[pidx(width as int, window.process_seq()[k])] as int,
                width as int,
                window.process_seq()[k].x as int,
                window.process_seq()[k].y as int,
            ),
        forall|i: int|
            0 <= i < width * height && !window.process_seq().contains(idx_point(width as int, i))
                ==> final (out)@[i] == old(out)@[i],
{
    let ghost total = window.process_seq();
    let ghost w = width as int;
    let ghost h = height as int;
    let mut it = window.process();
    let ghost mut done: int = 0;
    loop
        invariant
            it.wf(),
            0 <= done <= total.len(),
            it.remaining() == total.skip(done),
            width * height * 4 <= usize::MAX,
            g.len() == width * height,
            gx.len() == width * height,
            gy.len() == width * height,
            out.len() == width * height,
            total == window.process_seq(),
            w == width as int,
            h == height as int,
            forall|k: int|
                0 <= k < total.len() ==> 1 <= (#[trigger] total[k]).x && total[k].x + 2 <= width
                    && 1 <= total[k].y && total[k].y + 2 <= height,
            forall|k: int|
                0 <= k < done ==> out@[pidx(w, #[trigger] total[k])] == nms_value(
                    g@,
                    gx@[pidx(w, total[k])] as int,
                    gy@[pidx(w, total[k])] as int,
                    w,
                    total[k].x as int,
                    total[k].y as int,
                ),
            forall|i: int|
                0 <= i < width * height && !total.contains(idx_point(w, i)) ==> out@[i] == old(
                    out,
                )@[i],
        ensures
            done == total.len(),
            out.len() == width * height,
            forall|k: int|
                0 <= k < done ==> out@[pidx(w, #[trigger] total[k])] == nms_value(
                    g@,
                    gx@[pidx(w, total[k])] as int,
                    gy@[pidx(w, total[k])] as int,
                    w,
                    total[k].x as int,
                    total[k].y as int,
                ),
            forall|i: int|
                0 <= i < width * height && !total.contains(idx_point(w, i)) ==> out@[i] == old(
                    out,
                )@[i],
        decreases it.remaining().len(),
    {
        let next = it.next();
        match next {
            None => {
                proof {
                    assert(done == total.len());
                }
                break ;
            },
            Some(p) => {
                proof {
                    assert(p == total[done]);
                    assert(it.remaining() =~= total.skip(done + 1));
                    crate::frame::lemma_row_major_bounds(p.x as int, p.y as int, w, h);
                    crate::frame::lemma_row_major_bounds(p.x + 1, p.y + 1, w, h);
                    crate::frame::lemma_row_major_bounds(p.x - 1, p.y - 1, w, h);
                    crate::frame::lemma_row_major_bounds(p.x + 1, p.y - 1, w, h);
                    crate::frame::lemma_row_major_bounds(p.x - 1, p.y + 1, w, h);
                    crate::frame::lemma_row_major_bounds(p.x as int, p.y - 1, w, h);
                    crate::frame::lemma_row_major_bounds(p.x + 1, p.y as int, w, h);
                    assert(w * h >= w + h + 3) by (nonlinear_arith)
                        requires
                            w >= 3,
                            h >= 3,
                    ;
                }
                let i = p.y * width + p.x;
                let d = direction_of(gx[i], gy[i]);
                let c1i: usize = match d {
                    Direction::Horizontal => i - 1,
                    Direction::Diagonal45 => (p.y + 1) * width + p.x + 1,
                    Direction::Vertical => (p.y - 1) * width + p.x,
                    Direction::Diagonal135 => (p.y + 1) * width + p.x - 1,
                };
                let c2i: usize = match d {
                    Direction::Horizontal => i + 1,
                    Direction::Diagonal45 => (p.y - 1) * width + p.x - 1,
                    Direction::Vertical => p.y + 1 + p.x,
                    Direction::Diagonal135 => (p.y - 1) * width + p.x + 1,
                };
                let pixel = g[i];
                let c1 = g[c1i];
                let c2 = g[c2i];
                let v: u64 = if pixel < c1 || pixel < c2 {
                    0
                } else {
                    pixel
                };
                let ghost o0 = out@;
                out.set(i, v);
                proof {
                    assert(v == nms_value(
                        g@,
                        gx@[pidx(w, p)] as int,
                        gy@[pidx(w, p)] as int,
                        w,
                        p.x as int,
                        p.y as int,
                    ));
                    vstd::arithmetic::div_mod::lemma_fundamental_div_mod_converse(
                        i as int,
                        w,
                        p.y as int,
                        p.x as int,
                    );
                    assert(total.contains(idx_point(w, i as int))) by {
                        assert(total[done] == idx_point(w, i as int));
                    }
                    lemma_nms_step(total, width, height, g@, gx@, gy@, o0, out@, done, v);
                    done = done + 1;
                }
            },
        }
    }
}

/// The relation between the frame handed to hysteresis and any frame it may
/// leave behind: pixels change only at process-extent points, only to the
/// line colour, and only where the suppressed magnitude reaches one of the
/// squared thresholds; a pixel already bearing the line colour's red channel
/// is never touched.
pub open spec fn hysteresis_rel(
    frame0: Frame,
    f: Frame,
    total: Seq<Point>,
    input: Seq<u64>,
    low2: int,
    high2: int,
    line: Rgba,
) -> bool {
    let w = frame0.spec_width();
    let h = frame0.spec_height();
    &&& f.wf()
    &&& f.spec_width() == w
    &&& f.spec_height() == h
    &&& forall|x: int, y: int|
        0 <= x < w && 0 <= y < h ==> (#[trigger] f.pixel(x, y)) == frame0.pixel(x, y) || f.pixel(
            x,
            y,
        ) == line
    &&& forall|x: int, y: int|
        0 <= x < w && 0 <= y < h && (#[trigger] frame0.pixel(x, y)).r == line.r ==> f.pixel(x, y)
            == frame0.pixel(x, y)
    &&& forall|x: int, y: int|
        0 <= x < w && 0 <= y < h && (#[trigger] f.pixel(x, y)) != frame0.pixel(x, y)
            ==> total.contains(Point { x: x as usize, y: y as usize }) && (input[y * w + x] >= low2
            || input[y * w + x] >= high2) && f.pixel(x, y) == line
}

/// Marking one more admissible pixel with the line colour preserves the
/// hysteresis relation.
proof fn lemma_hysteresis_mark(
    frame0: Frame,
    f1: Frame,
    f2: Frame,
    total: Seq<Point>,
    input: Seq<u64>,
    low2: int,
    high2: int,
    line: Rgba,
    nx: int,
    ny: int,
)
    requires
        hysteresis_rel(frame0, f1, total, input, low2, high2, line),
        f2.wf(),
        f2.spec_width() == frame0.spec_width(),
        f2.spec_height() == frame0.spec_height(),
        0 <= nx < frame0.spec_width(),
        0 <= ny < frame0.spec_height(),
        f1.pixel(nx, ny).r != line.r,
        f2.pixel(nx, ny) == line,
        forall|x: int, y: int|
            0 <= x < frame0.spec_width() && 0 <= y < frame0.spec_height() && !(x == nx && y == ny)
                ==> #[trigger] f2.pixel(x, y) == f1.pixel(x, y),
        total.contains(Point { x: nx as usize, y: ny as usize }),
        input[ny * frame0.spec_width() + nx] >= low2 || input[ny * frame0.spec_width() + nx]
            >= high2,
    ensures
        hysteresis_rel(frame0, f2, total, input, low2, high2, line),
{
    let w = frame0.spec_width();
    let h = frame0.spec_height();
    assert forall|x: int, y: int|
        0 <= x < w && 0 <= y < h && (#[trigger] f2.pixel(x, y)) != frame0.pixel(x, y) implies (
    total.contains(Point { x: x as usize, y: y as usize }) && (input[y * w + x] >= low2 || input[y
        * w + x] >= high2) && f2.pixel(x, y) == line) by {
        if !(x == nx && y == ny) {
            assert(f2.pixel(x, y) == f1.pixel(x, y));
        }
    }
    assert forall|x: int, y: int|
        0 <= x < w && 0 <= y < h && (#[trigger] frame0.pixel(x, y)).r == line.r implies f2.pixel(
        x,
        y,
    ) == frame0.pixel(x, y) by {
        if x == nx && y == ny {
            assert(f1.pixel(x, y) == frame0.pixel(x, y));
        }
    }
}

/// `b` is one of the six neighbour offsets examined by edge linking:
/// east, south-east, south, north-west, west, south-west.
pub open spec fn neighbour6(a: Point, b: Point) -> bool {
    ||| b.x == a.x + 1 && b.y == a.y
    ||| b.x == a.x + 1 && b.y == a.y + 1
    ||| b.x == a.x && b.y == a.y + 1
    ||| b.x == a.x - 1 && b.y == a.y - 1
    ||| b.x == a.x - 1 && b.y == a.y
    ||| b.x == a.x - 1 && b.y == a.y + 1
}

/// Every in-frame six-neighbour of `p` whose suppressed magnitude reaches the
/// low threshold bears the line colour's red channel in `f`.
pub open spec fn weak_neighbours_marked(
    f: Frame,
    input: Seq<u64>,
    low2: int,
    p: Point,
    line_r: u8,
) -> bool {
    forall|q: Point|
        #[trigger] neighbour6(p, q) && q.x < f.spec_width() && q.y < f.spec_height() && input[q.y
            * f.spec_width() + q.x] >= low2 ==> f.pixel(q.x as int, q.y as int).r == line_r
}

proof fn lemma_weak_neighbours_marked_monotone(
    f1: Frame,
    f2: Frame,
    input: Seq<u64>,
    low2: int,
    p: Point,
    line_r: u8,
)
    requires
        f1.spec_width() == f2.spec_width(),
        f1.spec_height() == f2.spec_height(),
        marks_keep(f1, f2, line_r),
        weak_neighbours_marked(f1, input, low2, p, line_r),
    ensures
        weak_neighbours_marked(f2, input, low2, p, line_r),
{
    assert forall|q: Point|
        #[trigger] neighbour6(p, q) && q.x < f2.spec_width() && q.y < f2.spec_height() && input[q.y
            * f2.spec_width() + q.x] >= low2 implies f2.pixel(q.x as int, q.y as int).r
        == line_r by {
        assert(f1.pixel(q.x as int, q.y as int).r == line_r);
    }
}

/// Every pixel of `f1` bearing the line colour's red channel still bears it
/// in `f2`.
pub open spec fn marks_keep(f1: Frame, f2: Frame, line_r: u8) -> bool {
    forall|x: int, y: int|
        0 <= x < f1.spec_width() && 0 <= y < f1.spec_height() && (#[trigger] f1.pixel(x, y)).r
            == line_r ==> f2.pixel(x, y).r == line_r
}

proof fn lemma_marks_keep_trans(f1: Frame, f2: Frame, f3: Frame, line_r: u8)
    requires
        f1.spec_width() == f2.spec_width(),
        f1.spec_height() == f2.spec_height(),
        marks_keep(f1, f2, line_r),
        marks_keep(f2, f3, line_r),
    ensures
        marks_keep(f1, f3, line_r),
{
    assert forall|x: int, y: int|
        0 <= x < f1.spec_width() && 0 <= y < f1.spec_height() && (#[trigger] f1.pixel(x, y)).r
            == line_r implies (#[trigger] f3.pixel(x, y)).r == line_r by {
        assert(f2.pixel(x, y).r == line_r);
    }
}

/// Examine one neighbour during edge linking: if its suppressed magnitude
/// reaches the low threshold and it is not yet marked, mark it with the line
/// colour and queue it.
fn visit_neighbour(
    width: usize,
    height: usize,
    input: &Vec<u64>,
    out: &mut Frame,
    edges: &mut Vec<Point>,
    nx: usize,
    ny: usize,
    low2: u64,
    line_colour: Rgba,
    Ghost(frame0): Ghost<Frame>,
    Ghost(total): Ghost<Seq<Point>>,
    Ghost(high2): Ghost<int>,
)
    requires
        frame0.wf(),
        frame0.spec_width() == width,
        frame0.spec_height() == height,
        hysteresis_rel(frame0, *old(out), total, input@, low2 as int, high2, line_colour),
        nx < width,
        ny < height,
        input.len() == width * height,
        width * height * 4 <= usize::MAX,
        low2 >= 1,
        forall|k: int|
            0 <= k < total.len() ==> 1 <= (#[trigger] total[k]).x && total[k].x + 2 <= width && 1
                <= total[k].y && total[k].y + 2 <= height,
        forall|i: int|
            0 <= i < input.len() && input@[i] != 0 ==> total.contains(
                #[trigger] idx_point(width as int, i),
            ),
        forall|k: int|
            0 <= k < old(edges).len() ==> 1 <= (#[trigger] old(edges)@[k]).x && old(edges)@[k].x
                + 2 <= width && 1 <= old(edges)@[k].y && old(edges)@[k].y + 2 <= height,
    ensures
        hysteresis_rel(frame0, *final (out), total, input@, low2 as int, high2, line_colour),
        marks_keep(*old(out), *final (out), line_colour.r),
        forall|k: int|
            0 <= k < final (edges).len() ==> 1 <= (#[trigger] final (edges)@[k]).x
                && final (edges)@[k].x + 2 <= width && 1 <= final (edges)@[k].y
                && final (edges)@[k].y + 2 <= height,
        7 * final (out).unmarked_count(line_colour.r) + final (edges).len()
            <= 7 * old(out).unmarked_count(line_colour.r) + old(edges).len(),
        input@[ny * width + nx] >= low2 ==> final (out).pixel(nx as int, ny as int).r
            == line_colour.r,
        forall|k: int| 0 <= k < old(edges).len() ==> #[trigger] final (edges)@[k] == old(edges)@[k],
        forall|x: int, y: int|
            0 <= x < width && 0 <= y < height && !(x == nx && y == ny) ==> #[trigger] final (
            out).pixel(x, y) == old(out).pixel(x, y),
        final (edges).len() == old(edges).len() || (final (edges).len() == old(edges).len() + 1
            && final (edges)@[old(edges).len() as int] == (Point { x: nx, y: ny })),
        final (out).pixel(nx as int, ny as int) != old(out).pixel(nx as int, ny as int)
            ==> final (edges).len() == old(edges).len() + 1,
        final (edges).len() == old(edges).len() + 1 ==> final (out).pixel(nx as int, ny as int)
            == line_colour && old(out).pixel(nx as int, ny as int).r != line_colour.r,
{
    proof {
        crate::frame::lemma_row_major_bounds(nx as int, ny as int, width as int, height as int);
    }
    let i = ny * width + nx;
    let inp = input[i];
    let pix = out.get_pixel(nx, ny);
    if inp >= low2 && pix.r != line_colour.r {
        let ghost f1 = *out;
        out.put_pixel(nx, ny, line_colour);
        edges.push(Point { x: nx, y: ny });
        proof {
            vstd::arithmetic::div_mod::lemma_fundamental_div_mod_converse(
                i as int,
                width as int,
                ny as int,
                nx as int,
            );
            assert(input@[i as int] != 0);
            assert(total.contains(idx_point(width as int, i as int)));
            assert(idx_point(width as int, i as int) == (Point { x: nx, y: ny }));
            lemma_hysteresis_mark(
                frame0,
                f1,
                *out,
                total,
                input@,
                low2 as int,
                high2,
                line_colour,
                nx as int,
                ny as int,
            );
            let q = Point { x: nx, y: ny };
            let k = choose|k: int| 0 <= k < total.len() && total[k] == q;
            assert(1 <= q.x && q.x + 2 <= width && 1 <= q.y && q.y + 2 <= height);
            crate::frame::Frame::lemma_unmarked_count_decreases(
                f1,
                *out,
                line_colour.r,
                nx as int,
                ny as int,
            );
        }
    }
}

/// Two-threshold edge linking: mark every process-extent point whose
/// suppressed magnitude reaches the high threshold, then grow the marked set
/// through the six-neighbour offsets to every connected point reaching the
/// low threshold, writing the line colour into the frame.
fn hysteresis<T: Window>(
    width: usize,
    height: usize,
    input: &Vec<u64>,
    out: &mut Frame,
    low_thresh: u16,
    high_thresh: u16,
    line_colour: Rgba,
    window: &T,
)
    requires
        window.wf(),
        window.process_wf(),
        low_thresh >= 1,
        input.len() == width * height,
        width * height * 4 <= usize::MAX,
        old(out).wf(),
        old(out).spec_width() == width,
        old(out).spec_height() == height,
        forall|k: int|
            0 <= k < window.process_seq().len() ==> 1 <= (#[trigger] window.process_seq()[k]).x
                && window.process_seq()[k].x + 2 <= width && 1 <= window.process_seq()[k].y
                && window.process_seq()[k].y + 2 <= height,
        forall|i: int|
            0 <= i < input.len() && input@[i] != 0 ==> window.process_seq().contains(
                #[trigger] idx_point(width as int, i),
            ),
    ensures
        hysteresis_rel(
            *old(out),
            *final (out),
            window.process_seq(),
            input@,
            (low_thresh * low_thresh) as int,
            (high_thresh * high_thresh) as int,
            line_colour,
        ),
        forall|k: int|
            0 <= k < window.process_seq().len() && input@[pidx(
                width as int,
                #[trigger] window.process_seq()[k],
            )] >= high_thresh * high_thresh ==> final (out).pixel(
                window.process_seq()[k].x as int,
                window.process_seq()[k].y as int,
            ).r == line_colour.r,
        forall|x: int, y: int|
            0 <= x < width && 0 <= y < height && #[trigger] final (out).pixel(x, y) != old(
                out,
            ).pixel(x, y) ==> weak_neighbours_marked(
                *final (out),
                input@,
                (low_thresh * low_thresh) as int,
                Point { x: x as usize, y: y as usize },
                line_colour.r,
            ),
        forall|x: int, y: int|
            0 <= x < width && 0 <= y < height && #[trigger] final (out).pixel(x, y) != old(
                out,
            ).pixel(x, y) ==> link_reachable(
                Point { x: x as usize, y: y as usize },
                window.process_seq(),
                input@,
                (low_thresh * low_thresh) as int,
                (high_thresh * high_thresh) as int,
                *old(out),
                line_colour.r,
            ),
{
    proof {
        assert((low_thresh as u64) * (low_thresh as u64) == (low_thresh * low_thresh) as u64)
            by (nonlinear_arith);
        assert((high_thresh as u64) * (high_thresh as u64) == (high_thresh * high_thresh) as u64)
            by (nonlinear_arith);
        assert(0 <= (low_thresh as int) * (low_thresh as int) < 0x1_0000_0000) by (nonlinear_arith)
            requires
                0 <= low_thresh < 0x1_0000,
        ;
        assert(0 <= (high_thresh as int) * (high_thresh as int) < 0x1_0000_0000)
            by (nonlinear_arith)
            requires
                0 <= high_thresh < 0x1_0000,
        ;
        assert((low_thresh as int) * (low_thresh as int) >= 1) by (nonlinear_arith)
            requires
                low_thresh >= 1,
        ;
    }
    let low2: u64 = (low_thresh as u64) * (low_thresh as u64);
    let high2: u64 = (high_thresh as u64) * (high_thresh as u64);
    let ghost frame0 = *old(out);
    let ghost total = window.process_seq();
    let ghost w = width as int;
    let ghost h = height as int;
    let mut edges: Vec<Point> = Vec::new();
    let mut it = window.process();
    let ghost mut done: int = 0;
    loop
        invariant
            it.wf(),
            0 <= done <= total.len(),
            it.remaining() == total.skip(done),
            total == window.process_seq(),
            w == width as int,
            h == height as int,
            frame0 == *old(out),
            frame0.wf(),
            frame0.spec_width() == width,
            frame0.spec_height() == height,
            low2 == low_thresh * low_thresh,
            high2 == high_thresh * high_thresh,
            low2 >= 1,
            input.len() == width * height,
            width * height * 4 <= usize::MAX,
            edges.len() == 0,
            hysteresis_rel(frame0, *out, total, input@, low2 as int, high2 as int, line_colour),
            forall|k: int|
                0 <= k < total.len() ==> 1 <= (#[trigger] total[k]).x && total[k].x + 2 <= width
                    && 1 <= total[k].y && total[k].y + 2 <= height,
            forall|i: int|
                0 <= i < input.len() && input@[i] != 0 ==> total.contains(
                    #[trigger] idx_point(w, i),
                ),
            forall|k: int|
                0 <= k < done && input@[pidx(w, #[trigger] total[k])] >= high2 ==> out.pixel(
                    total[k].x as int,
                    total[k].y as int,
                ).r == line_colour.r,
            forall|x: int, y: int|
                0 <= x < width && 0 <= y < height && #[trigger] out.pixel(x, y) != frame0.pixel(
                    x,
                    y,
                ) ==> edges@.contains(Point { x: x as usize, y: y as usize })
                    || weak_neighbours_marked(
                    *out,
                    input@,
                    low2 as int,
                    Point { x: x as usize, y: y as usize },
                    line_colour.r,
                ),
            forall|x: int, y: int|
                0 <= x < width && 0 <= y < height && #[trigger] out.pixel(x, y) != frame0.pixel(
                    x,
                    y,
                ) ==> link_reachable(
                    Point { x: x as usize, y: y as usize },
                    total,
                    input@,
                    low2 as int,
                    high2 as int,
                    frame0,
                    line_colour.r,
                ),
        ensures
            done == total.len(),
            edges.len() == 0,
            hysteresis_rel(frame0, *out, total, input@, low2 as int, high2 as int, line_colour),
            forall|k: int|
                0 <= k < done && input@[pidx(w, #[trigger] total[k])] >= high2 ==> out.pixel(
                    total[k].x as int,
                    total[k].y as int,
                ).r == line_colour.r,
            forall|x: int, y: int|
                0 <= x < width && 0 <= y < height && #[trigger] out.pixel(x, y) != frame0.pixel(
                    x,
                    y,
                ) ==> edges@.contains(Point { x: x as usize, y: y as usize })
                    || weak_neighbours_marked(
                    *out,
                    input@,
                    low2 as int,
                    Point { x: x as usize, y: y as usize },
                    line_colour.r,
                ),
            forall|x: int, y: int|
                0 <= x < width && 0 <= y < height && #[trigger] out.pixel(x, y) != frame0.pixel(
                    x,
                    y,
                ) ==> link_reachable(
                    Point { x: x as usize, y: y as usize },
                    total,
                    input@,
                    low2 as int,
                    high2 as int,
                    frame0,
                    line_colour.r,
                ),
        decreases it.remaining().len(),
    {
        let next = it.next();
        match next {
            None => {
                proof {
                    assert(done == total.len());
                }
                break ;
            },
            Some(p) => {
                proof {
                    assert(p == total[done]);
                    assert(it.remaining() =~= total.skip(done + 1));
                    crate::frame::lemma_row_major_bounds(p.x as int, p.y as int, w, h);
                }
                let i = p.y * width + p.x;
                let inp = input[i];
                let pix = out.get_pixel(p.x, p.y);
                if inp >= high2 && pix.r != line_colour.r {
                    let ghost f1 = *out;
                    out.put_pixel(p.x, p.y, line_colour);
                    edges.push(p);
                    proof {
                        vstd::arithmetic::div_mod::lemma_fundamental_div_mod_converse(
                            i as int,
                            w,
                            p.y as int,
                            p.x as int,
                        );
                        assert(total.contains(idx_point(w, i as int))) by {
                            assert(total[done] == idx_point(w, i as int));
                        }
                        lemma_hysteresis_mark(
                            frame0,
                            f1,
                            *out,
                            total,
                            input@,
                            low2 as int,
                            high2 as int,
                            line_colour,
                            p.x as int,
                            p.y as int,
                        );
                        assert(marks_keep(f1, *out, line_colour.r)) by {
                            assert forall|x: int, y: int|
                                0 <= x < f1.spec_width() && 0 <= y < f1.spec_height() && (
                                #[trigger] f1.pixel(x, y)).r == line_colour.r implies out.pixel(
                                x,
                                y,
                            ).r == line_colour.r by {
                                if !(x == p.x && y == p.y) {
                                    assert(out.pixel(x, y) == f1.pixel(x, y));
                                }
                            }
                        }
                        assert forall|x: int, y: int|
                            0 <= x < width && 0 <= y < height && #[trigger] out.pixel(x, y)
                                != frame0.pixel(x, y) implies (edges@.contains(
                            Point { x: x as usize, y: y as usize },
                        ) || weak_neighbours_marked(
                            *out,
                            input@,
                            low2 as int,
                            Point { x: x as usize, y: y as usize },
                            line_colour.r,
                        )) by {
                            let p2 = Point { x: x as usize, y: y as usize };
                            if p2 == p {
                                assert(edges@.contains(p2)) by {
                                    assert(edges@[edges.len() - 1] == p2);
                                }
                            } else {
                                assert(out.pixel(x, y) == f1.pixel(x, y));
                                assert(weak_neighbours_marked(
                                    f1,
                                    input@,
                                    low2 as int,
                                    p2,
                                    line_colour.r,
                                ));
                                lemma_weak_neighbours_marked_monotone(
                                    f1,
                                    *out,
                                    input@,
                                    low2 as int,
                                    p2,
                                    line_colour.r,
                                );
                            }
                        }
                        assert(total.contains(p)) by {
                            assert(total[done] == p);
                        }
                        assert(frame0.pixel(p.x as int, p.y as int).r != line_colour.r) by {
                            if f1.pixel(p.x as int, p.y as int) != frame0.pixel(
                                p.x as int,
                                p.y as int,
                            ) {
                                assert(f1.pixel(p.x as int, p.y as int) == line_colour);
                            }
                        }
                        assert(pidx(w, p) == i as int);
                        lemma_link_reachable_seed(
                            p,
                            total,
                            input@,
                            low2 as int,
                            high2 as int,
                            frame0,
                            line_colour.r,
                        );
                        assert forall|x: int, y: int|
                            0 <= x < width && 0 <= y < height && #[trigger] out.pixel(x, y)
                                != frame0.pixel(x, y) implies link_reachable(
                            Point { x: x as usize, y: y as usize },
                            total,
                            input@,
                            low2 as int,
                            high2 as int,
                            frame0,
                            line_colour.r,
                        ) by {
                            let p2 = Point { x: x as usize, y: y as usize };
                            if p2 == p {
                            } else {
                                assert(out.pixel(x, y) == f1.pixel(x, y));
                            }
                        }
                    }
                    while edges.len() > 0
                        invariant
                            frame0.wf(),
                            frame0.spec_width() == width,
                            frame0.spec_height() == height,
                            low2 >= 1,
                            input.len() == width * height,
                            width * height * 4 <= usize::MAX,
                            hysteresis_rel(
                                frame0,
                                *out,
                                total,
                                input@,
                                low2 as int,
                                high2 as int,
                                line_colour,
                            ),
                            forall|k: int|
                                0 <= k < total.len() ==> 1 <= (#[trigger] total[k]).x && total[k].x
                                    + 2 <= width && 1 <= total[k].y && total[k].y + 2 <= height,
                            forall|i2: int|
                                0 <= i2 < input.len() && input@[i2] != 0 ==> total.contains(
                                    #[trigger] idx_point(w, i2),
                                ),
                            w == width as int,
                            0 <= done <= total.len(),
                            1 <= p.x && p.x + 2 <= width,
                            1 <= p.y && p.y + 2 <= height,
                            out.pixel(p.x as int, p.y as int).r == line_colour.r,
                            forall|k: int|
                                0 <= k < edges.len() ==> 1 <= (#[trigger] edges@[k]).x && edges@[
                                    k].x + 2 <= width && 1 <= edges@[k].y && edges@[k].y + 2
                                    <= height,
                            forall|k: int|
                                0 <= k < done && input@[pidx(w, #[trigger] total[k])] >= high2
                                    ==> out.pixel(
                                    total[k].x as int,
                                    total[k].y as int,
                                ).r == line_colour.r,
                            forall|x: int, y: int|
                                0 <= x < width && 0 <= y < height && #[trigger] out.pixel(x, y)
                                    != frame0.pixel(x, y) ==> edges@.contains(
                                    Point { x: x as usize, y: y as usize },
                                ) || weak_neighbours_marked(
                                    *out,
                                    input@,
                                    low2 as int,
                                    Point { x: x as usize, y: y as usize },
                                    line_colour.r,
                                ),
                            forall|x: int, y: int|
                                0 <= x < width && 0 <= y < height && #[trigger] out.pixel(x, y)
                                    != frame0.pixel(x, y) ==> link_reachable(
                                    Point { x: x as usize, y: y as usize },
                                    total,
                                    input@,
                                    low2 as int,
                                    high2 as int,
                                    frame0,
                                    line_colour.r,
                                ),
                            forall|k: int|
                                0 <= k < edges.len() ==> link_reachable(
                                    #[trigger] edges@[k],
                                    total,
                                    input@,
                                    low2 as int,
                                    high2 as int,
                                    frame0,
                                    line_colour.r,
                                ),
                        decreases 7 * out.unmarked_count(line_colour.r) + edges.len(),
                    {
                        let ghost mstart = 7 * out.unmarked_count(line_colour.r) + edges.len();
                        let ghost s0 = *out;
                        let ghost ehead = edges@;
                        let popped = edges.pop();
                        let ghost e0 = edges@;
                        let n = match popped {
                            Some(n) => n,
                            None => vstd::pervasive::unreached(),
                        };
                        let ghost c1 = Point { x: (n.x + 1) as usize, y: n.y };
                        let ghost c2 = Point { x: (n.x + 1) as usize, y: (n.y + 1) as usize };
                        let ghost c3 = Point { x: n.x, y: (n.y + 1) as usize };
                        let ghost c4 = Point { x: (n.x - 1) as usize, y: (n.y - 1) as usize };
                        let ghost c5 = Point { x: (n.x - 1) as usize, y: n.y };
                        let ghost c6 = Point { x: (n.x - 1) as usize, y: (n.y + 1) as usize };
                        visit_neighbour(
                            width,
                            height,
                            input,
                            out,
                            &mut edges,
                            n.x + 1,
                            n.y,
                            low2,
                            line_colour,
                            Ghost(frame0),
                            Ghost(total),
                            Ghost(high2 as int),
                        );
                        let ghost s1 = *out;
                        let ghost e1 = edges@;
                        visit_neighbour(
                            width,
                            height,
                            input,
                            out,
                            &mut edges,
                            n.x + 1,
                            n.y + 1,
                            low2,
                            line_colour,
                            Ghost(frame0),
                            Ghost(total),
                            Ghost(high2 as int),
                        );
                        let ghost s2 = *out;
                        let ghost e2 = edges@;
                        visit_neighbour(
                            width,
                            height,
                            input,
                            out,
                            &mut edges,
                            n.x,
                            n.y + 1,
                            low2,
                            line_colour,
                            Ghost(frame0),
                            Ghost(total),
                            Ghost(high2 as int),
                        );
                        let ghost s3 = *out;
                        let ghost e3 = edges@;
                        visit_neighbour(
                            width,
                            height,
                            input,
                            out,
                            &mut edges,
                            n.x - 1,
                            n.y - 1,
                            low2,
                            line_colour,
                            Ghost(frame0),
                            Ghost(total),
                            Ghost(high2 as int),
                        );
                        let ghost s4 = *out;
                        let ghost e4 = edges@;
                        visit_neighbour(
                            width,
                            height,
                            input,
                            out,
                            &mut edges,
                            n.x - 1,
                            n.y,
                            low2,
                            line_colour,
                            Ghost(frame0),
                            Ghost(total),
                            Ghost(high2 as int),
                        );
                        let ghost s5 = *out;
                        let ghost e5 = edges@;
                        visit_neighbour(
                            width,
                            height,
                            input,
                            out,
                            &mut edges,
                            n.x - 1,
                            n.y + 1,
                            low2,
                            line_colour,
                            Ghost(frame0),
                            Ghost(total),
                            Ghost(high2 as int),
                        );
                        let ghost s6 = *out;
                        let ghost e6 = edges@;
                        proof {
                            lemma_marks_keep_trans(s0, s1, s2, line_colour.r);
                            lemma_marks_keep_trans(s0, s2, s3, line_colour.r);
                            lemma_marks_keep_trans(s0, s3, s4, line_colour.r);
                            lemma_marks_keep_trans(s0, s4, s5, line_colour.r);
                            lemma_marks_keep_trans(s0, s5, s6, line_colour.r);
                            assert(marks_keep(s0, *out, line_colour.r));
                            assert(out.pixel(p.x as int, p.y as int).r == line_colour.r) by {
                                assert(s0.pixel(p.x as int, p.y as int).r == line_colour.r);
                            }
                            assert forall|k: int|
                                0 <= k < done && input@[pidx(w, #[trigger] total[k])]
                                    >= high2 implies out.pixel(
                                total[k].x as int,
                                total[k].y as int,
                            ).r == line_colour.r by {
                                assert(1 <= total[k].x && total[k].x + 2 <= width && 1 <= total[k].y
                                    && total[k].y + 2 <= height);
                                assert(0 <= (total[k].x as int) < s0.spec_width());
                                assert(0 <= (total[k].y as int) < s0.spec_height());
                                assert(s0.pixel(total[k].x as int, total[k].y as int).r
                                    == line_colour.r);
                            }
                            assert(7 * out.unmarked_count(line_colour.r) + edges.len() < mstart);
                            lemma_marks_keep_trans(s4, s5, s6, line_colour.r);
                            lemma_marks_keep_trans(s3, s4, s6, line_colour.r);
                            lemma_marks_keep_trans(s2, s3, s6, line_colour.r);
                            lemma_marks_keep_trans(s1, s2, s6, line_colour.r);
                            assert(weak_neighbours_marked(
                                *out,
                                input@,
                                low2 as int,
                                n,
                                line_colour.r,
                            )) by {
                                assert forall|q: Point|
                                    #[trigger] neighbour6(n, q) && q.x < width && q.y < height
                                        && input@[q.y * width + q.x] >= low2 implies out.pixel(
                                    q.x as int,
                                    q.y as int,
                                ).r == line_colour.r by {
                                    if q.x == n.x + 1 && q.y == n.y {
                                        assert(q == (Point { x: (n.x + 1) as usize, y: n.y }));
                                        assert(s1.pixel(q.x as int, q.y as int).r
                                            == line_colour.r);
                                    } else if q.x == n.x + 1 && q.y == n.y + 1 {
                                        assert(q == (Point {
                                            x: (n.x + 1) as usize,
                                            y: (n.y + 1) as usize,
                                        }));
                                        assert(s2.pixel(q.x as int, q.y as int).r
                                            == line_colour.r);
                                    } else if q.x == n.x && q.y == n.y + 1 {
                                        assert(q == (Point { x: n.x, y: (n.y + 1) as usize }));
                                        assert(s3.pixel(q.x as int, q.y as int).r
                                            == line_colour.r);
                                    } else if q.x == n.x - 1 && q.y == n.y - 1 {
                                        assert(q == (Point {
                                            x: (n.x - 1) as usize,
                                            y: (n.y - 1) as usize,
                                        }));
                                        assert(s4.pixel(q.x as int, q.y as int).r
                                            == line_colour.r);
                                    } else if q.x == n.x - 1 && q.y == n.y {
                                        assert(q == (Point { x: (n.x - 1) as usize, y: n.y }));
                                        assert(s5.pixel(q.x as int, q.y as int).r
                                            == line_colour.r);
                                    } else {
                                        assert(q == (Point {
                                            x: (n.x - 1) as usize,
                                            y: (n.y + 1) as usize,
                                        }));
                                        assert(s6.pixel(q.x as int, q.y as int).r
                                            == line_colour.r);
                                    }
                                }
                            }
                            assert forall|x: int, y: int|
                                0 <= x < width && 0 <= y < height && #[trigger] out.pixel(x, y)
                                    != frame0.pixel(x, y) implies (edges@.contains(
                                Point { x: x as usize, y: y as usize },
                            ) || weak_neighbours_marked(
                                *out,
                                input@,
                                low2 as int,
                                Point { x: x as usize, y: y as usize },
                                line_colour.r,
                            )) by {
                                let p2 = Point { x: x as usize, y: y as usize };
                                if p2 == n {
                                } else if s0.pixel(x, y) != frame0.pixel(x, y) {
                                    if ehead.contains(p2) {
                                        let k = choose|k: int|
                                            0 <= k < ehead.len() && ehead[k] == p2;
                                        assert(ehead.last() == n);
                                        assert(k < ehead.len() - 1);
                                        assert(e0[k] == p2);
                                        assert(e1[k] == p2);
                                        assert(e2[k] == p2);
                                        assert(e3[k] == p2);
                                        assert(e4[k] == p2);
                                        assert(e5[k] == p2);
                                        assert(e6[k] == p2);
                                        assert(edges@.contains(p2));
                                    } else {
                                        assert(weak_neighbours_marked(
                                            s0,
                                            input@,
                                            low2 as int,
                                            p2,
                                            line_colour.r,
                                        ));
                                        lemma_weak_neighbours_marked_monotone(
                                            s0,
                                            *out,
                                            input@,
                                            low2 as int,
                                            p2,
                                            line_colour.r,
                                        );
                                    }
                                } else {
                                    if s1.pixel(x, y) != s0.pixel(x, y) {
                                        assert(p2 == (Point { x: (n.x + 1) as usize, y: n.y }));
                                        assert(e1.len() == e0.len() + 1 && e1[e0.len() as int]
                                            == p2);
                                        let klen: int = e0.len() as int;
                                        assert(e2[klen] == p2);
                                        assert(e3[klen] == p2);
                                        assert(e4[klen] == p2);
                                        assert(e5[klen] == p2);
                                        assert(e6[klen] == p2);
                                        assert(edges@.contains(p2));
                                    } else if s2.pixel(x, y) != s1.pixel(x, y) {
                                        assert(p2 == (Point {
                                            x: (n.x + 1) as usize,
                                            y: (n.y + 1) as usize,
                                        }));
                                        assert(e2.len() == e1.len() + 1 && e2[e1.len() as int]
                                            == p2);
                                        let klen: int = e1.len() as int;
                                        assert(e3[klen] == p2);
                                        assert(e4[klen] == p2);
                                        assert(e5[klen] == p2);
                                        assert(e6[klen] == p2);
                                        assert(edges@.contains(p2));
                                    } else if s3.pixel(x, y) != s2.pixel(x, y) {
                                        assert(p2 == (Point { x: n.x, y: (n.y + 1) as usize }));
                                        assert(e3.len() == e2.len() + 1 && e3[e2.len() as int]
                                            == p2);
                                        let klen: int = e2.len() as int;
                                        assert(e4[klen] == p2);
                                        assert(e5[klen] == p2);
                                        assert(e6[klen] == p2);
                                        assert(edges@.contains(p2));
                                    } else if s4.pixel(x, y) != s3.pixel(x, y) {
                                        assert(p2 == (Point {
                                            x: (n.x - 1) as usize,
                                            y: (n.y - 1) as usize,
                                        }));
                                        assert(e4.len() == e3.len() + 1 && e4[e3.len() as int]
                                            == p2);
                                        let klen: int = e3.len() as int;
                                        assert(e5[klen] == p2);
                                        assert(e6[klen] == p2);
                                        assert(edges@.contains(p2));
                                    } else if s5.pixel(x, y) != s4.pixel(x, y) {
                                        assert(p2 == (Point { x: (n.x - 1) as usize, y: n.y }));
                                        assert(e5.len() == e4.len() + 1 && e5[e4.len() as int]
                                            == p2);
                                        let klen: int = e4.len() as int;
                                        assert(e6[klen] == p2);
                                        assert(edges@.contains(p2));
                                    } else {
                                        assert(s6.pixel(x, y) != s5.pixel(x, y));
                                        assert(p2 == (Point {
                                            x: (n.x - 1) as usize,
                                            y: (n.y + 1) as usize,
                                        }));
                                        assert(e6.len() == e5.len() + 1 && e6[e5.len() as int]
                                            == p2);
                                        let klen: int = e5.len() as int;
                                        assert(e6[klen] == p2);
                                        assert(edges@.contains(p2));
                                    }
                                }
                            }
                        
                            assert(link_reachable(
                                n,
                                total,
                                input@,
                                low2 as int,
                                high2 as int,
                                frame0,
                                line_colour.r,
                            )) by {
                                assert(ehead[ehead.len() - 1] == n);
                            }
                            assert forall|x: int, y: int|
                                0 <= x < width && 0 <= y < height && #[trigger] out.pixel(x, y)
                                    != frame0.pixel(x, y) implies link_reachable(
                                Point { x: x as usize, y: y as usize },
                                total,
                                input@,
                                low2 as int,
                                high2 as int,
                                frame0,
                                line_colour.r,
                            ) by {
                                let p2 = Point { x: x as usize, y: y as usize };
                                if s0.pixel(x, y) != frame0.pixel(x, y) {
                                } else {
                                    if p2 != c1 && p2 != c2 && p2 != c3 && p2 != c4 && p2 != c5
                                        && p2 != c6 {
                                        assert(s1.pixel(x, y) == s0.pixel(x, y));
                                        assert(s2.pixel(x, y) == s1.pixel(x, y));
                                        assert(s3.pixel(x, y) == s2.pixel(x, y));
                                        assert(s4.pixel(x, y) == s3.pixel(x, y));
                                        assert(s5.pixel(x, y) == s4.pixel(x, y));
                                        assert(s6.pixel(x, y) == s5.pixel(x, y));
                                        assert(false);
                                    }
                                    assert(neighbour6(n, p2));
                                    assert(total.contains(p2));
                                    assert(frame0.pixel(x, y).r != line_colour.r) by {
                                        if frame0.pixel(x, y).r == line_colour.r {
                                            assert(out.pixel(x, y) == frame0.pixel(x, y));
                                        }
                                    }
                                    let kq = choose|kq: int|
                                        0 <= kq < total.len() && total[kq] == p2;
                                    assert(p2.x < width && p2.y < height);
                                    assert(pidx(w, p2) == y * w + x);
                                    if input@[y * w + x] >= high2 {
                                        lemma_link_reachable_seed(
                                            p2,
                                            total,
                                            input@,
                                            low2 as int,
                                            high2 as int,
                                            frame0,
                                            line_colour.r,
                                        );
                                    } else {
                                        assert(input@[y * w + x] >= low2);
                                        lemma_link_reachable_step(
                                            n,
                                            p2,
                                            total,
                                            input@,
                                            low2 as int,
                                            high2 as int,
                                            frame0,
                                            line_colour.r,
                                        );
                                    }
                                }
                            }
                            assert forall|k: int| 0 <= k < edges.len() implies link_reachable(
                                #[trigger] edges@[k],
                                total,
                                input@,
                                low2 as int,
                                high2 as int,
                                frame0,
                                line_colour.r,
                            ) by {
                                if k < e0.len() {
                                    assert(e1[k] == e0[k]);
                                    assert(e2[k] == e1[k]);
                                    assert(e3[k] == e2[k]);
                                    assert(e4[k] == e3[k]);
                                    assert(e5[k] == e4[k]);
                                    assert(e6[k] == e5[k]);
                                    assert(edges@[k] == ehead[k]);
                                } else {
                                    if k < e1.len() {
                                        assert(k == e0.len());
                                        assert(e1[k] == c1);
                                        assert(e2[k] == c1);
                                        assert(e3[k] == c1);
                                        assert(e4[k] == c1);
                                        assert(e5[k] == c1);
                                        assert(e6[k] == c1);
                                        assert(s1.pixel(c1.x as int, c1.y as int)
                                            == line_colour);
                                        assert(s0.pixel(c1.x as int, c1.y as int).r
                                            != line_colour.r);
                                        assert(frame0.pixel(c1.x as int, c1.y as int).r
                                            != line_colour.r) by {
                                            if s0.pixel(c1.x as int, c1.y as int)
                                                != frame0.pixel(c1.x as int, c1.y as int) {
                                                assert(s0.pixel(c1.x as int, c1.y as int)
                                                    == line_colour);
                                            }
                                        }
                                        assert(out.pixel(c1.x as int, c1.y as int).r
                                            == line_colour.r);
                                        assert(out.pixel(c1.x as int, c1.y as int)
                                            != frame0.pixel(c1.x as int, c1.y as int));
                                        assert(Point {
                                            x: (c1.x as int) as usize,
                                            y: (c1.y as int) as usize,
                                        } == c1);
                                    } else                                     if k < e2.len() {
                                        assert(k == e1.len());
                                        assert(e2[k] == c2);
                                        assert(e3[k] == c2);
                                        assert(e4[k] == c2);
                                        assert(e5[k] == c2);
                                        assert(e6[k] == c2);
                                        assert(s2.pixel(c2.x as int, c2.y as int)
                                            == line_colour);
                                        assert(s1.pixel(c2.x as int, c2.y as int).r
                                            != line_colour.r);
                                        assert(frame0.pixel(c2.x as int, c2.y as int).r
                                            != line_colour.r) by {
                                            if s1.pixel(c2.x as int, c2.y as int)
                                                != frame0.pixel(c2.x as int, c2.y as int) {
                                                assert(s1.pixel(c2.x as int, c2.y as int)
                                                    == line_colour);
                                            }
                                        }
                                        assert(out.pixel(c2.x as int, c2.y as int).r
                                            == line_colour.r);
                                        assert(out.pixel(c2.x as int, c2.y as int)
                                            != frame0.pixel(c2.x as int, c2.y as int));
                                        assert(Point {
                                            x: (c2.x as int) as usize,
                                            y: (c2.y as int) as usize,
                                        } == c2);
                                    } else                                     if k < e3.len() {
                                        assert(k == e2.len());
                                        assert(e3[k] == c3);
                                        assert(e4[k] == c3);
                                        assert(e5[k] == c3);
                                        assert(e6[k] == c3);
                                        assert(s3.pixel(c3.x as int, c3.y as int)
                                            == line_colour);
                                        assert(s2.pixel(c3.x as int, c3.y as int).r
                                            != line_colour.r);
                                        assert(frame0.pixel(c3.x as int, c3.y as int).r
                                            != line_colour.r) by {
                                            if s2.pixel(c3.x as int, c3.y as int)
                                                != frame0.pixel(c3.x as int, c3.y as int) {
                                                assert(s2.pixel(c3.x as int, c3.y as int)
                                                    == line_colour);
                                            }
                                        }
                                        assert(out.pixel(c3.x as int, c3.y as int).r
                                            == line_colour.r);
                                        assert(out.pixel(c3.x as int, c3.y as int)
                                            != frame0.pixel(c3.x as int, c3.y as int));
                                        assert(Point {
                                            x: (c3.x as int) as usize,
                                            y: (c3.y as int) as usize,
                                        } == c3);
                                    } else                                     if k < e4.len() {
                                        assert(k == e3.len());
                                        assert(e4[k] == c4);
                                        assert(e5[k] == c4);
                                        assert(e6[k] == c4);
                                        assert(s4.pixel(c4.x as int, c4.y as int)
                                            == line_colour);
                                        assert(s3.pixel(c4.x as int, c4.y as int).r
                                            != line_colour.r);
                                        assert(frame0.pixel(c4.x as int, c4.y as int).r
                                            != line_colour.r) by {
                                            if s3.pixel(c4.x as int, c4.y as int)
                                                != frame0.pixel(c4.x as int, c4.y as int) {
                                                assert(s3.pixel(c4.x as int, c4.y as int)
                                                    == line_colour);
                                            }
                                        }
                                        assert(out.pixel(c4.x as int, c4.y as int).r
                                            == line_colour.r);
                                        assert(out.pixel(c4.x as int, c4.y as int)
                                            != frame0.pixel(c4.x as int, c4.y as int));
                                        assert(Point {
                                            x: (c4.x as int) as usize,
                                            y: (c4.y as int) as usize,
                                        } == c4);
                                    } else                                     if k < e5.len() {
                                        assert(k == e4.len());
                                        assert(e5[k] == c5);
                                        assert(e6[k] == c5);
                                        assert(s5.pixel(c5.x as int, c5.y as int)
                                            == line_colour);
                                        assert(s4.pixel(c5.x as int, c5.y as int).r
                                            != line_colour.r);
                                        assert(frame0.pixel(c5.x as int, c5.y as int).r
                                            != line_colour.r) by {
                                            if s4.pixel(c5.x as int, c5.y as int)
                                                != frame0.pixel(c5.x as int, c5.y as int) {
                                                assert(s4.pixel(c5.x as int, c5.y as int)
                                                    == line_colour);
                                            }
                                        }
                                        assert(out.pixel(c5.x as int, c5.y as int).r
                                            == line_colour.r);
                                        assert(out.pixel(c5.x as int, c5.y as int)
                                            != frame0.pixel(c5.x as int, c5.y as int));
                                        assert(Point {
                                            x: (c5.x as int) as usize,
                                            y: (c5.y as int) as usize,
                                        } == c5);
                                    } else                                     if k < e6.len() {
                                        assert(k == e5.len());
                                        assert(e6[k] == c6);
                                        assert(s6.pixel(c6.x as int, c6.y as int)
                                            == line_colour);
                                        assert(s5.pixel(c6.x as int, c6.y as int).r
                                            != line_colour.r);
                                        assert(frame0.pixel(c6.x as int, c6.y as int).r
                                            != line_colour.r) by {
                                            if s5.pixel(c6.x as int, c6.y as int)
                                                != frame0.pixel(c6.x as int, c6.y as int) {
                                                assert(s5.pixel(c6.x as int, c6.y as int)
                                                    == line_colour);
                                            }
                                        }
                                        assert(out.pixel(c6.x as int, c6.y as int).r
                                            == line_colour.r);
                                        assert(out.pixel(c6.x as int, c6.y as int)
                                            != frame0.pixel(c6.x as int, c6.y as int));
                                        assert(Point {
                                            x: (c6.x as int) as usize,
                                            y: (c6.y as int) as usize,
                                        } == c6);
                                    } else {
                                        assert(false);
                                    }
                                }
                            }
                        }
                    }
                }
                proof {
                    assert forall|k: int|
                        0 <= k < done + 1 && input@[pidx(w, #[trigger] total[k])]
                            >= high2 implies out.pixel(
                        total[k].x as int,
                        total[k].y as int,
                    ).r == line_colour.r by {
                        if k == done {
                            if inp >= high2 && pix.r != line_colour.r {
                            } else {
                            }
                        }
                    }
                    done = done + 1;
                }
            },
        }
    }
}

/// A chain of pixels along which edge linking spreads: it starts at a
/// process-extent point whose suppressed magnitude reaches the high
/// threshold, every later point is a six-neighbour of its predecessor whose
/// magnitude reaches the low threshold, and no point of the chain bore the
/// line colour's red channel before linking ran.
pub open spec fn is_link_path(
    ps: Seq<Point>,
    total: Seq<Point>,
    input: Seq<u64>,
    w: int,
    low2: int,
    high2: int,
    f0: Frame,
    line_r: u8,
) -> bool {
    &&& ps.len() > 0
    &&& total.contains(ps[0])
    &&& input[pidx(w, ps[0])] >= high2
    &&& forall|i: int|
        0 < i < ps.len() ==> neighbour6(ps[i - 1], #[trigger] ps[i]) && input[pidx(w, ps[i])]
            >= low2
    &&& forall|i: int|
        0 <= i < ps.len() ==> f0.pixel((#[trigger] ps[i]).x as int, ps[i].y as int).r != line_r
    &&& forall|i: int|
        0 <= i < ps.len() ==> (#[trigger] ps[i]).x < f0.spec_width() && ps[i].y
            < f0.spec_height()
}

/// The pixel `p` is reachable from some strong seed along a link path.
pub open spec fn link_reachable(
    p: Point,
    total: Seq<Point>,
    input: Seq<u64>,
    low2: int,
    high2: int,
    f0: Frame,
    line_r: u8,
) -> bool {
    exists|ps: Seq<Point>|
        #[trigger] is_link_path(ps, total, input, f0.spec_width(), low2, high2, f0, line_r)
            && ps.last() == p
}

/// A strong, unmarked process-extent point is reachable by itself.
proof fn lemma_link_reachable_seed(
    p: Point,
    total: Seq<Point>,
    input: Seq<u64>,
    low2: int,
    high2: int,
    f0: Frame,
    line_r: u8,
)
    requires
        total.contains(p),
        input[pidx(f0.spec_width(), p)] >= high2,
        f0.pixel(p.x as int, p.y as int).r != line_r,
        p.x < f0.spec_width(),
        p.y < f0.spec_height(),
    ensures
        link_reachable(p, total, input, low2, high2, f0, line_r),
{
    let ps = seq![p];
    assert(is_link_path(ps, total, input, f0.spec_width(), low2, high2, f0, line_r));
    assert(ps.last() == p);
}

/// Reachability extends along one weak, unmarked neighbour.
proof fn lemma_link_reachable_step(
    m: Point,
    q: Point,
    total: Seq<Point>,
    input: Seq<u64>,
    low2: int,
    high2: int,
    f0: Frame,
    line_r: u8,
)
    requires
        link_reachable(m, total, input, low2, high2, f0, line_r),
        neighbour6(m, q),
        input[pidx(f0.spec_width(), q)] >= low2,
        f0.pixel(q.x as int, q.y as int).r != line_r,
        q.x < f0.spec_width(),
        q.y < f0.spec_height(),
    ensures
        link_reachable(q, total, input, low2, high2, f0, line_r),
{
    let w = f0.spec_width();
    let ps = choose|ps: Seq<Point>|
        #[trigger] is_link_path(ps, total, input, w, low2, high2, f0, line_r) && ps.last() == m;
    let ps2 = ps.push(q);
    assert(is_link_path(ps2, total, input, w, low2, high2, f0, line_r)) by {
        assert(ps2[0] == ps[0]);
        assert forall|i: int| 0 < i < ps2.len() implies neighbour6(ps2[i - 1], #[trigger] ps2[i])
            && input[pidx(w, ps2[i])] >= low2 by {
            if i < ps.len() {
                assert(ps2[i] == ps[i] && ps2[i - 1] == ps[i - 1]);
            } else {
                assert(ps2[i] == q && ps2[i - 1] == ps[ps.len() - 1]);
            }
        }
        assert forall|i: int| 0 <= i < ps2.len() implies f0.pixel(
            (#[trigger] ps2[i]).x as int,
            ps2[i].y as int,
        ).r != line_r && (#[trigger] ps2[i]).x < w && ps2[i].y < f0.spec_height() by {
            if i < ps.len() {
                assert(ps2[i] == ps[i]);
            } else {
                assert(ps2[i] == q);
            }
        }
    }
    assert(ps2.last() == q);
}

/// Edge linking is complete along connected ridges: whenever a frame pair
/// satisfies the linking contract (every strong process-extent point marked,
/// and every weak in-frame neighbour of a changed pixel marked), every point
/// of every link path bears the line colour's red channel afterwards.
#[verifier::rlimit(60)]
pub proof fn lemma_link_path_marked(
    ps: Seq<Point>,
    total: Seq<Point>,
    input: Seq<u64>,
    f0: Frame,
    f: Frame,
    low2: int,
    high2: int,
    line_r: u8,
)
    requires
        is_link_path(ps, total, input, f0.spec_width(), low2, high2, f0, line_r),
        f.spec_width() == f0.spec_width(),
        f.spec_height() == f0.spec_height(),
        low2 >= 1,
        input.len() == f0.spec_width() * f0.spec_height(),
        forall|k: int|
            0 <= k < total.len() ==> 1 <= (#[trigger] total[k]).x && total[k].x + 2
                <= f0.spec_width() && 1 <= total[k].y && total[k].y + 2 <= f0.spec_height(),
        forall|i: int|
            0 <= i < input.len() && input[i] != 0 ==> total.contains(
                #[trigger] idx_point(f0.spec_width(), i),
            ),
        forall|k: int|
            0 <= k < total.len() && input[pidx(f0.spec_width(), #[trigger] total[k])] >= high2
                ==> f.pixel(total[k].x as int, total[k].y as int).r == line_r,
        forall|x: int, y: int|
            0 <= x < f0.spec_width() && 0 <= y < f0.spec_height() && #[trigger] f.pixel(x, y)
                != f0.pixel(x, y) ==> weak_neighbours_marked(
                f,
                input,
                low2,
                Point { x: x as usize, y: y as usize },
                line_r,
            ),
    ensures
        forall|i: int|
            0 <= i < ps.len() ==> f.pixel((#[trigger] ps[i]).x as int, ps[i].y as int).r == line_r,
    decreases ps.len(),
{
    let w = f0.spec_width();
    let seed = ps[0];
    let ks = choose|k: int| 0 <= k < total.len() && total[k] == seed;
    assert(f.pixel(seed.x as int, seed.y as int).r == line_r);
    if ps.len() > 1 {
        let shorter = ps.drop_last();
        assert(is_link_path(shorter, total, input, w, low2, high2, f0, line_r)) by {
            assert(shorter[0] == ps[0]);
            assert forall|i: int| 0 < i < shorter.len() implies neighbour6(
                shorter[i - 1],
                #[trigger] shorter[i],
            ) && input[pidx(w, shorter[i])] >= low2 by {
                assert(shorter[i] == ps[i] && shorter[i - 1] == ps[i - 1]);
            }
            assert forall|i: int| 0 <= i < shorter.len() implies f0.pixel(
                (#[trigger] shorter[i]).x as int,
                shorter[i].y as int,
            ).r != line_r && (#[trigger] shorter[i]).x < f0.spec_width() && shorter[i].y
                < f0.spec_height() by {
                assert(shorter[i] == ps[i]);
            }
        }
        lemma_link_path_marked(shorter, total, input, f0, f, low2, high2, line_r);
        let m = ps[ps.len() - 2];
        let q = ps[ps.len() - 1];
        assert(shorter[shorter.len() - 1] == m);
        assert(f.pixel(m.x as int, m.y as int).r == line_r);
        // m ended marked but started unmarked, so it counts as changed and
        // its weak neighbours, q among them, are marked
        assert(f.pixel(m.x as int, m.y as int) != f0.pixel(m.x as int, m.y as int));
        assert(weak_neighbours_marked(
            f,
            input,
            low2,
            Point { x: m.x, y: m.y },
            line_r,
        ));
        assert(neighbour6(Point { x: m.x, y: m.y }, q));
        assert(input[q.y * w + q.x] >= low2);
        assert(f.pixel(q.x as int, q.y as int).r == line_r);
        assert forall|i: int| 0 <= i < ps.len() implies f.pixel(
            (#[trigger] ps[i]).x as int,
            ps[i].y as int,
        ).r == line_r by {
            if i < ps.len() - 1 {
                assert(shorter[i] == ps[i]);
            } else {
                assert(ps[i] == q);
            }
        }
    }
}

/// The suppressed squared gradient magnitude at `(x, y)` that a detector with
/// window `win` computes on `frame`: the saturated Sobel responses over the
/// frame's luminance, fed through non-maximum suppression against the
/// magnitude buffer of the window's gradient extent.
pub open spec fn suppressed_value<T: Window>(win: T, frame: Frame, x: int, y: int) -> u64 {
    let w = frame.spec_width();
    let h = frame.spec_height();
    let gray = frame.luma_seq();
    nms_value(
        mag_seq(win.gradient_seq(), gray, w, h),
        grad_h(gray, w, h, x, y),
        grad_v(gray, w, h, x, y),
        w,
        x,
        y,
    )
}

/// The whole suppressed-magnitude buffer a detector with window `win`
/// computes on `frame`: `suppressed_value` at every process-extent point,
/// zero everywhere else.
pub open spec fn supp_seq<T: Window>(win: T, frame: Frame) -> Seq<u64> {
    Seq::new(
        (frame.spec_width() * frame.spec_height()) as nat,
        |i: int|
            if win.process_seq().contains(idx_point(frame.spec_width(), i)) {
                suppressed_value(win, frame, i % frame.spec_width(), i / frame.spec_width())
            } else {
                0u64
            },
    )
}

fn zeros_i16(n: usize) -> (r: Vec<i16>)
    ensures
        r.len() == n,
        forall|i: int| 0 <= i < n ==> r@[i] == 0i16,
{
    let mut r: Vec<i16> = Vec::new();
    let mut k: usize = 0;
    while k < n
        invariant
            k <= n,
            r.len() == k,
            forall|i: int| 0 <= i < k ==> r@[i] == 0i16,
        decreases n - k,
    {
        r.push(0);
        k = k + 1;
    }
    r
}

fn zeros_u64(n: usize) -> (r: Vec<u64>)
    ensures
        r.len() == n,
        forall|i: int| 0 <= i < n ==> r@[i] == 0u64,
{
    let mut r: Vec<u64> = Vec::new();
    let mut k: usize = 0;
    while k < n
        invariant
            k <= n,
            r.len() == k,
            forall|i: int| 0 <= i < k ==> r@[i] == 0u64,
        decreases n - k,
    {
        r.push(0);
        k = k + 1;
    }
    r
}

/// Canny edge detector with buffers preallocated for one frame size and
/// reused across every `detect` call.
pub struct Canny<T: Window> {
    gx: Vec<i16>,
    gy: Vec<i16>,
    filtered: Vec<u64>,
    suppressed: Vec<u64>,
    /// width of the image
    pub width: usize,
    /// height of the image
    pub height: usize,
    low_threshold: u16,
    high_threshold: u16,
    line_colour: Rgba,
    window: T,
}

impl<T: Window> Canny<T> {
    pub closed spec fn spec_width(self) -> usize {
        self.width
    }

    pub closed spec fn spec_height(self) -> usize {
        self.height
    }

    pub closed spec fn spec_low(self) -> u16 {
        self.low_threshold
    }

    pub closed spec fn spec_high(self) -> u16 {
        self.high_threshold
    }

    pub closed spec fn spec_line_colour(self) -> Rgba {
        self.line_colour
    }

    pub closed spec fn spec_window(self) -> T {
        self.window
    }

    /// The engine's internal invariant: the window fits the frame with a
    /// one-pixel margin for its process extent, the buffers hold one entry
    /// per pixel, and outside the window they still hold their initial
    /// zeroes.
    pub closed spec fn wf(self) -> bool {
        &&& self.window.wf()
        &&& self.window.process_wf()
        &&& self.low_threshold >= 1
        &&& 1 <= self.width <= u32::MAX
        &&& 1 <= self.height <= u32::MAX
        &&& self.width * self.height * 4 <= usize::MAX
        &&& self.gx.len() == self.width * self.height
        &&& self.gy.len() == self.width * self.height
        &&& self.filtered.len() == self.width * self.height
        &&& self.suppressed.len() == self.width * self.height
        &&& forall|k: int|
            0 <= k < self.window.gradient_seq().len() ==> (#[trigger] self.window.gradient_seq()[
                k]).x < self.width && self.window.gradient_seq()[k].y < self.height
        &&& forall|k: int|
            0 <= k < self.window.process_seq().len() ==> 1 <= (
            #[trigger] self.window.process_seq()[k]).x && self.window.process_seq()[k].x + 2
                <= self.width && 1 <= self.window.process_seq()[k].y
                && self.window.process_seq()[k].y + 2 <= self.height
        &&& forall|k: int|
            0 <= k < self.window.process_seq().len() ==> self.window.gradient_seq().contains(
                #[trigger] self.window.process_seq()[k],
            )
        &&& forall|i: int|
            0 <= i < self.width * self.height && !self.window.gradient_seq().contains(
                #[trigger] idx_point(self.width as int, i),
            ) ==> self.filtered@[i] == 0
        &&& forall|i: int|
            0 <= i < self.width * self.height && !self.window.process_seq().contains(
                #[trigger] idx_point(self.width as int, i),
            ) ==> self.suppressed@[i] == 0
    }

    pub(crate) fn new(
        width: usize,
        height: usize,
        low_threshold: u16,
        high_threshold: u16,
        line_colour: Rgba,
        window: T,
    ) -> (r: Self)
        requires
            window.wf(),
            window.process_wf(),
            low_threshold >= 1,
            1 <= width <= u32::MAX,
            1 <= height <= u32::MAX,
            width * height * 4 <= usize::MAX,
            forall|k: int|
                0 <= k < window.gradient_seq().len() ==> (#[trigger] window.gradient_seq()[k]).x
                    < width && window.gradient_seq()[k].y < height,
            forall|k: int|
                0 <= k < window.process_seq().len() ==> 1 <= (#[trigger] window.process_seq()[
                    k]).x && window.process_seq()[k].x + 2 <= width && 1
                    <= window.process_seq()[k].y && window.process_seq()[k].y + 2 <= height,
            forall|k: int|
                0 <= k < window.process_seq().len() ==> window.gradient_seq().contains(
                    #[trigger] window.process_seq()[k],
                ),
        ensures
            r.wf(),
            r.spec_width() == width,
            r.spec_height() == height,
            r.spec_low() == low_threshold,
            r.spec_high() == high_threshold,
            r.spec_line_colour() == line_colour,
            r.spec_window() == window,
    {
        proof {
            assert(width * height <= width * height * 4) by (nonlinear_arith)
                requires
                    width >= 0,
                    height >= 0,
            ;
        }
        let n = width * height;
        Self {
            gx: zeros_i16(n),
            gy: zeros_i16(n),
            filtered: zeros_u64(n),
            suppressed: zeros_u64(n),
            width,
            height,
            low_threshold,
            high_threshold,
            line_colour,
            window,
        }
    }

    /// Width of the image the engine was built for.
    pub fn width(&self) -> (r: usize)
        ensures
            r == self.spec_width(),
    {
        self.width
    }

    /// Height of the image the engine was built for.
    pub fn height(&self) -> (r: usize)
        ensures
            r == self.spec_height(),
    {
        self.height
    }

    /// Line colour used by the edge detector.
    pub fn line_colour(&self) -> (r: Rgba)
        ensures
            r == self.spec_line_colour(),
    {
        self.line_colour
    }

    /// Detect edges in an image, in place: every accepted edge pixel is
    /// overwritten with the line colour, all other pixels are left untouched,
    /// so repeated calls accumulate edge markings.
    pub fn detect(&mut self, src: &mut Frame)
        requires
            old(self).wf(),
            old(src).wf(),
            old(src).spec_width() == old(self).spec_width(),
            old(src).spec_height() == old(self).spec_height(),
        ensures
            final (self).wf(),
            final (self).spec_width() == old(self).spec_width(),
            final (self).spec_height() == old(self).spec_height(),
            final (self).spec_low() == old(self).spec_low(),
            final (self).spec_high() == old(self).spec_high(),
            final (self).spec_line_colour() == old(self).spec_line_colour(),
            final (self).spec_window() == old(self).spec_window(),
            hysteresis_rel(
                *old(src),
                *final (src),
                old(self).spec_window().process_seq(),
                supp_seq(old(self).spec_window(), *old(src)),
                (old(self).spec_low() * old(self).spec_low()) as int,
                (old(self).spec_high() * old(self).spec_high()) as int,
                old(self).spec_line_colour(),
            ),
            forall|k: int|
                0 <= k < old(self).spec_window().process_seq().len() && supp_seq(
                    old(self).spec_window(),
                    *old(src),
                )[pidx(
                    old(src).spec_width(),
                    #[trigger] old(self).spec_window().process_seq()[k],
                )] >= old(self).spec_high() * old(self).spec_high() ==> final (src).pixel(
                    old(self).spec_window().process_seq()[k].x as int,
                    old(self).spec_window().process_seq()[k].y as int,
                ).r == old(self).spec_line_colour().r,
            forall|x: int, y: int|
                0 <= x < old(src).spec_width() && 0 <= y < old(src).spec_height()
                    && #[trigger] final (src).pixel(x, y) != old(src).pixel(x, y)
                    ==> weak_neighbours_marked(
                    *final (src),
                    supp_seq(old(self).spec_window(), *old(src)),
                    (old(self).spec_low() * old(self).spec_low()) as int,
                    Point { x: x as usize, y: y as usize },
                    old(self).spec_line_colour().r,
                ),
            forall|x: int, y: int|
                0 <= x < old(src).spec_width() && 0 <= y < old(src).spec_height()
                    && #[trigger] final (src).pixel(x, y) != old(src).pixel(x, y)
                    ==> link_reachable(
                    Point { x: x as usize, y: y as usize },
                    old(self).spec_window().process_seq(),
                    supp_seq(old(self).spec_window(), *old(src)),
                    (old(self).spec_low() * old(self).spec_low()) as int,
                    (old(self).spec_high() * old(self).spec_high()) as int,
                    *old(src),
                    old(self).spec_line_colour().r,
                ),
    {
        let ghost w = self.width as int;
        let ghost h = self.height as int;
        let ghost win = self.window;
        let ghost frame0 = *old(src);
        let gray = src.gray();
        gradient(
            self.width,
            self.height,
            &gray,
            &mut self.gx,
            &mut self.gy,
            &mut self.filtered,
            &self.window,
        );
        proof {
            assert(self.filtered@ =~= mag_seq(win.gradient_seq(), gray@, w, h)) by {
                assert forall|i: int| 0 <= i < w * h implies self.filtered@[i] == mag_seq(
                    win.gradient_seq(),
                    gray@,
                    w,
                    h,
                )[i] by {
                    crate::frame::lemma_row_major_decompose(i, w, h);
                    if win.gradient_seq().contains(idx_point(w, i)) {
                        let k = choose|k: int|
                            0 <= k < win.gradient_seq().len() && win.gradient_seq()[k] == idx_point(
                                w,
                                i,
                            );
                        assert(pidx(w, win.gradient_seq()[k]) == i);
                    }
                }
            }
        }
        non_maximum_suppression(
            self.width,
            self.height,
            &self.filtered,
            &self.gx,
            &self.gy,
            &mut self.suppressed,
            &self.window,
        );
        proof {
            assert(self.suppressed@ =~= supp_seq(win, frame0)) by {
                assert forall|i: int| 0 <= i < w * h implies self.suppressed@[i] == supp_seq(
                    win,
                    frame0,
                )[i] by {
                    crate::frame::lemma_row_major_decompose(i, w, h);
                    if win.process_seq().contains(idx_point(w, i)) {
                        let k = choose|k: int|
                            0 <= k < win.process_seq().len() && win.process_seq()[k] == idx_point(
                                w,
                                i,
                            );
                        assert(pidx(w, win.process_seq()[k]) == i);
                        let kg = choose|kg: int|
                            0 <= kg < win.gradient_seq().len() && win.gradient_seq()[kg]
                                == idx_point(w, i);
                        assert(pidx(w, win.gradient_seq()[kg]) == i);
                        assert(self.gx@[i] == grad_h(gray@, w, h, i % w, i / w));
                        assert(self.gy@[i] == grad_v(gray@, w, h, i % w, i / w));
                    }
                }
            }
        }
        hysteresis(
            self.width,
            self.height,
            &self.suppressed,
            src,
            self.low_threshold,
            self.high_threshold,
            self.line_colour,
            &self.window,
        );
    }
}

/// Build a Canny edge detector.
pub struct CannyBuilder<T: Window> {
    width: usize,
    height: usize,
    window: T,
    low_threshold: Option<u16>,
    high_threshold: Option<u16>,
    line_colour: Option<Rgba>,
}

impl CannyBuilder<RectangleWindow> {
    /// Create a new builder with a simple rectangle detection window covering
    /// the frame up to its last row and column.
    pub fn new(width: usize, height: usize) -> (r: CannyBuilder<RectangleWindow>)
        requires
            width >= 2,
            height >= 2,
        ensures
            r.spec_width() == width,
            r.spec_height() == height,
            r.spec_window() == (RectangleWindow {
                rectangle: Rectangle {
                    top_left: Point { x: 0, y: 0 },
                    bottom_right: Point { x: (width - 1) as usize, y: (height - 1) as usize },
                },
            }),
            r.spec_low_threshold() is None,
            r.spec_high_threshold() is None,
            r.spec_line_colour_opt() is None,
    {
        Self::with_window(
            width,
            height,
            RectangleWindow::new(
                Rectangle::new(Point { x: 0, y: 0 }, Point { x: width - 1, y: height - 1 }),
            ),
        )
    }
}

impl<T: Window> CannyBuilder<T> {
    pub closed spec fn spec_width(self) -> usize {
        self.width
    }

    pub closed spec fn spec_height(self) -> usize {
        self.height
    }

    pub closed spec fn spec_window(self) -> T {
        self.window
    }

    pub closed spec fn spec_low_threshold(self) -> Option<u16> {
        self.low_threshold
    }

    pub closed spec fn spec_high_threshold(self) -> Option<u16> {
        self.high_threshold
    }

    pub closed spec fn spec_line_colour_opt(self) -> Option<Rgba> {
        self.line_colour
    }

    /// The low hysteresis threshold the built detector will use.
    pub open spec fn eff_low(self) -> u16 {
        match self.spec_low_threshold() {
            Some(v) => v,
            None => 150,
        }
    }

    /// The high hysteresis threshold the built detector will use.
    pub open spec fn eff_high(self) -> u16 {
        match self.spec_high_threshold() {
            Some(v) => v,
            None => 300,
        }
    }

    /// The line colour the built detector will use.
    pub open spec fn eff_line_colour(self) -> Rgba {
        match self.spec_line_colour_opt() {
            Some(v) => v,
            None => Rgba { r: 0, g: 0, b: 0, a: 255 },
        }
    }

    /// Create a new builder with a custom edge detection window.
    pub fn with_window(width: usize, height: usize, window: T) -> (r: CannyBuilder<T>)
        ensures
            r.spec_width() == width,
            r.spec_height() == height,
            r.spec_window() == window,
            r.spec_low_threshold() is None,
            r.spec_high_threshold() is None,
            r.spec_line_colour_opt() is None,
    {
        Self { width, height, window, low_threshold: None, high_threshold: None, line_colour: None }
    }

    /// Set the hysteresis low threshold.
    pub fn low_threshold(self, low_threshold: u16) -> (r: CannyBuilder<T>)
        ensures
            r.spec_width() == self.spec_width(),
            r.spec_height() == self.spec_height(),
            r.spec_window() == self.spec_window(),
            r.spec_low_threshold() == Some(low_threshold),
            r.spec_high_threshold() == self.spec_high_threshold(),
            r.spec_line_colour_opt() == self.spec_line_colour_opt(),
    {
        CannyBuilder { low_threshold: Some(low_threshold), ..self }
    }

    /// Set the hysteresis high threshold.
    pub fn high_threshold(self, high_threshold: u16) -> (r: CannyBuilder<T>)
        ensures
            r.spec_width() == self.spec_width(),
            r.spec_height() == self.spec_height(),
            r.spec_window() == self.spec_window(),
            r.spec_low_threshold() == self.spec_low_threshold(),
            r.spec_high_threshold() == Some(high_threshold),
            r.spec_line_colour_opt() == self.spec_line_colour_opt(),
    {
        CannyBuilder { high_threshold: Some(high_threshold), ..self }
    }

    /// Set the colour to use for detected edges.
    pub fn line_colour(self, line_colour: Rgba) -> (r: CannyBuilder<T>)
        ensures
            r.spec_width() == self.spec_width(),
            r.spec_height() == self.spec_height(),
            r.spec_window() == self.spec_window(),
            r.spec_low_threshold() == self.spec_low_threshold(),
            r.spec_high_threshold() == self.spec_high_threshold(),
            r.spec_line_colour_opt() == Some(line_colour),
    {
        CannyBuilder { line_colour: Some(line_colour), ..self }
    }

    /// Build a Canny edge detector.
    pub fn build(self) -> (r: Canny<T>)
        requires
            self.spec_window().wf(),
            self.spec_window().process_wf(),
            self.eff_low() >= 1,
            1 <= self.spec_width() <= u32::MAX,
            1 <= self.spec_height() <= u32::MAX,
            self.spec_width() * self.spec_height() * 4 <= usize::MAX,
            forall|k: int|
                0 <= k < self.spec_window().gradient_seq().len() ==> (
                #[trigger] self.spec_window().gradient_seq()[k]).x < self.spec_width()
                    && self.spec_window().gradient_seq()[k].y < self.spec_height(),
            forall|k: int|
                0 <= k < self.spec_window().process_seq().len() ==> 1 <= (
                #[trigger] self.spec_window().process_seq()[k]).x
                    && self.spec_window().process_seq()[k].x + 2 <= self.spec_width() && 1
                    <= self.spec_window().process_seq()[k].y
                    && self.spec_window().process_seq()[k].y + 2 <= self.spec_height(),
            forall|k: int|
                0 <= k < self.spec_window().process_seq().len()
                    ==> self.spec_window().gradient_seq().contains(
                    #[trigger] self.spec_window().process_seq()[k],
                ),
        ensures
            r.wf(),
            r.spec_width() == self.spec_width(),
            r.spec_height() == self.spec_height(),
            r.spec_low() == self.eff_low(),
            r.spec_high() == self.eff_high(),
            r.spec_line_colour() == self.eff_line_colour(),
            r.spec_window() == self.spec_window(),
    {
        let low = match self.low_threshold {
            Some(v) => v,
            None => 150,
        };
        let high = match self.high_threshold {
            Some(v) => v,
            None => 300,
        };
        let line = match self.line_colour {
            Some(v) => v,
            None => Rgba { r: 0, g: 0, b: 0, a: 255 },
        };
        Canny::new(self.width, self.height, low, high, line, self.window)
    }
}

/// A frame-shaped window whose outer rectangle ends within the raster's last
/// column and row satisfies all the bounds the edge engine asks of a window.
pub proof fn lemma_ring_window_fits(win: RectangleInRectangleWindow, width: usize, height: usize)
    requires
        win.wf(),
        win.process_wf(),
        win.outer.bottom_right.x <= width,
        win.outer.bottom_right.y <= height,
    ensures
        forall|k: int|
            0 <= k < win.gradient_seq().len() ==> (#[trigger] win.gradient_seq()[k]).x < width
                && win.gradient_seq()[k].y < height,
        forall|k: int|
            0 <= k < win.process_seq().len() ==> 1 <= (#[trigger] win.process_seq()[k]).x
                && win.process_seq()[k].x + 2 <= width && 1 <= win.process_seq()[k].y
                && win.process_seq()[k].y + 2 <= height,
        forall|k: int|
            0 <= k < win.process_seq().len() ==> win.gradient_seq().contains(
                #[trigger] win.process_seq()[k],
            ),
{
    let pw = win.spec_process_window();
    assert forall|k: int| 0 <= k < win.gradient_seq().len() implies (
    #[trigger] win.gradient_seq()[k]).x < width && win.gradient_seq()[k].y < height by {
        let p = win.gradient_seq()[k];
        assert(win.points().contains(p)) by {
            assert(win.points()[k] == p);
        }
        lemma_ring_membership(win, win.outer.top_left.y as int, p);
    }
    assert forall|k: int| 0 <= k < win.process_seq().len() implies (1 <= (
    #[trigger] win.process_seq()[k]).x && win.process_seq()[k].x + 2 <= width && 1
        <= win.process_seq()[k].y && win.process_seq()[k].y + 2 <= height
        && win.gradient_seq().contains(win.process_seq()[k])) by {
        let p = win.process_seq()[k];
        assert(pw.points().contains(p)) by {
            assert(pw.points()[k] == p);
        }
        lemma_ring_membership(pw, pw.outer.top_left.y as int, p);
        assert(win.in_ring(p.x as int, p.y as int)) by {
            assert(pw.outer.covers(p.x as int, p.y as int));
            if win.inner.covers(p.x as int, p.y as int) {
                assert(pw.inner.covers(p.x as int, p.y as int));
            }
        }
        lemma_ring_membership(win, win.outer.top_left.y as int, p);
    }
}

} // verus!
