use vstd::prelude::*;

verus! {

/// An RGBA colour, one byte per channel.
#[derive(Clone, Copy, Debug, PartialEq, Eq, Structural)]
pub struct Rgba {
    pub r: u8,
    pub g: u8,
    pub b: u8,
    pub a: u8,
}

/// A raster of RGBA pixels, row-major, four bytes per pixel.
pub struct Frame {
    width: usize,
    height: usize,
    data: Vec<u8>,
}

/// The 8-bit luminance of an RGBA colour, as the sRGB-weighted integer mean
/// `(2126 r + 7152 g + 722 b) / 10000`.  The weights sum to 10000, so the
/// result always fits in a byte.
pub open spec fn luma_value(c: Rgba) -> int {
    (2126 * (c.r as int) + 7152 * (c.g as int) + 722 * (c.b as int)) / 10000
}

/// A row-major index stays within the raster.
pub proof fn lemma_row_major_bounds(x: int, y: int, w: int, h: int)
    requires
        0 <= x < w,
        0 <= y < h,
    ensures
        0 <= y * w + x < w * h,
{
    assert(y * w + x < w * h) by (nonlinear_arith)
        requires
            0 <= x < w,
            0 <= y < h,
    ;
    assert(y * w + x >= 0) by (nonlinear_arith)
        requires
            0 <= x,
            0 <= y,
            0 <= w,
    ;
}

/// Row-major indexing is injective: two coordinates with the same index are
/// the same coordinate.
pub proof fn lemma_row_major_injective(x1: int, y1: int, x2: int, y2: int, w: int)
    requires
        0 <= x1 < w,
        0 <= x2 < w,
        0 <= y1,
        0 <= y2,
        y1 * w + x1 == y2 * w + x2,
    ensures
        x1 == x2,
        y1 == y2,
{
    if y1 < y2 {
        assert((y2 - y1) * w >= w) by (nonlinear_arith)
            requires
                y2 - y1 >= 1,
                w >= 0,
        ;
        assert(y2 * w - y1 * w == (y2 - y1) * w) by (nonlinear_arith);
    }
    if y2 < y1 {
        assert((y1 - y2) * w >= w) by (nonlinear_arith)
            requires
                y1 - y2 >= 1,
                w >= 0,
        ;
        assert(y1 * w - y2 * w == (y1 - y2) * w) by (nonlinear_arith);
    }
}

/// A linear index decomposes into column `i % w` and row `i / w`.
pub proof fn lemma_row_major_decompose(i: int, w: int, h: int)
    requires
        0 <= i < w * h,
        0 < w,
    ensures
        0 <= i % w < w,
        0 <= i / w < h,
        (i / w) * w + (i % w) == i,
{
    vstd::arithmetic::div_mod::lemma_fundamental_div_mod(i, w);
    vstd::arithmetic::div_mod::lemma_mod_bound(i, w);
    let q = i / w;
    assert(w * q == q * w) by (nonlinear_arith);
    if q < 0 {
        assert(q * w <= -w) by (nonlinear_arith)
            requires
                q <= -1,
                w > 0,
        ;
        assert(false);
    }
    if q >= h {
        assert(q * w >= h * w) by (nonlinear_arith)
            requires
                q >= h,
                w > 0,
        ;
        assert(h * w == w * h) by (nonlinear_arith);
        assert(false);
    }
}

impl Frame {
    pub closed spec fn spec_width(self) -> int {
        self.width as int
    }

    /// The dimensions are machine words.
    pub proof fn lemma_dims_bounded(self)
        ensures
            0 <= self.spec_width() <= usize::MAX,
            0 <= self.spec_height() <= usize::MAX,
    {
    }

    pub closed spec fn spec_height(self) -> int {
        self.height as int
    }

    /// Four bytes per pixel, rows stored consecutively.
    pub closed spec fn wf(self) -> bool {
        self.data.len() == self.width * self.height * 4
    }

    /// The colour of the pixel at `(x, y)`.
    pub closed spec fn pixel(self, x: int, y: int) -> Rgba {
        let i = 4 * (y * self.width + x);
        Rgba { r: self.data@[i], g: self.data@[i + 1], b: self.data@[i + 2], a: self.data@[i + 3] }
    }

    /// Build a frame from `width * height` RGBA pixels given as raw bytes.
    pub fn from_rgba_bytes(width: usize, height: usize, data: Vec<u8>) -> (r: Frame)
        requires
            data.len() == width * height * 4,
        ensures
            r.wf(),
            r.spec_width() == width,
            r.spec_height() == height,
            forall|x: int, y: int|
                0 <= x < width && 0 <= y < height ==> #[trigger] r.pixel(x, y) == (Rgba {
                    r: data@[4 * (y * width + x)],
                    g: data@[4 * (y * width + x) + 1],
                    b: data@[4 * (y * width + x) + 2],
                    a: data@[4 * (y * width + x) + 3],
                }),
    {
        Frame { width, height, data }
    }

    /// Build a frame from raw bytes, rejecting a buffer whose length does not
    /// match the dimensions.
    pub fn from_raw(width: usize, height: usize, data: Vec<u8>) -> (r: Option<Frame>)
        ensures
            r is Some <==> data.len() == width * height * 4,
            r matches Some(f) ==> {
                &&& f.wf()
                &&& f.spec_width() == width
                &&& f.spec_height() == height
                &&& forall|x: int, y: int|
                    0 <= x < width && 0 <= y < height ==> #[trigger] f.pixel(x, y) == (Rgba {
                        r: data@[4 * (y * width + x)],
                        g: data@[4 * (y * width + x) + 1],
                        b: data@[4 * (y * width + x) + 2],
                        a: data@[4 * (y * width + x) + 3],
                    })
            },
    {
        let expected = match width.checked_mul(height) {
            Some(p) => match p.checked_mul(4) {
                Some(b) => b,
                None => {
                    return None;
                },
            },
            None => {
                return None;
            },
        };
        if data.len() == expected {
            Some(Self::from_rgba_bytes(width, height, data))
        } else {
            None
        }
    }

    pub fn width(&self) -> (r: usize)
        ensures
            r == self.spec_width(),
    {
        self.width
    }

    pub fn height(&self) -> (r: usize)
        ensures
            r == self.spec_height(),
    {
        self.height
    }

    fn pixel_index(&self, x: usize, y: usize) -> (r: usize)
        requires
            self.wf(),
            x < self.spec_width(),
            y < self.spec_height(),
        ensures
            r == 4 * (y * self.spec_width() + x),
            r + 4 <= self.data.len(),
    {
        proof {
            lemma_row_major_bounds(x as int, y as int, self.width as int, self.height as int);
        }
        4 * (y * self.width + x)
    }

    pub fn get_pixel(&self, x: usize, y: usize) -> (r: Rgba)
        requires
            self.wf(),
            x < self.spec_width(),
            y < self.spec_height(),
        ensures
            r == self.pixel(x as int, y as int),
    {
        let i = self.pixel_index(x, y);
        Rgba { r: self.data[i], g: self.data[i + 1], b: self.data[i + 2], a: self.data[i + 3] }
    }

    pub fn put_pixel(&mut self, x: usize, y: usize, c: Rgba)
        requires
            old(self).wf(),
            x < old(self).spec_width(),
            y < old(self).spec_height(),
        ensures
            final (self).wf(),
            final (self).spec_width() == old(self).spec_width(),
            final (self).spec_height() == old(self).spec_height(),
            final (self).pixel(x as int, y as int) == c,
            forall|i: int, j: int|
                0 <= i < old(self).spec_width() && 0 <= j < old(self).spec_height() && !(i == x && j
                    == y) ==> #[trigger] final (self).pixel(i, j) == old(self).pixel(i, j),
    {
        let i = self.pixel_index(x, y);
        self.data.set(i, c.r);
        self.data.set(i + 1, c.g);
        self.data.set(i + 2, c.b);
        self.data.set(i + 3, c.a);
        proof {
            assert forall|i2: int, j2: int|
                0 <= i2 < old(self).spec_width() && 0 <= j2 < old(self).spec_height() && !(i2 == x
                    && j2 == y) implies #[trigger] self.pixel(i2, j2) == old(self).pixel(
                i2,
                j2,
            ) by {
                lemma_row_major_bounds(i2, j2, self.width as int, self.height as int);
                if j2 * self.width + i2 == y * self.width + x {
                    lemma_row_major_injective(i2, j2, x as int, y as int, self.width as int);
                }
            }
        }
    }

    /// The raw RGBA bytes of the frame, row-major.
    pub fn into_raw(self) -> (r: Vec<u8>)
        requires
            self.wf(),
        ensures
            r.len() == self.spec_width() * self.spec_height() * 4,
            forall|x: int, y: int|
                0 <= x < self.spec_width() && 0 <= y < self.spec_height() ==> {
                    let i = 4 * (y * self.spec_width() + x);
                    &&& r@[i] == #[trigger] self.pixel(x, y).r
                    &&& r@[i + 1] == self.pixel(x, y).g
                    &&& r@[i + 2] == self.pixel(x, y).b
                    &&& r@[i + 3] == self.pixel(x, y).a
                },
    {
        self.data
    }

    /// The luminance of every pixel, row-major, as a sequence of bytes.
    pub closed spec fn luma_seq(self) -> Seq<u8> {
        Seq::new(
            (self.width * self.height) as nat,
            |i: int| luma_value(self.pixel(i % (self.width as int), i / (self.width as int))) as u8,
        )
    }

    /// The number of linear pixel indices below `n` whose red channel is not
    /// `line_r`.
    closed spec fn unmarked_upto(self, line_r: u8, n: int) -> nat
        decreases n,
    {
        if n <= 0 {
            0
        } else {
            self.unmarked_upto(line_r, n - 1) + if self.data@[4 * (n - 1)] != line_r {
                1nat
            } else {
                0nat
            }
        }
    }

    /// The number of pixels whose red channel is not `line_r`.  Marking
    /// pixels with a colour whose red channel is `line_r` strictly shrinks
    /// this count, which bounds the work of the edge-linking flood fill.
    pub closed spec fn unmarked_count(self, line_r: u8) -> nat {
        self.unmarked_upto(line_r, self.width * self.height)
    }

    proof fn lemma_unmarked_upto_decreases(f1: Frame, f2: Frame, line_r: u8, t: int, n: int)
        requires
            f1.wf(),
            f2.wf(),
            f1.width == f2.width,
            f1.height == f2.height,
            0 <= t < f1.width * f1.height,
            f1.data@[4 * t] != line_r,
            f2.data@[4 * t] == line_r,
            forall|i: int|
                0 <= i < f1.width * f1.height && i != t ==> f2.data@[4 * i] == #[trigger] f1.data@[4
                    * i],
            0 <= n <= f1.width * f1.height,
        ensures
            f2.unmarked_upto(line_r, n) <= f1.unmarked_upto(line_r, n),
            n > t ==> f2.unmarked_upto(line_r, n) < f1.unmarked_upto(line_r, n),
        decreases n,
    {
        if n > 0 {
            Self::lemma_unmarked_upto_decreases(f1, f2, line_r, t, n - 1);
        }
    }

    /// Overwriting one pixel whose red channel was not `line_r` with a colour
    /// whose red channel is `line_r` strictly decreases `unmarked_count`.
    pub proof fn lemma_unmarked_count_decreases(f1: Frame, f2: Frame, line_r: u8, x: int, y: int)
        requires
            f1.wf(),
            f2.wf(),
            f2.spec_width() == f1.spec_width(),
            f2.spec_height() == f1.spec_height(),
            0 <= x < f1.spec_width(),
            0 <= y < f1.spec_height(),
            f1.pixel(x, y).r != line_r,
            f2.pixel(x, y).r == line_r,
            forall|i: int, j: int|
                0 <= i < f1.spec_width() && 0 <= j < f1.spec_height() && !(i == x && j == y)
                    ==> #[trigger] f2.pixel(i, j) == f1.pixel(i, j),
        ensures
            f2.unmarked_count(line_r) < f1.unmarked_count(line_r),
    {
        let w = f1.width as int;
        let h = f1.height as int;
        let t = y * w + x;
        lemma_row_major_bounds(x, y, w, h);
        assert forall|i: int| 0 <= i < w * h && i != t implies f2.data@[4 * i]
            == #[trigger] f1.data@[4 * i] by {
            lemma_row_major_decompose(i, w, h);
            if i % w == x && i / w == y {
                assert(i == t);
            } else {
                assert(f2.pixel(i % w, i / w) == f1.pixel(i % w, i / w));
            }
        }
        Self::lemma_unmarked_upto_decreases(f1, f2, line_r, t, w * h);
    }

    /// One luminance byte per pixel of the frame, row-major.
    ///
    /// Relies on the image crate's `ConvertBuffer` conversion from RGBA to
    /// 8-bit luma, which computes `(2126 r + 7152 g + 722 b) / 10000` in
    /// integer arithmetic for each pixel; `from_raw` and `into_raw` there only
    /// repackage the pixel buffer.
    #[verifier::external_body]
    pub fn gray(&self) -> (g: Vec<u8>)
        requires
            self.wf(),
            self.spec_width() <= u32::MAX,
            self.spec_height() <= u32::MAX,
        ensures
            g.len() == self.spec_width() * self.spec_height(),
            g@ == self.luma_seq(),
    {
        let rgba: image::RgbaImage =
            image::RgbaImage::from_raw(self.width as u32, self.height as u32, self.data.clone())
                .expect("buffer length matches dimensions");
        let gray: image::GrayImage = image::buffer::ConvertBuffer::convert(&rgba);
        gray.into_raw()
    }
}

} // verus!
