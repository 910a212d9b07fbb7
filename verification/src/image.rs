//! The raster image model the preprocessing pipeline works on: an 8-bit
//! single-channel (grayscale) image and an 8-bit RGBA colour image, both
//! row-major, plus the luminance reduction from colour to grayscale.
//!
//! Pixel counts are capped at `PIXEL_LIMIT` (134,217,728 pixels, e.g.
//! 16384 x 8192): the exact 128-bit arithmetic that threshold selection and
//! skew detection use is overflow-free up to that size.

use vstd::prelude::*;
use vstd::pervasive::VecAdditionalExecFns;

verus! {

/// Largest supported pixel count of one image.
pub const PIXEL_LIMIT: usize = 134217728;

/// Row-major position of pixel `(x, y)` in a `w`-wide image.
pub open spec fn pix_idx(x: int, y: int, w: int) -> int {
    y * w + x
}

/// Pixel `(x, y)` of a `w`-wide row-major buffer.
pub open spec fn pix_of(w: int, d: Seq<u8>, x: int, y: int) -> u8 {
    d[pix_idx(x, y, w)]
}

/// Row-major positions of in-range pixels are in range.
pub proof fn lemma_pix_idx_bounds(x: int, y: int, w: int, h: int)
    by (nonlinear_arith)
    requires
        0 <= x < w,
        0 <= y < h,
    ensures
        0 <= pix_idx(x, y, w) < w * h,
        pix_idx(x, y, w) == y * w + x,
{
}

/// Distinct in-range pixel coordinates have distinct row-major positions.
pub proof fn lemma_pix_idx_injective(x1: int, y1: int, x2: int, y2: int, w: int, h: int)
    by (nonlinear_arith)
    requires
        0 <= x1 < w,
        0 <= y1 < h,
        0 <= x2 < w,
        0 <= y2 < h,
        !(x1 == x2 && y1 == y2),
    ensures
        pix_idx(x1, y1, w) != pix_idx(x2, y2, w),
{
}

/// Every in-range buffer position is the row-major position of exactly
/// the coordinates obtained by dividing it by the width.
pub proof fn lemma_pix_idx_bounds_inverse(i: int, w: int, h: int)
    by (nonlinear_arith)
    requires
        w > 0,
        h > 0,
        0 <= i < w * h,
    ensures
        0 <= i % w < w,
        0 <= i / w < h,
        pix_idx(i % w, i / w, w) == i,
{
}

/// Dividing a row-major position by the width recovers the coordinates.
pub proof fn lemma_pix_idx_div_mod(x: int, y: int, w: int, h: int)
    by (nonlinear_arith)
    requires
        0 <= x < w,
        0 <= y < h,
    ensures
        0 <= pix_idx(x, y, w) < w * h,
        pix_idx(x, y, w) % w == x,
        pix_idx(x, y, w) / w == y,
{
}

/// An 8-bit grayscale image, row-major. After binarization every pixel is
/// exactly 0 or 255; otherwise any value in 0..=255 is an intensity.
pub struct GrayImage {
    pub width: usize,
    pub height: usize,
    pub data: Vec<u8>,
}

impl GrayImage {
    /// The buffer holds exactly one byte per pixel and the pixel count is
    /// within the supported capacity.
    pub open spec fn wf(self) -> bool {
        &&& self.data@.len() == self.width * self.height
        &&& self.width <= PIXEL_LIMIT
        &&& self.height <= PIXEL_LIMIT
        &&& self.width * self.height <= PIXEL_LIMIT
    }

    /// The intensity of pixel `(x, y)`.
    pub open spec fn pix(self, x: int, y: int) -> u8 {
        pix_of(self.width as int, self.data@, x, y)
    }

    /// Wraps a row-major buffer as an image. Returns `None` exactly when
    /// the buffer length does not match the dimensions or the pixel count
    /// is over the supported capacity.
    pub fn from_raw(width: usize, height: usize, data: Vec<u8>) -> (r: Option<GrayImage>)
        ensures
            match r {
                Some(img) => {
                    &&& img.wf()
                    &&& img.width == width
                    &&& img.height == height
                    &&& img.data@ == data@
                    &&& data@.len() == width * height
                },
                None => !(data@.len() == width * height && width <= PIXEL_LIMIT && height
                    <= PIXEL_LIMIT && width * height <= PIXEL_LIMIT),
            },
    {
        if width > PIXEL_LIMIT || height > PIXEL_LIMIT {
            return None;
        }
        match width.checked_mul(height) {
            Some(n) => {
                if n <= PIXEL_LIMIT && data.len() == n {
                    Some(GrayImage { width, height, data })
                } else {
                    None
                }
            },
            None => None,
        }
    }

    /// A `width` x `height` image with every pixel at `fill`. Returns
    /// `None` exactly when the pixel count is over the supported capacity.
    pub fn filled(width: usize, height: usize, fill: u8) -> (r: Option<GrayImage>)
        ensures
            match r {
                Some(img) => {
                    &&& img.wf()
                    &&& img.width == width
                    &&& img.height == height
                    &&& forall|i: int| 0 <= i < img.data@.len() ==> img.data@[i] == fill
                },
                None => !(width <= PIXEL_LIMIT && height <= PIXEL_LIMIT && width * height
                    <= PIXEL_LIMIT),
            },
    {
        if width > PIXEL_LIMIT || height > PIXEL_LIMIT {
            return None;
        }
        match width.checked_mul(height) {
            Some(n) => {
                if n <= PIXEL_LIMIT {
                    Some(GrayImage { width, height, data: filled_vec(n, fill) })
                } else {
                    None
                }
            },
            None => None,
        }
    }

    /// The width and height, in that order.
    pub fn dimensions(&self) -> (r: (usize, usize))
        ensures
            r.0 == self.width,
            r.1 == self.height,
    {
        (self.width, self.height)
    }

    /// The intensity of pixel `(x, y)`.
    pub fn get_pixel(&self, x: usize, y: usize) -> (r: u8)
        requires
            self.wf(),
            x < self.width,
            y < self.height,
        ensures
            r == self.pix(x as int, y as int),
    {
        proof {
            lemma_pix_idx_bounds(x as int, y as int, self.width as int, self.height as int);
        }
        self.data[y * self.width + x]
    }

    /// Sets pixel `(x, y)` to `v`, leaving every other pixel unchanged.
    pub fn set_pixel(&mut self, x: usize, y: usize, v: u8)
        requires
            old(self).wf(),
            x < old(self).width,
            y < old(self).height,
        ensures
            final (self).wf(),
            final (self).width == old(self).width,
            final (self).height == old(self).height,
            final (self).data@ == old(self).data@.update(
                pix_idx(x as int, y as int, old(self).width as int),
                v,
            ),
            final (self).pix(x as int, y as int) == v,
            forall|a: int, b: int|
                0 <= a < old(self).width && 0 <= b < old(self).height && !(a == x && b == y)
                    ==> final (self).pix(a, b) == old(self).pix(a, b),
    {
        proof {
            lemma_pix_idx_bounds(x as int, y as int, self.width as int, self.height as int);
        }
        let idx = y * self.width + x;
        self.data.set(idx, v);
        proof {
            assert forall|a: int, b: int|
                0 <= a < self.width && 0 <= b < self.height && !(a == x && b == y) implies self.pix(
                a,
                b,
            ) == old(self).pix(a, b) by {
                lemma_pix_idx_bounds(a, b, self.width as int, self.height as int);
                lemma_pix_idx_injective(a, b, x as int, y as int, self.width as int,
                    self.height as int);
            }
        }
    }

    /// An independent image with the same dimensions and pixels.
    pub fn duplicate(&self) -> (r: GrayImage)
        ensures
            r.width == self.width,
            r.height == self.height,
            r.data@ == self.data@,
    {
        GrayImage { width: self.width, height: self.height, data: copy_bytes(&self.data) }
    }
}

/// An 8-bit RGBA colour image, row-major, four bytes per pixel.
pub struct ColorImage {
    pub width: usize,
    pub height: usize,
    pub data: Vec<u8>,
}

impl ColorImage {
    pub open spec fn wf(self) -> bool {
        &&& self.data@.len() == 4 * (self.width * self.height)
        &&& self.width <= PIXEL_LIMIT
        &&& self.height <= PIXEL_LIMIT
        &&& self.width * self.height <= PIXEL_LIMIT
    }

    /// Channel `c` (0 red, 1 green, 2 blue, 3 alpha) of pixel `(x, y)`.
    pub open spec fn chan(self, x: int, y: int, c: int) -> u8 {
        self.data@[4 * pix_idx(x, y, self.width as int) + c]
    }

    /// Wraps a row-major RGBA buffer as an image. Returns `None` exactly
    /// when the buffer length does not match the dimensions or the pixel
    /// count is over the supported capacity.
    pub fn from_raw(width: usize, height: usize, data: Vec<u8>) -> (r: Option<ColorImage>)
        ensures
            match r {
                Some(img) => {
                    &&& img.wf()
                    &&& img.width == width
                    &&& img.height == height
                    &&& img.data@ == data@
                    &&& data@.len() == 4 * (width * height)
                },
                None => !(data@.len() == 4 * (width * height) && width <= PIXEL_LIMIT && height
                    <= PIXEL_LIMIT && width * height <= PIXEL_LIMIT),
            },
    {
        if width > PIXEL_LIMIT || height > PIXEL_LIMIT {
            return None;
        }
        match width.checked_mul(height) {
            Some(n) => {
                if n <= PIXEL_LIMIT && data.len() / 4 == n && data.len() % 4 == 0 {
                    Some(ColorImage { width, height, data })
                } else {
                    None
                }
            },
            None => None,
        }
    }

    /// An independent image with the same dimensions and samples.
    pub fn duplicate(&self) -> (r: ColorImage)
        ensures
            r.width == self.width,
            r.height == self.height,
            r.data@ == self.data@,
    {
        ColorImage { width: self.width, height: self.height, data: copy_bytes(&self.data) }
    }
}

/// A decoded raster image as the pipeline ingests it: either already
/// grayscale or multi-channel colour.
pub enum RasterImage {
    Gray(GrayImage),
    Color(ColorImage),
}

impl RasterImage {
    pub open spec fn wf(self) -> bool {
        match self {
            RasterImage::Gray(g) => g.wf(),
            RasterImage::Color(c) => c.wf(),
        }
    }

    pub open spec fn spec_width(self) -> int {
        match self {
            RasterImage::Gray(g) => g.width as int,
            RasterImage::Color(c) => c.width as int,
        }
    }

    pub open spec fn spec_height(self) -> int {
        match self {
            RasterImage::Gray(g) => g.height as int,
            RasterImage::Color(c) => c.height as int,
        }
    }

    /// The width and height, in that order.
    pub fn dimensions(&self) -> (r: (usize, usize))
        ensures
            r.0 == self.spec_width(),
            r.1 == self.spec_height(),
    {
        match self {
            RasterImage::Gray(g) => (g.width, g.height),
            RasterImage::Color(c) => (c.width, c.height),
        }
    }

    /// An independent image with the same dimensions and samples.
    pub fn duplicate(&self) -> (r: RasterImage)
        ensures
            r.wf() == self.wf(),
            r.spec_width() == self.spec_width(),
            r.spec_height() == self.spec_height(),
            raster_data(r) == raster_data(*self),
            raster_gray_view(r) == raster_gray_view(*self),
            r is Gray <==> *self is Gray,
    {
        match self {
            RasterImage::Gray(g) => RasterImage::Gray(g.duplicate()),
            RasterImage::Color(c) => RasterImage::Color(c.duplicate()),
        }
    }
}

/// A buffer whose every pixel agrees with `target` at the row-major
/// position of its coordinates is `target`.
pub proof fn lemma_data_from_pixels(img: GrayImage, target: Seq<u8>)
    requires
        img.wf(),
        target.len() == img.data@.len(),
        forall|x: int, y: int|
            0 <= x < img.width && 0 <= y < img.height ==> img.pix(x, y) == target[pix_idx(
                x,
                y,
                img.width as int,
            )],
    ensures
        img.data@ == target,
{
    assert forall|i: int| 0 <= i < img.data@.len() implies img.data@[i] == target[i] by {
        assert(img.width > 0 && img.height > 0) by (nonlinear_arith)
            requires
                (img.width as int) * (img.height as int) > 0,
        ;
        lemma_pix_idx_bounds_inverse(i, img.width as int, img.height as int);
        assert(img.pix(i % (img.width as int), i / (img.width as int)) == target[i]);
    }
    assert(img.data@ =~= target);
}

/// The raw sample buffer of a raster image, whatever its channel mode.
pub open spec fn raster_data(img: RasterImage) -> Seq<u8> {
    match img {
        RasterImage::Gray(g) => g.data@,
        RasterImage::Color(c) => c.data@,
    }
}

/// The luminance of an RGB colour, in 0..=255: the sRGB-weighted average
/// `(2126 r + 7152 g + 722 b) / 10000`.
pub open spec fn luma(r: int, g: int, b: int) -> int {
    (2126 * r + 7152 * g + 722 * b) / 10000
}

/// The grayscale pixels of a raster image: its own pixels when it is
/// already grayscale, else the luminance of each colour pixel.
pub open spec fn raster_gray_view(img: RasterImage) -> Seq<u8> {
    match img {
        RasterImage::Gray(g) => g.data@,
        RasterImage::Color(c) => Seq::new(
            (c.width * c.height) as nat,
            |i: int| luma(c.data@[4 * i] as int, c.data@[4 * i + 1] as int, c.data@[4 * i + 2] as int) as u8,
        ),
    }
}

/// Reduces a raster image to single-channel grayscale: the identity on an
/// image that is grayscale already, the per-pixel luminance otherwise.
pub fn to_grayscale(image: &RasterImage) -> (r: GrayImage)
    requires
        image.wf(),
    ensures
        r.wf(),
        r.width == image.spec_width(),
        r.height == image.spec_height(),
        r.data@ == raster_gray_view(*image),
{
    match image {
        RasterImage::Gray(g) => g.duplicate(),
        RasterImage::Color(c) => {
            let n = c.width * c.height;
            let mut data: Vec<u8> = Vec::new();
            let mut i: usize = 0;
            while i < n
                invariant
                    i <= n,
                    n == c.width * c.height,
                    n <= PIXEL_LIMIT,
                    c.data@.len() == 4 * n,
                    data@.len() == i,
                    forall|k: int|
                        0 <= k < i ==> data@[k] == luma(
                            c.data@[4 * k] as int,
                            c.data@[4 * k + 1] as int,
                            c.data@[4 * k + 2] as int,
                        ) as u8,
                decreases n - i,
            {
                let rv = c.data[4 * i] as u32;
                let gv = c.data[4 * i + 1] as u32;
                let bv = c.data[4 * i + 2] as u32;
                let l = ((2126 * rv + 7152 * gv + 722 * bv) / 10000) as u8;
                data.push(l);
                i = i + 1;
            }
            let out = GrayImage { width: c.width, height: c.height, data };
            proof {
                assert(out.data@ =~= raster_gray_view(*image));
            }
            out
        },
    }
}

/// A fresh byte vector equal to `v`.
pub fn copy_bytes(v: &Vec<u8>) -> (r: Vec<u8>)
    ensures
        r@ == v@,
{
    let mut r: Vec<u8> = Vec::new();
    let n = v.len();
    let mut i: usize = 0;
    while i < n
        invariant
            i <= n,
            n == v@.len(),
            r@ == v@.take(i as int),
        decreases n - i,
    {
        r.push(v[i]);
        proof {
            assert(r@ =~= v@.take(i + 1));
        }
        i = i + 1;
    }
    proof {
        assert(v@.take(n as int) =~= v@);
    }
    r
}

/// A byte vector of `n` copies of `fill`.
pub fn filled_vec(n: usize, fill: u8) -> (r: Vec<u8>)
    ensures
        r@.len() == n,
        forall|i: int| 0 <= i < n ==> r@[i] == fill,
{
    let mut r: Vec<u8> = Vec::new();
    let mut i: usize = 0;
    while i < n
        invariant
            i <= n,
            r@.len() == i,
            forall|k: int| 0 <= k < i ==> r@[k] == fill,
        decreases n - i,
    {
        r.push(fill);
        i = i + 1;
    }
    r
}

} // verus!
