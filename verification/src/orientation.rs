//! Coarse orientation correction: a lossless rotation by a multiple of 90
//! degrees, applied from an externally detected orientation hint. This is
//! independent of the fine-grained skew correction and operates on
//! multi-channel images.

use vstd::prelude::*;
use crate::image::{ColorImage, GrayImage, RasterImage, lemma_pix_idx_bounds, pix_idx, raster_data};

verus! {

/// A detected page orientation, as a clockwise rotation hint.
#[derive(Debug, Clone, Copy, PartialEq, Eq, Structural)]
pub enum Orientation {
    /// 0 degrees: already upright.
    Upright,
    /// 90 degrees clockwise: the top of the page points right.
    Clockwise90,
    /// 180 degrees: upside down.
    UpsideDown,
    /// 270 degrees clockwise: the top of the page points left.
    CounterClockwise90,
}

/// The orientation reported for a rotation value in degrees: 90, 180 and
/// 270 map to their rotations, everything else counts as upright.
pub open spec fn orientation_of_degrees(degrees: u32) -> Orientation {
    if degrees == 90 {
        Orientation::Clockwise90
    } else if degrees == 180 {
        Orientation::UpsideDown
    } else if degrees == 270 {
        Orientation::CounterClockwise90
    } else {
        Orientation::Upright
    }
}

impl Orientation {
    /// Classifies an orientation value in degrees, as an orientation and
    /// script detector reports it.
    pub fn from_tesseract_degrees(degrees: u32) -> (r: Orientation)
        ensures
            r == orientation_of_degrees(degrees),
    {
        match degrees {
            90 => Orientation::Clockwise90,
            180 => Orientation::UpsideDown,
            270 => Orientation::CounterClockwise90,
            _ => Orientation::Upright,
        }
    }
}

/// The RGBA expansion of a grayscale pixel: the intensity in each colour
/// channel and an opaque alpha.
pub open spec fn gray_rgba_chan(v: u8, c: int) -> u8 {
    if c == 3 {
        255
    } else {
        v
    }
}

/// Expands a grayscale image to RGBA.
fn gray_to_rgba(g: &GrayImage) -> (r: ColorImage)
    requires
        g.wf(),
    ensures
        r.wf(),
        r.width == g.width,
        r.height == g.height,
        forall|i: int, c: int|
            0 <= i < g.data@.len() && 0 <= c < 4 ==> r.data@[4 * i + c] == gray_rgba_chan(
                g.data@[i],
                c,
            ),
{
    let n = g.data.len();
    let mut data: Vec<u8> = Vec::new();
    let mut i: usize = 0;
    while i < n
        invariant
            i <= n,
            n == g.data@.len(),
            n <= 134217728,
            data@.len() == 4 * i,
            forall|k: int, c: int|
                0 <= k < i && 0 <= c < 4 ==> data@[4 * k + c] == gray_rgba_chan(g.data@[k], c),
        decreases n - i,
    {
        let v = g.data[i];
        data.push(v);
        data.push(v);
        data.push(v);
        data.push(255);
        i = i + 1;
    }
    ColorImage { width: g.width, height: g.height, data }
}

/// The RGBA view of any raster image: colour samples as they are, or the
/// grayscale samples expanded.
pub open spec fn raster_rgba_chan(img: RasterImage, i: int, c: int) -> u8 {
    match img {
        RasterImage::Gray(g) => gray_rgba_chan(g.data@[i], c),
        RasterImage::Color(col) => col.data@[4 * i + c],
    }
}

fn raster_to_rgba(image: &RasterImage) -> (r: ColorImage)
    requires
        image.wf(),
    ensures
        r.wf(),
        r.width == image.spec_width(),
        r.height == image.spec_height(),
        forall|i: int, c: int|
            0 <= i < r.width * r.height && 0 <= c < 4 ==> r.data@[4 * i + c] == raster_rgba_chan(
                *image,
                i,
                c,
            ),
{
    match image {
        RasterImage::Gray(g) => gray_to_rgba(g),
        RasterImage::Color(c) => c.duplicate(),
    }
}

/// The source coordinates that land on output pixel `(x, y)` of an image
/// rotated clockwise by `quarters` quarter turns. For one or three
/// quarters the output dimensions are the source dimensions swapped.
pub open spec fn rot_src(quarters: int, w: int, h: int, x: int, y: int) -> (int, int) {
    if quarters == 1 {
        (y, h - 1 - x)
    } else if quarters == 2 {
        (w - 1 - x, h - 1 - y)
    } else {
        (w - 1 - y, x)
    }
}

/// Rotates an RGBA image clockwise by `quarters` in {1, 2, 3} quarter
/// turns, losslessly moving whole pixels.
fn rotate_quarters(src: &ColorImage, quarters: u8) -> (r: ColorImage)
    requires
        src.wf(),
        1 <= quarters <= 3,
    ensures
        r.wf(),
        quarters == 2 ==> r.width == src.width && r.height == src.height,
        quarters != 2 ==> r.width == src.height && r.height == src.width,
        forall|x: int, y: int, c: int|
            0 <= x < r.width && 0 <= y < r.height && 0 <= c < 4 ==> r.data@[4 * pix_idx(
                x,
                y,
                r.width as int,
            ) + c] == src.chan(
                rot_src(quarters as int, src.width as int, src.height as int, x, y).0,
                rot_src(quarters as int, src.width as int, src.height as int, x, y).1,
                c,
            ),
{
    let w = src.width;
    let h = src.height;
    let (ow, oh) = if quarters == 2 {
        (w, h)
    } else {
        (h, w)
    };
    let mut data: Vec<u8> = Vec::new();
    let mut y: usize = 0;
    while y < oh
        invariant
            y <= oh,
            src.wf(),
            w == src.width,
            h == src.height,
            quarters == 2 ==> ow == w && oh == h,
            quarters != 2 ==> ow == h && oh == w,
            1 <= quarters <= 3,
            data@.len() == 4 * (y * ow),
            forall|a: int, b: int, c: int|
                0 <= a < ow && 0 <= b < y && 0 <= c < 4 ==> data@[4 * pix_idx(a, b, ow as int) + c]
                    == src.chan(
                    rot_src(quarters as int, w as int, h as int, a, b).0,
                    rot_src(quarters as int, w as int, h as int, a, b).1,
                    c,
                ),
        decreases oh - y,
    {
        let mut x: usize = 0;
        proof {
            lemma_quarter_bounds(y as int, ow as int, oh as int);
        }
        while x < ow
            invariant
                x <= ow,
                y < oh,
                src.wf(),
                w == src.width,
                h == src.height,
                quarters == 2 ==> ow == w && oh == h,
                quarters != 2 ==> ow == h && oh == w,
                1 <= quarters <= 3,
                data@.len() == 4 * (y * ow + x),
                y * ow + ow <= 134217728,
                forall|a: int, b: int, c: int|
                    0 <= a < ow && 0 <= b < y && 0 <= c < 4 ==> data@[4 * pix_idx(a, b, ow as int)
                        + c] == src.chan(
                        rot_src(quarters as int, w as int, h as int, a, b).0,
                        rot_src(quarters as int, w as int, h as int, a, b).1,
                        c,
                    ),
                forall|a: int, c: int|
                    0 <= a < x && 0 <= c < 4 ==> data@[4 * pix_idx(a, y as int, ow as int) + c]
                        == src.chan(
                        rot_src(quarters as int, w as int, h as int, a, y as int).0,
                        rot_src(quarters as int, w as int, h as int, a, y as int).1,
                        c,
                    ),
            decreases ow - x,
        {
            let (sx, sy) = if quarters == 1 {
                (y, h - 1 - x)
            } else if quarters == 2 {
                (w - 1 - x, h - 1 - y)
            } else {
                (w - 1 - y, x)
            };
            proof {
                lemma_pix_idx_bounds(sx as int, sy as int, w as int, h as int);
            }
            let base = (sy * w + sx) * 4;
            data.push(src.data[base]);
            data.push(src.data[base + 1]);
            data.push(src.data[base + 2]);
            data.push(src.data[base + 3]);
            proof {
                assert forall|a: int, b: int, c: int|
                    0 <= a < ow && 0 <= b && (b < y || (b == y && a <= x)) && 0 <= c < 4 implies
                    data@[4 * pix_idx(a, b, ow as int) + c] == src.chan(
                    rot_src(quarters as int, w as int, h as int, a, b).0,
                    rot_src(quarters as int, w as int, h as int, a, b).1,
                    c,
                ) by {
                    if b < y {
                        lemma_pix_idx_bounds(a, b, ow as int, y as int);
                        assert(pix_idx(a, b, ow as int) < (y as int) * (ow as int))
                            by (nonlinear_arith)
                            requires
                                0 <= pix_idx(a, b, ow as int) < (ow as int) * (y as int),
                        ;
                    } else {
                        assert(pix_idx(a, y as int, ow as int) == (y as int) * (ow as int) + a);
                    }
                }
            }
            x = x + 1;
        }
        proof {
            assert(((y as int) + 1) * (ow as int) == (y as int) * (ow as int) + (ow as int))
                by (nonlinear_arith);
        }
        y = y + 1;
    }
    let out = ColorImage { width: ow, height: oh, data };
    proof {
        assert((oh as int) * (ow as int) == (ow as int) * (oh as int)) by (nonlinear_arith);
        assert(out.wf()) by (nonlinear_arith)
            requires
                out.data@.len() == 4 * ((ow as int) * (oh as int)),
                out.width == ow,
                out.height == oh,
                (w as int) * (h as int) <= 134217728,
                (ow as int) * (oh as int) == (w as int) * (h as int) || (ow as int) * (oh as int)
                    == (h as int) * (w as int),
                ow <= 134217728,
                oh <= 134217728,
        ;
    }
    out
}

proof fn lemma_quarter_bounds(y: int, ow: int, oh: int)
    by (nonlinear_arith)
    requires
        0 <= y < oh,
        0 <= ow,
        ow * oh <= 134217728 || oh * ow <= 134217728,
    ensures
        y * ow + ow <= 134217728,
{
}

/// Applies a lossless rotation by the multiple of 90 degrees that undoes
/// the detected orientation. An upright image is returned unchanged (in
/// its original channel mode); any other orientation produces an RGBA
/// image whose pixels are the source pixels moved whole.
pub fn rotate_orientation(image: &RasterImage, orientation: Orientation) -> (r: RasterImage)
    requires
        image.wf(),
    ensures
        r.wf(),
        orientation == Orientation::Upright ==> {
            &&& r.spec_width() == image.spec_width()
            &&& r.spec_height() == image.spec_height()
            &&& raster_data(r) == raster_data(*image)
            &&& (r is Gray <==> *image is Gray)
        },
        orientation == Orientation::UpsideDown ==> {
            &&& r is Color
            &&& r.spec_width() == image.spec_width()
            &&& r.spec_height() == image.spec_height()
        },
        (orientation == Orientation::Clockwise90 || orientation
            == Orientation::CounterClockwise90) ==> {
            &&& r is Color
            &&& r.spec_width() == image.spec_height()
            &&& r.spec_height() == image.spec_width()
        },
        orientation != Orientation::Upright ==> forall|x: int, y: int, c: int|
            0 <= x < r.spec_width() && 0 <= y < r.spec_height() && 0 <= c < 4 ==> rgba_at(r, x, y, c)
                == raster_rgba_chan(
                *image,
                pix_idx(
                    rot_src(
                        quarters_of(orientation),
                        image.spec_width(),
                        image.spec_height(),
                        x,
                        y,
                    ).0,
                    rot_src(
                        quarters_of(orientation),
                        image.spec_width(),
                        image.spec_height(),
                        x,
                        y,
                    ).1,
                    image.spec_width(),
                ),
                c,
            ),
{
    match orientation {
        Orientation::Upright => image.duplicate(),
        Orientation::Clockwise90 => {
            let rgba = raster_to_rgba(image);
            let rot = rotate_quarters(&rgba, 1);
            proof {
                lemma_rotated_channels(*image, rgba, rot, 1);
            }
            RasterImage::Color(rot)
        },
        Orientation::UpsideDown => {
            let rgba = raster_to_rgba(image);
            let rot = rotate_quarters(&rgba, 2);
            proof {
                lemma_rotated_channels(*image, rgba, rot, 2);
            }
            RasterImage::Color(rot)
        },
        Orientation::CounterClockwise90 => {
            let rgba = raster_to_rgba(image);
            let rot = rotate_quarters(&rgba, 3);
            proof {
                lemma_rotated_channels(*image, rgba, rot, 3);
            }
            RasterImage::Color(rot)
        },
    }
}

/// The clockwise quarter turns that undo an orientation.
pub open spec fn quarters_of(orientation: Orientation) -> int {
    match orientation {
        Orientation::Upright => 0,
        Orientation::Clockwise90 => 1,
        Orientation::UpsideDown => 2,
        Orientation::CounterClockwise90 => 3,
    }
}

/// RGBA channel `c` of pixel `(x, y)` of a raster image.
pub open spec fn rgba_at(img: RasterImage, x: int, y: int, c: int) -> u8 {
    raster_rgba_chan(img, pix_idx(x, y, img.spec_width()), c)
}

proof fn lemma_rotated_channels(
    input: RasterImage,
    rgba: ColorImage,
    rot: ColorImage,
    quarters: int,
)
    requires
        input.wf(),
        rgba.wf(),
        rot.wf(),
        rgba.width == input.spec_width(),
        rgba.height == input.spec_height(),
        forall|i: int, c: int|
            0 <= i < rgba.width * rgba.height && 0 <= c < 4 ==> rgba.data@[4 * i + c]
                == raster_rgba_chan(input, i, c),
        1 <= quarters <= 3,
        quarters == 2 ==> rot.width == rgba.width && rot.height == rgba.height,
        quarters != 2 ==> rot.width == rgba.height && rot.height == rgba.width,
        forall|x: int, y: int, c: int|
            0 <= x < rot.width && 0 <= y < rot.height && 0 <= c < 4 ==> rot.data@[4 * pix_idx(
                x,
                y,
                rot.width as int,
            ) + c] == rgba.chan(
                rot_src(quarters, rgba.width as int, rgba.height as int, x, y).0,
                rot_src(quarters, rgba.width as int, rgba.height as int, x, y).1,
                c,
            ),
    ensures
        forall|x: int, y: int, c: int|
            0 <= x < rot.width && 0 <= y < rot.height && 0 <= c < 4 ==> rgba_at(
                RasterImage::Color(rot),
                x,
                y,
                c,
            ) == raster_rgba_chan(
                input,
                pix_idx(
                    rot_src(quarters, input.spec_width(), input.spec_height(), x, y).0,
                    rot_src(quarters, input.spec_width(), input.spec_height(), x, y).1,
                    input.spec_width(),
                ),
                c,
            ),
{
    let w = rgba.width as int;
    let h = rgba.height as int;
    assert forall|x: int, y: int, c: int|
        0 <= x < rot.width && 0 <= y < rot.height && 0 <= c < 4 implies rgba_at(
        RasterImage::Color(rot),
        x,
        y,
        c,
    ) == raster_rgba_chan(
        input,
        pix_idx(
            rot_src(quarters, w, h, x, y).0,
            rot_src(quarters, w, h, x, y).1,
            w,
        ),
        c,
    ) by {
        let s = rot_src(quarters, w, h, x, y);
        lemma_pix_idx_bounds(s.0, s.1, w, h);
        let i = pix_idx(s.0, s.1, w);
        assert(rgba_at(RasterImage::Color(rot), x, y, c) == rot.data@[4 * pix_idx(
            x,
            y,
            rot.width as int,
        ) + c]);
        assert(rot.data@[4 * pix_idx(x, y, rot.width as int) + c] == rgba.chan(s.0, s.1, c));
        assert(rgba.chan(s.0, s.1, c) == rgba.data@[4 * i + c]);
        assert(rgba.data@[4 * i + c] == raster_rgba_chan(input, i, c));
    }
}

} // verus!
