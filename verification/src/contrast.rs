//! Contrast adjustment: a linear stretch of each pixel around the fixed
//! mid-gray pivot 128. The factor is given in thousandths, so 1000 is the
//! identity, larger factors expand intensities away from the pivot and
//! smaller ones compress them towards it.

use vstd::prelude::*;
use crate::image::GrayImage;

verus! {

/// The adjusted intensity of a pixel `v` under `factor_milli` thousandths:
/// `clamp(128 + (v - 128) * factor / 1000, 0, 255)`, the fractional part
/// rounded towards negative infinity.
pub open spec fn contrast_pixel(v: int, factor_milli: int) -> int {
    let nv = 128 + (v - 128) * factor_milli / 1000;
    if nv < 0 {
        0
    } else if nv > 255 {
        255
    } else {
        nv
    }
}

/// A pixel exactly at the pivot 128 is a fixed point of the transform, for
/// every factor.
pub proof fn lemma_contrast_pivot(factor_milli: int)
    ensures
        contrast_pixel(128, factor_milli) == 128,
{
    assert((128 - 128) * factor_milli == 0);
}

/// The identity factor 1000 leaves every 8-bit intensity unchanged.
pub proof fn lemma_contrast_identity_factor(v: int)
    requires
        0 <= v <= 255,
    ensures
        contrast_pixel(v, 1000) == v,
{
    assert((v - 128) * 1000 / 1000 == v - 128) by (nonlinear_arith);
}

/// Division by a positive constant, rounding towards negative infinity.
fn floor_div_1000(a: i64) -> (r: i64)
    requires
        -1000000000000 <= a <= 1000000000000,
    ensures
        r == a as int / 1000,
{
    let q = a / 1000;
    let rem = a % 1000;
    if rem != 0 && a < 0 {
        q - 1
    } else {
        q
    }
}

/// Adjusts the contrast of a grayscale image around the pivot 128. The
/// output has the same dimensions; each pixel is `contrast_pixel` of the
/// input pixel. Factors above 1000 increase contrast, factors below
/// decrease it, and 1000 is the identity.
pub fn adjust_contrast(image: &GrayImage, factor_milli: u32) -> (r: GrayImage)
    requires
        image.wf(),
    ensures
        r.wf(),
        r.width == image.width,
        r.height == image.height,
        r.data@.len() == image.data@.len(),
        forall|i: int|
            0 <= i < r.data@.len() ==> r.data@[i] == contrast_pixel(
                image.data@[i] as int,
                factor_milli as int,
            ) as u8,
{
    let n = image.data.len();
    let mut data: Vec<u8> = Vec::new();
    let mut i: usize = 0;
    while i < n
        invariant
            i <= n,
            n == image.data@.len(),
            data@.len() == i,
            forall|k: int|
                0 <= k < i ==> data@[k] == contrast_pixel(
                    image.data@[k] as int,
                    factor_milli as int,
                ) as u8,
        decreases n - i,
    {
        let v = image.data[i];
        let vd: i64 = v as i64 - 128;
        let f: i64 = factor_milli as i64;
        proof {
            assert(-128 * 4294967295i64 <= vd * f <= 127 * 4294967295i64) by (nonlinear_arith)
                requires
                    -128 <= vd <= 127,
                    0 <= f <= 4294967295i64,
            ;
        }
        let d: i64 = vd * f;
        let scaled = floor_div_1000(d);
        let nv: i64 = 128 + scaled;
        let out: u8 = if nv < 0 {
            0
        } else if nv > 255 {
            255
        } else {
            nv as u8
        };
        data.push(out);
        i = i + 1;
    }
    GrayImage { width: image.width, height: image.height, data }
}

} // verus!
