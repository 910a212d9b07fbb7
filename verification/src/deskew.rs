//! Skew detection and correction. The angle search tries candidates from
//! -20 to +20 degrees in half-degree steps: for each candidate it computes
//! a virtual horizontal projection profile (per-row sums of ink, sampling
//! the unrotated source through the inverse rotation with bilinear
//! interpolation) and picks the candidate whose profile has the greatest
//! variance; well-aligned text rows alternate between dense ink and empty
//! interline gaps, which maximizes that variance. A detected angle is then
//! corrected by rotating with bilinear interpolation, white-filling
//! samples that fall outside the source.
//!
//! All arithmetic is integer: coordinates are 16.16 fixed point, the sines
//! and cosines of the 81 candidate angles are a fixed table scaled by
//! 65536, and profile variances are compared exactly.

use vstd::prelude::*;
use crate::image::{GrayImage, lemma_pix_idx_bounds, pix_idx, pix_of};

verus! {

/// `(sin, cos)` of each candidate angle, scaled by 65536: entry `k` is
/// for the angle `(k - 40) / 2` degrees, so entry 40 is angle zero with
/// `(0, 65536)` exactly.
pub open spec fn trig_table() -> Seq<(i64, i64)> {
    seq![
        (-22415i64, 61584i64),
        (-21876i64, 61777i64),
        (-21336i64, 61966i64),
        (-20795i64, 62149i64),
        (-20252i64, 62328i64),
        (-19707i64, 62503i64),
        (-19161i64, 62672i64),
        (-18613i64, 62837i64),
        (-18064i64, 62997i64),
        (-17514i64, 63152i64),
        (-16962i64, 63303i64),
        (-16409i64, 63449i64),
        (-15855i64, 63589i64),
        (-15299i64, 63725i64),
        (-14742i64, 63856i64),
        (-14185i64, 63983i64),
        (-13626i64, 64104i64),
        (-13066i64, 64220i64),
        (-12505i64, 64332i64),
        (-11943i64, 64439i64),
        (-11380i64, 64540i64),
        (-10817i64, 64637i64),
        (-10252i64, 64729i64),
        (-9687i64, 64816i64),
        (-9121i64, 64898i64),
        (-8554i64, 64975i64),
        (-7987i64, 65048i64),
        (-7419i64, 65115i64),
        (-6850i64, 65177i64),
        (-6281i64, 65234i64),
        (-5712i64, 65287i64),
        (-5142i64, 65334i64),
        (-4572i64, 65376i64),
        (-4001i64, 65414i64),
        (-3430i64, 65446i64),
        (-2859i64, 65474i64),
        (-2287i64, 65496i64),
        (-1716i64, 65514i64),
        (-1144i64, 65526i64),
        (-572i64, 65534i64),
        (0i64, 65536i64),
        (572i64, 65534i64),
        (1144i64, 65526i64),
        (1716i64, 65514i64),
        (2287i64, 65496i64),
        (2859i64, 65474i64),
        (3430i64, 65446i64),
        (4001i64, 65414i64),
        (4572i64, 65376i64),
        (5142i64, 65334i64),
        (5712i64, 65287i64),
        (6281i64, 65234i64),
        (6850i64, 65177i64),
        (7419i64, 65115i64),
        (7987i64, 65048i64),
        (8554i64, 64975i64),
        (9121i64, 64898i64),
        (9687i64, 64816i64),
        (10252i64, 64729i64),
        (10817i64, 64637i64),
        (11380i64, 64540i64),
        (11943i64, 64439i64),
        (12505i64, 64332i64),
        (13066i64, 64220i64),
        (13626i64, 64104i64),
        (14185i64, 63983i64),
        (14742i64, 63856i64),
        (15299i64, 63725i64),
        (15855i64, 63589i64),
        (16409i64, 63449i64),
        (16962i64, 63303i64),
        (17514i64, 63152i64),
        (18064i64, 62997i64),
        (18613i64, 62837i64),
        (19161i64, 62672i64),
        (19707i64, 62503i64),
        (20252i64, 62328i64),
        (20795i64, 62149i64),
        (21336i64, 61966i64),
        (21876i64, 61777i64),
        (22415i64, 61584i64),
    ]
}

/// The candidate angles table, as a vector.
#[verifier::rlimit(100)]
fn trig_table_exec() -> (r: Vec<(i64, i64)>)
    ensures
        r@ == trig_table(),
{
    let mut t: Vec<(i64, i64)> = Vec::new();
    t.push((-22415i64, 61584i64));
    t.push((-21876i64, 61777i64));
    t.push((-21336i64, 61966i64));
    t.push((-20795i64, 62149i64));
    t.push((-20252i64, 62328i64));
    t.push((-19707i64, 62503i64));
    t.push((-19161i64, 62672i64));
    t.push((-18613i64, 62837i64));
    t.push((-18064i64, 62997i64));
    t.push((-17514i64, 63152i64));
    t.push((-16962i64, 63303i64));
    t.push((-16409i64, 63449i64));
    t.push((-15855i64, 63589i64));
    t.push((-15299i64, 63725i64));
    t.push((-14742i64, 63856i64));
    t.push((-14185i64, 63983i64));
    t.push((-13626i64, 64104i64));
    t.push((-13066i64, 64220i64));
    t.push((-12505i64, 64332i64));
    t.push((-11943i64, 64439i64));
    t.push((-11380i64, 64540i64));
    t.push((-10817i64, 64637i64));
    t.push((-10252i64, 64729i64));
    t.push((-9687i64, 64816i64));
    t.push((-9121i64, 64898i64));
    t.push((-8554i64, 64975i64));
    t.push((-7987i64, 65048i64));
    t.push((-7419i64, 65115i64));
    t.push((-6850i64, 65177i64));
    t.push((-6281i64, 65234i64));
    t.push((-5712i64, 65287i64));
    t.push((-5142i64, 65334i64));
    t.push((-4572i64, 65376i64));
    t.push((-4001i64, 65414i64));
    t.push((-3430i64, 65446i64));
    t.push((-2859i64, 65474i64));
    t.push((-2287i64, 65496i64));
    t.push((-1716i64, 65514i64));
    t.push((-1144i64, 65526i64));
    t.push((-572i64, 65534i64));
    t.push((0i64, 65536i64));
    t.push((572i64, 65534i64));
    t.push((1144i64, 65526i64));
    t.push((1716i64, 65514i64));
    t.push((2287i64, 65496i64));
    t.push((2859i64, 65474i64));
    t.push((3430i64, 65446i64));
    t.push((4001i64, 65414i64));
    t.push((4572i64, 65376i64));
    t.push((5142i64, 65334i64));
    t.push((5712i64, 65287i64));
    t.push((6281i64, 65234i64));
    t.push((6850i64, 65177i64));
    t.push((7419i64, 65115i64));
    t.push((7987i64, 65048i64));
    t.push((8554i64, 64975i64));
    t.push((9121i64, 64898i64));
    t.push((9687i64, 64816i64));
    t.push((10252i64, 64729i64));
    t.push((10817i64, 64637i64));
    t.push((11380i64, 64540i64));
    t.push((11943i64, 64439i64));
    t.push((12505i64, 64332i64));
    t.push((13066i64, 64220i64));
    t.push((13626i64, 64104i64));
    t.push((14185i64, 63983i64));
    t.push((14742i64, 63856i64));
    t.push((15299i64, 63725i64));
    t.push((15855i64, 63589i64));
    t.push((16409i64, 63449i64));
    t.push((16962i64, 63303i64));
    t.push((17514i64, 63152i64));
    t.push((18064i64, 62997i64));
    t.push((18613i64, 62837i64));
    t.push((19161i64, 62672i64));
    t.push((19707i64, 62503i64));
    t.push((20252i64, 62328i64));
    t.push((20795i64, 62149i64));
    t.push((21336i64, 61966i64));
    t.push((21876i64, 61777i64));
    t.push((22415i64, 61584i64));
    proof {
        assert(t@ =~= trig_table());
    }
    t
}

/// Every table entry is within the fixed-point unit circle box.
proof fn lemma_trig_bounds(k: int)
    requires
        0 <= k < 81,
    ensures
        -65536 <= trig_table()[k].0 <= 65536,
        -65536 <= trig_table()[k].1 <= 65536,
{
}

/// The source position that maps to output pixel `(x, y)` under the
/// inverse rotation `(sin, cos)` (scaled by 65536) about the image
/// center, in 16.16 fixed point.
pub open spec fn src_pos(w: int, h: int, sin: int, cos: int, x: int, y: int) -> (int, int) {
    let cx = w * 32768;
    let cy = h * 32768;
    let dx = x * 65536 - cx;
    let dy = y * 65536 - cy;
    ((dx * cos + dy * sin) / 65536 + cx, (dy * cos - dx * sin) / 65536 + cy)
}

/// Whether a fixed-point source position can be bilinearly interpolated:
/// non-negative and strictly inside the last full pixel cell.
pub open spec fn src_in_bounds(w: int, h: int, sx: int, sy: int) -> bool {
    0 <= sx && sx < (w - 1) * 65536 && 0 <= sy && sy < (h - 1) * 65536
}

/// Bilinear interpolation at a non-negative in-bounds fixed-point source
/// position, scaled by 2^32.
pub open spec fn interp_fp(w: int, d: Seq<u8>, sx: int, sy: int) -> int {
    let xi = sx / 65536;
    let yi = sy / 65536;
    let fx = sx % 65536;
    let fy = sy % 65536;
    pix_of(w, d, xi, yi) * ((65536 - fx) * (65536 - fy)) + pix_of(w, d, xi + 1, yi) * (fx * (65536
        - fy)) + pix_of(w, d, xi, yi + 1) * ((65536 - fx) * fy) + pix_of(w, d, xi + 1, yi + 1) * (
    fx * fy)
}

/// The ink (darkness) that output position `(x, y)` contributes to the
/// projection profile at candidate angle `k`: `255 - value` of the
/// interpolated source sample, or nothing when the source position falls
/// outside the image.
pub open spec fn ink_at(w: int, h: int, d: Seq<u8>, k: int, x: int, y: int) -> int {
    let sin = trig_table()[k].0 as int;
    let cos = trig_table()[k].1 as int;
    let p = src_pos(w, h, sin, cos, x, y);
    if src_in_bounds(w, h, p.0, p.1) {
        (255 * 0x100000000 - interp_fp(w, d, p.0, p.1)) / 0x100000000
    } else {
        0
    }
}

/// The ink of row `y` over columns `0..x_end` at candidate angle `k`.
pub open spec fn row_ink(w: int, h: int, d: Seq<u8>, k: int, y: int, x_end: int) -> int
    decreases x_end,
{
    if x_end <= 0 {
        0
    } else {
        row_ink(w, h, d, k, y, x_end - 1) + ink_at(w, h, d, k, x_end - 1, y)
    }
}

/// The sum of the full-row inks of rows `0..y_end` at candidate angle `k`.
pub open spec fn ink_sum(w: int, h: int, d: Seq<u8>, k: int, y_end: int) -> int
    decreases y_end,
{
    if y_end <= 0 {
        0
    } else {
        ink_sum(w, h, d, k, y_end - 1) + row_ink(w, h, d, k, y_end - 1, w)
    }
}

/// The sum of the squared full-row inks of rows `0..y_end`.
pub open spec fn ink_sq_sum(w: int, h: int, d: Seq<u8>, k: int, y_end: int) -> int
    decreases y_end,
{
    if y_end <= 0 {
        0
    } else {
        let r = row_ink(w, h, d, k, y_end - 1, w);
        ink_sq_sum(w, h, d, k, y_end - 1) + r * r
    }
}

/// The projection-profile variance of candidate angle `k`, scaled by the
/// square of the row count: `h * sum(s_i^2) - (sum(s_i))^2`.
pub open spec fn profile_metric(w: int, h: int, d: Seq<u8>, k: int) -> int {
    h * ink_sq_sum(w, h, d, k, h) - ink_sum(w, h, d, k, h) * ink_sum(w, h, d, k, h)
}

/// The best `(candidate index, metric)` among candidates `0..=k`, scanned
/// in order: a candidate replaces the best one only when its metric is
/// strictly greater, and the starting point is the zero angle (index 40)
/// with metric 0.
pub open spec fn best_candidate(w: int, h: int, d: Seq<u8>, k: int) -> (int, int)
    decreases k + 1,
{
    if k < 0 {
        (40int, 0int)
    } else {
        let prev = best_candidate(w, h, d, k - 1);
        if profile_metric(w, h, d, k) > prev.1 {
            (k, profile_metric(w, h, d, k))
        } else {
            prev
        }
    }
}

/// The index of the detected skew angle: entry `k` stands for the angle
/// `(k - 40) / 2` degrees.
pub open spec fn skew_index(w: int, h: int, d: Seq<u8>) -> int {
    best_candidate(w, h, d, 80).0
}

/// What one rotated pixel is: the rounded bilinear interpolation of the
/// source position mapped by the inverse rotation, or white (255) when
/// that position falls outside the source.
pub open spec fn rotate_pixel(w: int, h: int, d: Seq<u8>, sin: int, cos: int, x: int, y: int) -> u8 {
    let p = src_pos(w, h, sin, cos, x, y);
    if src_in_bounds(w, h, p.0, p.1) {
        ((interp_fp(w, d, p.0, p.1) + 0x80000000) / 0x100000000) as u8
    } else {
        255
    }
}

/// What the skew correction makes of an image: unchanged when the
/// detected angle is zero, else every pixel rotated by the opposite of
/// the detected angle.
pub open spec fn deskew_data(w: int, h: int, d: Seq<u8>) -> Seq<u8> {
    let k = skew_index(w, h, d);
    if k == 40 {
        d
    } else {
        Seq::new(
            d.len(),
            |i: int|
                rotate_pixel(
                    w,
                    h,
                    d,
                    -(trig_table()[k].0 as int),
                    trig_table()[k].1 as int,
                    i % w,
                    i / w,
                ),
        )
    }
}

/// Division by 65536, rounding towards negative infinity.
fn floor_div_fp(a: i64) -> (r: i64)
    requires
        -0x2000000000000000 <= a <= 0x2000000000000000,
    ensures
        r == a as int / 65536,
{
    let q = a / 65536;
    let rem = a % 65536;
    if rem != 0 && a < 0 {
        q - 1
    } else {
        q
    }
}

/// The fixed-point source position for output pixel `(x, y)`.
fn src_pos_exec(w: usize, h: usize, sin: i64, cos: i64, x: usize, y: usize) -> (r: (i64, i64))
    requires
        w <= 134217728,
        h <= 134217728,
        x < w,
        y < h,
        -65536 <= sin <= 65536,
        -65536 <= cos <= 65536,
    ensures
        r.0 == src_pos(w as int, h as int, sin as int, cos as int, x as int, y as int).0,
        r.1 == src_pos(w as int, h as int, sin as int, cos as int, x as int, y as int).1,
        -0x100000000000000 <= r.0 <= 0x100000000000000,
        -0x100000000000000 <= r.1 <= 0x100000000000000,
{
    let cx: i64 = (w as i64) * 32768;
    let cy: i64 = (h as i64) * 32768;
    let dx: i64 = (x as i64) * 65536 - cx;
    let dy: i64 = (y as i64) * 65536 - cy;
    proof {
        assert(-0x800000000000000 <= dx * cos <= 0x800000000000000 && -0x800000000000000 <= dx
            * sin <= 0x800000000000000) by (nonlinear_arith)
            requires
                -0x80000000000 <= dx <= 0x80000000000,
                -65536 <= cos <= 65536,
                -65536 <= sin <= 65536,
        ;
        assert(-0x800000000000000 <= dy * cos <= 0x800000000000000 && -0x800000000000000 <= dy
            * sin <= 0x800000000000000) by (nonlinear_arith)
            requires
                -0x80000000000 <= dy <= 0x80000000000,
                -65536 <= cos <= 65536,
                -65536 <= sin <= 65536,
        ;
    }
    let sx = floor_div_fp(dx * cos + dy * sin) + cx;
    let sy = floor_div_fp(dy * cos - dx * sin) + cy;
    (sx, sy)
}

/// Bilinear interpolation of the pixel cell at `(xi, yi)` with fractional
/// offsets `fx, fy` (scaled by 65536); the result is scaled by 2^32 and
/// is at most `255 * 2^32`.
fn interp_exec(p00: u8, p10: u8, p01: u8, p11: u8, fx: u64, fy: u64) -> (r: u64)
    requires
        fx < 65536,
        fy < 65536,
    ensures
        r == p00 * ((65536 - fx) * (65536 - fy)) + p10 * (fx * (65536 - fy)) + p01 * ((65536 - fx)
            * fy) + p11 * (fx * fy),
        r <= 255 * 0x100000000,
{
    let gx: u64 = 65536 - fx;
    let gy: u64 = 65536 - fy;
    proof {
        assert(gx * gy <= 0x100000000 && fx * gy <= 0x100000000 && gx * fy <= 0x100000000 && fx
            * fy <= 0x100000000) by (nonlinear_arith)
            requires
                0 <= fx <= 65536,
                0 <= fy <= 65536,
                gx == 65536 - fx,
                gy == 65536 - fy,
        ;
        assert((p00 as int) * (gx * gy) <= 255 * (gx * gy) && (p10 as int) * (fx * gy) <= 255 * (fx
            * gy) && (p01 as int) * (gx * fy) <= 255 * (gx * fy) && (p11 as int) * (fx * fy) <= 255
            * (fx * fy)) by (nonlinear_arith)
            requires
                p00 <= 255,
                p10 <= 255,
                p01 <= 255,
                p11 <= 255,
                gx * gy >= 0,
                fx * gy >= 0,
                gx * fy >= 0,
                fx * fy >= 0,
        ;
        assert(gx * gy + fx * gy + gx * fy + fx * fy == 0x100000000) by (nonlinear_arith)
            requires
                gx == 65536 - fx,
                gy == 65536 - fy,
                0 <= fx <= 65536,
                0 <= fy <= 65536,
        ;
        assert(255 * (gx * gy) + 255 * (fx * gy) + 255 * (gx * fy) + 255 * (fx * fy) == 255
            * 0x100000000) by (nonlinear_arith)
            requires
                gx * gy + fx * gy + gx * fy + fx * fy == 0x100000000,
        ;
    }
    (p00 as u64) * (gx * gy) + (p10 as u64) * (fx * gy) + (p01 as u64) * (gx * fy) + (p11 as u64)
        * (fx * fy)
}

/// The interpolated sample at an in-bounds fixed-point source position,
/// scaled by 2^32.
fn sample_fp(image: &GrayImage, sx: i64, sy: i64) -> (r: u64)
    requires
        image.wf(),
        src_in_bounds(image.width as int, image.height as int, sx as int, sy as int),
        image.width >= 2,
        image.height >= 2,
    ensures
        r == interp_fp(image.width as int, image.data@, sx as int, sy as int),
        r <= 255 * 0x100000000,
{
    let xi = (sx / 65536) as usize;
    let yi = (sy / 65536) as usize;
    let fx = (sx % 65536) as u64;
    let fy = (sy % 65536) as u64;
    proof {
        assert(sx as int / 65536 < image.width - 1 && sy as int / 65536 < image.height - 1)
            by (nonlinear_arith)
            requires
                0 <= (sx as int) && (sx as int) < (image.width - 1) * 65536,
                0 <= (sy as int) && (sy as int) < (image.height - 1) * 65536,
        ;
    }
    let p00 = image.get_pixel(xi, yi);
    let p10 = image.get_pixel(xi + 1, yi);
    let p01 = image.get_pixel(xi, yi + 1);
    let p11 = image.get_pixel(xi + 1, yi + 1);
    interp_exec(p00, p10, p01, p11, fx, fy)
}

/// The ink contribution of output position `(x, y)` at candidate `k`.
fn ink_at_exec(image: &GrayImage, sin: i64, cos: i64, x: usize, y: usize, Ghost(k): Ghost<int>) -> (r:
    u64)
    requires
        image.wf(),
        x < image.width,
        y < image.height,
        image.width <= 134217728,
        image.height <= 134217728,
        0 <= k < 81,
        sin == trig_table()[k].0,
        cos == trig_table()[k].1,
    ensures
        r == ink_at(image.width as int, image.height as int, image.data@, k, x as int, y as int),
        r <= 255,
{
    proof {
        lemma_trig_bounds(k);
    }
    let p = src_pos_exec(image.width, image.height, sin, cos, x, y);
    let w64 = image.width as i64;
    let h64 = image.height as i64;
    if 0 <= p.0 && p.0 < (w64 - 1) * 65536 && 0 <= p.1 && p.1 < (h64 - 1) * 65536 {
        let v = sample_fp(image, p.0, p.1);
        let ink = (255u64 * 0x100000000 - v) / 0x100000000;
        proof {
            assert(ink <= 255) by (nonlinear_arith)
                requires
                    ink as int == (255 * 0x100000000 - (v as int)) / 0x100000000,
                    0 <= (v as int) && (v as int) <= 255 * 0x100000000,
            ;
        }
        ink
    } else {
        0
    }
}

/// The projection profile of candidate `k`: `(sum of row inks, sum of
/// squared row inks)`.
#[verifier::rlimit(60)]
fn profile_sums(image: &GrayImage, sin: i64, cos: i64, Ghost(k): Ghost<int>) -> (r: (u64, u128))
    requires
        image.wf(),
        image.width <= 134217728,
        image.height <= 134217728,
        0 <= k < 81,
        sin == trig_table()[k].0,
        cos == trig_table()[k].1,
    ensures
        r.0 == ink_sum(image.width as int, image.height as int, image.data@, k, image.height as int),
        r.1 == ink_sq_sum(image.width as int, image.height as int, image.data@, k, image.height as int),
        r.0 <= 0x800000000,
        r.1 <= 0x2000000000000000000000000,
{
    let w = image.width;
    let h = image.height;
    let mut sum: u64 = 0;
    let mut ssq: u128 = 0;
    let mut y: usize = 0;
    while y < h
        invariant
            y <= h,
            image.wf(),
            w == image.width,
            h == image.height,
            w <= 134217728,
            h <= 134217728,
            0 <= k < 81,
            sin == trig_table()[k].0,
            cos == trig_table()[k].1,
            sum == ink_sum(w as int, h as int, image.data@, k, y as int),
            ssq == ink_sq_sum(w as int, h as int, image.data@, k, y as int),
            sum <= 255 * ((w as int) * (y as int)),
            ssq <= (y as int) * ((255 * (w as int)) * (255 * (w as int))),
        decreases h - y,
    {
        let mut row: u64 = 0;
        let mut x: usize = 0;
        while x < w
            invariant
                x <= w,
                y < h,
                image.wf(),
                w == image.width,
                h == image.height,
                w <= 134217728,
                h <= 134217728,
                0 <= k < 81,
                sin == trig_table()[k].0,
                cos == trig_table()[k].1,
                row == row_ink(w as int, h as int, image.data@, k, y as int, x as int),
                row <= 255 * (x as int),
            decreases w - x,
        {
            let ink = ink_at_exec(image, sin, cos, x, y, Ghost(k));
            row = row + ink;
            x = x + 1;
        }
        proof {
            let wi = w as int;
            let hi = h as int;
            let yi = y as int;
            let q = (255 * wi) * (255 * wi);
            assert(255 * (wi * (yi + 1)) == 255 * (wi * yi) + 255 * wi) by (nonlinear_arith);
            assert((row as int) * (row as int) <= q) by (nonlinear_arith)
                requires
                    0 <= (row as int) && (row as int) <= 255 * wi,
                    q == (255 * wi) * (255 * wi),
            ;
            assert((yi + 1) * q == yi * q + q) by (nonlinear_arith);
            assert(255 * (wi * (yi + 1)) <= 255 * (wi * hi)) by (nonlinear_arith)
                requires
                    0 <= yi && yi + 1 <= hi,
                    0 <= wi,
            ;
            assert((yi + 1) * q <= hi * q) by (nonlinear_arith)
                requires
                    0 <= yi && yi + 1 <= hi,
                    q >= 0,
            ;
            assert(hi * q <= 65025 * (134217728int * 134217728int)) by (nonlinear_arith)
                requires
                    q == (255 * wi) * (255 * wi),
                    0 <= wi && wi <= 134217728,
                    0 <= hi,
                    wi * hi <= 134217728,
            ;
            assert(255 * (wi * hi) <= 255 * 134217728) by (nonlinear_arith)
                requires
                    wi * hi <= 134217728,
            ;
        }
        sum = sum + row;
        ssq = ssq + (row as u128) * (row as u128);
        y = y + 1;
    }
    proof {
        let wi = w as int;
        let hi = h as int;
        let q = (255 * wi) * (255 * wi);
        assert(255 * (wi * hi) <= 0x800000000int) by (nonlinear_arith)
            requires
                wi * hi <= 134217728,
        ;
        assert(hi * q <= 0x2000000000000000000000000int) by (nonlinear_arith)
            requires
                q == (255 * wi) * (255 * wi),
                0 <= wi && wi <= 134217728,
                0 <= hi,
                wi * hi <= 134217728,
        ;
    }
    (sum, ssq)
}

/// Whether candidate metric `h * ssq_c - sum_c^2` strictly exceeds the
/// best metric `h * ssq_b - sum_b^2`, compared without subtraction.
fn metric_gt(h: u64, sum_c: u64, ssq_c: u128, sum_b: u64, ssq_b: u128) -> (r: bool)
    requires
        h <= 134217728,
        sum_c <= 0x800000000,
        ssq_c <= 0x2000000000000000000000000,
        sum_b <= 0x800000000,
        ssq_b <= 0x2000000000000000000000000,
    ensures
        r == ((h as int) * (ssq_c as int) - (sum_c as int) * (sum_c as int) > (h as int) * (
        ssq_b as int) - (sum_b as int) * (sum_b as int)),
{
    proof {
        assert((h as int) * (ssq_c as int) <= 134217728
            * 0x2000000000000000000000000int) by (nonlinear_arith)
            requires
                0 <= (h as int) && (h as int) <= 134217728,
                0 <= (ssq_c as int) && (ssq_c as int) <= 0x2000000000000000000000000int,
        ;
        assert((h as int) * (ssq_b as int) <= 134217728
            * 0x2000000000000000000000000int) by (nonlinear_arith)
            requires
                0 <= (h as int) && (h as int) <= 134217728,
                0 <= (ssq_b as int) && (ssq_b as int) <= 0x2000000000000000000000000int,
        ;
        assert((sum_c as int) * (sum_c as int) <= 0x800000000int * 0x800000000int)
            by (nonlinear_arith)
            requires
                0 <= (sum_c as int) && (sum_c as int) <= 0x800000000int,
        ;
        assert((sum_b as int) * (sum_b as int) <= 0x800000000int * 0x800000000int)
            by (nonlinear_arith)
            requires
                0 <= (sum_b as int) && (sum_b as int) <= 0x800000000int,
        ;
    }
    let lhs: u128 = (h as u128) * ssq_c + (sum_b as u128) * (sum_b as u128);
    let rhs: u128 = (h as u128) * ssq_b + (sum_c as u128) * (sum_c as u128);
    lhs > rhs
}

/// Finds the candidate angle whose projection profile has the greatest
/// variance, scanning from -20 to +20 degrees in half-degree steps. Ties
/// keep the earlier candidate, and the zero angle with variance 0 is the
/// starting point.
fn detect_skew_index(image: &GrayImage) -> (r: usize)
    requires
        image.wf(),
    ensures
        r == skew_index(image.width as int, image.height as int, image.data@),
        r < 81,
{
    let trig = trig_table_exec();
    let h64 = image.height as u64;
    let mut best_k: usize = 40;
    let mut best_sum: u64 = 0;
    let mut best_ssq: u128 = 0;
    let mut k: usize = 0;
    while k < 81
        invariant
            k <= 81,
            image.wf(),
            image.width <= 134217728,
            image.height <= 134217728,
            h64 == image.height,
            trig@ == trig_table(),
            best_k == best_candidate(image.width as int, image.height as int, image.data@,
                k as int - 1,
            ).0,
            (h64 as int) * (best_ssq as int) - (best_sum as int) * (best_sum as int)
                == best_candidate(image.width as int, image.height as int, image.data@,
                k as int - 1,
            ).1,
            best_k < 81,
            best_sum <= 0x800000000,
            best_ssq <= 0x2000000000000000000000000,
        decreases 81 - k,
    {
        let (sin, cos) = trig[k];
        let p = profile_sums(image, sin, cos, Ghost(k as int));
        if metric_gt(h64, p.0, p.1, best_sum, best_ssq) {
            best_k = k;
            best_sum = p.0;
            best_ssq = p.1;
        }
        k = k + 1;
    }
    best_k
}

/// The detected skew angle of the image, in tenths of a degree, in
/// -200..=200: the candidate angle whose horizontal projection profile
/// has the greatest variance.
pub fn detect_skew_angle(image: &GrayImage) -> (r: i64)
    requires
        image.wf(),
    ensures
        r == (skew_index(image.width as int, image.height as int, image.data@) - 40) * 5,
        -200 <= r <= 200,
{
    let k = detect_skew_index(image);
    (k as i64 - 40) * 5
}

/// Rotates the image by the rotation whose inverse is `(sin, cos)`
/// (scaled by 65536) about its center, with bilinear interpolation;
/// samples falling outside the source become white (255). Dimensions are
/// preserved.
fn rotate_image(image: &GrayImage, sin: i64, cos: i64) -> (r: GrayImage)
    requires
        image.wf(),
        image.width <= 134217728,
        image.height <= 134217728,
        -65536 <= sin <= 65536,
        -65536 <= cos <= 65536,
    ensures
        r.wf(),
        r.width == image.width,
        r.height == image.height,
        forall|x: int, y: int|
            0 <= x < image.width && 0 <= y < image.height ==> r.pix(x, y) == rotate_pixel(
                image.width as int,
                image.height as int,
                image.data@,
                sin as int,
                cos as int,
                x,
                y,
            ),
{
    let w = image.width;
    let h = image.height;
    let mut data: Vec<u8> = Vec::new();
    let mut y: usize = 0;
    while y < h
        invariant
            y <= h,
            image.wf(),
            w == image.width,
            h == image.height,
            w <= 134217728,
            h <= 134217728,
            -65536 <= sin <= 65536,
            -65536 <= cos <= 65536,
            data@.len() == y * w,
            forall|a: int, b: int|
                0 <= a < w && 0 <= b < y ==> data@[pix_idx(a, b, w as int)] == rotate_pixel(
                    w as int,
                    h as int,
                    image.data@,
                    sin as int,
                    cos as int,
                    a,
                    b,
                ),
        decreases h - y,
    {
        let mut x: usize = 0;
        proof {
            assert((y as int) * (w as int) + (w as int) <= 134217728 * 134217728 + 134217728)
                by (nonlinear_arith)
                requires
                    0 <= (y as int) && (y as int) < (h as int),
                    h as int <= 134217728,
                    0 <= (w as int) && (w as int) <= 134217728,
            ;
        }
        while x < w
            invariant
                x <= w,
                y < h,
                image.wf(),
                w == image.width,
                h == image.height,
                w <= 134217728,
                h <= 134217728,
                -65536 <= sin <= 65536,
                -65536 <= cos <= 65536,
                data@.len() == y * w + x,
                y * w + w <= 134217728 * 134217728 + 134217728,
                forall|a: int, b: int|
                    0 <= a < w && 0 <= b < y ==> data@[pix_idx(a, b, w as int)] == rotate_pixel(
                        w as int,
                        h as int,
                        image.data@,
                        sin as int,
                        cos as int,
                        a,
                        b,
                    ),
                forall|a: int|
                    0 <= a < x ==> data@[pix_idx(a, y as int, w as int)] == rotate_pixel(
                        w as int,
                        h as int,
                        image.data@,
                        sin as int,
                        cos as int,
                        a,
                        y as int,
                    ),
            decreases w - x,
        {
            let p = src_pos_exec(w, h, sin, cos, x, y);
            let w64 = w as i64;
            let h64 = h as i64;
            let v: u8 = if 0 <= p.0 && p.0 < (w64 - 1) * 65536 && 0 <= p.1 && p.1 < (h64 - 1)
                * 65536 {
                let s = sample_fp(image, p.0, p.1);
                proof {
                    assert(((s as int) + 0x80000000) / 0x100000000 <= 255) by (nonlinear_arith)
                        requires
                            0 <= (s as int) && (s as int) <= 255 * 0x100000000,
                    ;
                }
                ((s + 0x80000000) / 0x100000000) as u8
            } else {
                255
            };
            proof {
                assert(v == rotate_pixel(w as int, h as int, image.data@, sin as int, cos as int,
                    x as int, y as int));
            }
            data.push(v);
            proof {
                assert forall|a: int, b: int|
                    0 <= a < w && 0 <= b && (b < y || (b == y && a <= x)) implies data@[pix_idx(
                    a,
                    b,
                    w as int,
                )] == rotate_pixel(w as int, h as int, image.data@, sin as int, cos as int, a, b)
                    by {
                    if b < y {
                        lemma_pix_idx_bounds(a, b, w as int, y as int);
                        assert(pix_idx(a, b, w as int) < (y as int) * (w as int))
                            by (nonlinear_arith)
                            requires
                                0 <= pix_idx(a, b, w as int) < (w as int) * (y as int),
                        ;
                    } else {
                        assert(pix_idx(a, y as int, w as int) == (y as int) * (w as int) + a);
                    }
                }
            }
            x = x + 1;
        }
        proof {
            assert(((y as int) + 1) * (w as int) == (y as int) * (w as int) + (w as int))
                by (nonlinear_arith);
        }
        y = y + 1;
    }
    let out = GrayImage { width: w, height: h, data };
    proof {
        assert((h as int) * (w as int) == (w as int) * (h as int)) by (nonlinear_arith);
        assert(out.wf());
        assert forall|x: int, y: int|
            0 <= x < w && 0 <= y < h implies out.pix(x, y) == rotate_pixel(
            w as int,
            h as int,
            image.data@,
            sin as int,
            cos as int,
            x,
            y,
        ) by {
            lemma_pix_idx_bounds(x, y, w as int, h as int);
        }
    }
    out
}

/// Detects and corrects the skew of a grayscale image: when the detected
/// angle is zero the image is returned unchanged (avoiding needless
/// interpolation loss), otherwise the image is rotated by the opposite
/// angle, white-filling uncovered regions. Dimensions are always
/// preserved.
pub fn deskew(image: &GrayImage) -> (r: GrayImage)
    requires
        image.wf(),
    ensures
        r.wf(),
        r.width == image.width,
        r.height == image.height,
        r.data@ == deskew_data(image.width as int, image.height as int, image.data@),
{
    let k = detect_skew_index(image);
    if k == 40 {
        return image.duplicate();
    }
    let trig = trig_table_exec();
    let (sin, cos) = trig[k];
    proof {
        lemma_trig_bounds(k as int);
    }
    let r = rotate_image(image, -sin, cos);
    proof {
        let ghost wi = image.width as int;
        let ghost hi = image.height as int;
        let ghost di = image.data@;
        assert forall|i: int| 0 <= i < r.data@.len() implies r.data@[i] == deskew_data(wi, hi, di)[i]
            by {
            assert(r.width > 0 && r.height > 0) by (nonlinear_arith)
                requires
                    (r.width as int) * (r.height as int) > 0,
            ;
            crate::image::lemma_pix_idx_bounds_inverse(i, r.width as int, r.height as int);
            let a = i % (r.width as int);
            let b = i / (r.width as int);
            assert(r.pix(a, b) == rotate_pixel(wi, hi, di, (-sin) as int, cos as int, a, b));
            assert(r.data@[i] == r.pix(a, b));
            assert(deskew_data(wi, hi, di)[i] == rotate_pixel(
                wi,
                hi,
                di,
                -(trig_table()[k as int].0 as int),
                trig_table()[k as int].1 as int,
                a,
                b,
            ));
        }
        assert(r.data@ =~= deskew_data(wi, hi, di));
    }
    r
}

} // verus!

verus! {

/// On an all-white buffer every sample interpolates to pure white, so no
/// position contributes ink.
proof fn lemma_white_ink(w: int, h: int, d: Seq<u8>, k: int, x: int, y: int)
    requires
        d.len() == w * h,
        forall|i: int| 0 <= i < d.len() ==> d[i] == 255,
        0 <= k < 81,
    ensures
        ink_at(w, h, d, k, x, y) == 0,
{
    let sin = trig_table()[k].0 as int;
    let cos = trig_table()[k].1 as int;
    let p = src_pos(w, h, sin, cos, x, y);
    if src_in_bounds(w, h, p.0, p.1) {
        let sx = p.0;
        let sy = p.1;
        let xi = sx / 65536;
        let yi = sy / 65536;
        let fx = sx % 65536;
        let fy = sy % 65536;
        assert(w >= 2 && h >= 2) by (nonlinear_arith)
            requires
                0 <= sx && sx < (w - 1) * 65536,
                0 <= sy && sy < (h - 1) * 65536,
        ;
        assert(0 <= xi < w - 1 && 0 <= yi < h - 1) by (nonlinear_arith)
            requires
                0 <= sx && sx < (w - 1) * 65536,
                0 <= sy && sy < (h - 1) * 65536,
                xi == sx / 65536,
                yi == sy / 65536,
        ;
        crate::image::lemma_pix_idx_bounds(xi, yi, w, h);
        crate::image::lemma_pix_idx_bounds(xi + 1, yi, w, h);
        crate::image::lemma_pix_idx_bounds(xi, yi + 1, w, h);
        crate::image::lemma_pix_idx_bounds(xi + 1, yi + 1, w, h);
        assert(pix_of(w, d, xi, yi) == 255);
        assert(pix_of(w, d, xi + 1, yi) == 255);
        assert(pix_of(w, d, xi, yi + 1) == 255);
        assert(pix_of(w, d, xi + 1, yi + 1) == 255);
        assert(0 <= fx < 65536 && 0 <= fy < 65536);
        assert(255 * ((65536 - fx) * (65536 - fy)) + 255 * (fx * (65536 - fy)) + 255 * ((65536
            - fx) * fy) + 255 * (fx * fy) == 255 * 0x100000000) by (nonlinear_arith)
            requires
                0 <= fx < 65536,
                0 <= fy < 65536,
        ;
        assert(interp_fp(w, d, sx, sy) == 255 * 0x100000000);
    }
}

proof fn lemma_white_row(w: int, h: int, d: Seq<u8>, k: int, y: int, x_end: int)
    requires
        d.len() == w * h,
        forall|i: int| 0 <= i < d.len() ==> d[i] == 255,
        0 <= k < 81,
    ensures
        row_ink(w, h, d, k, y, x_end) == 0,
    decreases x_end,
{
    if x_end > 0 {
        lemma_white_row(w, h, d, k, y, x_end - 1);
        lemma_white_ink(w, h, d, k, x_end - 1, y);
    }
}

proof fn lemma_white_sums(w: int, h: int, d: Seq<u8>, k: int, y_end: int)
    requires
        d.len() == w * h,
        forall|i: int| 0 <= i < d.len() ==> d[i] == 255,
        0 <= k < 81,
    ensures
        ink_sum(w, h, d, k, y_end) == 0,
        ink_sq_sum(w, h, d, k, y_end) == 0,
    decreases y_end,
{
    if y_end > 0 {
        lemma_white_sums(w, h, d, k, y_end - 1);
        lemma_white_row(w, h, d, k, y_end - 1, w);
    }
}

proof fn lemma_white_best(w: int, h: int, d: Seq<u8>, k: int)
    requires
        d.len() == w * h,
        forall|i: int| 0 <= i < d.len() ==> d[i] == 255,
        -1 <= k < 81,
    ensures
        best_candidate(w, h, d, k) == (40int, 0int),
    decreases k + 1,
{
    if k >= 0 {
        lemma_white_best(w, h, d, k - 1);
        lemma_white_sums(w, h, d, k, h);
        assert(profile_metric(w, h, d, k) == 0);
    }
}

/// A flat white page has no detectable skew: every candidate's projection
/// profile has variance zero, the search keeps the zero angle, and the
/// correction leaves the image untouched.
pub proof fn lemma_deskew_uniform_white(w: int, h: int, d: Seq<u8>)
    requires
        d.len() == w * h,
        forall|i: int| 0 <= i < d.len() ==> d[i] == 255,
    ensures
        skew_index(w, h, d) == 40,
        deskew_data(w, h, d) == d,
{
    lemma_white_best(w, h, d, 80);
}

} // verus!
