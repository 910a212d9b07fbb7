//! Binarization: reducing a grayscale image to pure black (0) and white
//! (255) by one of three strategies. `Fixed` thresholds against a given
//! value; `Otsu` picks the global threshold that maximizes the inter-class
//! variance of the histogram, compared exactly as rationals; `Adaptive`
//! thresholds each pixel against the mean of its 15x15 window (clipped at
//! the borders) minus a constant 10.

use vstd::prelude::*;
use vstd::pervasive::VecAdditionalExecFns;
use vstd::string::{StrSliceExecFns, StringExecFns};
use crate::frac::{frac_gt, frac_gt_exec};
use crate::image::{GrayImage, pix_idx, pix_of};
use crate::parse::{dec_val, is_valid_u8, num_body, parse_u8};
use crate::text::{chars_of, str_eq};

verus! {

/// How a grayscale image is binarized.
#[derive(Debug, Clone, Copy, PartialEq, Eq, Structural)]
pub enum BinarizationMethod {
    /// Global threshold computed from the histogram by Otsu's method.
    Otsu,
    /// Caller-supplied global threshold.
    Fixed(u8),
    /// Local 15x15-window mean threshold.
    Adaptive,
}

/// A pixel after fixed thresholding: white exactly when `v >= t`.
pub open spec fn fixed_pixel(v: u8, t: u8) -> u8 {
    if v >= t {
        255
    } else {
        0
    }
}

/// How many samples of `s` have value `v`.
pub open spec fn count_val(s: Seq<u8>, v: u8) -> nat
    decreases s.len(),
{
    if s.len() == 0 {
        0
    } else {
        count_val(s.drop_last(), v) + if s.last() == v {
            1nat
        } else {
            0nat
        }
    }
}

proof fn lemma_count_le(s: Seq<u8>, v: u8)
    ensures
        count_val(s, v) <= s.len(),
    decreases s.len(),
{
    if s.len() != 0 {
        lemma_count_le(s.drop_last(), v);
    }
}

/// How many samples of `s` have value at most `t` (the background weight
/// at candidate threshold `t`).
pub open spec fn weight_below(s: Seq<u8>, t: int) -> nat
    decreases t + 1,
{
    if t < 0 {
        0
    } else {
        weight_below(s, t - 1) + count_val(s, t as u8)
    }
}

/// The intensity sum of the samples of `s` with value at most `t`.
pub open spec fn sum_below(s: Seq<u8>, t: int) -> nat
    decreases t + 1,
{
    if t < 0 {
        0
    } else {
        sum_below(s, t - 1) + (t as nat) * count_val(s, t as u8)
    }
}

proof fn lemma_weight_empty(t: int)
    ensures
        weight_below(Seq::<u8>::empty(), t) == 0,
    decreases t + 1,
{
    if t >= 0 {
        lemma_weight_empty(t - 1);
    }
}

proof fn lemma_weight_drop(s: Seq<u8>, t: int)
    requires
        s.len() > 0,
        t <= 255,
    ensures
        weight_below(s, t) == weight_below(s.drop_last(), t) + if s.last() as int <= t {
            1int
        } else {
            0int
        },
    decreases t + 1,
{
    if t >= 0 {
        lemma_weight_drop(s, t - 1);
    }
}

/// All 256 buckets together hold every sample once.
proof fn lemma_weight_total(s: Seq<u8>)
    ensures
        weight_below(s, 255) == s.len(),
    decreases s.len(),
{
    if s.len() == 0 {
        assert(s =~= Seq::<u8>::empty());
        lemma_weight_empty(255);
    } else {
        lemma_weight_total(s.drop_last());
        lemma_weight_drop(s, 255);
    }
}

proof fn lemma_weight_mono(s: Seq<u8>, t1: int, t2: int)
    requires
        t1 <= t2,
    ensures
        weight_below(s, t1) <= weight_below(s, t2),
    decreases t2 - t1,
{
    if t1 < t2 {
        lemma_weight_mono(s, t1, t2 - 1);
    }
}

proof fn lemma_weight_le_len(s: Seq<u8>, t: int)
    requires
        t <= 255,
    ensures
        weight_below(s, t) <= s.len(),
{
    lemma_weight_mono(s, t, 255);
    lemma_weight_total(s);
}

proof fn lemma_sum_le(s: Seq<u8>, t: int)
    requires
        t <= 255,
    ensures
        sum_below(s, t) <= 255 * weight_below(s, t),
    decreases t + 1,
{
    if t >= 0 {
        lemma_sum_le(s, t - 1);
        assert((t as nat) * count_val(s, t as u8) <= 255 * count_val(s, t as u8))
            by (nonlinear_arith)
            requires
                0 <= t <= 255,
        ;
    }
}

/// The signed quantity whose square is the inter-class variance numerator
/// at threshold `t`: `N * sum_bg - S * w_bg`, where `N` is the pixel
/// count, `S` the total intensity sum, and `sum_bg`, `w_bg` the sum and
/// weight of the background class.
pub open spec fn otsu_a(s: Seq<u8>, t: int) -> int {
    s.len() * sum_below(s, t) - sum_below(s, 255) * weight_below(s, t)
}

/// Numerator of the inter-class variance at threshold `t`.
pub open spec fn otsu_num(s: Seq<u8>, t: int) -> int {
    otsu_a(s, t) * otsu_a(s, t)
}

/// Denominator of the inter-class variance at threshold `t`:
/// `w_bg * w_fg`.
pub open spec fn otsu_den(s: Seq<u8>, t: int) -> int {
    weight_below(s, t) * (s.len() - weight_below(s, t))
}

/// The best `(threshold, variance numerator, variance denominator)` among
/// candidates `0..=t`, scanned in order: candidates with an empty
/// background or empty foreground class are skipped, and a later
/// candidate replaces the best one only when its variance is strictly
/// greater. The starting point is threshold 0 with variance 0.
pub open spec fn otsu_best(s: Seq<u8>, t: int) -> (u8, int, int)
    decreases t + 1,
{
    if t < 0 {
        (0u8, 0int, 1int)
    } else {
        let prev = otsu_best(s, t - 1);
        let wb = weight_below(s, t) as int;
        if wb == 0 || wb >= s.len() {
            prev
        } else if frac_gt(otsu_num(s, t), otsu_den(s, t), prev.1, prev.2) {
            (t as u8, otsu_num(s, t), otsu_den(s, t))
        } else {
            prev
        }
    }
}

/// The Otsu threshold of an image with samples `s`.
pub open spec fn otsu_threshold_spec(s: Seq<u8>) -> u8 {
    otsu_best(s, 255).0
}

/// Computes the Otsu threshold: the candidate in 0..=255 whose split of
/// the histogram into background (at most the candidate) and foreground
/// maximizes the inter-class variance
/// `w_bg * w_fg * (mean_bg - mean_fg)^2`, candidates compared exactly.
pub fn calculate_otsu_threshold(image: &GrayImage) -> (r: u8)
    requires
        image.wf(),
    ensures
        r == otsu_threshold_spec(image.data@),
{
    let ghost s = image.data@;
    let n = image.data.len();

    // 256-bucket histogram.
    let mut hist: Vec<usize> = Vec::new();
    let mut b: usize = 0;
    while b < 256
        invariant
            b <= 256,
            hist@.len() == b,
            forall|v: int| 0 <= v < b ==> hist@[v] == 0,
        decreases 256 - b,
    {
        hist.push(0);
        b = b + 1;
    }
    let mut i: usize = 0;
    proof {
        assert forall|v: u8| count_val(s.take(0), v) == 0 by {
            assert(s.take(0) =~= Seq::<u8>::empty());
        }
    }
    while i < n
        invariant
            i <= n,
            n == s.len(),
            image.data@ == s,
            hist@.len() == 256,
            forall|v: u8| hist@[v as int] == count_val(s.take(i as int), v),
        decreases n - i,
    {
        let v = image.data[i];
        proof {
            lemma_count_le(s.take(i as int), v);
            assert forall|u: u8| count_val(s.take(i + 1), u) == count_val(s.take(i as int), u)
                + (if s[i as int] == u {
                1nat
            } else {
                0nat
            }) by {
                assert(s.take(i + 1).drop_last() =~= s.take(i as int));
            }
        }
        let c = hist[v as usize];
        hist.set(v as usize, c + 1);
        i = i + 1;
    }
    proof {
        assert(s.take(n as int) =~= s);
    }

    // Total intensity sum.
    let mut sum_total: u64 = 0;
    let mut t: usize = 0;
    while t < 256
        invariant
            t <= 256,
            n == s.len(),
            n <= 134217728,
            hist@.len() == 256,
            forall|v: u8| hist@[v as int] == count_val(s, v),
            sum_total == sum_below(s, t as int - 1),
        decreases 256 - t,
    {
        proof {
            lemma_sum_le(s, t as int);
            lemma_weight_le_len(s, t as int);
            lemma_count_le(s, t as u8);
        }
        sum_total = sum_total + (t as u64) * (hist[t] as u64);
        t = t + 1;
    }

    // Scan the candidates.
    let ghost stot = sum_below(s, 255);
    let mut wb: u64 = 0;
    let mut sumb: u64 = 0;
    let mut best_t: u8 = 0;
    let mut best_n: u128 = 0;
    let mut best_d: u64 = 1;
    let mut t: usize = 0;
    while t < 256
        invariant
            t <= 256,
            n == s.len(),
            n <= 134217728,
            hist@.len() == 256,
            forall|v: u8| hist@[v as int] == count_val(s, v),
            sum_total == stot,
            stot == sum_below(s, 255),
            wb == weight_below(s, t as int - 1),
            sumb == sum_below(s, t as int - 1),
            best_t == otsu_best(s, t as int - 1).0,
            best_n == otsu_best(s, t as int - 1).1,
            best_d == otsu_best(s, t as int - 1).2,
            1 <= best_d < 0x8000000000000000,
        decreases 256 - t,
    {
        proof {
            lemma_weight_total(s);
            lemma_weight_le_len(s, t as int);
            lemma_sum_le(s, t as int);
            lemma_sum_le(s, 255);
            lemma_weight_le_len(s, t as int - 1);
            lemma_sum_le(s, t as int - 1);
            lemma_count_le(s, t as u8);
            assert(sum_below(s, t as int) <= 255 * n) by (nonlinear_arith)
                requires
                    sum_below(s, t as int) <= 255 * weight_below(s, t as int),
                    weight_below(s, t as int) <= n,
            ;
            assert(sum_below(s, 255) <= 255 * n) by (nonlinear_arith)
                requires
                    sum_below(s, 255) <= 255 * weight_below(s, 255),
                    weight_below(s, 255) <= n,
            ;
        }
        wb = wb + (hist[t] as u64);
        sumb = sumb + (t as u64) * (hist[t] as u64);
        let n64 = n as u64;
        if wb > 0 && wb < n64 {
            // Both classes are non-empty: compare this candidate.
            proof {
                assert(n64 * sumb <= 134217728u64 * (255u64 * 134217728u64)) by (nonlinear_arith)
                    requires
                        n64 <= 134217728,
                        sumb <= 255 * n64,
                ;
                assert(sum_total * wb <= (255u64 * 134217728u64) * 134217728u64)
                    by (nonlinear_arith)
                    requires
                        sum_total <= 255 * n64,
                        wb <= n64,
                        n64 <= 134217728,
                ;
            }
            let lhs: u64 = n64 * sumb;
            let rhs: u64 = sum_total * wb;
            let a_abs: u64 = if lhs >= rhs {
                lhs - rhs
            } else {
                rhs - lhs
            };
            proof {
                assert((a_abs as int) * (a_abs as int)
                    < 0x40000000000000000000000000000000int) by (nonlinear_arith)
                    requires
                        0 <= (a_abs as int) < 0x8000000000000000int,
                ;
            }
            let num: u128 = (a_abs as u128) * (a_abs as u128);
            proof {
                let ai = otsu_a(s, t as int);
                assert(ai == lhs - rhs);
                assert((a_abs as int) * (a_abs as int) == ai * ai) by (nonlinear_arith)
                    requires
                        a_abs == if ai >= 0 {
                            ai
                        } else {
                            -ai
                        },
                ;
                assert(wb * (n64 - wb) < 0x8000000000000000) by (nonlinear_arith)
                    requires
                        0 < wb < n64,
                        n64 <= 134217728,
                ;
                assert(wb * (n64 - wb) >= 1) by (nonlinear_arith)
                    requires
                        0 < wb < n64,
                ;
            }
            let den: u64 = wb * (n64 - wb);
            if frac_gt_exec(num, den as u128, best_n, best_d as u128) {
                best_t = t as u8;
                best_n = num;
                best_d = den;
            }
        }
        t = t + 1;
    }
    best_t
}

/// Binarizes with a fixed global threshold: every pixel at least `t`
/// becomes white (255), every other black (0).
pub fn binarize_fixed(image: &GrayImage, threshold: u8) -> (r: GrayImage)
    requires
        image.wf(),
    ensures
        r.wf(),
        r.width == image.width,
        r.height == image.height,
        r.data@.len() == image.data@.len(),
        forall|i: int|
            0 <= i < r.data@.len() ==> r.data@[i] == fixed_pixel(image.data@[i], threshold),
{
    let n = image.data.len();
    let mut data: Vec<u8> = Vec::new();
    let mut i: usize = 0;
    while i < n
        invariant
            i <= n,
            n == image.data@.len(),
            data@.len() == i,
            forall|k: int| 0 <= k < i ==> data@[k] == fixed_pixel(image.data@[k], threshold),
        decreases n - i,
    {
        let v = image.data[i];
        data.push(if v >= threshold {
            255
        } else {
            0
        });
        i = i + 1;
    }
    GrayImage { width: image.width, height: image.height, data }
}

/// Binarizes with the Otsu threshold of the image itself.
pub fn binarize_otsu(image: &GrayImage) -> (r: GrayImage)
    requires
        image.wf(),
    ensures
        r.wf(),
        r.width == image.width,
        r.height == image.height,
        r.data@.len() == image.data@.len(),
        forall|i: int|
            0 <= i < r.data@.len() ==> r.data@[i] == fixed_pixel(
                image.data@[i],
                otsu_threshold_spec(image.data@),
            ),
{
    let threshold = calculate_otsu_threshold(image);
    binarize_fixed(image, threshold)
}

/// Start of the 15-wide window around column `x`, clipped at 0.
pub open spec fn win_lo(x: int) -> int {
    if x >= 7 {
        x - 7
    } else {
        0
    }
}

/// End (exclusive) of the 15-wide window around column `x`, clipped at `w`.
pub open spec fn win_hi(x: int, w: int) -> int {
    if x + 8 <= w {
        x + 8
    } else {
        w
    }
}

/// Sum of row `y` of a `w`-wide buffer over columns `x0..x1`.
pub open spec fn row_sum(w: int, d: Seq<u8>, y: int, x0: int, x1: int) -> int
    decreases x1 - x0,
{
    if x1 <= x0 {
        0
    } else {
        row_sum(w, d, y, x0, x1 - 1) + pix_of(w, d, x1 - 1, y)
    }
}

/// Sum over the rectangle with columns `x0..x1` and rows `y0..y1`.
pub open spec fn rect_sum(w: int, d: Seq<u8>, x0: int, x1: int, y0: int, y1: int) -> int
    decreases y1 - y0,
{
    if y1 <= y0 {
        0
    } else {
        rect_sum(w, d, x0, x1, y0, y1 - 1) + row_sum(w, d, y1 - 1, x0, x1)
    }
}

/// The local threshold at `(x, y)`: the mean of the clipped 15x15 window,
/// minus the constant 10, floored at 0.
pub open spec fn adaptive_threshold(w: int, h: int, d: Seq<u8>, x: int, y: int) -> int {
    let x0 = win_lo(x);
    let x1 = win_hi(x, w);
    let y0 = win_lo(y);
    let y1 = win_hi(y, h);
    let mean = rect_sum(w, d, x0, x1, y0, y1) / ((x1 - x0) * (y1 - y0));
    if mean - 10 >= 0 {
        mean - 10
    } else {
        0
    }
}

/// A pixel after adaptive thresholding: white exactly when it is at least
/// its local threshold.
pub open spec fn adaptive_pixel(w: int, h: int, d: Seq<u8>, x: int, y: int) -> u8 {
    if pix_of(w, d, x, y) >= adaptive_threshold(w, h, d, x, y) {
        255
    } else {
        0
    }
}

/// The whole adaptively binarized buffer, pixel by pixel.
pub open spec fn adaptive_data(w: int, h: int, d: Seq<u8>) -> Seq<u8> {
    Seq::new(d.len(), |i: int| adaptive_pixel(w, h, d, i % w, i / w))
}

/// The whole buffer after fixed thresholding at `t`.
pub open spec fn fixed_data(d: Seq<u8>, t: u8) -> Seq<u8> {
    Seq::new(d.len(), |i: int| fixed_pixel(d[i], t))
}

/// The whole buffer after binarizing with `method`.
pub open spec fn binarize_data(w: int, h: int, d: Seq<u8>, method: BinarizationMethod) -> Seq<u8> {
    match method {
        BinarizationMethod::Otsu => fixed_data(d, otsu_threshold_spec(d)),
        BinarizationMethod::Fixed(t) => fixed_data(d, t),
        BinarizationMethod::Adaptive => adaptive_data(w, h, d),
    }
}

proof fn lemma_row_sum_bounds(w: int, d: Seq<u8>, y: int, x0: int, x1: int)
    ensures
        0 <= row_sum(w, d, y, x0, x1) <= 255 * (if x1 >= x0 {
            x1 - x0
        } else {
            0
        }),
    decreases x1 - x0,
{
    if x1 > x0 {
        lemma_row_sum_bounds(w, d, y, x0, x1 - 1);
    }
}

proof fn lemma_rect_sum_bounds(w: int, d: Seq<u8>, x0: int, x1: int, y0: int, y1: int)
    requires
        x0 <= x1,
    ensures
        0 <= rect_sum(w, d, x0, x1, y0, y1) <= 255 * ((x1 - x0) * (if y1 >= y0 {
            y1 - y0
        } else {
            0
        })),
    decreases y1 - y0,
{
    if y1 > y0 {
        lemma_rect_sum_bounds(w, d, x0, x1, y0, y1 - 1);
        lemma_row_sum_bounds(w, d, y1 - 1, x0, x1);
        assert(255 * ((x1 - x0) * (y1 - y0)) == 255 * ((x1 - x0) * (y1 - 1 - y0)) + 255 * (x1
            - x0)) by (nonlinear_arith);
    }
}

/// The mean of the clipped window at `(x, y)`, computed by summation.
fn window_mean(image: &GrayImage, x: usize, y: usize) -> (r: u32)
    requires
        image.wf(),
        x < image.width,
        y < image.height,
    ensures
        r == rect_sum(
            image.width as int,
            image.data@,
            win_lo(x as int),
            win_hi(x as int, image.width as int),
            win_lo(y as int),
            win_hi(y as int, image.height as int),
        ) / ((win_hi(x as int, image.width as int) - win_lo(x as int)) * (win_hi(
            y as int,
            image.height as int,
        ) - win_lo(y as int))),
        r <= 255,
{
    let w = image.width;
    let h = image.height;
    proof {
        assert(w <= 134217728 && h <= 134217728) by (nonlinear_arith)
            requires
                w * h <= 134217728,
                x < w,
                y < h,
                0 <= x,
                0 <= y,
        ;
    }
    let x0 = if x >= 7 {
        x - 7
    } else {
        0
    };
    let x1 = if x + 8 <= w {
        x + 8
    } else {
        w
    };
    let y0 = if y >= 7 {
        y - 7
    } else {
        0
    };
    let y1 = if y + 8 <= h {
        y + 8
    } else {
        h
    };
    let mut sum: u32 = 0;
    let mut wy: usize = y0;
    while wy < y1
        invariant
            y0 <= wy <= y1,
            x0 == win_lo(x as int),
            x1 == win_hi(x as int, image.width as int),
            y0 == win_lo(y as int),
            y1 == win_hi(y as int, image.height as int),
            x < image.width,
            y < image.height,
            image.wf(),
            x1 <= image.width,
            y1 <= image.height,
            x1 - x0 <= 15,
            y1 - y0 <= 15,
            x0 < x1,
            sum == rect_sum(image.width as int, image.data@, x0 as int, x1 as int, y0 as int, wy as int),
            sum <= 255 * 15 * 15,
        decreases y1 - wy,
    {
        proof {
            lemma_rect_sum_bounds(image.width as int, image.data@, x0 as int, x1 as int, y0 as int,
                wy as int);
            assert(255 * ((x1 - x0) * (wy - y0)) <= 255 * 15 * 14) by (nonlinear_arith)
                requires
                    0 < x1 - x0 <= 15,
                    0 <= wy - y0 <= 14,
            ;
        }
        let mut wx: usize = x0;
        let ghost sum_row_start = sum;
        while wx < x1
            invariant
                x0 <= wx <= x1,
                x1 <= image.width,
                y0 <= wy < y1 <= image.height,
                image.wf(),
                x1 - x0 <= 15,
                sum == sum_row_start + row_sum(image.width as int, image.data@, wy as int, x0 as int, wx as int),
                sum_row_start <= 255 * 15 * 14,
                sum_row_start + 255 * (wx - x0) >= sum,
            decreases x1 - wx,
        {
            proof {
                lemma_row_sum_bounds(image.width as int, image.data@, wy as int, x0 as int,
                    wx as int);
            }
            sum = sum + image.get_pixel(wx, wy) as u32;
            wx = wx + 1;
        }
        proof {
            assert(255 * ((x1 - x0) * (wy + 1 - y0)) <= 255 * 15 * 15) by (nonlinear_arith)
                requires
                    0 < x1 - x0 <= 15,
                    0 <= wy + 1 - y0 <= 15,
            ;
            lemma_rect_sum_bounds(image.width as int, image.data@, x0 as int, x1 as int,
                y0 as int, wy + 1);
        }
        wy = wy + 1;
    }
    proof {
        assert(1 <= ((x1 - x0) as int) * ((y1 - y0) as int) <= 225) by (nonlinear_arith)
            requires
                0 < x1 - x0 <= 15,
                0 < y1 - y0 <= 15,
        ;
    }
    let count: u32 = ((x1 - x0) as u32) * ((y1 - y0) as u32);
    proof {
        lemma_rect_sum_bounds(image.width as int, image.data@, x0 as int, x1 as int, y0 as int,
            y1 as int);
        assert(sum / count <= 255) by (nonlinear_arith)
            requires
                count >= 1,
                0 <= sum <= 255 * (count as int),
        ;
    }
    sum / count
}

/// Binarizes with a local mean threshold: each pixel is compared against
/// the mean of its 15x15 window (clipped at the image borders, so windows
/// shrink near edges) minus 10.
pub fn binarize_adaptive(image: &GrayImage) -> (r: GrayImage)
    requires
        image.wf(),
    ensures
        r.wf(),
        r.width == image.width,
        r.height == image.height,
        forall|x: int, y: int|
            0 <= x < image.width && 0 <= y < image.height ==> r.pix(x, y) == adaptive_pixel(
                image.width as int,
                image.height as int,
                image.data@,
                x,
                y,
            ),
        r.data@ == adaptive_data(image.width as int, image.height as int, image.data@),
{
    let w = image.width;
    let h = image.height;
    let mut out = image.duplicate();
    let mut y: usize = 0;
    while y < h
        invariant
            y <= h,
            image.wf(),
            w == image.width,
            h == image.height,
            out.wf(),
            out.width == w,
            out.height == h,
            forall|a: int, b: int|
                0 <= a < w && 0 <= b < h && b < y ==> out.pix(a, b) == adaptive_pixel(
                    w as int,
                    h as int,
                    image.data@,
                    a,
                    b,
                ),
        decreases h - y,
    {
        let mut x: usize = 0;
        while x < w
            invariant
                x <= w,
                y < h,
                image.wf(),
                w == image.width,
                h == image.height,
                out.wf(),
                out.width == w,
                out.height == h,
                forall|a: int, b: int|
                    0 <= a < w && 0 <= b < h && (b < y || (b == y && a < x)) ==> out.pix(a, b)
                        == adaptive_pixel(w as int, h as int, image.data@, a, b),
            decreases w - x,
        {
            let mean = window_mean(image, x, y);
            let thr: u8 = if mean >= 10 {
                (mean - 10) as u8
            } else {
                0
            };
            let v = image.get_pixel(x, y);
            let nv: u8 = if v >= thr {
                255
            } else {
                0
            };
            out.set_pixel(x, y, nv);
            x = x + 1;
        }
        y = y + 1;
    }
    proof {
        let wi = w as int;
        let hi = h as int;
        let target = adaptive_data(wi, hi, image.data@);
        assert forall|x: int, y: int|
            0 <= x < wi && 0 <= y < hi implies out.pix(x, y) == target[pix_idx(x, y, wi)] by {
            crate::image::lemma_pix_idx_div_mod(x, y, wi, hi);
        }
        crate::image::lemma_data_from_pixels(out, target);
    }
    out
}

/// Binarizes `image` with `method`. Every output pixel is exactly 0 or
/// 255, whatever the method.
pub fn binarize(image: &GrayImage, method: BinarizationMethod) -> (r: GrayImage)
    requires
        image.wf(),
    ensures
        r.wf(),
        r.width == image.width,
        r.height == image.height,
        r.data@ == binarize_data(image.width as int, image.height as int, image.data@, method),
        forall|i: int| 0 <= i < r.data@.len() ==> r.data@[i] == 0 || r.data@[i] == 255,
{
    let r = match method {
        BinarizationMethod::Otsu => binarize_otsu(image),
        BinarizationMethod::Fixed(threshold) => binarize_fixed(image, threshold),
        BinarizationMethod::Adaptive => binarize_adaptive(image),
    };
    proof {
        let target = binarize_data(image.width as int, image.height as int, image.data@, method);
        if !(method is Adaptive) {
            assert(r.data@ =~= target);
        }
        assert forall|i: int| 0 <= i < r.data@.len() implies r.data@[i] == 0 || r.data@[i]
            == 255 by {
            assert(target[i] == r.data@[i]);
            if method is Adaptive {
                assert(r.width > 0 && r.height > 0) by (nonlinear_arith)
                    requires
                        r.width * r.height > 0,
                ;
                crate::image::lemma_pix_idx_bounds_inverse(i, r.width as int, r.height as int);
            }
        }
    }
    r
}

/// The method a textual argument names: `otsu`, `adaptive`, or `fixed:N`
/// with a threshold `N` in 0..=255.
pub open spec fn method_of(s: Seq<char>) -> Option<BinarizationMethod> {
    if s == "otsu"@ {
        Some(BinarizationMethod::Otsu)
    } else if s == "adaptive"@ {
        Some(BinarizationMethod::Adaptive)
    } else if s.len() >= 6 && s.take(6) == "fixed:"@ && is_valid_u8(s.skip(6)) {
        Some(BinarizationMethod::Fixed(dec_val(num_body(s.skip(6))) as u8))
    } else {
        None
    }
}

/// Parses a binarization method argument: `otsu`, `adaptive`, or
/// `fixed:N` with a threshold in 0..=255. Everything else is an error
/// carrying a short message.
pub fn parse_binarization_method(method: &str) -> (r: Result<BinarizationMethod, String>)
    ensures
        r is Ok <==> method_of(method@) is Some,
        match r {
            Ok(m) => Some(m) == method_of(method@),
            Err(_) => true,
        },
{
    if str_eq(method, "otsu") {
        return Ok(BinarizationMethod::Otsu);
    }
    if str_eq(method, "adaptive") {
        return Ok(BinarizationMethod::Adaptive);
    }
    let cv = chars_of(method);
    if cv.len() >= 6 {
        let prefix = method.substring_char(0, 6);
        if str_eq(prefix, "fixed:") {
            let rest = method.substring_char(6, cv.len());
            proof {
                assert(method@.subrange(0, 6) =~= method@.take(6));
                assert(method@.subrange(6, method@.len() as int) =~= method@.skip(6));
            }
            match parse_u8(rest) {
                Some(t) => {
                    return Ok(BinarizationMethod::Fixed(t));
                },
                None => {
                    let mut e = String::new();
                    e.append("invalid threshold in fixed:N (expected 0-255)");
                    return Err(e);
                },
            }
        }
    }
    proof {
        if method@.len() >= 6 {
            assert(method@.take(6) == method@.subrange(0, 6));
        }
    }
    let mut e = String::new();
    e.append("unknown binarization method (use otsu, adaptive, or fixed:N)");
    Err(e)
}

} // verus!

verus! {

proof fn lemma_two_valued_count(d: Seq<u8>, a: u8, b: u8, v: u8)
    requires
        forall|i: int| 0 <= i < d.len() ==> d[i] == a || d[i] == b,
        v != a,
        v != b,
    ensures
        count_val(d, v) == 0,
    decreases d.len(),
{
    if d.len() > 0 {
        lemma_two_valued_count(d.drop_last(), a, b, v);
    }
}

proof fn lemma_two_valued_weight(d: Seq<u8>, a: u8, b: u8, t: int)
    requires
        forall|i: int| 0 <= i < d.len() ==> d[i] == a || d[i] == b,
        a < b,
        t <= 255,
    ensures
        t < a ==> weight_below(d, t) == 0 && sum_below(d, t) == 0,
        a <= t < b ==> weight_below(d, t) == count_val(d, a) && sum_below(d, t) == (a as int)
            * count_val(d, a),
        b <= t ==> weight_below(d, t) == count_val(d, a) + count_val(d, b) && sum_below(d, t) == (
        a as int) * count_val(d, a) + (b as int) * count_val(d, b),
    decreases t + 1,
{
    if t >= 0 {
        lemma_two_valued_weight(d, a, b, t - 1);
        if t != a && t != b {
            lemma_two_valued_count(d, a, b, t as u8);
        }
    }
}

/// The inter-class variance at any cut between the two values of a
/// two-valued image.
proof fn lemma_two_valued_metric(d: Seq<u8>, a: u8, b: u8, t: int)
    requires
        forall|i: int| 0 <= i < d.len() ==> d[i] == a || d[i] == b,
        a < b,
        a <= t < b,
        t <= 255,
    ensures
        weight_below(d, t) == count_val(d, a),
        otsu_num(d, t) == (count_val(d, a) * count_val(d, b) * (b - a)) * (count_val(d, a)
            * count_val(d, b) * (b - a)),
        otsu_den(d, t) == count_val(d, a) * count_val(d, b),
{
    let na = count_val(d, a) as int;
    let nb = count_val(d, b) as int;
    lemma_two_valued_weight(d, a, b, t);
    lemma_two_valued_weight(d, a, b, 255);
    lemma_weight_total(d);
    assert(d.len() == na + nb);
    let av = a as int;
    let bv = b as int;
    assert(otsu_a(d, t) == (na + nb) * (av * na) - (av * na + bv * nb) * na);
    assert((na + nb) * (av * na) - (av * na + bv * nb) * na == -(na * nb * (bv - av)))
        by (nonlinear_arith);
    assert(otsu_a(d, t) * otsu_a(d, t) == (na * nb * (bv - av)) * (na * nb * (bv - av)))
        by (nonlinear_arith)
        requires
            otsu_a(d, t) == -(na * nb * (bv - av)),
    ;
    assert(otsu_den(d, t) == na * ((na + nb) - na));
    assert(na * ((na + nb) - na) == na * nb) by (nonlinear_arith);
}

proof fn lemma_two_valued_best(d: Seq<u8>, a: u8, b: u8, t: int)
    requires
        forall|i: int| 0 <= i < d.len() ==> d[i] == a || d[i] == b,
        a < b,
        count_val(d, a) >= 1,
        count_val(d, b) >= 1,
        -1 <= t <= 255,
    ensures
        t < a ==> otsu_best(d, t) == (0u8, 0int, 1int),
        t >= a ==> otsu_best(d, t) == (
            a,
            (count_val(d, a) * count_val(d, b) * (b - a)) * (count_val(d, a) * count_val(d, b) * (
            b - a)),
            count_val(d, a) * count_val(d, b) as int,
        ),
    decreases t + 1,
{
    let na = count_val(d, a) as int;
    let nb = count_val(d, b) as int;
    let num = (na * nb * (b - a)) * (na * nb * (b - a));
    let den = na * nb;
    if t >= 0 {
        lemma_two_valued_best(d, a, b, t - 1);
        lemma_two_valued_weight(d, a, b, t);
        lemma_two_valued_weight(d, a, b, 255);
        lemma_weight_total(d);
        assert(d.len() == na + nb);
        assert(den >= 1) by (nonlinear_arith)
            requires
                den == na * nb,
                na >= 1,
                nb >= 1,
        ;
        if t < a {
            assert(weight_below(d, t) == 0);
        } else if t < b {
            lemma_two_valued_metric(d, a, b, t);
            assert(0 < weight_below(d, t) < d.len()) by (nonlinear_arith)
                requires
                    weight_below(d, t) == na,
                    d.len() == na + nb,
                    na >= 1,
                    nb >= 1,
            ;
            if t == a {
                assert(num >= 1) by (nonlinear_arith)
                    requires
                        num == (na * nb * (b - a)) * (na * nb * (b - a)),
                        na >= 1,
                        nb >= 1,
                        b - a >= 1,
                ;
                assert(frac_gt(num, den, 0, 1)) by (nonlinear_arith)
                    requires
                        num >= 1,
                        den >= 1,
                ;
                assert(otsu_best(d, t) == (a, num, den));
            } else {
                assert(!frac_gt(num, den, num, den)) by (nonlinear_arith);
                assert(otsu_best(d, t) == otsu_best(d, t - 1));
            }
        } else {
            assert(weight_below(d, t) >= d.len()) by (nonlinear_arith)
                requires
                    weight_below(d, t) == na + nb,
                    d.len() == na + nb,
            ;
        }
    }
}

/// Threshold law for two-valued images: an image whose samples take
/// exactly two values `a < b`, both present, gets the Otsu threshold `a`:
/// the first cut that separates the two clusters. In particular the
/// threshold lies between the cluster values.
pub proof fn lemma_otsu_two_valued(d: Seq<u8>, a: u8, b: u8)
    requires
        forall|i: int| 0 <= i < d.len() ==> d[i] == a || d[i] == b,
        a < b,
        count_val(d, a) >= 1,
        count_val(d, b) >= 1,
    ensures
        otsu_threshold_spec(d) == a,
        a <= otsu_threshold_spec(d) <= b,
{
    lemma_two_valued_best(d, a, b, 255);
}

} // verus!
