//! Denoising by a 3x3 median filter: each interior pixel is replaced by
//! the median of its 9-pixel neighbourhood, which removes isolated
//! salt-and-pepper noise while preserving edges. The 1-pixel border is
//! passed through unchanged.

use vstd::prelude::*;
use vstd::multiset::Multiset;
use vstd::relations::{sorted_by, total_ordering};
use crate::image::{GrayImage, pix_idx, pix_of};

verus! {

/// The ordering the median is taken under.
pub open spec fn u8_leq() -> spec_fn(u8, u8) -> bool {
    |a: u8, b: u8| a <= b
}

pub proof fn lemma_u8_leq_total()
    ensures
        total_ordering(u8_leq()),
{
    let leq = u8_leq();
    assert forall|x: u8, y: u8, z: u8| #[trigger] leq(x, y) && #[trigger] leq(y, z) implies leq(
        x,
        z,
    ) by {}
}

/// The median of a 9-element sequence: element 4 of its sorted version.
pub open spec fn median9(s: Seq<u8>) -> u8
    recommends
        s.len() == 9,
{
    s.sort_by(u8_leq())[4]
}

/// The 3x3 neighbourhood of pixel `(x, y)`, row by row.
pub open spec fn neighborhood(w: int, d: Seq<u8>, x: int, y: int) -> Seq<u8> {
    seq![
        pix_of(w, d, x - 1, y - 1),
        pix_of(w, d, x, y - 1),
        pix_of(w, d, x + 1, y - 1),
        pix_of(w, d, x - 1, y),
        pix_of(w, d, x, y),
        pix_of(w, d, x + 1, y),
        pix_of(w, d, x - 1, y + 1),
        pix_of(w, d, x, y + 1),
        pix_of(w, d, x + 1, y + 1),
    ]
}

/// What the filter makes of pixel `(x, y)`: the neighbourhood median for
/// interior pixels, the pixel itself on the border.
pub open spec fn denoise_pixel(w: int, h: int, d: Seq<u8>, x: int, y: int) -> u8 {
    if 1 <= x < w - 1 && 1 <= y < h - 1 {
        median9(neighborhood(w, d, x, y))
    } else {
        pix_of(w, d, x, y)
    }
}

/// The whole filtered buffer, pixel by pixel.
pub open spec fn denoise_data(w: int, h: int, d: Seq<u8>) -> Seq<u8> {
    Seq::new(d.len(), |i: int| denoise_pixel(w, h, d, i % w, i / w))
}

/// The index of an element that is least under `<=`.
fn min_idx(v: &Vec<u8>) -> (r: usize)
    requires
        v@.len() > 0,
    ensures
        r < v@.len(),
        forall|k: int| 0 <= k < v@.len() ==> v@[r as int] <= v@[k],
{
    let mut best: usize = 0;
    let mut i: usize = 1;
    while i < v.len()
        invariant
            best < i <= v@.len(),
            forall|k: int| 0 <= k < i ==> v@[best as int] <= v@[k],
        decreases v@.len() - i,
    {
        if v[i] < v[best] {
            best = i;
        }
        i = i + 1;
    }
    best
}

/// Sorts a byte vector ascending, by repeatedly moving a least remaining
/// element to the output.
fn sort_bytes(v: Vec<u8>) -> (r: Vec<u8>)
    ensures
        sorted_by(r@, u8_leq()),
        r@.to_multiset() == v@.to_multiset(),
        r@.len() == v@.len(),
{
    let ghost orig = v@;
    let mut src = v;
    let mut out: Vec<u8> = Vec::new();
    proof {
        out@.to_multiset_ensures();
        assert(out@.to_multiset() =~= Multiset::<u8>::empty());
    }
    while src.len() > 0
        invariant
            out@.to_multiset().add(src@.to_multiset()) == orig.to_multiset(),
            out@.len() + src@.len() == orig.len(),
            sorted_by(out@, u8_leq()),
            forall|i: int, j: int|
                0 <= i < out@.len() && 0 <= j < src@.len() ==> out@[i] <= src@[j],
        decreases src@.len(),
    {
        let ghost out0 = out@;
        let ghost src0 = src@;
        let m = min_idx(&src);
        let x = src.remove(m);
        out.push(x);
        proof {
            out0.to_multiset_ensures();
            src0.to_multiset_ensures();
            assert(out@ == out0.push(x));
            assert(src@ == src0.remove(m as int));
            assert(out@.to_multiset() =~= out0.to_multiset().insert(x));
            assert(src@.to_multiset() =~= src0.to_multiset().remove(x));
            assert(src0.contains(x));
            assert(src0.to_multiset().count(x) > 0);
            assert(out@.to_multiset().add(src@.to_multiset()) =~= orig.to_multiset());
            assert(sorted_by(out@, u8_leq())) by {
                assert forall|i: int, j: int| 0 <= i < j < out@.len() implies u8_leq()(
                    out@[i],
                    out@[j],
                ) by {
                    if j < out@.len() - 1 {
                        assert(u8_leq()(out0[i], out0[j]));
                    }
                }
            }
            assert forall|i: int, j: int|
                0 <= i < out@.len() && 0 <= j < src@.len() implies out@[i] <= src@[j] by {
                assert(src@[j] == src0.remove(m as int)[j]);
                if j < m {
                    assert(src0.remove(m as int)[j] == src0[j]);
                } else {
                    assert(src0.remove(m as int)[j] == src0[j + 1]);
                }
            }
        }
    }
    proof {
        src@.to_multiset_ensures();
        assert(src@.to_multiset() =~= Multiset::<u8>::empty());
        assert(out@.to_multiset() =~= orig.to_multiset());
    }
    out
}

/// The median of the bytes of `v`, which must have exactly 9.
fn median_of_window(v: Vec<u8>) -> (r: u8)
    requires
        v@.len() == 9,
    ensures
        r == median9(v@),
{
    let ghost orig = v@;
    let sorted = sort_bytes(v);
    proof {
        lemma_u8_leq_total();
        orig.lemma_sort_by_ensures(u8_leq());
        vstd::seq_lib::lemma_sorted_unique(sorted@, orig.sort_by(u8_leq()), u8_leq());
    }
    sorted[4]
}

/// Applies the 3x3 median filter. The output has the same dimensions;
/// every interior pixel becomes the median of its 9-pixel neighbourhood in
/// the input, and border pixels are copied unchanged. Images narrower or
/// shorter than 3 pixels have no interior and are returned unchanged.
pub fn denoise(image: &GrayImage) -> (r: GrayImage)
    requires
        image.wf(),
    ensures
        r.wf(),
        r.width == image.width,
        r.height == image.height,
        forall|x: int, y: int|
            0 <= x < image.width && 0 <= y < image.height ==> r.pix(x, y) == denoise_pixel(
                image.width as int,
                image.height as int,
                image.data@,
                x,
                y,
            ),
        r.data@ == denoise_data(image.width as int, image.height as int, image.data@),
{
    let w = image.width;
    let h = image.height;
    let mut out = image.duplicate();
    if w < 3 || h < 3 {
        proof {
            lemma_denoise_data(out, *image);
        }
        return out;
    }
    let mut y: usize = 1;
    while y < h - 1
        invariant
            1 <= y <= h - 1,
            w >= 3,
            h >= 3,
            image.wf(),
            w == image.width,
            h == image.height,
            out.wf(),
            out.width == w,
            out.height == h,
            forall|a: int, b: int|
                0 <= a < w && 0 <= b < h ==> out.pix(a, b) == if b < y {
                    denoise_pixel(w as int, h as int, image.data@, a, b)
                } else {
                    image.pix(a, b)
                },
        decreases h - y,
    {
        let mut x: usize = 1;
        while x < w - 1
            invariant
                1 <= x <= w - 1,
                1 <= y < h - 1,
                w >= 3,
                h >= 3,
                image.wf(),
                w == image.width,
                h == image.height,
                out.wf(),
                out.width == w,
                out.height == h,
                forall|a: int, b: int|
                    0 <= a < w && 0 <= b < h ==> out.pix(a, b) == if b < y || (b == y && a < x) {
                        denoise_pixel(w as int, h as int, image.data@, a, b)
                    } else {
                        image.pix(a, b)
                    },
            decreases w - x,
        {
            let mut window: Vec<u8> = Vec::new();
            window.push(image.get_pixel(x - 1, y - 1));
            window.push(image.get_pixel(x, y - 1));
            window.push(image.get_pixel(x + 1, y - 1));
            window.push(image.get_pixel(x - 1, y));
            window.push(image.get_pixel(x, y));
            window.push(image.get_pixel(x + 1, y));
            window.push(image.get_pixel(x - 1, y + 1));
            window.push(image.get_pixel(x, y + 1));
            window.push(image.get_pixel(x + 1, y + 1));
            proof {
                assert(window@ =~= neighborhood(w as int, image.data@, x as int, y as int));
            }
            let med = median_of_window(window);
            out.set_pixel(x, y, med);
            x = x + 1;
        }
        y = y + 1;
    }
    proof {
        lemma_denoise_data(out, *image);
    }
    out
}

/// An output image whose every pixel is the filtered pixel of `src` holds
/// exactly the filtered buffer.
proof fn lemma_denoise_data(out: GrayImage, src: GrayImage)
    requires
        out.wf(),
        src.wf(),
        out.width == src.width,
        out.height == src.height,
        forall|x: int, y: int|
            0 <= x < src.width && 0 <= y < src.height ==> out.pix(x, y) == denoise_pixel(
                src.width as int,
                src.height as int,
                src.data@,
                x,
                y,
            ),
    ensures
        out.data@ == denoise_data(src.width as int, src.height as int, src.data@),
{
    let w = src.width as int;
    let h = src.height as int;
    let target = denoise_data(w, h, src.data@);
    assert forall|x: int, y: int|
        0 <= x < w && 0 <= y < h implies out.pix(x, y) == target[pix_idx(x, y, w)] by {
        crate::image::lemma_pix_idx_div_mod(x, y, w, h);
    }
    crate::image::lemma_data_from_pixels(out, target);
}

} // verus!
