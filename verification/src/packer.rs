//! Side-by-side alpha packing.
//!
//! A source of W by H RGBA pixels becomes one of 2W by H. The left half holds
//! the source's RGB, the right half replicates the source's alpha into R, G
//! and B. An encoder may discard the packed frame's own alpha: a receiver takes
//! RGB from the left half and alpha from the right half.

use vstd::prelude::*;

use crate::pixels::{column_of, frame_len, index_of, lemma_index_inside, lemma_index_splits,
    lemma_row_start, row_of};

verus! {

/// The dimensions of the packed frame.
pub fn packed_dims(src_w: u32, src_h: u32) -> (res: (u32, u32))
    requires
        src_w * 2 <= u32::MAX,
    ensures
        res.0 == src_w * 2,
        res.1 == src_h,
{
    (src_w * 2, src_h)
}

/// Chroma-key settings used to extract a transparent foreground from a
/// captured frame that carries no alpha of its own.
///
/// The distance to the key color is the largest difference of a channel.
/// Pixels within `threshold` of the key become fully transparent; pixels in
/// the `softness` band beyond fade linearly back to fully opaque.
#[derive(Debug, Clone, Copy, PartialEq, Eq, Structural)]
pub struct ChromaKey {
    pub r: u8,
    pub g: u8,
    pub b: u8,
    /// Anything within this distance of the key is keyed out.
    pub threshold: u8,
    /// Width of the feathered ramp beyond `threshold`.
    pub softness: u8,
}

impl Default for ChromaKey {
    /// A green screen.
    fn default() -> (res: Self)
        ensures
            res == (ChromaKey { r: 0, g: 255, b: 0, threshold: 60, softness: 30 }),
    {
        ChromaKey { r: 0, g: 255, b: 0, threshold: 60, softness: 30 }
    }
}

/// The distance between two channel values.
pub open spec fn channel_distance(a: u8, b: u8) -> int {
    if a < b {
        b - a
    } else {
        a - b
    }
}

/// The larger of two numbers.
pub open spec fn larger(a: int, b: int) -> int {
    if a < b {
        b
    } else {
        a
    }
}

/// The distance of a color to the key: its largest channel distance.
pub open spec fn key_distance(r: u8, g: u8, b: u8, key: ChromaKey) -> int {
    larger(
        larger(channel_distance(r, key.r), channel_distance(g, key.g)),
        channel_distance(b, key.b),
    )
}

/// The alpha of a color at distance `dist` from the key.
pub open spec fn ramp(dist: int, threshold: int, softness: int) -> int {
    let band = larger(softness, 1);
    if dist <= threshold {
        0
    } else if dist <= threshold + band {
        ((dist - threshold) * 255) / band
    } else {
        255
    }
}

/// The alpha that a color gets.
pub open spec fn keyed_alpha(r: u8, g: u8, b: u8, key: ChromaKey) -> int {
    ramp(key_distance(r, g, b, key), key.threshold as int, key.softness as int)
}

/// A buffer with the alpha of each whole pixel rewritten. Bytes after the last
/// whole pixel stay.
pub open spec fn keyed(s: Seq<u8>, key: ChromaKey) -> Seq<u8> {
    Seq::new(
        s.len(),
        |i: int|
            if i % 4 == 3 {
                keyed_alpha(s[i - 3], s[i - 2], s[i - 1], key) as u8
            } else {
                s[i]
            },
    )
}

/// The alpha is a byte, nothing at the key color, and does not fall with the
/// distance from it.
pub proof fn law_ramp(near: int, far: int, threshold: int, softness: int)
    requires
        0 <= near <= far,
        0 <= threshold,
    ensures
        0 <= ramp(near, threshold, softness) <= ramp(far, threshold, softness) <= 255,
        ramp(0, threshold, softness) == 0,
{
    let band = larger(softness, 1);
    assert forall|d: int| threshold < d <= threshold + band implies 0 <= #[trigger] ((
    (d - threshold) * 255) / band) <= 255 by {
        assert(0 <= ((d - threshold) * 255) / band <= 255) by (nonlinear_arith)
            requires
                0 < d - threshold <= band,
        ;
    }
    if threshold < near && far <= threshold + band {
        vstd::arithmetic::div_mod::lemma_div_is_ordered(
            (near - threshold) * 255,
            (far - threshold) * 255,
            band,
        );
    }
    if threshold < near <= threshold + band {
        assert(0 <= ((near - threshold) * 255) / band <= 255);
    }
    if threshold < far <= threshold + band {
        assert(0 <= ((far - threshold) * 255) / band <= 255);
    }
}

/// Keying a frame twice is keying it once: the colors stay as they are.
pub proof fn law_keying_is_idempotent(s: Seq<u8>, key: ChromaKey)
    ensures
        keyed(keyed(s, key), key) == keyed(s, key),
        forall|i: int| 0 <= i < s.len() && i % 4 != 3 ==> #[trigger] keyed(s, key)[i] == s[i],
{
    assert(keyed(keyed(s, key), key) =~= keyed(s, key));
}

/// The distance between two channel values.
fn distance(a: u8, b: u8) -> (res: u8)
    ensures
        res == channel_distance(a, b),
{
    if a < b {
        b - a
    } else {
        a - b
    }
}

/// Rewrites the alpha of an RGBA buffer in place.
pub fn apply_chroma_key(rgba: &mut [u8], key: &ChromaKey)
    ensures
        final(rgba)@ == keyed(old(rgba)@, *key),
{
    let len: usize = rgba.len();
    let softness: u32 = if key.softness < 1 { 1 } else { key.softness as u32 };
    let threshold: u32 = key.threshold as u32;
    let mut i: usize = 0;
    while len - i >= 4
        invariant
            len == rgba@.len(),
            len == old(rgba)@.len(),
            i <= len,
            i % 4 == 0,
            softness == larger(key.softness as int, 1),
            threshold == key.threshold,
            forall|j: int| 0 <= j < i ==> #[trigger] rgba@[j] == keyed(old(rgba)@, *key)[j],
            forall|j: int| i <= j < len ==> #[trigger] rgba@[j] == old(rgba)@[j],
        decreases len - i,
    {
        let dr = distance(rgba[i], key.r);
        let dg = distance(rgba[i + 1], key.g);
        let db = distance(rgba[i + 2], key.b);
        let drg = if dr < dg { dg } else { dr };
        let dist: u32 = (if drg < db { db } else { drg }) as u32;
        let ghost before = rgba@;
        let alpha: u8 = if dist <= threshold {
            0
        } else if dist <= threshold + softness {
            proof {
                law_ramp(dist as int, dist as int, threshold as int, key.softness as int);
            }
            (((dist - threshold) * 255) / softness) as u8
        } else {
            255
        };
        rgba[i + 3] = alpha;
        proof {
            assert(before[i as int] == old(rgba)@[i as int]);
            assert(before[i + 1] == old(rgba)@[i + 1]);
            assert(before[i + 2] == old(rgba)@[i + 2]);
            assert(before[i + 3] == old(rgba)@[i + 3]);
            assert(alpha == keyed_alpha(
                before[i as int],
                before[i + 1],
                before[i + 2],
                *key,
            ));
        }
        i += 4;
    }
    assert(rgba@ =~= keyed(old(rgba)@, *key));
}

/// Byte `i` of the frame that `src`, `w` pixels wide, is packed to.
pub open spec fn packed_byte(src: Seq<u8>, w: int, i: int) -> u8 {
    let (x, y, c) = (column_of(2 * w, i), row_of(2 * w, i), i % 4);
    if c == 3 {
        255
    } else if x < w {
        src[index_of(w, x, y, c)]
    } else {
        src[index_of(w, x - w, y, 3)]
    }
}

/// The frame that `src` is packed to.
pub open spec fn packed(src: Seq<u8>, w: int, h: int) -> Seq<u8> {
    Seq::new(frame_len(2 * w, h) as nat, |i: int| packed_byte(src, w, i))
}

/// A receiver finds the RGB of each source pixel in the left half, and its
/// alpha in R, G and B of the pixel a source width to the right.
pub proof fn law_packing_is_lossless(src: Seq<u8>, w: int, h: int, x: int, y: int)
    requires
        src.len() == frame_len(w, h),
        0 <= x < w,
        0 <= y < h,
    ensures
        forall|c: int|
            0 <= c < 3 ==> #[trigger] packed(src, w, h)[index_of(2 * w, x, y, c)]
                == src[index_of(w, x, y, c)],
        forall|c: int|
            0 <= c < 3 ==> #[trigger] packed(src, w, h)[index_of(2 * w, x + w, y, c)]
                == src[index_of(w, x, y, 3)],
{
    lemma_index_inside(2 * w, h, x, y);
    lemma_index_inside(2 * w, h, x + w, y);
    assert forall|c: int| 0 <= c < 3 implies #[trigger] packed(src, w, h)[index_of(2 * w, x, y, c)]
        == src[index_of(w, x, y, c)] by {
        lemma_index_splits(2 * w, x, y, c);
    }
    assert forall|c: int| 0 <= c < 3 implies #[trigger] packed(src, w, h)[index_of(
        2 * w,
        x + w,
        y,
        c,
    )] == src[index_of(w, x, y, 3)] by {
        lemma_index_splits(2 * w, x + w, y, c);
    }
}

/// Packs RGB and alpha of `src` side by side into `dst`.
pub fn pack_rgba_side_by_side(src: &[u8], src_w: u32, src_h: u32, dst: &mut [u8])
    requires
        src@.len() == frame_len(src_w as int, src_h as int),
        old(dst)@.len() == frame_len(2 * src_w, src_h as int),
    ensures
        final(dst)@ == packed(src@, src_w as int, src_h as int),
{
    let ghost w = src_w as int;
    let ghost h = src_h as int;
    let src_len: usize = src.len();
    let dst_len: usize = dst.len();
    let mut y: u32 = 0;
    let mut from: usize = 0;
    let mut row: usize = 0;
    while y < src_h
        invariant
            y <= src_h,
            (w, h) == (src_w as int, src_h as int),
            src_len == src@.len(),
            dst_len == dst@.len(),
            src@.len() == frame_len(w, h),
            dst@.len() == frame_len(2 * w, h),
            from == index_of(w, 0, y as int, 0),
            row == index_of(2 * w, 0, y as int, 0),
            forall|j: int| 0 <= j < row ==> #[trigger] dst@[j] == packed_byte(src@, w, j),
        decreases src_h - y,
    {
        let ghost row_from = from;
        let mut x: u32 = 0;
        proof {
            lemma_row_start(w, y as int);
            lemma_row_start(2 * w, y as int);
            lemma_row_start(w, h);
            lemma_row_start(2 * w, h);
            assert((y + 1) * (2 * w) <= h * (2 * w)) by (nonlinear_arith)
                requires
                    y + 1 <= h,
                    0 <= w,
            ;
            assert((y + 1) * w <= h * w) by (nonlinear_arith)
                requires
                    y + 1 <= h,
                    0 <= w,
            ;
            assert(0 <= y * (2 * w)) by (nonlinear_arith)
                requires
                    0 <= w,
            ;
        }
        let half: usize = src_w as usize * 4;
        while x < src_w
            invariant
                x <= src_w,
                y < src_h,
                (w, h) == (src_w as int, src_h as int),
                src_len == src@.len(),
                dst_len == dst@.len(),
                src@.len() == frame_len(w, h),
                dst@.len() == frame_len(2 * w, h),
                half == 4 * w,
                row + 8 * w <= dst_len,
                row_from + 4 * w <= src_len,
                from == row_from + 4 * x,
                row_from == index_of(w, 0, y as int, 0),
                row == index_of(2 * w, 0, y as int, 0),
                forall|j: int| 0 <= j < row + 4 * x ==> #[trigger] dst@[j] == packed_byte(src@, w, j),
                forall|j: int|
                    row + half <= j < row + half + 4 * x ==> #[trigger] dst@[j] == packed_byte(
                        src@,
                        w,
                        j,
                    ),
            decreases src_w - x,
        {
            let (r, g, b, a) = (src[from], src[from + 1], src[from + 2], src[from + 3]);
            let left: usize = row + x as usize * 4;
            let right: usize = left + half;
            let ghost before = dst@;
            dst[left] = r;
            dst[left + 1] = g;
            dst[left + 2] = b;
            dst[left + 3] = 255;
            dst[right] = a;
            dst[right + 1] = a;
            dst[right + 2] = a;
            dst[right + 3] = 255;
            proof {
                lemma_index_splits(2 * w, x as int, y as int, 0);
                lemma_index_splits(2 * w, x as int, y as int, 1);
                lemma_index_splits(2 * w, x as int, y as int, 2);
                lemma_index_splits(2 * w, x as int, y as int, 3);
                lemma_index_splits(2 * w, x + w, y as int, 0);
                lemma_index_splits(2 * w, x + w, y as int, 1);
                lemma_index_splits(2 * w, x + w, y as int, 2);
                lemma_index_splits(2 * w, x + w, y as int, 3);
            }
            from += 4;
            x += 1;
        }
        row = row + half + half;
        y += 1;
    }
    proof {
        lemma_row_start(2 * w, h);
    }
    assert(dst@ =~= packed(src@, w, h));
}

/// What keying does to a pixel, by how far its channels are from the key's: it is
/// fully transparent exactly where all three are within the threshold, and fully
/// opaque wherever any one of them is more than the band beyond it. In between the
/// alpha grows in proportion to the farthest channel, rounded down. The colors stay.
pub proof fn law_keying_goes_by_the_farthest_channel(s: Seq<u8>, key: ChromaKey, p: int)
    requires
        0 <= p,
        4 * p + 3 < s.len(),
    ensures
        ({
            let (r, g, b) = (s[4 * p] as int, s[4 * p + 1] as int, s[4 * p + 2] as int);
            let alpha = keyed(s, key)[4 * p + 3] as int;
            let near = |limit: int|
                -limit <= r - key.r <= limit && -limit <= g - key.g <= limit && -limit <= b - key.b
                    <= limit;
            let band = if key.softness == 0 {
                1int
            } else {
                key.softness as int
            };
            &&& near(key.threshold as int) <==> alpha == 0
            &&& !near(key.threshold + band) ==> alpha == 255
            &&& forall|d: int|
                key.threshold < d <= key.threshold + band && #[trigger] near(d) && !near(d - 1)
                    ==> alpha * band <= (d - key.threshold) * 255 < (alpha + 1) * band
            &&& keyed(s, key)[4 * p] == s[4 * p]
            &&& keyed(s, key)[4 * p + 1] == s[4 * p + 1]
            &&& keyed(s, key)[4 * p + 2] == s[4 * p + 2]
        }),
        keyed(s, key).len() == s.len(),
{
    let (r, g, b) = (s[4 * p] as int, s[4 * p + 1] as int, s[4 * p + 2] as int);
    let near = |limit: int|
        -limit <= r - key.r <= limit && -limit <= g - key.g <= limit && -limit <= b - key.b
            <= limit;
    let band = larger(key.softness as int, 1);
    let dist = key_distance(s[4 * p], s[4 * p + 1], s[4 * p + 2], key);
    let threshold = key.threshold as int;
    law_ramp(dist, dist, threshold, key.softness as int);
    let alpha = keyed(s, key)[4 * p + 3] as int;
    assert((4 * p + 3) % 4 == 3);
    assert(alpha == ramp(dist, threshold, key.softness as int));
    assert forall|limit: int| #[trigger] near(limit) <==> dist <= limit by {}
    if threshold < dist <= threshold + band {
        let n = (dist - threshold) * 255;
        vstd::arithmetic::div_mod::lemma_fundamental_div_mod(n, band);
        assert(band * alpha == alpha * band) by (nonlinear_arith);
        assert((alpha + 1) * band == alpha * band + band) by (nonlinear_arith);
        assert(alpha >= 1) by (nonlinear_arith)
            requires
                n < alpha * band + band,
                n >= 255,
                0 < band <= 255,
        ;
    }
}

/// The packed frame itself is opaque throughout, and has a packed frame's size.
pub proof fn law_packed_frames_are_opaque(src: Seq<u8>, w: int, h: int, p: int)
    requires
        0 <= w,
        0 <= h,
        0 <= p < (2 * w) * h,
    ensures
        packed(src, w, h).len() == 8 * (w * h),
        packed(src, w, h)[4 * p + 3] == 255,
{
    assert((2 * w) * h == 2 * (w * h)) by (nonlinear_arith);
    assert((4 * p + 3) % 4 == 3);
}

/// A buffer that was keyed: each pixel is fully transparent exactly where its three channels
/// are within the threshold of the key's, and fully opaque wherever one of them is more than
/// the band beyond. The colors, and what is no whole pixel, stay.
pub proof fn law_keyed_buffer(rgba: &mut [u8], key: ChromaKey, p: int)
    requires
        call_ensures(apply_chroma_key, (rgba, &key), ()),
        0 <= p,
        4 * p + 3 < rgba@.len(),
    ensures
        ({
            let (before, after) = (old(rgba)@, final(rgba)@);
            let near = |limit: int|
                -limit <= before[4 * p] - key.r <= limit && -limit <= before[4 * p + 1] - key.g
                    <= limit && -limit <= before[4 * p + 2] - key.b <= limit;
            &&& after.len() == before.len()
            &&& near(key.threshold as int) <==> after[4 * p + 3] == 0
            &&& !near(key.threshold + key.softness) && !near(key.threshold + 1) ==> after[4 * p + 3]
                == 255
            &&& after[4 * p] == before[4 * p]
            &&& after[4 * p + 1] == before[4 * p + 1]
            &&& after[4 * p + 2] == before[4 * p + 2]
            &&& forall|i: int|
                0 <= i < before.len() && i / 4 >= before.len() as int / 4 ==> #[trigger] after[i]
                    == before[i]
        }),
{
    law_keying_goes_by_the_farthest_channel(rgba@, key, p);
}

/// A frame that was packed: the source's colors are in the left half, and its alpha in each
/// color of the right half, a source width further on. The packed frame itself is opaque.
pub proof fn law_packed_frame(src: &[u8], w: u32, h: u32, dst: &mut [u8], x: int, y: int)
    requires
        call_ensures(pack_rgba_side_by_side, (src, w, h, dst), ()),
        src@.len() == frame_len(w as int, h as int),
        0 <= x < w,
        0 <= y < h,
    ensures
        ({
            let (at, left, right) = (
                index_of(w as int, x, y, 0),
                index_of(2 * w, x, y, 0),
                index_of(2 * w, x + w, y, 0),
            );
            let packed = final(dst)@;
            &&& packed.len() == 2 * src@.len()
            &&& packed[left] == src@[at]
            &&& packed[left + 1] == src@[at + 1]
            &&& packed[left + 2] == src@[at + 2]
            &&& packed[left + 3] == 255
            &&& packed[right] == src@[at + 3]
            &&& packed[right + 1] == src@[at + 3]
            &&& packed[right + 2] == src@[at + 3]
            &&& packed[right + 3] == 255
        }),
{
    let (ww, hh) = (w as int, h as int);
    law_packing_is_lossless(src@, ww, hh, x, y);
    let out = packed(src@, ww, hh);
    let (left, right) = (index_of(2 * ww, x, y, 0), index_of(2 * ww, x + ww, y, 0));
    assert(index_of(2 * ww, x, y, 1) == left + 1 && index_of(2 * ww, x, y, 2) == left + 2);
    assert(index_of(2 * ww, x + ww, y, 1) == right + 1 && index_of(2 * ww, x + ww, y, 2) == right
        + 2);
    assert(out[index_of(2 * ww, x, y, 0)] == src@[index_of(ww, x, y, 0)]);
    assert(out[index_of(2 * ww, x, y, 1)] == src@[index_of(ww, x, y, 1)]);
    assert(out[index_of(2 * ww, x, y, 2)] == src@[index_of(ww, x, y, 2)]);
    assert(out[index_of(2 * ww, x + ww, y, 0)] == src@[index_of(ww, x, y, 3)]);
    assert(out[index_of(2 * ww, x + ww, y, 1)] == src@[index_of(ww, x, y, 3)]);
    assert(out[index_of(2 * ww, x + ww, y, 2)] == src@[index_of(ww, x, y, 3)]);
    lemma_index_inside(2 * ww, hh, x, y);
    lemma_index_inside(2 * ww, hh, x + ww, y);
    assert((2 * ww) * hh == 2 * (ww * hh)) by (nonlinear_arith);
    law_packed_frames_are_opaque(src@, ww, hh, y * (2 * ww) + x);
    law_packed_frames_are_opaque(src@, ww, hh, y * (2 * ww) + (x + ww));
}

/// A packed frame is two frames wide and as high as one.
pub proof fn law_packed_size(width: u32, height: u32, res: (u32, u32))
    requires
        call_ensures(packed_dims, (width, height), res),
    ensures
        res.0 == width + width,
        res.1 == height,
{
}

} // verus!
