//! What the diagnostic commands compute: test frames and statistics of captured ones.

use crate::pixels::frame_len;
#[allow(unused_imports)]
use crate::pixels::{column_of, index_of, lemma_index_splits, lemma_row_start};
use vstd::prelude::*;

verus! {

/// The alpha values of a frame, taken together.
#[derive(Debug, Clone, Copy, PartialEq, Eq)]
pub struct AlphaStats {
    /// The lowest alpha, 255 where there is no pixel.
    pub min: u8,
    /// The highest alpha, 0 where there is no pixel.
    pub max: u8,
    /// The sum of all alphas.
    pub sum: u128,
    /// How many pixels the frame holds.
    pub pixels: usize,
}

/// The sum of the alphas of the first `n` pixels.
pub open spec fn alpha_sum(frame: Seq<u8>, n: nat) -> nat
    decreases n,
{
    if n == 0 {
        0
    } else {
        alpha_sum(frame, (n - 1) as nat) + frame[4 * n - 1] as nat
    }
}

/// `low` and `high` are the tightest bounds of the alphas of the first `n` pixels.
pub open spec fn bounds_alpha(frame: Seq<u8>, n: nat, low: u8, high: u8) -> bool {
    &&& forall|p: int| 0 <= p < n ==> low <= #[trigger] frame[4 * p + 3] <= high
    &&& if n == 0 {
        low == 255 && high == 0
    } else {
        &&& exists|p: int| 0 <= p < n && #[trigger] frame[4 * p + 3] == low
        &&& exists|p: int| 0 <= p < n && #[trigger] frame[4 * p + 3] == high
    }
}

/// The lowest, the highest and the sum of the alphas of the whole pixels of a frame.
pub fn alpha_stats(frame: &[u8]) -> (res: AlphaStats)
    ensures
        res.pixels == frame@.len() / 4,
        res.sum == alpha_sum(frame@, res.pixels as nat),
        bounds_alpha(frame@, res.pixels as nat, res.min, res.max),
{
    let len: usize = frame.len();
    let pixels: usize = len / 4;
    let mut min: u8 = 255;
    let mut max: u8 = 0;
    let mut sum: u128 = 0;
    let mut i: usize = 0;
    while i < pixels
        invariant
            i <= pixels,
            pixels == len / 4,
            len == frame@.len(),
            sum == alpha_sum(frame@, i as nat),
            sum <= 255 * i,
            bounds_alpha(frame@, i as nat, min, max),
        decreases pixels - i,
    {
        let a: u8 = frame[4 * i + 3];
        assert(frame@[4 * (i as int) + 3] == a);
        sum = sum + a as u128;
        if a < min {
            min = a;
        }
        if a > max {
            max = a;
        }
        i += 1;
    }
    AlphaStats { min, max, sum, pixels }
}

/// How far the band of the test picture has moved at column `x`.
pub open spec fn phase(x: int, frame: int) -> u8 {
    ((frame + x / 4) % 256) as u8
}

/// The color of the test picture at column `x`.
pub open spec fn pattern_pixel(x: int, frame: int) -> Seq<u8> {
    seq![phase(x, frame), (255 - phase(x, frame)) as u8, 128, 255]
}

/// A picture with a vertical band that moves from frame to frame.
pub open spec fn pattern(w: int, h: int, frame: int) -> Seq<u8> {
    Seq::new(
        frame_len(w, h) as nat,
        |i: int| pattern_pixel(column_of(w, i), frame)[i % 4],
    )
}

/// Draws the test picture.
pub fn test_pattern(width: u32, height: u32, frame: u32) -> (res: Vec<u8>)
    requires
        frame_len(width as int, height as int) <= usize::MAX,
    ensures
        res@ == pattern(width as int, height as int, frame as int),
{
    let ghost (w, h, f) = (width as int, height as int, frame as int);
    let mut out: Vec<u8> = Vec::new();
    let mut y: u32 = 0;
    proof {
        lemma_row_start(w, 0);
    }
    while y < height
        invariant
            y <= height,
            (w, h, f) == (width as int, height as int, frame as int),
            out@.len() == index_of(w, 0, y as int, 0),
            forall|i: int|
                0 <= i < out@.len() ==> #[trigger] out@[i] == pattern_pixel(
                    column_of(w, i),
                    f,
                )[i % 4],
        decreases height - y,
    {
        let mut x: u32 = 0;
        while x < width
            invariant
                x <= width,
                y < height,
                (w, h, f) == (width as int, height as int, frame as int),
                out@.len() == index_of(w, x as int, y as int, 0),
                forall|i: int|
                    0 <= i < out@.len() ==> #[trigger] out@[i] == pattern_pixel(
                        column_of(w, i),
                        f,
                    )[i % 4],
            decreases width - x,
        {
            let shade: u8 = ((frame as u64 + (x / 4) as u64) % 256) as u8;
            proof {
                lemma_index_splits(w, x as int, y as int, 0);
                lemma_index_splits(w, x as int, y as int, 1);
                lemma_index_splits(w, x as int, y as int, 2);
                lemma_index_splits(w, x as int, y as int, 3);
            }
            out.push(shade);
            out.push(255 - shade);
            out.push(128);
            out.push(255);
            x += 1;
        }
        proof {
            lemma_row_start(w, y as int);
        }
        y += 1;
    }
    proof {
        lemma_row_start(w, h);
        assert(out@ =~= pattern(w, h, f));
    }
    out
}

/// The sum counts the alpha of each pixel once and nothing else: changing one byte of the
/// frame changes it only where the byte is the alpha of a pixel that is counted, and then
/// by as much. A frame without any alpha has none.
pub proof fn law_alpha_sum_counts_each_pixel(frame: Seq<u8>, n: nat, i: int, v: u8)
    requires
        4 * n <= frame.len(),
        0 <= i < frame.len(),
    ensures
        alpha_sum(frame.update(i, v), n) - alpha_sum(frame, n) == if i % 4 == 3 && i < 4 * n {
            v - frame[i]
        } else {
            0
        },
        (forall|p: int| 0 <= p < n ==> #[trigger] frame[4 * p + 3] == 0) ==> alpha_sum(frame, n)
            == 0,
    decreases n,
{
    if n > 0 {
        law_alpha_sum_counts_each_pixel(frame, (n - 1) as nat, i, v);
        assert(frame[4 * (n - 1) + 3] == frame[4 * n - 1]);
    }
}

/// The test picture shows the same color down each column: red and green add up to full,
/// blue is half, alpha is full. The picture of the next frame is this one moved by four
/// columns to the left, and red grows by one from each four columns to the next.
pub proof fn law_pattern(w: int, h: int, frame: int, x: int, y: int)
    requires
        0 <= x < w,
        0 <= y < h,
        0 <= frame,
    ensures
        ({
            let picture = pattern(w, h, frame);
            let i = index_of(w, x, y, 0);
            &&& picture.len() == frame_len(w, h)
            &&& picture[i] == (frame + x / 4) % 256
            &&& picture[i] + picture[i + 1] == 255
            &&& picture[i + 2] == 128
            &&& picture[i + 3] == 255
            &&& x + 4 < w ==> pattern(w, h, frame + 1)[i] == picture[index_of(w, x + 4, y, 0)]
        }),
{
    lemma_index_splits(w, x, y, 0);
    lemma_index_splits(w, x, y, 1);
    lemma_index_splits(w, x, y, 2);
    lemma_index_splits(w, x, y, 3);
    crate::pixels::lemma_index_inside(w, h, x, y);
    if x + 4 < w {
        lemma_index_splits(w, x + 4, y, 0);
        crate::pixels::lemma_index_inside(w, h, x + 4, y);
        assert((x + 4) / 4 == x / 4 + 1);
    }
}

/// The bounds of the alphas are the lowest and the highest of them, and no others.
pub proof fn law_alpha_bounds(frame: Seq<u8>, n: nat, low: u8, high: u8, p: int)
    requires
        bounds_alpha(frame, n, low, high),
        0 <= p < n,
    ensures
        low <= frame[4 * p + 3] <= high,
        exists|q: int| 0 <= q < n && #[trigger] frame[4 * q + 3] == low,
        exists|q: int| 0 <= q < n && #[trigger] frame[4 * q + 3] == high,
{
}

/// The statistics of a frame are of all its whole pixels, and bound the alpha of each.
pub proof fn law_statistics(frame: &[u8], res: AlphaStats, p: int)
    requires
        call_ensures(alpha_stats, (frame,), res),
        0 <= p < frame@.len() as int / 4,
    ensures
        res.pixels == frame@.len() / 4,
        res.min <= frame@[4 * p + 3] <= res.max,
        res.sum == alpha_sum(frame@, res.pixels as nat),
{
    law_alpha_bounds(frame@, res.pixels as nat, res.min, res.max, p);
}

/// A test picture has the band where its frame number puts it.
pub proof fn law_drawing(width: u32, height: u32, frame: u32, res: Vec<u8>, x: int, y: int)
    requires
        call_ensures(test_pattern, (width, height, frame), res),
        0 <= x < width,
        0 <= y < height,
    ensures
        ({
            let i = index_of(width as int, x, y, 0);
            &&& res@.len() == frame_len(width as int, height as int)
            &&& res@[i] == (frame + x / 4) % 256
            &&& res@[i] + res@[i + 1] == 255
            &&& res@[i + 2] == 128
            &&& res@[i + 3] == 255
        }),
{
    law_pattern(width as int, height as int, frame as int, x, y);
}

} // verus!
