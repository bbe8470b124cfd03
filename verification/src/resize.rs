//! Box-filter RGBA downsampling.
//!
//! Keeps the packed (side-by-side) frame width within the encoder's supported
//! maximum. A box filter averages all source pixels that fall into each
//! destination pixel's footprint.

use vstd::arithmetic::div_mod::lemma_fundamental_div_mod_converse;
use vstd::prelude::*;

use crate::pixels::{column_of, frame_len, index_of, lemma_index_inside, lemma_index_splits,
    lemma_index_unsplit, lemma_row_start, row_of};
use crate::scaling::{law_scaled_by_half, law_scaled_by_whole_factor,
    law_scaled_floor_stays_inside, law_scaled_round_matches_ratio, law_scaled_round_shrinks,
    scaled_ceil, scaled_floor, scaled_round, Ratio};

verus! {

/// `n` with its lowest bit cleared.
pub open spec fn even(n: nat) -> nat {
    (n - n % 2) as nat
}

/// The dimensions a source is brought to so that its packed width fits
/// `max_packed_w`: halved cap, proportional height, both even.
pub open spec fn effective_dims(src_w: nat, src_h: nat, max_packed_w: nat) -> (nat, nat) {
    let cap = max_packed_w / 2;
    if src_w <= cap {
        (even(src_w), even(src_h))
    } else {
        let h = even(scaled_round(src_h, cap, src_w));
        (even(cap), if h < 2 { 2 } else { h })
    }
}

/// `n` with its lowest bit cleared.
pub fn even_part(n: u32) -> (res: u32)
    ensures
        res == even(n as nat),
{
    n - n % 2
}

/// Decides the effective source dimensions so that twice the width stays
/// within `max_packed_w` while the aspect ratio is preserved. Both are even,
/// as encoders reject odd dimensions.
pub fn compute_effective_dims(src_w: u32, src_h: u32, max_packed_w: u32) -> (res: (u32, u32))
    ensures
        res.0 == effective_dims(src_w as nat, src_h as nat, max_packed_w as nat).0,
        res.1 == effective_dims(src_w as nat, src_h as nat, max_packed_w as nat).1,
        res.0 * 2 <= max_packed_w,
        res.0 % 2 == 0,
        res.1 % 2 == 0,
        src_w > max_packed_w / 2 && ({
            let cap = max_packed_w / 2;
            &&& cap > 0
            &&& src_h * cap < 0x4_0000_0000_0000
            &&& (2 * (src_h * cap) + src_w) % (2 * src_w) != 0
        }) ==> ({
            let h = even(((2 * (src_h * (max_packed_w / 2)) + src_w) / (2 * src_w)) as nat);
            res.1 == if h < 2 { 2 } else { h }
        }),
{
    let cap = max_packed_w / 2;
    if src_w <= cap {
        return (even_part(src_w), even_part(src_h));
    }
    let ratio = Ratio::new(cap, src_w);
    let scaled = ratio.round_of(src_h);
    proof {
        law_scaled_round_shrinks(src_h as nat, cap as nat, src_w as nat);
        if cap > 0 && src_h * cap < 0x4_0000_0000_0000 && (2 * (src_h * cap) + src_w) % (2 * src_w)
            != 0 {
            law_scaled_round_matches_ratio(src_h as nat, cap as nat, src_w as nat);
        }
    }
    let h = even_part(scaled as u32);
    (even_part(cap), if h < 2 { 2 } else { h })
}

/// Dimensions that were brought within the cap are left alone.
pub proof fn law_effective_dims_are_stable(src_w: nat, src_h: nat, max_packed_w: nat)
    ensures
        ({
            let (w, h) = effective_dims(src_w, src_h, max_packed_w);
            effective_dims(w, h, max_packed_w) == (w, h)
        }),
{
}

/// The source columns (or rows) that destination column `i` covers when `src`
/// of them are brought to `dst`: from the first up to, not including, the last.
pub open spec fn footprint(i: nat, src: nat, dst: nat) -> (nat, nat) {
    let lo = scaled_floor(i, src, dst);
    let end = scaled_ceil(i + 1, src, dst);
    let hi = if end < src { end } else { src };
    (lo, if hi < lo + 1 { lo + 1 } else { hi })
}

/// The sum of channel `c` over columns `x0..x1` of row `y`.
pub open spec fn row_sum(src: Seq<u8>, w: int, y: int, x0: int, x1: int, c: int) -> nat
    decreases x1 - x0,
{
    if x1 <= x0 {
        0
    } else {
        row_sum(src, w, y, x0, x1 - 1, c) + src[index_of(w, x1 - 1, y, c)] as nat
    }
}

/// The sum of channel `c` over columns `x0..x1` of rows `y0..y1`.
pub open spec fn box_sum(src: Seq<u8>, w: int, x0: int, x1: int, y0: int, y1: int, c: int) -> nat
    decreases y1 - y0,
{
    if y1 <= y0 {
        0
    } else {
        box_sum(src, w, x0, x1, y0, y1 - 1, c) + row_sum(src, w, y1 - 1, x0, x1, c)
    }
}

/// The mean of channel `c` over columns `x0..x1` of rows `y0..y1`, rounded down.
pub open spec fn box_mean(src: Seq<u8>, w: int, x0: int, x1: int, y0: int, y1: int, c: int) -> nat {
    box_sum(src, w, x0, x1, y0, y1, c) / (((x1 - x0) * (y1 - y0)) as nat)
}

/// The mean of channel `c` over block (`x`, `y`) of a source that is cut into
/// blocks of `kx` by `ky` pixels.
pub open spec fn block_mean(
    src: Seq<u8>,
    w: int,
    kx: int,
    ky: int,
    x: int,
    y: int,
    c: int,
) -> nat {
    box_mean(src, w, x * kx, (x + 1) * kx, y * ky, (y + 1) * ky, c)
}

/// Byte `i` of the frame that `src` is resized to.
pub open spec fn resized_byte(
    src: Seq<u8>,
    src_w: nat,
    src_h: nat,
    dst_w: nat,
    dst_h: nat,
    i: int,
) -> nat {
    let (x0, x1) = footprint(column_of(dst_w as int, i) as nat, src_w, dst_w);
    let (y0, y1) = footprint(row_of(dst_w as int, i) as nat, src_h, dst_h);
    box_mean(src, src_w as int, x0 as int, x1 as int, y0 as int, y1 as int, i % 4)
}

/// The frame that `src` is resized to: itself with equal dimensions.
pub open spec fn resized(src: Seq<u8>, src_w: nat, src_h: nat, dst_w: nat, dst_h: nat) -> Seq<u8> {
    if src_w == dst_w && src_h == dst_h {
        src
    } else {
        Seq::new(
            frame_len(dst_w as int, dst_h as int) as nat,
            |i: int| resized_byte(src, src_w, src_h, dst_w, dst_h, i) as u8,
        )
    }
}

/// A destination position covers a non-empty range of source positions.
pub proof fn law_footprint_is_inside(i: nat, src: nat, dst: nat)
    requires
        0 < src <= u32::MAX,
        0 < dst <= u32::MAX,
        i < dst,
    ensures
        footprint(i, src, dst).0 < footprint(i, src, dst).1 <= src,
{
    law_scaled_floor_stays_inside(i, src, dst);
}

/// Shrinking by a whole factor cuts the source into equal blocks.
pub proof fn law_footprint_of_whole_factor(i: nat, src: nat, dst: nat)
    requires
        0 < src <= u32::MAX,
        0 < dst <= u32::MAX,
        src % dst == 0,
        i < dst,
    ensures
        footprint(i, src, dst) == ((i * (src / dst)) as nat, ((i + 1) * (src / dst)) as nat),
{
    let k = src / dst;
    vstd::arithmetic::div_mod::lemma_fundamental_div_mod(src as int, dst as int);
    assert(src == k * dst) by (nonlinear_arith)
        requires
            src == dst * k + src % dst,
            src % dst == 0,
    ;
    assert(k > 0) by (nonlinear_arith)
        requires
            src == k * dst,
            src > 0,
            k >= 0,
    ;
    assert((i + 1) * k <= src) by (nonlinear_arith)
        requires
            src == k * dst,
            i + 1 <= dst,
            k > 0,
    ;
    assert((i + 1) * k == i * k + k) by (nonlinear_arith);
    law_scaled_by_whole_factor(i, k, dst);
    law_scaled_by_whole_factor(i + 1, k, dst);
}

/// A row sum is at most 255 per column.
proof fn lemma_row_sum_bound(src: Seq<u8>, w: int, y: int, x0: int, x1: int, c: int)
    requires
        x0 <= x1,
    ensures
        row_sum(src, w, y, x0, x1, c) <= 255 * (x1 - x0),
    decreases x1 - x0,
{
    if x0 < x1 {
        lemma_row_sum_bound(src, w, y, x0, x1 - 1, c);
    }
}

/// A box sum is at most 255 per pixel.
proof fn lemma_box_sum_bound(src: Seq<u8>, w: int, x0: int, x1: int, y0: int, y1: int, c: int)
    requires
        x0 <= x1,
        y0 <= y1,
    ensures
        box_sum(src, w, x0, x1, y0, y1, c) <= 255 * ((x1 - x0) * (y1 - y0)),
    decreases y1 - y0,
{
    if y0 < y1 {
        lemma_box_sum_bound(src, w, x0, x1, y0, y1 - 1, c);
        lemma_row_sum_bound(src, w, y1 - 1, x0, x1, c);
        assert((x1 - x0) * (y1 - y0) == (x1 - x0) * (y1 - 1 - y0) + (x1 - x0))
            by (nonlinear_arith);
    }
}

/// The mean of a non-empty box is a byte.
pub proof fn law_box_mean_is_a_byte(
    src: Seq<u8>,
    w: int,
    x0: int,
    x1: int,
    y0: int,
    y1: int,
    c: int,
)
    requires
        x0 < x1,
        y0 < y1,
    ensures
        box_mean(src, w, x0, x1, y0, y1, c) <= 255,
{
    let n = (x1 - x0) * (y1 - y0);
    let s = box_sum(src, w, x0, x1, y0, y1, c);
    lemma_box_sum_bound(src, w, x0, x1, y0, y1, c);
    assert(n >= 1) by (nonlinear_arith)
        requires
            n == (x1 - x0) * (y1 - y0),
            x1 - x0 >= 1,
            y1 - y0 >= 1,
    ;
    assert(s / (n as nat) <= 255) by (nonlinear_arith)
        requires
            s <= 255 * n,
            n >= 1,
    ;
}

/// The footprints of all destination positions, in order.
fn footprints(src: u32, dst: u32) -> (res: Vec<(u32, u32)>)
    requires
        src > 0,
        dst > 0,
    ensures
        res@.len() == dst,
        forall|i: int|
            0 <= i < dst ==> (#[trigger] res@[i]).0 == footprint(i as nat, src as nat, dst as nat).0
                && res@[i].1 == footprint(i as nat, src as nat, dst as nat).1,
{
    let ratio = Ratio::new(src, dst);
    let mut spans: Vec<(u32, u32)> = Vec::new();
    let mut i: u32 = 0;
    while i < dst
        invariant
            i <= dst,
            src > 0,
            dst > 0,
            ratio.wf(),
            ratio.num() == src,
            ratio.den() == dst,
            spans@.len() == i,
            forall|j: int|
                0 <= j < i ==> (#[trigger] spans@[j]).0 == footprint(
                    j as nat,
                    src as nat,
                    dst as nat,
                ).0 && spans@[j].1 == footprint(j as nat, src as nat, dst as nat).1,
        decreases dst - i,
    {
        proof {
            law_footprint_is_inside(i as nat, src as nat, dst as nat);
        }
        let lo = ratio.floor_of(i) as u32;
        let end = ratio.ceil_of(i + 1);
        let hi: u32 = if end < src as u128 { end as u32 } else { src };
        spans.push((lo, if hi < lo + 1 { lo + 1 } else { hi }));
        i += 1;
    }
    spans
}

/// The means of the four channels over one box.
fn average_box(src: &[u8], w: u32, h: u32, xs: (u32, u32), ys: (u32, u32)) -> (res: [u8; 4])
    requires
        src@.len() == frame_len(w as int, h as int),
        xs.0 < xs.1 <= w,
        ys.0 < ys.1 <= h,
    ensures
        forall|c: int|
            0 <= c < 4 ==> #[trigger] res@[c] == box_mean(
                src@,
                w as int,
                xs.0 as int,
                xs.1 as int,
                ys.0 as int,
                ys.1 as int,
                c,
            ),
{
    let ghost (x0, x1, y0, y1) = (xs.0 as int, xs.1 as int, ys.0 as int, ys.1 as int);
    let len: usize = src.len();
    let (mut r, mut g, mut b, mut a): (u128, u128, u128, u128) = (0, 0, 0, 0);
    let mut y: u32 = ys.0;
    while y < ys.1
        invariant
            ys.0 <= y <= ys.1,
            ys.1 <= h,
            xs.0 < xs.1 <= w,
            src@.len() == frame_len(w as int, h as int) ,
            len == src@.len(),
            (x0, x1, y0, y1) == (xs.0 as int, xs.1 as int, ys.0 as int, ys.1 as int),
            r == box_sum(src@, w as int, x0, x1, y0, y as int, 0),
            g == box_sum(src@, w as int, x0, x1, y0, y as int, 1),
            b == box_sum(src@, w as int, x0, x1, y0, y as int, 2),
            a == box_sum(src@, w as int, x0, x1, y0, y as int, 3),
        decreases ys.1 - y,
    {
        let ghost (r0, g0, b0, a0) = (r, g, b, a);
        proof {
            lemma_box_sum_bound(src@, w as int, x0, x1, y0, y as int, 0);
            lemma_box_sum_bound(src@, w as int, x0, x1, y0, y as int, 1);
            lemma_box_sum_bound(src@, w as int, x0, x1, y0, y as int, 2);
            lemma_box_sum_bound(src@, w as int, x0, x1, y0, y as int, 3);
            assert((x1 - x0) * (y - y0) <= 0xffff_ffff * 0xffff_ffff) by (nonlinear_arith)
                requires
                    0 <= x1 - x0 <= 0xffff_ffff,
                    0 <= y - y0 <= 0xffff_ffff,
            ;
        }
        let mut x: u32 = xs.0;
        while x < xs.1
            invariant
                xs.0 <= x <= xs.1,
                xs.1 <= w,
                y < h,
                src@.len() == frame_len(w as int, h as int),
                len == src@.len(),
                x0 == xs.0,
                r0 <= 255 * (0xffff_ffff * 0xffff_ffff),
                g0 <= 255 * (0xffff_ffff * 0xffff_ffff),
                b0 <= 255 * (0xffff_ffff * 0xffff_ffff),
                a0 <= 255 * (0xffff_ffff * 0xffff_ffff),
                r == r0 + row_sum(src@, w as int, y as int, x0, x as int, 0),
                g == g0 + row_sum(src@, w as int, y as int, x0, x as int, 1),
                b == b0 + row_sum(src@, w as int, y as int, x0, x as int, 2),
                a == a0 + row_sum(src@, w as int, y as int, x0, x as int, 3),
            decreases xs.1 - x,
        {
            proof {
                lemma_index_inside(w as int, h as int, x as int, y as int);
                lemma_row_sum_bound(src@, w as int, y as int, x0, x as int, 0);
                lemma_row_sum_bound(src@, w as int, y as int, x0, x as int, 1);
                lemma_row_sum_bound(src@, w as int, y as int, x0, x as int, 2);
                lemma_row_sum_bound(src@, w as int, y as int, x0, x as int, 3);
                assert(y * w <= y * w + x) by (nonlinear_arith);
                assert(0 <= y * w) by (nonlinear_arith);
            }
            let i = (y as usize * w as usize + x as usize) * 4;
            r = r + src[i] as u128;
            g = g + src[i + 1] as u128;
            b = b + src[i + 2] as u128;
            a = a + src[i + 3] as u128;
            x += 1;
        }
        y += 1;
    }
    proof {
        assert((xs.1 - xs.0) * (ys.1 - ys.0) <= 0xffff_ffff * 0xffff_ffff) by (nonlinear_arith)
            requires
                0 <= xs.1 - xs.0 <= 0xffff_ffff,
                0 <= ys.1 - ys.0 <= 0xffff_ffff,
        ;
        assert((xs.1 - xs.0) * (ys.1 - ys.0) >= 1) by (nonlinear_arith)
            requires
                xs.1 - xs.0 >= 1,
                ys.1 - ys.0 >= 1,
        ;
        law_box_mean_is_a_byte(src@, w as int, x0, x1, y0, y1, 0);
        law_box_mean_is_a_byte(src@, w as int, x0, x1, y0, y1, 1);
        law_box_mean_is_a_byte(src@, w as int, x0, x1, y0, y1, 2);
        law_box_mean_is_a_byte(src@, w as int, x0, x1, y0, y1, 3);
    }
    let n: u128 = (xs.1 - xs.0) as u128 * (ys.1 - ys.0) as u128;
    [(r / n) as u8, (g / n) as u8, (b / n) as u8, (a / n) as u8]
}

/// Resizes an RGBA buffer with a box filter. Both buffers hold their width
/// times their height times four bytes. With equal dimensions the source is
/// copied.
pub fn box_resize_rgba(
    src: &[u8],
    src_w: u32,
    src_h: u32,
    dst: &mut [u8],
    dst_w: u32,
    dst_h: u32,
)
    requires
        src@.len() == frame_len(src_w as int, src_h as int),
        old(dst)@.len() == frame_len(dst_w as int, dst_h as int),
        (src_w > 0 && src_h > 0) || old(dst)@.len() == 0,
    ensures
        final(dst)@.len() == old(dst)@.len(),
        final(dst)@ == resized(
            src@,
            src_w as nat,
            src_h as nat,
            dst_w as nat,
            dst_h as nat,
        ),
        src_w == dst_w && src_h == dst_h ==> final(dst)@ == src@,
        !(src_w == dst_w && src_h == dst_h) ==> forall|i: int|
            0 <= i < final(dst)@.len() ==> #[trigger] final(dst)@[i] == resized_byte(
                src@,
                src_w as nat,
                src_h as nat,
                dst_w as nat,
                dst_h as nat,
                i,
            ),
        !(src_w == dst_w && src_h == dst_h) && dst_w > 0 && dst_h > 0 && src_w % dst_w == 0 && src_h
            % dst_h == 0 ==> forall|i: int|
            0 <= i < final(dst)@.len() ==> #[trigger] final(dst)@[i] == block_mean(
                src@,
                src_w as int,
                (src_w / dst_w) as int,
                (src_h / dst_h) as int,
                column_of(dst_w as int, i),
                row_of(dst_w as int, i),
                i % 4,
            ),
{
    let len: usize = dst.len();
    if src_w == dst_w && src_h == dst_h {
        let mut i: usize = 0;
        while i < len
            invariant
                i <= len,
                src@.len() == dst@.len(),
                dst@.len() == len,
                forall|j: int| 0 <= j < i ==> #[trigger] dst@[j] == src@[j],
            decreases len - i,
        {
            dst[i] = src[i];
            i += 1;
        }
        assert(dst@ =~= src@);
        return ;
    }
    if dst_w == 0 || dst_h == 0 {
        proof {
            assert(dst_w * dst_h * 4 == 0) by (nonlinear_arith)
                requires
                    dst_w == 0 || dst_h == 0,
            ;
        }
        return ;
    }
    proof {
        assert(dst_w * dst_h * 4 > 0) by (nonlinear_arith)
            requires
                dst_w > 0,
                dst_h > 0,
        ;
    }
    let columns = footprints(src_w, dst_w);
    let rows = footprints(src_h, dst_h);
    let ghost (sw, sh, dw, dh) = (src_w as nat, src_h as nat, dst_w as nat, dst_h as nat);
    let mut dy: u32 = 0;
    let mut at: usize = 0;
    while dy < dst_h
        invariant
            dy <= dst_h,
            src_w > 0,
            src_h > 0,
            dst_w > 0,
            (sw, sh, dw, dh) == (src_w as nat, src_h as nat, dst_w as nat, dst_h as nat),
            src@.len() == frame_len(src_w as int, src_h as int),
            dst@.len() == frame_len(dst_w as int, dst_h as int),
            dst@.len() == len,
            columns@.len() == dst_w,
            rows@.len() == dst_h,
            forall|i: int|
                0 <= i < dst_w ==> (#[trigger] columns@[i]).0 == footprint(i as nat, sw, dw).0
                    && columns@[i].1 == footprint(i as nat, sw, dw).1,
            forall|i: int|
                0 <= i < dst_h ==> (#[trigger] rows@[i]).0 == footprint(i as nat, sh, dh).0
                    && rows@[i].1 == footprint(i as nat, sh, dh).1,
            at == index_of(dst_w as int, 0, dy as int, 0),
            forall|j: int|
                0 <= j < at ==> #[trigger] dst@[j] == resized_byte(src@, sw, sh, dw, dh, j),
        decreases dst_h - dy,
    {
        let mut dx: u32 = 0;
        while dx < dst_w
            invariant
                dy < dst_h,
                dx <= dst_w,
                src_w > 0,
                src_h > 0,
                dst_w > 0,
                (sw, sh, dw, dh) == (src_w as nat, src_h as nat, dst_w as nat, dst_h as nat),
                src@.len() == frame_len(src_w as int, src_h as int),
                dst@.len() == frame_len(dst_w as int, dst_h as int),
                dst@.len() == len,
                columns@.len() == dst_w,
                rows@.len() == dst_h,
                forall|i: int|
                    0 <= i < dst_w ==> (#[trigger] columns@[i]).0 == footprint(i as nat, sw, dw).0
                        && columns@[i].1 == footprint(i as nat, sw, dw).1,
                forall|i: int|
                    0 <= i < dst_h ==> (#[trigger] rows@[i]).0 == footprint(i as nat, sh, dh).0
                        && rows@[i].1 == footprint(i as nat, sh, dh).1,
                at == index_of(dst_w as int, dx as int, dy as int, 0),
                forall|j: int|
                    0 <= j < at ==> #[trigger] dst@[j] == resized_byte(src@, sw, sh, dw, dh, j),
            decreases dst_w - dx,
        {
            proof {
                law_footprint_is_inside(dx as nat, sw, dw);
                law_footprint_is_inside(dy as nat, sh, dh);
                lemma_index_inside(dst_w as int, dst_h as int, dx as int, dy as int);
                lemma_index_splits(dst_w as int, dx as int, dy as int, 0);
                lemma_index_splits(dst_w as int, dx as int, dy as int, 1);
                lemma_index_splits(dst_w as int, dx as int, dy as int, 2);
                lemma_index_splits(dst_w as int, dx as int, dy as int, 3);
            }
            let mean = average_box(
                src,
                src_w,
                src_h,
                columns[dx as usize],
                rows[dy as usize],
            );
            dst[at] = mean[0];
            dst[at + 1] = mean[1];
            dst[at + 2] = mean[2];
            dst[at + 3] = mean[3];
            at += 4;
            dx += 1;
        }
        proof {
            lemma_row_start(dst_w as int, dy as int);
        }
        dy += 1;
    }
    proof {
        lemma_row_start(dst_w as int, dst_h as int);
        assert(dst@ =~= resized(src@, sw, sh, dw, dh));
        if src_w % dst_w == 0 && src_h % dst_h == 0 {
            assert forall|i: int| 0 <= i < dst@.len() implies #[trigger] dst@[i] == block_mean(
                src@,
                src_w as int,
                (src_w / dst_w) as int,
                (src_h / dst_h) as int,
                column_of(dst_w as int, i),
                row_of(dst_w as int, i),
                i % 4,
            ) by {
                lemma_index_unsplit(dst_w as int, dst_h as int, i);
                let (x, y) = (column_of(dst_w as int, i), row_of(dst_w as int, i));
                law_footprint_of_whole_factor(x as nat, sw, dw);
                law_footprint_of_whole_factor(y as nat, sh, dh);
            }
        }
    }
}

/// The mean of one pixel is the pixel.
proof fn lemma_mean_of_pixel(src: Seq<u8>, w: int, x: int, y: int, c: int)
    ensures
        box_mean(src, w, x, x + 1, y, y + 1, c) == src[index_of(w, x, y, c)],
{
    assert(row_sum(src, w, y, x, x, c) == 0);
    assert(row_sum(src, w, y, x, x + 1, c) == src[index_of(w, x, y, c)]);
    assert(box_sum(src, w, x, x + 1, y, y, c) == 0);
    assert(box_sum(src, w, x, x + 1, y, y + 1, c) == src[index_of(w, x, y, c)]);
    let n = ((x + 1 - x) * (y + 1 - y)) as nat;
    assert(n == 1) by (nonlinear_arith)
        requires
            n == (x + 1 - x) * (y + 1 - y),
    ;
    let v = src[index_of(w, x, y, c)] as int;
    lemma_fundamental_div_mod_converse(v, n as int, v, 0);
}

/// The mean of four equal pixels is each of them.
proof fn lemma_mean_of_four(src: Seq<u8>, w: int, x: int, y: int, c: int, v: u8)
    requires
        src[index_of(w, x, y, c)] == v,
        src[index_of(w, x + 1, y, c)] == v,
        src[index_of(w, x, y + 1, c)] == v,
        src[index_of(w, x + 1, y + 1, c)] == v,
    ensures
        box_mean(src, w, x, x + 2, y, y + 2, c) == v,
{
    assert forall|j: int| y <= j < y + 2 implies #[trigger] row_sum(src, w, j, x, x + 2, c) == 2
        * v by {
        assert(row_sum(src, w, j, x, x, c) == 0);
        assert(row_sum(src, w, j, x, x + 1, c) == v);
    }
    assert(box_sum(src, w, x, x + 2, y, y, c) == 0);
    assert(box_sum(src, w, x, x + 2, y, y + 1, c) == 2 * v);
    assert(box_sum(src, w, x, x + 2, y, y + 2, c) == 4 * v);
    let n = ((x + 2 - x) * (y + 2 - y)) as nat;
    assert(n == 4) by (nonlinear_arith)
        requires
            n == (x + 2 - x) * (y + 2 - y),
    ;
    lemma_fundamental_div_mod_converse(4 * v, n as int, v as int, 0);
}

/// Doubling a dimension covers every source position twice.
proof fn lemma_footprint_of_doubling(i: nat, n: nat)
    requires
        0 < n,
        2 * n <= u32::MAX,
        i < 2 * n,
    ensures
        footprint(i, n, 2 * n) == (i / 2, (i / 2 + 1) as nat),
{
    law_scaled_by_half(i, n);
    law_scaled_by_half(i + 1, n);
}

/// A pixel of a doubled frame is the source pixel that it was made of.
proof fn lemma_doubled_pixel(src: Seq<u8>, w: nat, h: nat, x: int, y: int, c: int)
    requires
        0 < w,
        0 < h,
        2 * w <= u32::MAX,
        2 * h <= u32::MAX,
        0 <= x < 2 * w,
        0 <= y < 2 * h,
        0 <= c < 4,
    ensures
        resized(src, w, h, 2 * w, 2 * h)[index_of(2 * w as int, x, y, c)] == src[index_of(
            w as int,
            x / 2,
            y / 2,
            c,
        )],
{
    lemma_index_inside(2 * w as int, 2 * h as int, x, y);
    lemma_index_splits(2 * w as int, x, y, c);
    lemma_footprint_of_doubling(x as nat, w);
    lemma_footprint_of_doubling(y as nat, h);
    lemma_mean_of_pixel(src, w as int, x / 2, y / 2, c);
}

/// A frame that is doubled and then halved is the frame again.
pub proof fn law_doubling_then_halving(src: Seq<u8>, w: nat, h: nat)
    requires
        0 < w,
        0 < h,
        2 * w <= u32::MAX,
        2 * h <= u32::MAX,
        src.len() == frame_len(w as int, h as int),
    ensures
        resized(resized(src, w, h, 2 * w, 2 * h), 2 * w, 2 * h, w, h) == src,
{
    let up = resized(src, w, h, 2 * w, 2 * h);
    let back = resized(up, 2 * w, 2 * h, w, h);
    lemma_fundamental_div_mod_converse(2 * w as int, w as int, 2, 0);
    lemma_fundamental_div_mod_converse(2 * h as int, h as int, 2, 0);
    assert forall|i: int| 0 <= i < src.len() implies back[i] == src[i] by {
        lemma_index_unsplit(w as int, h as int, i);
        let (x, y, c) = (column_of(w as int, i), row_of(w as int, i), i % 4);
        law_footprint_of_whole_factor(x as nat, 2 * w, w);
        law_footprint_of_whole_factor(y as nat, 2 * h, h);
        lemma_doubled_pixel(src, w, h, 2 * x, 2 * y, c);
        lemma_doubled_pixel(src, w, h, 2 * x + 1, 2 * y, c);
        lemma_doubled_pixel(src, w, h, 2 * x, 2 * y + 1, c);
        lemma_doubled_pixel(src, w, h, 2 * x + 1, 2 * y + 1, c);
        lemma_mean_of_four(up, 2 * w as int, 2 * x, 2 * y, c, src[i]);
    }
    assert(back =~= src);
}

/// A sum over a box counts each of its bytes once: changing one changes the sum by as
/// much.
pub proof fn law_box_sum_counts_each_byte(
    src: Seq<u8>,
    w: int,
    h: int,
    x0: int,
    x1: int,
    y0: int,
    y1: int,
    c: int,
    x: int,
    y: int,
    v: u8,
)
    requires
        src.len() == frame_len(w, h),
        0 <= x0 <= x1 <= w,
        0 <= y0 <= y1 <= h,
        0 <= x < w,
        0 <= y < h,
        0 <= c < 4,
    ensures
        ({
            let i = index_of(w, x, y, c);
            let before = box_sum(src, w, x0, x1, y0, y1, c) as int;
            let after = box_sum(src.update(i, v), w, x0, x1, y0, y1, c) as int;
            if x0 <= x < x1 && y0 <= y < y1 {
                after - before == v - src[i]
            } else {
                after == before
            }
        }),
    decreases y1 - y0,
{
    if y0 < y1 {
        law_box_sum_counts_each_byte(src, w, h, x0, x1, y0, y1 - 1, c, x, y, v);
        lemma_row_sum_counts_each_byte(src, w, h, y1 - 1, x0, x1, c, x, y, v);
    }
}

/// A sum over a row counts each of its bytes once.
proof fn lemma_row_sum_counts_each_byte(
    src: Seq<u8>,
    w: int,
    h: int,
    row: int,
    x0: int,
    x1: int,
    c: int,
    x: int,
    y: int,
    v: u8,
)
    requires
        src.len() == frame_len(w, h),
        0 <= x0 <= x1 <= w,
        0 <= row < h,
        0 <= x < w,
        0 <= y < h,
        0 <= c < 4,
    ensures
        ({
            let i = index_of(w, x, y, c);
            let before = row_sum(src, w, row, x0, x1, c) as int;
            let after = row_sum(src.update(i, v), w, row, x0, x1, c) as int;
            if x0 <= x < x1 && row == y {
                after - before == v - src[i]
            } else {
                after == before
            }
        }),
    decreases x1 - x0,
{
    if x0 < x1 {
        lemma_row_sum_counts_each_byte(src, w, h, row, x0, x1 - 1, c, x, y, v);
        lemma_index_inside(w, h, x, y);
        lemma_index_inside(w, h, x1 - 1, row);
        lemma_index_splits(w, x, y, c);
        lemma_index_splits(w, x1 - 1, row, c);
    }
}

/// A sum over nothing but zeroes is nothing.
pub proof fn law_box_sum_of_zeroes(
    src: Seq<u8>,
    w: int,
    h: int,
    x0: int,
    x1: int,
    y0: int,
    y1: int,
    c: int,
)
    requires
        src.len() == frame_len(w, h),
        forall|i: int| 0 <= i < src.len() ==> #[trigger] src[i] == 0,
        0 <= x0 <= x1 <= w,
        0 <= y0 <= y1 <= h,
        0 <= c < 4,
    ensures
        box_sum(src, w, x0, x1, y0, y1, c) == 0,
    decreases y1 - y0,
{
    if y0 < y1 {
        law_box_sum_of_zeroes(src, w, h, x0, x1, y0, y1 - 1, c);
        lemma_row_sum_of_zeroes(src, w, h, y1 - 1, x0, x1, c);
    }
}

/// A row of zeroes adds up to nothing.
proof fn lemma_row_sum_of_zeroes(
    src: Seq<u8>,
    w: int,
    h: int,
    row: int,
    x0: int,
    x1: int,
    c: int,
)
    requires
        src.len() == frame_len(w, h),
        forall|i: int| 0 <= i < src.len() ==> #[trigger] src[i] == 0,
        0 <= x0 <= x1 <= w,
        0 <= row < h,
        0 <= c < 4,
    ensures
        row_sum(src, w, row, x0, x1, c) == 0,
    decreases x1 - x0,
{
    if x0 < x1 {
        lemma_row_sum_of_zeroes(src, w, h, row, x0, x1 - 1, c);
        lemma_index_inside(w, h, x1 - 1, row);
    }
}

/// A pixel of a resized frame is the mean of all the source's pixels that it covers,
/// rounded down, channel by channel.
pub proof fn law_resized_pixel_is_a_mean(
    src: Seq<u8>,
    src_w: nat,
    src_h: nat,
    dst_w: nat,
    dst_h: nat,
    x: int,
    y: int,
    c: int,
)
    requires
        0 < src_w <= u32::MAX,
        0 < src_h <= u32::MAX,
        dst_w <= u32::MAX,
        dst_h <= u32::MAX,
        src_w != dst_w || src_h != dst_h,
        0 <= x < dst_w,
        0 <= y < dst_h,
        0 <= c < 4,
    ensures
        ({
            let (x0, x1) = footprint(x as nat, src_w, dst_w);
            let (y0, y1) = footprint(y as nat, src_h, dst_h);
            let n = (x1 - x0) * (y1 - y0);
            let sum = box_sum(
                src,
                src_w as int,
                x0 as int,
                x1 as int,
                y0 as int,
                y1 as int,
                c,
            );
            let frame = resized(src, src_w, src_h, dst_w, dst_h);
            let mean = frame[index_of(dst_w as int, x, y, c)] as int;
            &&& frame.len() == frame_len(dst_w as int, dst_h as int)
            &&& n >= 1
            &&& mean * n <= sum < (mean + 1) * n
        }),
{
    let (x0, x1) = footprint(x as nat, src_w, dst_w);
    let (y0, y1) = footprint(y as nat, src_h, dst_h);
    let n = (x1 - x0) * (y1 - y0);
    lemma_index_inside(dst_w as int, dst_h as int, x, y);
    lemma_index_splits(dst_w as int, x, y, c);
    law_footprint_is_inside(x as nat, src_w, dst_w);
    law_footprint_is_inside(y as nat, src_h, dst_h);
    law_box_mean_is_a_byte(
        src,
        src_w as int,
        x0 as int,
        x1 as int,
        y0 as int,
        y1 as int,
        c,
    );
    let sum = box_sum(src, src_w as int, x0 as int, x1 as int, y0 as int, y1 as int, c) as int;
    assert(n >= 1) by (nonlinear_arith)
        requires
            n == (x1 - x0) * (y1 - y0),
            x1 - x0 >= 1,
            y1 - y0 >= 1,
    ;
    vstd::arithmetic::div_mod::lemma_fundamental_div_mod(sum, n);
    let q = sum / n;
    assert(n * q == q * n) by (nonlinear_arith);
    assert((q + 1) * n == q * n + n) by (nonlinear_arith);
}

/// A position covers what lies between its own share of the source and the next: it
/// begins at the exact quotient rounded down, and ends at the exact quotient of the next
/// position rounded up. Only where a quotient is a whole number may it begin one before
/// or end one after, and it never leaves the source.
pub proof fn law_footprint_is_the_exact_share(i: nat, src: nat, dst: nat)
    requires
        0 < src <= u32::MAX,
        0 < dst <= u32::MAX,
        i < dst,
        (i + 1) * src < 0x4_0000_0000_0000,
    ensures
        ({
            let (lo, hi) = footprint(i, src, dst);
            let first = (i * src) / dst;
            let last = ((i + 1) * src) / dst;
            &&& (i * src) % dst != 0 ==> lo == first
            &&& (i * src) % dst == 0 ==> first <= lo + 1 && lo <= first
            &&& ((i + 1) * src) % dst != 0 ==> hi == last + 1
            &&& ((i + 1) * src) % dst == 0 ==> last <= hi <= last + 1
            &&& hi <= src
        }),
{
    assert(i * src <= (i + 1) * src) by (nonlinear_arith);
    let (lo, hi) = footprint(i, src, dst);
    let (m, n) = (i * src, (i + 1) * src);
    law_footprint_is_inside(i, src, dst);
    vstd::arithmetic::div_mod::lemma_fundamental_div_mod(m as int, dst as int);
    vstd::arithmetic::div_mod::lemma_fundamental_div_mod(n as int, dst as int);
    assert(n == m + src) by (nonlinear_arith)
        requires
            m == i * src,
            n == (i + 1) * src,
    ;
    let (first, last) = (m / dst, n / dst);
    assert(n <= src * dst) by (nonlinear_arith)
        requires
            n == (i + 1) * src,
            i + 1 <= dst,
    ;
    assert(last <= src) by (nonlinear_arith)
        requires
            dst * last <= n,
            n <= src * dst,
            dst > 0,
    ;
    assert(n % dst != 0 ==> last < src) by (nonlinear_arith)
        requires
            n == dst * last + n % dst,
            n <= src * dst,
            n % dst >= 0,
            dst > 0,
    ;
    assert(first <= last) by (nonlinear_arith)
        requires
            m == dst * first + m % dst,
            n == dst * last + n % dst,
            m <= n,
            0 <= m % dst,
            n % dst < dst,
            dst > 0,
    ;
    assert(n % dst == 0 ==> first < last) by (nonlinear_arith)
        requires
            m == dst * first + m % dst,
            n == dst * last + n % dst,
            m < n,
            0 <= m % dst,
            dst > 0,
    ;
    if m % dst != 0 {
        crate::scaling::law_scaled_matches_ratio(i, src, dst);
    } else {
        crate::scaling::law_scaled_near_whole_numbers(i, src, dst);
    }
    if n % dst != 0 {
        crate::scaling::law_scaled_matches_ratio(i + 1, src, dst);
    } else {
        crate::scaling::law_scaled_near_whole_numbers(i + 1, src, dst);
    }
}

/// Halving a frame takes the mean of every four pixels, rounded down, channel by channel.
pub proof fn law_halving_takes_the_mean_of_four(
    src: Seq<u8>,
    w: nat,
    h: nat,
    x: int,
    y: int,
    c: int,
)
    requires
        0 < w,
        0 < h,
        2 * w <= u32::MAX,
        2 * h <= u32::MAX,
        0 <= x < w,
        0 <= y < h,
        0 <= c < 4,
    ensures
        resized(src, 2 * w, 2 * h, w, h)[index_of(w as int, x, y, c)] == (src[index_of(
            2 * w as int,
            2 * x,
            2 * y,
            c,
        )] + src[index_of(2 * w as int, 2 * x + 1, 2 * y, c)] + src[index_of(
            2 * w as int,
            2 * x,
            2 * y + 1,
            c,
        )] + src[index_of(2 * w as int, 2 * x + 1, 2 * y + 1, c)]) / 4,
{
    lemma_fundamental_div_mod_converse(2 * w as int, w as int, 2, 0);
    lemma_fundamental_div_mod_converse(2 * h as int, h as int, 2, 0);
    law_footprint_of_whole_factor(x as nat, 2 * w, w);
    law_footprint_of_whole_factor(y as nat, 2 * h, h);
    lemma_index_inside(w as int, h as int, x, y);
    lemma_index_splits(w as int, x, y, c);
    let (u, v, s) = (2 * x, 2 * y, 2 * w as int);
    assert(row_sum(src, s, v, u, u, c) == 0);
    assert(row_sum(src, s, v, u, u + 1, c) == src[index_of(s, u, v, c)]);
    assert(row_sum(src, s, v, u, u + 2, c) == src[index_of(s, u, v, c)] + src[index_of(
        s,
        u + 1,
        v,
        c,
    )]);
    assert(row_sum(src, s, v + 1, u, u, c) == 0);
    assert(row_sum(src, s, v + 1, u, u + 1, c) == src[index_of(s, u, v + 1, c)]);
    assert(row_sum(src, s, v + 1, u, u + 2, c) == src[index_of(s, u, v + 1, c)] + src[index_of(
        s,
        u + 1,
        v + 1,
        c,
    )]);
    assert(box_sum(src, s, u, u + 2, v, v, c) == 0);
    assert(box_sum(src, s, u, u + 2, v, v + 1, c) == row_sum(src, s, v, u, u + 2, c));
    let sum = box_sum(src, s, u, u + 2, v, v + 2, c) as int;
    let n = ((u + 2 - u) * (v + 2 - v)) as nat;
    assert(n == 4) by (nonlinear_arith)
        requires
            n == (u + 2 - u) * (v + 2 - v),
    ;
    lemma_fundamental_div_mod_converse(sum, n as int, sum / 4, sum % 4);
}

/// The effective width is as wide as source and cap allow, but for one column that an
/// even number may cost. A source within the cap keeps its height, but for such a row.
pub proof fn law_effective_dims_are_as_large_as_allowed(src_w: nat, src_h: nat, max_packed_w: nat)
    ensures
        ({
            let (w, h) = effective_dims(src_w, src_h, max_packed_w);
            &&& w % 2 == 0 && h % 2 == 0
            &&& 2 * w <= max_packed_w && w <= src_w
            &&& src_w <= w + 1 || max_packed_w <= 2 * w + 3
            &&& 2 * src_w <= max_packed_w ==> h <= src_h <= h + 1 && src_w <= w + 1
        }),
{
}

/// A source that is too wide keeps its proportions: its height shrinks as its width
/// does, to the nearest row, but for one row that an even number may cost, and it keeps
/// two rows at the least.
pub proof fn law_effective_dims_keep_the_proportions(src_w: nat, src_h: nat, max_packed_w: nat)
    requires
        src_w <= u32::MAX,
        max_packed_w >= 2,
        2 * src_w > max_packed_w + 1,
        src_h * (max_packed_w / 2) < 0x4_0000_0000_0000,
        (2 * (src_h * (max_packed_w / 2)) + src_w) % (2 * src_w) != 0,
    ensures
        ({
            let cap = max_packed_w / 2;
            let (w, h) = effective_dims(src_w, src_h, max_packed_w);
            let nearest = (2 * (src_h * cap) + src_w) / (2 * src_w);
            &&& h >= 2
            &&& h > 2 ==> h <= nearest <= h + 1
            &&& nearest >= 2 ==> h <= nearest <= h + 1
        }),
{
    law_scaled_round_matches_ratio(src_h, max_packed_w / 2, src_w);
}

/// A buffer that was resized: with equal dimensions it is the source, and else each pixel is
/// the mean of all the source's pixels that it covers, rounded down, channel by channel.
pub proof fn law_resized_buffer(
    src: &[u8],
    src_w: u32,
    src_h: u32,
    dst: &mut [u8],
    dst_w: u32,
    dst_h: u32,
    x: int,
    y: int,
    c: int,
)
    requires
        call_ensures(box_resize_rgba, (src, src_w, src_h, dst, dst_w, dst_h), ()),
        0 < src_w,
        0 < src_h,
        0 <= x < dst_w,
        0 <= y < dst_h,
        0 <= c < 4,
    ensures
        src_w == dst_w && src_h == dst_h ==> final(dst)@ == src@,
        src_w != dst_w || src_h != dst_h ==> ({
            let (x0, x1) = footprint(x as nat, src_w as nat, dst_w as nat);
            let (y0, y1) = footprint(y as nat, src_h as nat, dst_h as nat);
            let n = (x1 - x0) * (y1 - y0);
            let sum = box_sum(
                src@,
                src_w as int,
                x0 as int,
                x1 as int,
                y0 as int,
                y1 as int,
                c,
            );
            let mean = final(dst)@[index_of(dst_w as int, x, y, c)] as int;
            mean * n <= sum < (mean + 1) * n
        }),
{
    if src_w != dst_w || src_h != dst_h {
        law_resized_pixel_is_a_mean(
            src@,
            src_w as nat,
            src_h as nat,
            dst_w as nat,
            dst_h as nat,
            x,
            y,
            c,
        );
    }
}

/// A buffer that was halved holds the mean of every four pixels.
pub proof fn law_halved_buffer(
    src: &[u8],
    dst: &mut [u8],
    w: u32,
    h: u32,
    x: int,
    y: int,
    c: int,
)
    requires
        2 * w <= u32::MAX,
        2 * h <= u32::MAX,
        call_ensures(box_resize_rgba, (src, (2 * w) as u32, (2 * h) as u32, dst, w, h), ()),
        0 <= x < w,
        0 <= y < h,
        0 <= c < 4,
    ensures
        final(dst)@[index_of(w as int, x, y, c)] == (src@[index_of(2 * w, 2 * x, 2 * y, c)]
            + src@[index_of(2 * w, 2 * x + 1, 2 * y, c)] + src@[index_of(
            2 * w,
            2 * x,
            2 * y + 1,
            c,
        )] + src@[index_of(2 * w, 2 * x + 1, 2 * y + 1, c)]) / 4,
{
    law_halving_takes_the_mean_of_four(src@, w as nat, h as nat, x, y, c);
}

/// Effective dimensions are even, and twice the width is within the cap. A source within the
/// cap loses a column and a row at most, and one beyond it is as wide as the cap allows.
pub proof fn law_computed_dims(src_w: u32, src_h: u32, max_packed_w: u32, res: (u32, u32))
    requires
        call_ensures(compute_effective_dims, (src_w, src_h, max_packed_w), res),
    ensures
        res.0 % 2 == 0,
        res.1 % 2 == 0,
        2 * res.0 <= max_packed_w,
        res.0 <= src_w,
        2 * src_w <= max_packed_w ==> src_w <= res.0 + 1 && res.1 <= src_h <= res.1 + 1,
        2 * src_w > max_packed_w ==> max_packed_w <= 2 * res.0 + 3,
        src_h >= 2 ==> res.1 <= src_h,
{
    law_effective_dims_are_as_large_as_allowed(
        src_w as nat,
        src_h as nat,
        max_packed_w as nat,
    );
    if src_w > max_packed_w / 2 {
        law_scaled_round_shrinks(src_h as nat, (max_packed_w / 2) as nat, src_w as nat);
    }
}

/// The even part of a number is even, and the number or one less.
pub proof fn law_even_parts(n: u32, res: u32)
    requires
        call_ensures(even_part, (n,), res),
    ensures
        res % 2 == 0,
        res <= n <= res + 1,
{
}

} // verus!
