//! Conversion of RGBA frames to NV12, BT.601 in limited range.
//!
//! The weights are single-precision numbers, and so is every intermediate
//! result. Here all of them are whole multiples of one unit, small enough for
//! every product of a weight and a channel to be one, and what single precision
//! cannot hold is rounded away explicitly.

use vstd::prelude::*;

use crate::pixels::{frame_len, index_of, lemma_index_inside, lemma_row_split};
use crate::scaling::{grain, lemma_round_significant, round_half_even, round_significant};

verus! {

/// How many significands single precision has.
pub const SIGNIFICAND_24: u64 = 0x100_0000;

/// How many units make one step of a byte.
pub const UNITS: u64 = 0x2000_0000;

/// The weights, in units by a quarter of a channel's step.
pub const W_257: u64 = 34493956;

pub const W_504: u64 = 67645736;

pub const W_098: u64 = 13153337;

pub const W_148: u64 = 19864224;

pub const W_291: u64 = 39057360;

pub const W_439: u64 = 58921584;

pub const W_368: u64 = 49392124;

pub const W_071: u64 = 9529459;

/// `x` units as single precision holds them.
pub open spec fn single(x: int) -> int {
    if x < 0 {
        -(round_significant((-x) as nat, SIGNIFICAND_24 as nat) as int)
    } else {
        round_significant(x as nat, SIGNIFICAND_24 as nat) as int
    }
}

/// The byte of `x` units: rounded down, and brought into a byte's range.
pub open spec fn byte_of(x: int) -> u8 {
    if x < 0 {
        0
    } else if x >= 255 * UNITS {
        255
    } else {
        (x / UNITS as int) as u8
    }
}

/// The luma of a color, in units.
pub open spec fn luma_units(r: int, g: int, b: int) -> int {
    let rg = single(single(W_257 * (4 * r)) + single(W_504 * (4 * g)));
    let rgb = single(rg + single(W_098 * (4 * b)));
    single(rgb + 16 * UNITS)
}

/// The luma of a color.
pub open spec fn luma(r: u8, g: u8, b: u8) -> u8 {
    byte_of(luma_units(r as int, g as int, b as int))
}

/// The blue difference of four pixels whose channels add up to `r`, `g` and
/// `b`, in units.
pub open spec fn chroma_u_units(r: int, g: int, b: int) -> int {
    let rg = single(-single(W_148 * r) - single(W_291 * g));
    let rgb = single(rg + single(W_439 * b));
    single(rgb + 128 * UNITS)
}

/// The blue difference of four pixels whose channels add up to `r`, `g` and `b`.
pub open spec fn chroma_u(r: int, g: int, b: int) -> u8 {
    byte_of(chroma_u_units(r, g, b))
}

/// The red difference of four pixels whose channels add up to `r`, `g` and `b`,
/// in units.
pub open spec fn chroma_v_units(r: int, g: int, b: int) -> int {
    let rg = single(single(W_439 * r) - single(W_368 * g));
    let rgb = single(rg - single(W_071 * b));
    single(rgb + 128 * UNITS)
}

/// The red difference of four pixels whose channels add up to `r`, `g` and `b`.
pub open spec fn chroma_v(r: int, g: int, b: int) -> u8 {
    byte_of(chroma_v_units(r, g, b))
}

/// The sum of channel `c` over the two by two pixels at (`2x`, `2y`).
pub open spec fn quad_sum(rgba: Seq<u8>, w: int, x: int, y: int, c: int) -> int {
    rgba[index_of(w, 2 * x, 2 * y, c)] + rgba[index_of(w, 2 * x + 1, 2 * y, c)] + rgba[index_of(
        w,
        2 * x,
        2 * y + 1,
        c,
    )] + rgba[index_of(w, 2 * x + 1, 2 * y + 1, c)]
}

/// Byte `i` of an NV12 frame: first the luma of every pixel, then blue and red
/// difference of every two by two pixels in turn. Where a dimension is odd,
/// bytes are left over; these are as `before` has them.
pub open spec fn nv12_byte(rgba: Seq<u8>, w: int, h: int, before: Seq<u8>, i: int) -> u8 {
    if i < w * h {
        luma(rgba[4 * i], rgba[4 * i + 1], rgba[4 * i + 2])
    } else {
        let n = (i - w * h) / 2;
        if n < (w / 2) * (h / 2) {
            let (x, y) = (n % (w / 2), n / (w / 2));
            let (r, g, b) = (
                quad_sum(rgba, w, x, y, 0),
                quad_sum(rgba, w, x, y, 1),
                quad_sum(rgba, w, x, y, 2),
            );
            if (i - w * h) % 2 == 0 {
                chroma_u(r, g, b)
            } else {
                chroma_v(r, g, b)
            }
        } else {
            before[i]
        }
    }
}

/// What single precision rounds away is at most 8192 units of the results here.
proof fn lemma_single(x: int)
    requires
        -0x20_0000_0000 <= x <= 0x20_0000_0000,
    ensures
        -8192 <= single(x) - x <= 8192,
        x >= 0 ==> single(x) >= 0,
{
    if x < 0 {
        lemma_round_significant((-x) as nat, SIGNIFICAND_24 as nat);
    } else {
        lemma_round_significant(x as nat, SIGNIFICAND_24 as nat);
    }
}

/// A luma stays close to the weighted sum that it stands for.
proof fn lemma_luma_units(r: int, g: int, b: int)
    requires
        0 <= r <= 255,
        0 <= g <= 255,
        0 <= b <= 255,
    ensures
        ({
            let exact = (257 * r + 504 * g + 98 * b + 16000) * UNITS;
            let s = luma_units(r, g, b);
            -0x2000_0000 < 1000 * s - exact < 0x2000_0000
        }),
        0 <= luma_units(r, g, b) < 255 * UNITS,
{
    let (pr, pg, pb) = (W_257 * (4 * r), W_504 * (4 * g), W_098 * (4 * b));
    lemma_single(pr);
    lemma_single(pg);
    lemma_single(pb);
    let rg = single(pr) + single(pg);
    lemma_single(rg);
    let rgb = single(rg) + single(pb);
    lemma_single(rgb);
    lemma_single(single(rgb) + 16 * UNITS);
}

/// The luma of a color is its exact weighted sum, 0.257 of red, 0.504 of green
/// and 0.098 of blue and sixteen, rounded down. Single precision shows only
/// where that sum is a whole number: there the luma may be one less.
pub proof fn law_luma_is_the_weighted_sum(r: u8, g: u8, b: u8)
    ensures
        ({
            let n = 257 * r + 504 * g + 98 * b + 16000;
            &&& luma(r, g, b) == n / 1000 || luma(r, g, b) == n / 1000 - 1
            &&& n % 1000 != 0 ==> luma(r, g, b) == n / 1000
        }),
{
    lemma_luma_units(r as int, g as int, b as int);
    let n = 257 * r + 504 * g + 98 * b + 16000;
    let s = luma_units(r as int, g as int, b as int);
    let q = n / 1000;
    assert(n == 1000 * q + n % 1000);
    assert(1000 * s < (n + 1) * UNITS);
    assert(1000 * s > (n - 1) * UNITS);
    assert(s < (q + 1) * UNITS);
    assert(s >= (q - 1) * UNITS);
    if n % 1000 != 0 {
        assert(s >= q * UNITS);
    }
}

/// A difference stays close to the weighted sum that it stands for.
proof fn lemma_chroma_units(r: int, g: int, b: int)
    requires
        0 <= r <= 1020,
        0 <= g <= 1020,
        0 <= b <= 1020,
    ensures
        ({
            let exact = (-148 * r - 291 * g + 439 * b + 512000) * UNITS;
            let s = chroma_u_units(r, g, b);
            &&& -0x2000_0000 < 4000 * s - exact < 0x2000_0000
            &&& 0 <= s < 255 * UNITS
        }),
        ({
            let exact = (439 * r - 368 * g - 71 * b + 512000) * UNITS;
            let s = chroma_v_units(r, g, b);
            &&& -0x2000_0000 < 4000 * s - exact < 0x2000_0000
            &&& 0 <= s < 255 * UNITS
        }),
{
    lemma_single(W_148 * r);
    lemma_single(W_291 * g);
    lemma_single(W_439 * b);
    let u1 = -single(W_148 * r) - single(W_291 * g);
    lemma_single(u1);
    let u2 = single(u1) + single(W_439 * b);
    lemma_single(u2);
    lemma_single(single(u2) + 128 * UNITS);
    lemma_single(W_439 * r);
    lemma_single(W_368 * g);
    lemma_single(W_071 * b);
    let v1 = single(W_439 * r) - single(W_368 * g);
    lemma_single(v1);
    let v2 = single(v1) - single(W_071 * b);
    lemma_single(v2);
    lemma_single(single(v2) + 128 * UNITS);
}

/// The differences of four pixels are their exact weighted sums and 128, rounded
/// down. Single precision shows only where such a sum is a whole number: there
/// the difference may be one less.
pub proof fn law_chroma_is_the_weighted_sum(r: int, g: int, b: int)
    requires
        0 <= r <= 1020,
        0 <= g <= 1020,
        0 <= b <= 1020,
    ensures
        ({
            let n = -148 * r - 291 * g + 439 * b + 512000;
            &&& chroma_u(r, g, b) == n / 4000 || chroma_u(r, g, b) == n / 4000 - 1
            &&& n % 4000 != 0 ==> chroma_u(r, g, b) == n / 4000
        }),
        ({
            let n = 439 * r - 368 * g - 71 * b + 512000;
            &&& chroma_v(r, g, b) == n / 4000 || chroma_v(r, g, b) == n / 4000 - 1
            &&& n % 4000 != 0 ==> chroma_v(r, g, b) == n / 4000
        }),
{
    lemma_chroma_units(r, g, b);
    let nu = -148 * r - 291 * g + 439 * b + 512000;
    let su = chroma_u_units(r, g, b);
    let qu = nu / 4000;
    assert(4000 * su < (nu + 1) * UNITS);
    assert(4000 * su > (nu - 1) * UNITS);
    assert(su < (qu + 1) * UNITS);
    assert(su >= (qu - 1) * UNITS);
    if nu % 4000 != 0 {
        assert(su >= qu * UNITS);
    }
    let nv = 439 * r - 368 * g - 71 * b + 512000;
    let sv = chroma_v_units(r, g, b);
    let qv = nv / 4000;
    assert(4000 * sv < (nv + 1) * UNITS);
    assert(4000 * sv > (nv - 1) * UNITS);
    assert(sv < (qv + 1) * UNITS);
    assert(sv >= (qv - 1) * UNITS);
    if nv % 4000 != 0 {
        assert(sv >= qv * UNITS);
    }
}

/// Whether a number is a power of two.
spec fn is_power_of_two(g: nat) -> bool
    decreases g,
{
    g == 1 || (g > 1 && g % 2 == 0 && is_power_of_two(g / 2))
}

/// A power of two that fits is the grain.
proof fn lemma_is_grain(x: nat, g: nat)
    requires
        is_power_of_two(g),
        x < SIGNIFICAND_24 * g,
        g > 1 ==> SIGNIFICAND_24 * g <= 2 * x,
    ensures
        grain(x, SIGNIFICAND_24 as nat) == g,
    decreases x,
{
    if g > 1 {
        lemma_is_grain(x / 2, g / 2);
    }
}

/// `x` rounded to a multiple of `g`, ties to even.
fn round_by(x: u64, g: u64) -> (res: u64)
    requires
        0 < g <= 0x4000,
        x <= 0x40_0000_0000,
    ensures
        res == round_half_even(x as nat, g as nat) * g,
{
    let q = x / g;
    let r = x % g;
    proof {
        vstd::arithmetic::div_mod::lemma_fundamental_div_mod(x as int, g as int);
        assert(q * g == g * q) by (nonlinear_arith);
        assert((q + 1) * g == q * g + g) by (nonlinear_arith);
    }
    if 2 * r > g || (2 * r == g && q % 2 == 1) {
        (q + 1) * g
    } else {
        q * g
    }
}

/// `x` units as single precision holds them.
fn round_single(x: u64) -> (res: u64)
    requires
        x <= 0x20_0000_0000,
    ensures
        res == round_significant(x as nat, SIGNIFICAND_24 as nat),
        res <= x + 8192,
{
    proof {
        reveal_with_fuel(is_power_of_two, 16);
        lemma_round_significant(x as nat, SIGNIFICAND_24 as nat);
    }
    let g: u64 = if x >= 0x20_0000_0000 {
        0x4000
    } else if x >= 0x10_0000_0000 {
        0x2000
    } else if x >= 0x8_0000_0000 {
        0x1000
    } else if x >= 0x4_0000_0000 {
        0x800
    } else if x >= 0x2_0000_0000 {
        0x400
    } else if x >= 0x1_0000_0000 {
        0x200
    } else if x >= 0x8000_0000 {
        0x100
    } else if x >= 0x4000_0000 {
        0x80
    } else if x >= 0x2000_0000 {
        0x40
    } else if x >= 0x1000_0000 {
        0x20
    } else if x >= 0x800_0000 {
        0x10
    } else if x >= 0x400_0000 {
        0x8
    } else if x >= 0x200_0000 {
        0x4
    } else if x >= 0x100_0000 {
        0x2
    } else {
        1
    };
    proof {
        lemma_is_grain(x as nat, g as nat);
    }
    round_by(x, g)
}

/// `x` units as single precision holds them.
fn round_signed(x: i64) -> (res: i64)
    requires
        -0x20_0000_0000 <= x <= 0x20_0000_0000,
    ensures
        res == single(x as int),
        -8192 <= res - x <= 8192,
{
    proof {
        lemma_single(x as int);
    }
    if x < 0 {
        -(round_single((-x) as u64) as i64)
    } else {
        round_single(x as u64) as i64
    }
}

/// The byte of `x` units.
fn to_byte(x: i64) -> (res: u8)
    ensures
        res == byte_of(x as int),
{
    if x < 0 {
        0
    } else if x >= 255 * UNITS as i64 {
        255
    } else {
        (x as u64 / UNITS) as u8
    }
}

/// The products of a weight and the first `n` multiples of `step`, as single
/// precision holds them.
fn products(weight: u64, step: u64, n: usize) -> (res: Vec<i64>)
    requires
        weight <= W_504,
        1 <= step <= 4,
        n <= 1021,
        step * (n - 1) <= 1020,
    ensures
        res@.len() == n,
        forall|i: int| 0 <= i < n ==> #[trigger] res@[i] == single(weight * (step * i)),
        forall|i: int|
            0 <= i < n ==> 0 <= #[trigger] res@[i] && weight * (step * i) - 8192 <= res@[i]
                <= weight * (step * i) + 8192,
{
    let mut out: Vec<i64> = Vec::new();
    let mut i: usize = 0;
    while i < n
        invariant
            i <= n,
            weight <= W_504,
            1 <= step <= 4,
            n <= 1021,
            step * (n - 1) <= 1020,
            out@.len() == i,
            forall|j: int| 0 <= j < i ==> #[trigger] out@[j] == single(weight * (step * j)),
            forall|j: int|
                0 <= j < i ==> 0 <= #[trigger] out@[j] && weight * (step * j) - 8192 <= out@[j]
                    <= weight * (step * j) + 8192,
        decreases n - i,
    {
        proof {
            assert(0 <= step * i <= step * (n - 1)) by (nonlinear_arith)
                requires
                    0 <= i <= n - 1,
                    1 <= step,
            ;
            assert(0 <= weight * (step * i) <= W_504 * 1020) by (nonlinear_arith)
                requires
                    0 <= step * i <= 1020,
                    0 <= weight <= W_504,
            ;
            lemma_single(weight * (step * i));
        }
        let p = weight * (step * i as u64);
        out.push(round_single(p) as i64);
        i += 1;
    }
    out
}

/// The products that a luma is made of.
struct LumaTables {
    r: Vec<i64>,
    g: Vec<i64>,
    b: Vec<i64>,
}

/// Whether a table holds the products of a weight and the first `n` multiples of
/// `step`.
spec fn is_table(t: Seq<i64>, weight: int, step: int, n: int) -> bool {
    &&& t.len() == n
    &&& forall|i: int| 0 <= i < n ==> #[trigger] t[i] == single(weight * (step * i))
    &&& forall|i: int|
        0 <= i < n ==> 0 <= #[trigger] t[i] && weight * (step * i) - 8192 <= t[i] <= weight * (step
            * i) + 8192
}

impl LumaTables {
    spec fn wf(&self) -> bool {
        &&& is_table(self.r@, W_257 as int, 4, 256)
        &&& is_table(self.g@, W_504 as int, 4, 256)
        &&& is_table(self.b@, W_098 as int, 4, 256)
    }

    fn new() -> (res: Self)
        ensures
            res.wf(),
    {
        LumaTables {
            r: products(W_257, 4, 256),
            g: products(W_504, 4, 256),
            b: products(W_098, 4, 256),
        }
    }

    /// The luma of a color.
    fn luma(&self, r: u8, g: u8, b: u8) -> (res: u8)
        requires
            self.wf(),
        ensures
            res == luma(r, g, b),
    {
        let pr = self.r[r as usize];
        let pg = self.g[g as usize];
        let pb = self.b[b as usize];
        let rg = round_signed(pr + pg);
        let rgb = round_signed(rg + pb);
        to_byte(round_signed(rgb + 16 * UNITS as i64))
    }
}

/// The products that differences are made of.
struct ChromaTables {
    ur: Vec<i64>,
    ug: Vec<i64>,
    ub: Vec<i64>,
    vr: Vec<i64>,
    vg: Vec<i64>,
    vb: Vec<i64>,
}

impl ChromaTables {
    spec fn wf(&self) -> bool {
        &&& is_table(self.ur@, W_148 as int, 1, 1021)
        &&& is_table(self.ug@, W_291 as int, 1, 1021)
        &&& is_table(self.ub@, W_439 as int, 1, 1021)
        &&& is_table(self.vr@, W_439 as int, 1, 1021)
        &&& is_table(self.vg@, W_368 as int, 1, 1021)
        &&& is_table(self.vb@, W_071 as int, 1, 1021)
    }

    fn new() -> (res: Self)
        ensures
            res.wf(),
    {
        ChromaTables {
            ur: products(W_148, 1, 1021),
            ug: products(W_291, 1, 1021),
            ub: products(W_439, 1, 1021),
            vr: products(W_439, 1, 1021),
            vg: products(W_368, 1, 1021),
            vb: products(W_071, 1, 1021),
        }
    }

    /// The blue difference of four pixels.
    fn u(&self, r: usize, g: usize, b: usize) -> (res: u8)
        requires
            self.wf(),
            r <= 1020,
            g <= 1020,
            b <= 1020,
        ensures
            res == chroma_u(r as int, g as int, b as int),
    {
        let pr = self.ur[r];
        let pg = self.ug[g];
        let pb = self.ub[b];
        let rg = round_signed(-pr - pg);
        let rgb = round_signed(rg + pb);
        to_byte(round_signed(rgb + 128 * UNITS as i64))
    }

    /// The red difference of four pixels.
    fn v(&self, r: usize, g: usize, b: usize) -> (res: u8)
        requires
            self.wf(),
            r <= 1020,
            g <= 1020,
            b <= 1020,
        ensures
            res == chroma_v(r as int, g as int, b as int),
    {
        let pr = self.vr[r];
        let pg = self.vg[g];
        let pb = self.vb[b];
        let rg = round_signed(pr - pg);
        let rgb = round_signed(rg - pb);
        to_byte(round_signed(rgb + 128 * UNITS as i64))
    }
}

/// The channels of two by two pixels lie inside the frame.
proof fn lemma_quad_inside(w: int, h: int, x: int, y: int)
    requires
        0 <= x < w / 2,
        0 <= y < h / 2,
    ensures
        0 <= (2 * y) * w + 2 * x,
        index_of(w, 2 * x, 2 * y, 3) < frame_len(w, h),
        index_of(w, 2 * x + 1, 2 * y, 3) < frame_len(w, h),
        index_of(w, 2 * x, 2 * y + 1, 3) < frame_len(w, h),
        index_of(w, 2 * x + 1, 2 * y + 1, 3) < frame_len(w, h),
        (2 * y + 1) * w == (2 * y) * w + w,
{
    lemma_index_inside(w, h, 2 * x, 2 * y);
    lemma_index_inside(w, h, 2 * x + 1, 2 * y);
    lemma_index_inside(w, h, 2 * x, 2 * y + 1);
    lemma_index_inside(w, h, 2 * x + 1, 2 * y + 1);
    assert((2 * y + 1) * w == (2 * y) * w + w) by (nonlinear_arith);
}

/// The pairs of differences fit behind the lumas.
proof fn lemma_pairs_fit(w: int, h: int)
    requires
        0 <= w,
        0 <= h,
    ensures
        0 <= (w / 2) * (h / 2),
        4 * ((w / 2) * (h / 2)) <= w * h,
        w * h + 2 * ((w / 2) * (h / 2)) <= w * h * 3 / 2,
{
    let (a, b) = (w / 2, h / 2);
    assert(0 <= a * b) by (nonlinear_arith)
        requires
            0 <= a,
            0 <= b,
    ;
    assert((2 * a) * (2 * b) <= w * h) by (nonlinear_arith)
        requires
            0 <= 2 * a <= w,
            0 <= 2 * b <= h,
    ;
    assert((2 * a) * (2 * b) == 4 * (a * b)) by (nonlinear_arith);
}

/// Writes the luma of every pixel.
fn write_luma(rgba: &[u8], pixels: usize, nv12: &mut [u8])
    requires
        rgba@.len() == 4 * pixels,
        pixels <= old(nv12)@.len(),
    ensures
        final(nv12)@.len() == old(nv12)@.len(),
        forall|i: int|
            0 <= i < pixels ==> #[trigger] final(nv12)@[i] == luma(
                rgba@[4 * i],
                rgba@[4 * i + 1],
                rgba@[4 * i + 2],
            ),
        forall|i: int|
            pixels <= i < final(nv12)@.len() ==> #[trigger] final(nv12)@[i] == old(nv12)@[i],
{
    let tables = LumaTables::new();
    let len: usize = rgba.len();
    let mut i: usize = 0;
    let mut at: usize = 0;
    while i < pixels
        invariant
            i <= pixels,
            at == 4 * i,
            len == rgba@.len(),
            rgba@.len() == 4 * pixels,
            pixels <= nv12@.len(),
            nv12@.len() == old(nv12)@.len(),
            tables.wf(),
            forall|j: int|
                0 <= j < i ==> #[trigger] nv12@[j] == luma(
                    rgba@[4 * j],
                    rgba@[4 * j + 1],
                    rgba@[4 * j + 2],
                ),
            forall|j: int| i <= j < nv12@.len() ==> #[trigger] nv12@[j] == old(nv12)@[j],
        decreases pixels - i,
    {
        nv12[i] = tables.luma(rgba[at], rgba[at + 1], rgba[at + 2]);
        at += 4;
        i += 1;
    }
}

/// Converts an RGBA frame to NV12. The buffer holds three bytes for every two
/// pixels.
pub fn rgba_to_nv12(rgba: &[u8], width: u32, height: u32, nv12: &mut [u8])
    requires
        rgba@.len() == frame_len(width as int, height as int),
        old(nv12)@.len() == width * height * 3 / 2,
    ensures
        final(nv12)@.len() == old(nv12)@.len(),
        forall|i: int|
            0 <= i < final(nv12)@.len() ==> #[trigger] final(nv12)@[i] == nv12_byte(
                rgba@,
                width as int,
                height as int,
                old(nv12)@,
                i,
            ),
{
    let ghost w = width as int;
    let ghost h = height as int;
    let ghost before = nv12@;
    let rgba_len: usize = rgba.len();
    let len: usize = nv12.len();
    proof {
        assert(0 <= w * h) by (nonlinear_arith)
            requires
                0 <= w,
                0 <= h,
        ;
        lemma_pairs_fit(w, h);
    }
    let pixels: usize = rgba_len / 4;
    write_luma(rgba, pixels, nv12);
    let tables = ChromaTables::new();
    let half_w: u32 = width / 2;
    let half_h: u32 = height / 2;
    let ghost pairs = (w / 2) * (h / 2);
    let mut y: u32 = 0;
    let mut at: usize = pixels;
    while y < half_h
        invariant
            y <= half_h,
            half_w == w / 2,
            half_h == h / 2,
            (w, h) == (width as int, height as int),
            rgba_len == rgba@.len(),
            len == nv12@.len(),
            len == before.len(),
            rgba@.len() == frame_len(w, h),
            pixels == w * h,
            pairs == (w / 2) * (h / 2),
            pixels + 2 * pairs <= len,
            4 * pairs <= w * h,
            tables.wf(),
            at == pixels + 2 * (y * half_w),
            forall|i: int|
                0 <= i < at ==> #[trigger] nv12@[i] == nv12_byte(rgba@, w, h, before, i),
            forall|i: int| at <= i < len ==> #[trigger] nv12@[i] == before[i],
        decreases half_h - y,
    {
        let mut x: u32 = 0;
        proof {
            crate::pixels::lemma_next_row(half_w as int, half_h as int, y as int);
        }
        while x < half_w
            invariant
                x <= half_w,
                y < half_h,
                half_w == w / 2,
                half_h == h / 2,
                (w, h) == (width as int, height as int),
                rgba_len == rgba@.len(),
                len == nv12@.len(),
                len == before.len(),
                rgba@.len() == frame_len(w, h),
                pixels == w * h,
                pairs == (w / 2) * (h / 2),
                pixels + 2 * pairs <= len,
                4 * pairs <= w * h,
                tables.wf(),
                at == pixels + 2 * (y * half_w + x),
                forall|i: int|
                    0 <= i < at ==> #[trigger] nv12@[i] == nv12_byte(rgba@, w, h, before, i),
                forall|i: int| at <= i < len ==> #[trigger] nv12@[i] == before[i],
            decreases half_w - x,
        {
            proof {
                lemma_quad_inside(w, h, x as int, y as int);
                lemma_row_split(half_w as int, half_h as int, y as int, x as int);
                assert(half_w * half_h == pairs);
                assert(0 <= (2 * y) * w) by (nonlinear_arith)
                    requires
                        0 <= y,
                        0 <= w,
                ;
            }
            let w_bytes: usize = width as usize * 4;
            let top: usize = (2 * y as usize * width as usize + 2 * x as usize) * 4;
            let bottom: usize = top + w_bytes;
            let r: usize = rgba[top] as usize + rgba[top + 4] as usize + rgba[bottom] as usize
                + rgba[bottom + 4] as usize;
            let g: usize = rgba[top + 1] as usize + rgba[top + 5] as usize + rgba[bottom
                + 1] as usize + rgba[bottom + 5] as usize;
            let b: usize = rgba[top + 2] as usize + rgba[top + 6] as usize + rgba[bottom
                + 2] as usize + rgba[bottom + 6] as usize;
            proof {
                let n = y * half_w + x;
                assert((at - w * h) / 2 == n && (at + 1 - w * h) / 2 == n);
                assert(r == quad_sum(rgba@, w, x as int, y as int, 0));
                assert(g == quad_sum(rgba@, w, x as int, y as int, 1));
                assert(b == quad_sum(rgba@, w, x as int, y as int, 2));
            }
            nv12[at] = tables.u(r, g, b);
            nv12[at + 1] = tables.v(r, g, b);
            at += 2;
            x += 1;
        }
        y += 1;
    }
    proof {
        assert(half_h * half_w == pairs) by (nonlinear_arith)
            requires
                pairs == half_w * half_h,
        ;
        assert forall|i: int| 0 <= i < len implies #[trigger] nv12@[i] == nv12_byte(
            rgba@,
            w,
            h,
            before,
            i,
        ) by {}
    }
}

/// The first plane holds a luma for each pixel, row by row: the exact weighted sum of
/// the pixel's own red, green and blue, rounded down, or one less where the sum is a
/// whole number.
pub proof fn law_luma_plane(rgba: Seq<u8>, w: int, h: int, before: Seq<u8>, x: int, y: int)
    requires
        0 <= x < w,
        0 <= y < h,
    ensures
        ({
            let n = 257 * rgba[index_of(w, x, y, 0)] + 504 * rgba[index_of(w, x, y, 1)] + 98
                * rgba[index_of(w, x, y, 2)] + 16000;
            let luma = nv12_byte(rgba, w, h, before, y * w + x) as int;
            &&& luma == n / 1000 || (n % 1000 == 0 && luma == n / 1000 - 1)
        }),
{
    lemma_index_inside(w, h, x, y);
    let i = index_of(w, x, y, 0);
    law_luma_is_the_weighted_sum(rgba[i], rgba[i + 1], rgba[i + 2]);
}

/// The second plane holds blue and red difference in turn for each two by two pixels,
/// row by row: the exact weighted sums of the means of those four pixels, rounded down,
/// or one less where a sum is a whole number.
pub proof fn law_chroma_plane(rgba: Seq<u8>, w: int, h: int, before: Seq<u8>, x: int, y: int)
    requires
        0 <= x < w / 2,
        0 <= y < h / 2,
    ensures
        ({
            let sum = |c: int|
                rgba[index_of(w, 2 * x, 2 * y, c)] + rgba[index_of(w, 2 * x + 1, 2 * y, c)]
                    + rgba[index_of(w, 2 * x, 2 * y + 1, c)] + rgba[index_of(
                    w,
                    2 * x + 1,
                    2 * y + 1,
                    c,
                )];
            let at = w * h + 2 * (y * (w / 2) + x);
            let nu = -148 * sum(0) - 291 * sum(1) + 439 * sum(2) + 512000;
            let nv = 439 * sum(0) - 368 * sum(1) - 71 * sum(2) + 512000;
            let u = nv12_byte(rgba, w, h, before, at) as int;
            let v = nv12_byte(rgba, w, h, before, at + 1) as int;
            &&& u == nu / 4000 || (nu % 4000 == 0 && u == nu / 4000 - 1)
            &&& v == nv / 4000 || (nv % 4000 == 0 && v == nv / 4000 - 1)
        }),
{
    let n = y * (w / 2) + x;
    let at = w * h + 2 * n;
    lemma_row_split(w / 2, h / 2, y, x);
    assert((w / 2) * (h / 2) >= 0) by (nonlinear_arith)
        requires
            w / 2 >= 0,
            h / 2 >= 0,
    ;
    assert((at - w * h) / 2 == n && (at + 1 - w * h) / 2 == n);
    let (r, g, b) = (
        quad_sum(rgba, w, x, y, 0),
        quad_sum(rgba, w, x, y, 1),
        quad_sum(rgba, w, x, y, 2),
    );
    law_chroma_is_the_weighted_sum(r, g, b);
}

/// Where a dimension is odd, the bytes that no two by two pixels stand for stay as they
/// were.
pub proof fn law_leftover_bytes_stay(rgba: Seq<u8>, w: int, h: int, before: Seq<u8>, i: int)
    requires
        0 <= w,
        0 <= h,
        w * h + 2 * ((w / 2) * (h / 2)) <= i,
    ensures
        nv12_byte(rgba, w, h, before, i) == before[i],
{
    assert((w / 2) * (h / 2) >= 0) by (nonlinear_arith)
        requires
            w / 2 >= 0,
            h / 2 >= 0,
    ;
}

/// A frame that was converted: the luma of each pixel is its exact weighted sum, rounded
/// down, or one less where the sum is a whole number.
pub proof fn law_converted_luma(rgba: &[u8], w: u32, h: u32, nv12: &mut [u8], x: int, y: int)
    requires
        call_ensures(rgba_to_nv12, (rgba, w, h, nv12), ()),
        nv12@.len() == w * h * 3 / 2,
        0 <= x < w,
        0 <= y < h,
    ensures
        ({
            let at = index_of(w as int, x, y, 0);
            let n = 257 * rgba@[at] + 504 * rgba@[at + 1] + 98 * rgba@[at + 2] + 16000;
            let luma = final(nv12)@[y * w + x] as int;
            luma == n / 1000 || (n % 1000 == 0 && luma == n / 1000 - 1)
        }),
{
    lemma_index_inside(w as int, h as int, x, y);
    law_luma_plane(rgba@, w as int, h as int, nv12@, x, y);
}

/// A frame that was converted: the differences of each two by two pixels are their exact
/// weighted sums, rounded down, or one less where a sum is a whole number.
pub proof fn law_converted_chroma(rgba: &[u8], w: u32, h: u32, nv12: &mut [u8], x: int, y: int)
    requires
        call_ensures(rgba_to_nv12, (rgba, w, h, nv12), ()),
        nv12@.len() == w * h * 3 / 2,
        0 <= x < w as int / 2,
        0 <= y < h as int / 2,
    ensures
        ({
            let sum = |c: int|
                rgba@[index_of(w as int, 2 * x, 2 * y, c)] + rgba@[index_of(
                    w as int,
                    2 * x + 1,
                    2 * y,
                    c,
                )] + rgba@[index_of(w as int, 2 * x, 2 * y + 1, c)] + rgba@[index_of(
                    w as int,
                    2 * x + 1,
                    2 * y + 1,
                    c,
                )];
            let at = w * h + 2 * (y * (w as int / 2) + x);
            let nu = -148 * sum(0) - 291 * sum(1) + 439 * sum(2) + 512000;
            let nv = 439 * sum(0) - 368 * sum(1) - 71 * sum(2) + 512000;
            let (u, v) = (final(nv12)@[at] as int, final(nv12)@[at + 1] as int);
            &&& u == nu / 4000 || (nu % 4000 == 0 && u == nu / 4000 - 1)
            &&& v == nv / 4000 || (nv % 4000 == 0 && v == nv / 4000 - 1)
        }),
{
    let (ww, hh) = (w as int, h as int);
    law_chroma_plane(rgba@, ww, hh, nv12@, x, y);
    lemma_pairs_fit(ww, hh);
    lemma_row_split(ww / 2, hh / 2, y, x);
    assert(0 <= ww * hh) by (nonlinear_arith)
        requires
            0 <= ww,
            0 <= hh,
    ;
}

} // verus!
