//! Conversion of a sender's texture to NV12 on the GPU: formats, plane sizes and
//! the ring of output textures.

use vstd::prelude::*;

use crate::text::{decimal, push_decimal};

verus! {

/// How many NV12 textures are cycled through. An encoder may hold several input
/// textures; a texture comes up again only after all the others.
pub const RING: usize = 4;

/// The formats of the texture that a source is copied to, and of the view that it
/// is sampled through: the typeless one of the source's family, which may be
/// copied to, and one that hands out the values as they are stored. A format of
/// no known family is taken for RGBA of eight bits.
pub open spec fn copy_formats(source: u32) -> (u32, u32) {
    if source == 87 || source == 91 || source == 90 {
        (90, 87)
    } else if source == 24 || source == 23 {
        (23, 24)
    } else if source == 10 || source == 9 {
        (9, 10)
    } else if source == 11 {
        (9, 11)
    } else if source == 2 || source == 1 {
        (1, 2)
    } else {
        (27, 28)
    }
}

/// The formats of the texture that a source is copied to, and of the view that it
/// is sampled through.
pub fn snapshot_formats(source: u32) -> (res: (u32, u32))
    ensures
        res == copy_formats(source),
{
    match source {
        // B8G8R8A8: UNORM, UNORM_SRGB, TYPELESS
        87 | 91 | 90 => (90, 87),
        // R10G10B10A2: UNORM, TYPELESS
        24 | 23 => (23, 24),
        // R16G16B16A16: FLOAT, TYPELESS
        10 | 9 => (9, 10),
        // R16G16B16A16: UNORM
        11 => (9, 11),
        // R32G32B32A32: FLOAT, TYPELESS
        2 | 1 => (1, 2),
        // R8G8B8A8
        _ => (27, 28),
    }
}

/// What is reported of dimensions that NV12 cannot have.
pub open spec fn odd_dims(w: u32, h: u32) -> Seq<char> {
    "NV12 requires even dims, got "@ + decimal(w as nat) + "x"@ + decimal(h as nat)
}

/// The sizes of the two planes: all pixels, and a quarter of them. An error where
/// a dimension is odd.
pub fn plane_sizes(packed_w: u32, packed_h: u32) -> (res: Result<
    ((u32, u32), (u32, u32)),
    String,
>)
    ensures
        match res {
            Ok((luma, chroma)) => packed_w % 2 == 0 && packed_h % 2 == 0 && luma == (
                packed_w,
                packed_h,
            ) && 2 * chroma.0 == packed_w && 2 * chroma.1 == packed_h,
            Err(text) => (packed_w % 2 != 0 || packed_h % 2 != 0) && text@ == odd_dims(
                packed_w,
                packed_h,
            ),
        },
{
    if packed_w % 2 != 0 || packed_h % 2 != 0 {
        let mut s = "NV12 requires even dims, got ".to_string();
        push_decimal(&mut s, packed_w as u64);
        s.append("x");
        push_decimal(&mut s, packed_h as u64);
        return Err(s);
    }
    Ok(((packed_w, packed_h), (packed_w / 2, packed_h / 2)))
}

/// The place in the ring after `steps` steps from `start`.
pub open spec fn ring_slot(start: nat, steps: nat) -> nat {
    (start + steps) % RING as nat
}

/// The ring of output textures.
#[derive(Debug, Clone, Copy, PartialEq, Eq, Structural)]
pub struct Ring {
    pub index: usize,
}

impl Ring {
    /// Whether the place is one of the ring.
    pub open spec fn wf(&self) -> bool {
        self.index < RING
    }

    /// At the start.
    pub fn new() -> (res: Self)
        ensures
            res.wf(),
            res.index == 0,
    {
        Ring { index: 0 }
    }

    /// Moves on to the next texture.
    pub fn advance(&mut self) -> (res: usize)
        requires
            old(self).wf(),
        ensures
            final(self).wf(),
            final(self).index == ring_slot(old(self).index as nat, 1),
            res == final(self).index,
    {
        self.index = (self.index + 1) % RING;
        self.index
    }
}

/// The texture that is written now is none of the three written before it, so an
/// encoder may still be reading those.
pub proof fn law_recent_textures_are_left_alone(start: nat, now: nat, before: nat)
    requires
        before < now < before + RING,
    ensures
        ring_slot(start, now) != ring_slot(start, before),
        ring_slot(start, now) < RING,
{
    let (a, b) = (start + now, start + before);
    assert(a % 4 != b % 4);
}

/// Going on step by step is going all the way.
pub proof fn law_ring_steps_add_up(start: nat, a: nat, b: nat)
    ensures
        ring_slot(ring_slot(start, a), b) == ring_slot(start, a + b),
{
    assert(((start + a) % 4 + b) % 4 == (start + a + b) % 4);
}

/// A source of a concrete format is sampled in that format, but without a gamma curve
/// where it has one; it is copied to the typeless format of the same family, and so is a
/// typeless source. Nothing is copied to a concrete format or sampled through a typeless
/// one.
pub proof fn law_copy_formats(source: u32)
    ensures
        ({
            let (texture, view) = copy_formats(source);
            &&& source == 87 || source == 24 || source == 10 || source == 11 || source == 2 || source
                == 28 ==> view == source
            &&& source == 91 ==> view == 87
            &&& source == 29 ==> view == 28
            &&& source == 90 || source == 23 || source == 9 || source == 1 || source == 27 ==> texture
                == source
            &&& copy_formats(texture).0 == texture
            &&& copy_formats(view) == (texture, view)
        }),
{
}

/// The textures come up in turn, each after all the others.
pub proof fn law_ring_goes_round(start: nat, steps: nat)
    ensures
        ring_slot(start, 0) == start % 4,
        ring_slot(start, steps + 1) == (ring_slot(start, steps) + 1) % 4,
        ring_slot(start, steps + 4) == ring_slot(start, steps),
{
}

/// Even dimensions have a luma plane of their own size and a chroma plane of half of both; odd
/// ones have none.
pub proof fn law_planes(w: u32, h: u32, res: Result<((u32, u32), (u32, u32)), String>)
    requires
        call_ensures(plane_sizes, (w, h), res),
    ensures
        res is Ok <==> w % 2 == 0 && h % 2 == 0,
        res matches Ok((luma, chroma)) ==> luma == (w, h) && chroma.0 + chroma.0 == w && chroma.1
            + chroma.1 == h,
{
}

/// The ring moves on by one texture at a time, and begins anew after the fourth.
pub proof fn law_moving_on(ring: &mut Ring, res: usize)
    requires
        ring.wf(),
        call_ensures(Ring::advance, (ring,), res),
    ensures
        res == final(ring).index,
        old(ring).index < 3 ==> res == old(ring).index + 1,
        old(ring).index == 3 ==> res == 0,
{
}

/// A copy is viewed as its source is, without a colour curve, and is of a format that can be
/// viewed in several ways.
pub proof fn law_copying(source: u32, res: (u32, u32))
    requires
        call_ensures(snapshot_formats, (source,), res),
    ensures
        source == 87 || source == 91 ==> res == (90u32, 87u32),
        source == 28 || source == 29 ==> res == (27u32, 28u32),
        source == 24 || source == 10 || source == 11 || source == 2 ==> res.1 == source,
{
    law_copy_formats(source);
}

/// Dimensions that are refused are named.
pub proof fn law_refused_dimensions(w: u32, h: u32, res: Result<((u32, u32), (u32, u32)), String>)
    requires
        call_ensures(plane_sizes, (w, h), res),
        res is Err,
    ensures
        ({
            let named = decimal(w as nat) + "x"@ + decimal(h as nat);
            let text = res->Err_0@;
            text.len() > named.len() && text.skip(text.len() - named.len()) == named
        }),
{
    reveal_strlit("NV12 requires even dims, got ");
    let named = decimal(w as nat) + "x"@ + decimal(h as nat);
    let text = res->Err_0@;
    assert(text =~= "NV12 requires even dims, got "@ + named);
    assert(text.skip(text.len() - named.len()) =~= named);
}

} // verus!
