//! Frame sources, and the Spout registry.
//!
//! Spout senders announce themselves in named shared memory: a list of names,
//! and for each name the handle, dimensions and format of a shared texture.

use vstd::prelude::*;

use crate::pixels::{frame_len, index_of, lemma_frame_is_rows, lemma_index_inside, lemma_next_row,
    lemma_row_split};
use crate::text::{hex, hex_encode, texts};

verus! {

/// The order of a captured pixel's channels.
#[derive(Debug, Clone, Copy, PartialEq, Eq, Structural)]
pub enum ColorOrder {
    Rgba,
    Bgra,
}

/// A buffer that a frame does not fit.
#[derive(Debug, Clone, Copy, PartialEq, Eq, Structural)]
pub struct GrabError {
    pub got: usize,
    pub need: usize,
}

/// A source that frames are pulled from.
pub trait FrameCapture: Send {
    /// Whether the source holds what a frame is made of.
    spec fn valid(&self) -> bool;

    /// Width and height of its frames.
    spec fn size(&self) -> (u32, u32);

    /// What the source is called.
    spec fn name(&self) -> Seq<char>;

    /// The frame that it shows, in RGBA.
    spec fn frame(&self) -> Seq<u8>;

    /// Width and height of the frames.
    fn dimensions(&self) -> (res: (u32, u32))
        ensures
            res == self.size(),
    ;

    /// What the source is called.
    fn source_name(&self) -> (res: &str)
        ensures
            res@ == self.name(),
    ;

    /// Whether the alpha of its pixels means anything.
    fn has_alpha(&self) -> bool;

    /// The order of a frame's channels as it is handed out.
    fn color_order(&self) -> ColorOrder;

    /// Copies the frame. The buffer must have the frame's size.
    fn grab_into(&mut self, out: &mut [u8]) -> (res: Result<(), GrabError>)
        requires
            old(self).valid(),
        ensures
            final(self).valid(),
            final(self).size() == old(self).size(),
            final(self).name() == old(self).name(),
            final(self).frame() == old(self).frame(),
            final(out)@.len() == old(out)@.len(),
            match res {
                Ok(_) => final(out)@ == old(self).frame(),
                Err(e) => old(out)@.len() != frame_len(
                    old(self).size().0 as int,
                    old(self).size().1 as int,
                ) && e.got == old(out)@.len() && e.need == frame_len(
                    old(self).size().0 as int,
                    old(self).size().1 as int,
                ) && final(out)@ == old(out)@,
            },
            old(self).frame().len() == frame_len(
                old(self).size().0 as int,
                old(self).size().1 as int,
            ),
    ;
}

/// A channel's place after red and blue were exchanged.
pub open spec fn exchanged(c: int) -> int {
    if c == 0 {
        2
    } else if c == 2 {
        0
    } else {
        c
    }
}

/// A frame of whole pixels with red and blue exchanged.
pub open spec fn red_blue_swapped(s: Seq<u8>) -> Seq<u8> {
    Seq::new(s.len(), |i: int| s[i - i % 4 + exchanged(i % 4)])
}

/// Exchanging red and blue twice changes nothing.
pub proof fn law_swap_undoes_itself(s: Seq<u8>)
    requires
        s.len() % 4 == 0,
    ensures
        red_blue_swapped(red_blue_swapped(s)) == s,
{
    let t = red_blue_swapped(s);
    assert forall|i: int| 0 <= i < s.len() implies red_blue_swapped(t)[i] == s[i] by {
        let j = i - i % 4 + exchanged(i % 4);
        assert(0 <= j < s.len());
        assert(j % 4 == exchanged(i % 4));
        assert(t[j] == s[j - j % 4 + exchanged(j % 4)]);
    }
    assert(red_blue_swapped(t) =~= s);
}

/// Exchanges red and blue of every pixel.
pub fn swap_red_blue(out: &mut [u8])
    requires
        old(out)@.len() % 4 == 0,
    ensures
        final(out)@ == red_blue_swapped(old(out)@),
{
    let len: usize = out.len();
    let mut i: usize = 0;
    while i < len
        invariant
            i <= len,
            i % 4 == 0,
            len % 4 == 0,
            len == out@.len(),
            len == old(out)@.len(),
            forall|j: int| 0 <= j < i ==> #[trigger] out@[j] == red_blue_swapped(old(out)@)[j],
            forall|j: int| i <= j < len ==> #[trigger] out@[j] == old(out)@[j],
        decreases len - i,
    {
        let ghost before = out@;
        let red = out[i];
        let blue = out[i + 2];
        out[i] = blue;
        out[i + 2] = red;
        proof {
            let all = red_blue_swapped(old(out)@);
            assert(before[i as int] == old(out)@[i as int] && before[i + 1] == old(out)@[i + 1]
                && before[i + 2] == old(out)@[i + 2] && before[i + 3] == old(out)@[i + 3]);
            assert(all[i as int] == old(out)@[i + 2] && all[i + 1] == old(out)@[i + 1] && all[i + 2]
                == old(out)@[i as int] && all[i + 3] == old(out)@[i + 3]);
            assert(out@ == before.update(i as int, blue).update(i + 2, red));
        }
        i += 4;
    }
    assert(out@ =~= red_blue_swapped(old(out)@));
}

/// A frame of opaque black pixels.
pub open spec fn opaque_black(len: nat) -> Seq<u8> {
    Seq::new(
        len,
        |i: int|
            if i % 4 == 3 {
                255u8
            } else {
                0
            },
    )
}

/// Fills a frame with opaque black pixels.
pub fn fill_opaque_black(out: &mut [u8])
    ensures
        final(out)@ == opaque_black(old(out)@.len()),
{
    let len: usize = out.len();
    let mut i: usize = 0;
    while i < len
        invariant
            i <= len,
            len == out@.len(),
            len == old(out)@.len(),
            forall|j: int| 0 <= j < i ==> #[trigger] out@[j] == opaque_black(len as nat)[j],
        decreases len - i,
    {
        out[i] = if i % 4 == 3 {
            255
        } else {
            0
        };
        i += 1;
    }
    assert(out@ =~= opaque_black(len as nat));
}

/// How many names the registry has room for.
pub const SENDER_SLOTS: usize = 10;

/// How many bytes a name takes, its terminator included.
pub const SENDER_NAME_LEN: usize = 256;

/// The name of the shared memory that lists the senders.
pub const SENDER_REGISTRY: &'static str = "SpoutSenderNames";

/// The offset of the first zero; the length if there is none.
pub open spec fn first_zero(s: Seq<u8>) -> nat
    decreases s.len(),
{
    if s.len() == 0 || s[0] == 0 {
        0
    } else {
        1 + first_zero(s.skip(1))
    }
}

/// The name in a slot of the registry: the bytes before the first zero. None if
/// there are no such bytes, no zero, or if they are not UTF-8.
pub open spec fn slot_name(slot: Seq<u8>) -> Option<Seq<char>> {
    let n = first_zero(slot) as int;
    if 0 < n < slot.len() && vstd::utf8::valid_utf8(slot.take(n)) {
        Some(vstd::utf8::decode_utf8(slot.take(n)))
    } else {
        None
    }
}

/// The names in the first `slots` slots.
pub open spec fn registered(bytes: Seq<u8>, slots: nat) -> Seq<Seq<char>>
    decreases slots,
{
    if slots == 0 {
        seq![]
    } else {
        let before = registered(bytes, (slots - 1) as nat);
        let from = (slots - 1) * SENDER_NAME_LEN;
        match slot_name(bytes.subrange(from, from + SENDER_NAME_LEN)) {
            Some(name) => before.push(name),
            None => before,
        }
    }
}

/// `std::str::from_utf8`, as an owned text. It succeeds exactly on UTF-8, and
/// the text is the one that the bytes encode.
#[verifier::external_body]
fn utf8_text(bytes: &[u8]) -> (res: Option<String>)
    ensures
        match res {
            Some(s) => vstd::utf8::valid_utf8(bytes@) && s@ == vstd::utf8::decode_utf8(bytes@),
            None => !vstd::utf8::valid_utf8(bytes@),
        },
{
    std::str::from_utf8(bytes).ok().map(str::to_owned)
}

/// Counting up to the first zero.
proof fn lemma_first_zero(s: Seq<u8>, n: int)
    requires
        0 <= n <= s.len(),
        forall|j: int| 0 <= j < n ==> #[trigger] s[j] != 0,
        n < s.len() ==> s[n] == 0,
    ensures
        first_zero(s) == n,
    decreases n,
{
    if n > 0 {
        assert(s[0] != 0);
        assert forall|j: int| 0 <= j < n - 1 implies #[trigger] s.skip(1)[j] != 0 by {
            assert(s.skip(1)[j] == s[j + 1]);
        }
        lemma_first_zero(s.skip(1), n - 1);
    }
}

/// The names of the senders, from the shared memory that lists them.
pub fn list_senders(bytes: &[u8]) -> (res: Vec<String>)
    requires
        bytes@.len() >= SENDER_SLOTS * SENDER_NAME_LEN,
    ensures
        texts(res@) == registered(bytes@, SENDER_SLOTS as nat),
{
    let len: usize = bytes.len();
    let mut out: Vec<String> = Vec::new();
    let mut slot: usize = 0;
    assert(texts(out@) =~= registered(bytes@, 0));
    while slot < SENDER_SLOTS
        invariant
            slot <= SENDER_SLOTS,
            len == bytes@.len(),
            bytes@.len() >= SENDER_SLOTS * SENDER_NAME_LEN,
            texts(out@) == registered(bytes@, slot as nat),
        decreases SENDER_SLOTS - slot,
    {
        let from: usize = slot * SENDER_NAME_LEN;
        let ghost whole = bytes@.subrange(from as int, from + SENDER_NAME_LEN);
        let mut name: Vec<u8> = Vec::new();
        let mut n: usize = 0;
        while n < SENDER_NAME_LEN && bytes[from + n] != 0
            invariant
                n <= SENDER_NAME_LEN,
                len == bytes@.len(),
                from + SENDER_NAME_LEN <= bytes@.len(),
                whole == bytes@.subrange(from as int, from + SENDER_NAME_LEN),
                name@ == whole.take(n as int),
                forall|j: int| 0 <= j < n ==> #[trigger] whole[j] != 0,
            decreases SENDER_NAME_LEN - n,
        {
            name.push(bytes[from + n]);
            assert(whole.take(n + 1) =~= whole.take(n as int).push(whole[n as int]));
            n += 1;
        }
        proof {
            lemma_first_zero(whole, n as int);
        }
        let ghost before = out@;
        if 0 < n && n < SENDER_NAME_LEN {
            if let Some(s) = utf8_text(name.as_slice()) {
                out.push(s);
                assert(texts(out@) =~= texts(before).push(s@));
            }
        }
        slot += 1;
    }
    out
}

/// A sender's texture.
#[derive(Debug)]
pub struct SenderInfo {
    pub name: String,
    pub width: u32,
    pub height: u32,
    /// The texture's DXGI format.
    pub format: u32,
    /// The texture's shared handle.
    pub share_handle: u32,
}

/// The content of a [`SenderInfo`].
#[verifier::ext_equal]
pub struct SenderView {
    pub name: Seq<char>,
    pub width: u32,
    pub height: u32,
    pub format: u32,
    pub share_handle: u32,
}

impl View for SenderInfo {
    type V = SenderView;

    open spec fn view(&self) -> SenderView {
        SenderView {
            name: self.name@,
            width: self.width,
            height: self.height,
            format: self.format,
            share_handle: self.share_handle,
        }
    }
}

impl Clone for SenderInfo {
    fn clone(&self) -> (res: Self)
        ensures
            res@ == self@,
    {
        SenderInfo {
            name: self.name.clone(),
            width: self.width,
            height: self.height,
            format: self.format,
            share_handle: self.share_handle,
        }
    }
}

/// How many bytes describe a sender's texture: five numbers, a description of
/// 256 bytes and another number.
pub const SENDER_INFO_LEN: usize = 280;

/// The little-endian number at `i`.
pub open spec fn number_at(s: Seq<u8>, i: int) -> int {
    s[i] + 0x100 * s[i + 1] + 0x1_0000 * s[i + 2] + 0x100_0000 * s[i + 3]
}

/// The little-endian number at `i`.
fn read_number(bytes: &[u8], i: usize) -> (res: u32)
    requires
        i + 4 <= bytes@.len(),
    ensures
        res == number_at(bytes@, i as int),
{
    bytes[i] as u32 + 0x100 * bytes[i + 1] as u32 + 0x1_0000 * bytes[i + 2] as u32 + 0x100_0000
        * bytes[i + 3] as u32
}

/// Reads what describes a sender's texture: handle, width, height and format
/// come first, in this order. None if bytes are missing.
pub fn read_sender_info(name: &str, bytes: &[u8]) -> (res: Option<SenderInfo>)
    ensures
        match res {
            Some(info) => bytes@.len() >= SENDER_INFO_LEN && info.name@ == name@
                && info.share_handle == number_at(bytes@, 0) && info.width == number_at(bytes@, 4)
                && info.height == number_at(bytes@, 8) && info.format == number_at(bytes@, 12),
            None => bytes@.len() < SENDER_INFO_LEN,
        },
{
    if bytes.len() < SENDER_INFO_LEN {
        return None;
    }
    Some(
        SenderInfo {
            name: name.to_string(),
            share_handle: read_number(bytes, 0),
            width: read_number(bytes, 4),
            height: read_number(bytes, 8),
            format: read_number(bytes, 12),
        },
    )
}

/// DXGI formats of eight bits a channel.
pub const FORMAT_UNKNOWN: u32 = 0;

pub const FORMAT_RGBA8_TYPELESS: u32 = 27;

pub const FORMAT_RGBA8_UNORM: u32 = 28;

pub const FORMAT_BGRA8_UNORM: u32 = 87;

pub const FORMAT_BGRA8_TYPELESS: u32 = 90;

pub const FORMAT_BGRA8_UNORM_SRGB: u32 = 91;

/// The format of a readable copy of a texture: typeless ones become concrete,
/// an unset one the usual one, all others stay.
pub open spec fn staging_format(format: u32) -> u32 {
    if format == FORMAT_BGRA8_TYPELESS || format == FORMAT_UNKNOWN {
        FORMAT_BGRA8_UNORM
    } else if format == FORMAT_RGBA8_TYPELESS {
        FORMAT_RGBA8_UNORM
    } else {
        format
    }
}

/// The format of a readable copy of a texture.
pub fn staging_safe_format(format: u32) -> (res: u32)
    ensures
        res == staging_format(format),
        staging_format(res) == res,
{
    if format == FORMAT_BGRA8_TYPELESS || format == FORMAT_UNKNOWN {
        FORMAT_BGRA8_UNORM
    } else if format == FORMAT_RGBA8_TYPELESS {
        FORMAT_RGBA8_UNORM
    } else {
        format
    }
}

/// The name of a DXGI format.
pub fn format_name(f: u32) -> (res: &'static str)
    ensures
        res@ == if f == 0 {
            "UNKNOWN"@
        } else if f == 10 {
            "R16G16B16A16_FLOAT"@
        } else if f == 24 {
            "R10G10B10A2_UNORM"@
        } else if f == 28 {
            "R8G8B8A8_UNORM"@
        } else if f == 29 {
            "R8G8B8A8_UNORM_SRGB"@
        } else if f == 87 {
            "B8G8R8A8_UNORM"@
        } else if f == 91 {
            "B8G8R8A8_UNORM_SRGB"@
        } else {
            "(other)"@
        },
{
    match f {
        0 => "UNKNOWN",
        10 => "R16G16B16A16_FLOAT",
        24 => "R10G10B10A2_UNORM",
        28 => "R8G8B8A8_UNORM",
        29 => "R8G8B8A8_UNORM_SRGB",
        87 => "B8G8R8A8_UNORM",
        91 => "B8G8R8A8_UNORM_SRGB",
        _ => "(other)",
    }
}

impl SenderInfo {
    /// Takes dimensions and format from the texture itself, which senders
    /// describe wrongly at times. Dimensions of nothing are not taken.
    pub fn resolve(&mut self, width: u32, height: u32, format: u32)
        ensures
            final(self)@ == (SenderView {
                name: old(self)@.name,
                width: if width != 0 && height != 0 {
                    width
                } else {
                    old(self)@.width
                },
                height: if width != 0 && height != 0 {
                    height
                } else {
                    old(self)@.height
                },
                format: staging_format(format),
                share_handle: old(self)@.share_handle,
            }),
    {
        if width != 0 && height != 0 {
            self.width = width;
            self.height = height;
        }
        self.format = staging_safe_format(format);
    }
}

/// What is reported when no adapter can open a sender's texture. `shared` says
/// whether a device that encoders can use was asked for.
pub open spec fn no_adapter(handle: u32, name: Seq<char>, shared: bool) -> Seq<char> {
    (if shared {
        "no shared-capable adapter could open handle 0x"@
    } else {
        "no adapter could open shared handle 0x"@
    }) + hex(
        seq![
            (handle / 0x100_0000) as u8,
            (handle / 0x1_0000 % 0x100) as u8,
            (handle / 0x100 % 0x100) as u8,
            (handle % 0x100) as u8,
        ],
    ) + " for sender '"@ + name + "'"@
}

/// What is reported when no adapter can open a sender's texture.
pub fn no_adapter_text(handle: u32, name: &str, shared: bool) -> (res: String)
    ensures
        res@ == no_adapter(handle, name@, shared),
{
    let mut s = if shared {
        "no shared-capable adapter could open handle 0x".to_string()
    } else {
        "no adapter could open shared handle 0x".to_string()
    };
    let bytes = [
        (handle / 0x100_0000) as u8,
        (handle / 0x1_0000 % 0x100) as u8,
        (handle / 0x100 % 0x100) as u8,
        (handle % 0x100) as u8,
    ];
    assert(bytes@ =~= seq![
        (handle / 0x100_0000) as u8,
        (handle / 0x1_0000 % 0x100) as u8,
        (handle / 0x100 % 0x100) as u8,
        (handle % 0x100) as u8,
    ]);
    let digits = hex_encode(&bytes);
    s.append(digits.as_str());
    s.append(" for sender '");
    s.append(name);
    s.append("'");
    s
}

/// The size that a buffer for a frame has.
pub fn frame_bytes(width: u32, height: u32) -> (res: usize)
    requires
        frame_len(width as int, height as int) <= usize::MAX,
    ensures
        res == frame_len(width as int, height as int),
{
    proof {
        assert(0 <= width * height) by (nonlinear_arith);
    }
    (width as u128 * height as u128 * 4) as usize
}

/// `rows` rows of `row` bytes out of a buffer in which they begin `pitch` bytes
/// apart.
pub open spec fn tight_rows(s: Seq<u8>, pitch: int, row: int, rows: int) -> Seq<u8> {
    Seq::new((row * rows) as nat, |i: int| s[(i / row) * pitch + i % row])
}

/// Copies `rows` rows of `row` bytes out of a buffer in which they begin `pitch`
/// bytes apart.
pub fn copy_rows(src: &Vec<u8>, pitch: usize, row: usize, rows: usize, out: &mut [u8])
    requires
        old(out)@.len() == row * rows,
        rows > 0 ==> (rows - 1) * pitch + row <= src@.len(),
    ensures
        final(out)@ == tight_rows(src@, pitch as int, row as int, rows as int),
{
    let out_len: usize = out.len();
    let src_len: usize = src.len();
    let mut y: usize = 0;
    let mut at: usize = 0;
    let mut from: usize = 0;
    while y < rows
        invariant
            y <= rows,
            out_len == out@.len(),
            src_len == src@.len(),
            out@.len() == row * rows,
            rows > 0 ==> (rows - 1) * pitch + row <= src@.len(),
            at == y * row,
            y < rows ==> from == y * pitch,
            forall|j: int|
                0 <= j < at ==> #[trigger] out@[j] == tight_rows(
                    src@,
                    pitch as int,
                    row as int,
                    rows as int,
                )[j],
        decreases rows - y,
    {
        proof {
            lemma_next_row(row as int, rows as int, y as int);
            assert(y * pitch <= (rows - 1) * pitch) by (nonlinear_arith)
                requires
                    y <= rows - 1,
                    0 <= pitch,
            ;
        }
        let mut k: usize = 0;
        while k < row
            invariant
                k <= row,
                y < rows,
                out_len == out@.len(),
                src_len == src@.len(),
                out@.len() == row * rows,
                at == y * row + k,
                at + (row - k) <= out_len,
                from == y * pitch,
                from + row <= src_len,
                forall|j: int|
                    0 <= j < at ==> #[trigger] out@[j] == tight_rows(
                        src@,
                        pitch as int,
                        row as int,
                        rows as int,
                    )[j],
            decreases row - k,
        {
            proof {
                lemma_row_split(row as int, rows as int, y as int, k as int);
            }
            out[at] = src[from + k];
            at += 1;
            k += 1;
        }
        proof {
            assert((y + 1) * pitch == y * pitch + pitch) by (nonlinear_arith);
            if y + 1 < rows {
                assert((y + 1) * pitch <= (rows - 1) * pitch) by (nonlinear_arith)
                    requires
                        y + 1 <= rows - 1,
                        0 <= pitch,
                ;
            }
        }
        if y + 1 < rows {
            from += pitch;
        }
        y += 1;
    }
    proof {
        assert(rows * row == row * rows) by (nonlinear_arith);
    }
    assert(out@ =~= tight_rows(src@, pitch as int, row as int, rows as int));
}

/// A Spout sender's texture, read back to main memory.
pub struct SpoutReceiver {
    pub info: SenderInfo,
    pub adapter_name: String,
    /// The texture's bytes, of which each row begins `pitch` after the one before.
    pub mapped: Vec<u8>,
    pub pitch: usize,
}

/// Whether blue comes first in a format.
pub open spec fn is_bgra(format: u32) -> bool {
    format == FORMAT_BGRA8_UNORM || format == FORMAT_BGRA8_UNORM_SRGB
}

impl SpoutReceiver {
    /// A texture that has not been read back yet.
    pub fn new(info: SenderInfo, adapter_name: String) -> (res: Self)
        ensures
            res.info == info,
            res.adapter_name == adapter_name,
            res.mapped@.len() == 0,
    {
        SpoutReceiver { info, adapter_name, mapped: Vec::new(), pitch: 0 }
    }

    /// Takes the bytes of the texture, of which each row begins `pitch` after the
    /// one before.
    pub fn read_back(&mut self, mapped: Vec<u8>, pitch: usize)
        ensures
            final(self).info == old(self).info,
            final(self).adapter_name == old(self).adapter_name,
            final(self).mapped == mapped,
            final(self).pitch == pitch,
    {
        self.mapped = mapped;
        self.pitch = pitch;
    }

    /// The sender's name.
    pub fn sender_name(&self) -> (res: &str)
        ensures
            res@ == self.info.name@,
    {
        self.info.name.as_str()
    }

    /// The texture's DXGI format.
    pub fn format(&self) -> (res: u32)
        ensures
            res == self.info.format,
    {
        self.info.format
    }

    /// The name of the adapter that has the texture.
    pub fn adapter_name(&self) -> (res: &str)
        ensures
            res@ == self.adapter_name@,
    {
        self.adapter_name.as_str()
    }

    /// The size that a buffer for a frame has.
    pub fn frame_bytes(&self) -> (res: usize)
        requires
            frame_len(self.info.width as int, self.info.height as int) <= usize::MAX,
        ensures
            res == frame_len(self.info.width as int, self.info.height as int),
    {
        frame_bytes(self.info.width, self.info.height)
    }

    /// The frame in a buffer of its own.
    pub fn grab(&mut self) -> (res: Vec<u8>)
        requires
            old(self).valid(),
        ensures
            *final(self) == *old(self),
            res@ == old(self).frame(),
    {
        let mut out: Vec<u8> = Vec::new();
        let len: usize = frame_bytes(self.info.width, self.info.height);
        out.resize(len, 0);
        let _ = self.grab_into(out.as_mut_slice());
        out
    }
}

impl FrameCapture for SpoutReceiver {
    open spec fn valid(&self) -> bool {
        &&& frame_len(self.info.width as int, self.info.height as int) <= usize::MAX
        &&& self.info.height > 0 ==> (self.info.height - 1) * self.pitch + 4 * self.info.width
            <= self.mapped@.len()
    }

    open spec fn size(&self) -> (u32, u32) {
        (self.info.width, self.info.height)
    }

    open spec fn name(&self) -> Seq<char> {
        self.info.name@
    }

    open spec fn frame(&self) -> Seq<u8> {
        let rows = tight_rows(
            self.mapped@,
            self.pitch as int,
            4 * self.info.width as int,
            self.info.height as int,
        );
        if is_bgra(self.info.format) {
            red_blue_swapped(rows)
        } else {
            rows
        }
    }

    fn dimensions(&self) -> (res: (u32, u32)) {
        (self.info.width, self.info.height)
    }

    fn source_name(&self) -> (res: &str) {
        self.info.name.as_str()
    }

    fn has_alpha(&self) -> (res: bool)
        ensures
            res,
    {
        true
    }

    fn color_order(&self) -> (res: ColorOrder)
        ensures
            res == ColorOrder::Rgba,
    {
        ColorOrder::Rgba
    }

    fn grab_into(&mut self, out: &mut [u8]) -> (res: Result<(), GrabError>)
        ensures
            *final(self) == *old(self),
    {
        let (w, h) = (self.info.width, self.info.height);
        let need = frame_bytes(w, h);
        let got: usize = out.len();
        proof {
            lemma_frame_is_rows(w as int, h as int);
        }
        if got != need {
            return Err(GrabError { got, need });
        }
        if h == 0 || w == 0 {
            proof {
                assert((4 * w) * h == 0) by (nonlinear_arith)
                    requires
                        h == 0 || w == 0,
                ;
                assert(out@ =~= self.frame());
            }
            return Ok(());
        }
        proof {
            assert(4 * w <= (4 * w) * h) by (nonlinear_arith)
                requires
                    h >= 1,
                    w >= 0,
            ;
            assert((4 * w) * h == 4 * (w * h)) by (nonlinear_arith);
        }
        copy_rows(&self.mapped, self.pitch, w as usize * 4, h as usize, out);
        if self.info.format == FORMAT_BGRA8_UNORM || self.info.format == FORMAT_BGRA8_UNORM_SRGB {
            swap_red_blue(out);
        }
        Ok(())
    }
}

/// Whether a code unit begins a surrogate pair.
pub open spec fn is_high_surrogate(unit: u16) -> bool {
    0xd800 <= unit <= 0xdbff
}

/// Whether a code unit ends a surrogate pair.
pub open spec fn is_low_surrogate(unit: u16) -> bool {
    0xdc00 <= unit <= 0xdfff
}

/// The text of UTF-16 code units, with U+FFFD for each surrogate that is not
/// part of a pair.
pub open spec fn utf16_text(units: Seq<u16>) -> Seq<char>
    decreases units.len(),
{
    if units.len() == 0 {
        seq![]
    } else if is_high_surrogate(units[0]) && units.len() > 1 && is_low_surrogate(units[1]) {
        seq![(0x10000 + (units[0] - 0xd800) * 0x400 + (units[1] - 0xdc00)) as char] + utf16_text(
            units.skip(2),
        )
    } else if is_high_surrogate(units[0]) || is_low_surrogate(units[0]) {
        seq!['\u{fffd}'] + utf16_text(units.skip(1))
    } else {
        seq![units[0] as char] + utf16_text(units.skip(1))
    }
}

/// `String::from_utf16_lossy`. The code units are decoded, and each one that is
/// not valid where it stands, an unpaired surrogate, becomes U+FFFD.
#[verifier::external_body]
fn utf16_lossy(units: &[u16]) -> (res: String)
    ensures
        res@ == utf16_text(units@),
{
    String::from_utf16_lossy(units)
}

/// The code units before the first zero; all if there is none.
pub open spec fn until_zero(units: Seq<u16>) -> Seq<u16>
    decreases units.len(),
{
    if units.len() == 0 || units[0] == 0 {
        seq![]
    } else {
        seq![units[0]] + until_zero(units.skip(1))
    }
}

/// The name that code units spell.
pub fn utf16_name(units: &[u16]) -> (res: String)
    ensures
        res@ == utf16_text(units@),
{
    utf16_lossy(units)
}

/// The name in an adapter's description.
pub fn adapter_name(description: &[u16]) -> (res: String)
    ensures
        res@ == utf16_text(until_zero(description@)),
{
    let len: usize = description.len();
    let mut name: Vec<u16> = Vec::new();
    let mut i: usize = 0;
    assert(description@.skip(0) =~= description@);
    assert(name@ + until_zero(description@) =~= until_zero(description@));
    while i < len && description[i] != 0
        invariant
            i <= len,
            len == description@.len(),
            name@ + until_zero(description@.skip(i as int)) == until_zero(description@),
        decreases len - i,
    {
        let ghost before = name@;
        let ghost rest = description@.skip(i as int);
        name.push(description[i]);
        proof {
            assert(rest.skip(1) =~= description@.skip(i + 1));
            assert(before + (seq![rest[0]] + until_zero(rest.skip(1))) =~= name@ + until_zero(
                rest.skip(1),
            ));
        }
        i += 1;
    }
    assert(name@ + seq![] =~= name@);
    utf16_name(name.as_slice())
}

/// Exchanging red and blue leaves green and alpha of each pixel where they are.
pub proof fn law_swapped_pixel(s: Seq<u8>, p: int)
    requires
        0 <= p,
        4 * p + 3 < s.len(),
    ensures
        red_blue_swapped(s).len() == s.len(),
        red_blue_swapped(s)[4 * p] == s[4 * p + 2],
        red_blue_swapped(s)[4 * p + 1] == s[4 * p + 1],
        red_blue_swapped(s)[4 * p + 2] == s[4 * p],
        red_blue_swapped(s)[4 * p + 3] == s[4 * p + 3],
{
    assert((4 * p) % 4 == 0 && (4 * p + 1) % 4 == 1 && (4 * p + 2) % 4 == 2 && (4 * p + 3) % 4 == 3);
}

/// Every pixel of an opaque black frame has no color and full alpha.
pub proof fn law_black_pixel(len: nat, p: int)
    requires
        0 <= p,
        4 * p + 3 < len,
    ensures
        opaque_black(len).len() == len,
        opaque_black(len).subrange(4 * p, 4 * p + 4) == seq![0u8, 0, 0, 255],
{
    assert((4 * p) % 4 == 0 && (4 * p + 1) % 4 == 1 && (4 * p + 2) % 4 == 2 && (4 * p + 3) % 4 == 3);
    assert(opaque_black(len).subrange(4 * p, 4 * p + 4) =~= seq![0u8, 0, 0, 255]);
}

/// Byte `k` of row `y` is the byte `k` after the beginning of row `y` in the buffer, and
/// the rows follow each other without a gap.
pub proof fn law_rows_are_tight(s: Seq<u8>, pitch: int, row: int, rows: int, y: int, k: int)
    requires
        0 <= y < rows,
        0 <= k < row,
    ensures
        tight_rows(s, pitch, row, rows).len() == row * rows,
        tight_rows(s, pitch, row, rows)[y * row + k] == s[y * pitch + k],
{
    lemma_row_split(row, rows, y, k);
}

/// A pixel of a receiver's frame is the texture's pixel at the same place, red first:
/// where the texture has blue first, the two are exchanged, and else nothing is.
pub proof fn law_received_pixel(receiver: SpoutReceiver, x: int, y: int)
    requires
        receiver.valid(),
        0 <= x < receiver.info.width,
        0 <= y < receiver.info.height,
    ensures
        ({
            let (w, h) = (receiver.info.width as int, receiver.info.height as int);
            let at = y * receiver.pitch + 4 * x;
            let blue_first = receiver.info.format == 87 || receiver.info.format == 91;
            let frame = receiver.frame();
            &&& frame.len() == frame_len(w, h)
            &&& frame[index_of(w, x, y, 0)] == receiver.mapped@[if blue_first {
                at + 2
            } else {
                at
            }]
            &&& frame[index_of(w, x, y, 1)] == receiver.mapped@[at + 1]
            &&& frame[index_of(w, x, y, 2)] == receiver.mapped@[if blue_first {
                at
            } else {
                at + 2
            }]
            &&& frame[index_of(w, x, y, 3)] == receiver.mapped@[at + 3]
        }),
{
    let (w, h) = (receiver.info.width as int, receiver.info.height as int);
    let rows = tight_rows(receiver.mapped@, receiver.pitch as int, 4 * w, h);
    let p = y * w + x;
    lemma_frame_is_rows(w, h);
    lemma_index_inside(w, h, x, y);
    assert(4 * p == y * (4 * w) + 4 * x) by (nonlinear_arith)
        requires
            p == y * w + x,
    ;
    law_rows_are_tight(receiver.mapped@, receiver.pitch as int, 4 * w, h, y, 4 * x);
    law_rows_are_tight(receiver.mapped@, receiver.pitch as int, 4 * w, h, y, 4 * x + 1);
    law_rows_are_tight(receiver.mapped@, receiver.pitch as int, 4 * w, h, y, 4 * x + 2);
    law_rows_are_tight(receiver.mapped@, receiver.pitch as int, 4 * w, h, y, 4 * x + 3);
    law_swapped_pixel(rows, p);
}

/// Numbers are stored lowest byte first: each of the four bytes can be read off the
/// number.
pub proof fn law_numbers_are_little_endian(s: Seq<u8>, i: int)
    ensures
        0 <= number_at(s, i) < 0x1_0000_0000,
        number_at(s, i) % 0x100 == s[i],
        number_at(s, i) / 0x100 % 0x100 == s[i + 1],
        number_at(s, i) / 0x1_0000 % 0x100 == s[i + 2],
        number_at(s, i) / 0x100_0000 == s[i + 3],
{
}

/// A slot that holds a name of at least one byte, in UTF-8 and ended by a zero, yields
/// that name, whatever follows the zero. No other slot yields one.
pub proof fn law_slots_hold_names(slot: Seq<u8>, n: int)
    requires
        0 <= n <= slot.len(),
        forall|j: int| 0 <= j < n ==> #[trigger] slot[j] != 0,
        n < slot.len() ==> slot[n] == 0,
    ensures
        slot_name(slot) == if 0 < n && n < slot.len() && vstd::utf8::valid_utf8(slot.take(n)) {
            Some(vstd::utf8::decode_utf8(slot.take(n)))
        } else {
            None
        },
{
    lemma_first_zero(slot, n);
}

/// The names of the senders are those of the slots, slot after slot, without the slots
/// that hold none. Each slot is 256 bytes long.
pub proof fn law_names_are_listed_slot_by_slot(bytes: Seq<u8>, slots: nat)
    ensures
        registered(bytes, slots) == Seq::new(
            slots,
            |k: int| slot_name(bytes.subrange(256 * k, 256 * k + 256)),
        ).filter(|name: Option<Seq<char>>| name is Some).map_values(
            |name: Option<Seq<char>>| name->0,
        ),
    decreases slots,
{
    reveal(Seq::filter);
    let named = |name: Option<Seq<char>>| name is Some;
    let text = |name: Option<Seq<char>>| name->0;
    let all = Seq::new(slots, |k: int| slot_name(bytes.subrange(256 * k, 256 * k + 256)));
    if slots == 0 {
        assert(all.filter(named).map_values(text) =~= registered(bytes, slots));
    } else {
        let before = (slots - 1) as nat;
        law_names_are_listed_slot_by_slot(bytes, before);
        let front = Seq::new(before, |k: int| slot_name(bytes.subrange(256 * k, 256 * k + 256)));
        assert(all.drop_last() =~= front);
        let rest = front.filter(named);
        if named(all.last()) {
            assert(all.filter(named) == rest.push(all.last()));
            assert(rest.push(all.last()).map_values(text) =~= rest.map_values(text).push(
                text(all.last()),
            ));
        }
    }
}

/// A description is read up to its first zero, and as a whole where it has none.
pub proof fn law_descriptions_end_at_zero(units: Seq<u16>)
    ensures
        ({
            let t = until_zero(units);
            &&& t.len() <= units.len()
            &&& t == units.take(t.len() as int)
            &&& forall|i: int| 0 <= i < t.len() ==> #[trigger] t[i] != 0
            &&& t.len() < units.len() ==> units[t.len() as int] == 0
        }),
    decreases units.len(),
{
    if units.len() > 0 && units[0] != 0 {
        let rest = units.skip(1);
        law_descriptions_end_at_zero(rest);
        let t = until_zero(rest);
        assert(until_zero(units) =~= units.take(t.len() as int + 1));
        assert forall|i: int| 0 <= i < t.len() + 1 implies #[trigger] until_zero(units)[i] != 0 by {
            if i > 0 {
                assert(until_zero(units)[i] == t[i - 1]);
            }
        }
    } else {
        assert(until_zero(units) =~= units.take(0));
    }
}

/// A readable copy has a concrete format of the texture's own family: eight bits a
/// channel with blue first stay so, and so do those with red first. All others stay.
pub proof fn law_readable_formats(format: u32)
    ensures
        staging_format(format) != 0,
        staging_format(format) != 27,
        staging_format(format) != 90,
        format == 90 ==> is_bgra(staging_format(format)),
        format == 27 ==> staging_format(format) == 28,
        format != 0 && format != 27 && format != 90 ==> staging_format(format) == format,
{
}

/// Code units that are no surrogates are the characters of their numbers, a pair of
/// surrogates is one character beyond them, and decoding goes on from there.
pub proof fn law_utf16(unit: u16, high: u16, low: u16, rest: Seq<u16>)
    requires
        unit < 0xd800 || unit > 0xdfff,
        0xd800 <= high < 0xdc00,
        0xdc00 <= low < 0xe000,
    ensures
        utf16_text(seq![]) == Seq::<char>::empty(),
        utf16_text(seq![unit] + rest) == seq![unit as char] + utf16_text(rest),
        utf16_text(seq![high, low] + rest) == seq![
            (0x10000 + (high - 0xd800) * 0x400 + (low - 0xdc00)) as char,
        ] + utf16_text(rest),
        utf16_text(seq![low] + rest) == seq!['\u{fffd}'] + utf16_text(rest),
{
    assert((seq![unit] + rest).skip(1) =~= rest);
    assert((seq![high, low] + rest).skip(2) =~= rest);
    assert((seq![low] + rest).skip(1) =~= rest);
}

/// The list of senders has ten places of 256 bytes, and a sender is described in 280.
pub proof fn law_registry_layout()
    ensures
        SENDER_SLOTS == 10,
        SENDER_NAME_LEN == 256,
        SENDER_INFO_LEN == 280,
{
}

/// What is reported where no adapter opens a texture names the sender and the handle, the
/// latter in eight hexadecimal digits.
pub proof fn law_unopened_textures_are_named(handle: u32, name: Seq<char>, shared: bool)
    ensures
        crate::text::occurs(no_adapter(handle, name, shared), name),
        exists|bytes: Seq<u8>|
            bytes.len() == 4 && 0x100_0000 * bytes[0] + 0x1_0000 * bytes[1] + 0x100 * bytes[2]
                + bytes[3] == handle && crate::text::occurs(
                no_adapter(handle, name, shared),
                "0x"@ + #[trigger] hex(bytes) + " for sender '"@ + name,
            ),
{
    let bytes = seq![
        (handle / 0x100_0000) as u8,
        (handle / 0x1_0000 % 0x100) as u8,
        (handle / 0x100 % 0x100) as u8,
        (handle % 0x100) as u8,
    ];
    let text = no_adapter(handle, name, shared);
    let start = if shared {
        "no shared-capable adapter could open handle 0x"@
    } else {
        "no adapter could open shared handle 0x"@
    };
    reveal_strlit("no shared-capable adapter could open handle 0x");
    reveal_strlit("no adapter could open shared handle 0x");
    reveal_strlit("0x");
    let n = start.len() - 2;
    let part = "0x"@ + hex(bytes) + " for sender '"@ + name;
    assert(start =~= start.take(n) + "0x"@);
    assert(text =~= start.take(n) + part + "'"@);
    crate::text::law_occurring(text, part, start.take(n), "'"@);
    let before = start + hex(bytes) + " for sender '"@;
    assert(text =~= before + name + "'"@);
    crate::text::law_occurring(text, name, before, "'"@);
    assert(hex(bytes) == hex(bytes));
}

/// What describes a sender is read from its bytes: handle, width, height and format, four bytes
/// each and lowest first, under the sender's own name. Too few bytes describe nothing.
pub proof fn law_reading_a_description(name: &str, bytes: &[u8], res: Option<SenderInfo>)
    requires
        call_ensures(read_sender_info, (name, bytes), res),
    ensures
        res is Some <==> bytes@.len() >= 280,
        res matches Some(info) ==> {
            let number = |i: int|
                bytes@[i] + 256 * (bytes@[i + 1] + 256 * (bytes@[i + 2] + 256 * bytes@[i + 3]));
            &&& info.name@ == name@
            &&& info.share_handle == number(0)
            &&& info.width == number(4)
            &&& info.height == number(8)
            &&& info.format == number(12)
        },
{
}

/// A texture's own dimensions and format are taken in place of what its sender says, but for
/// dimensions of nothing. Name and handle stay, and the format becomes one that can be read.
pub proof fn law_resolving(info: &mut SenderInfo, width: u32, height: u32, format: u32)
    requires
        call_ensures(SenderInfo::resolve, (info, width, height, format), ()),
    ensures
        width > 0 && height > 0 ==> final(info).width == width && final(info).height == height,
        width == 0 || height == 0 ==> final(info).width == old(info).width && final(info).height
            == old(info).height,
        final(info).name@ == old(info).name@,
        final(info).share_handle == old(info).share_handle,
        format != 0 && format != 27 && format != 90 ==> final(info).format == format,
        format == 90 || format == 0 ==> final(info).format == 87,
        format == 27 ==> final(info).format == 28,
{
    assert(final(info)@.name == old(info)@.name && final(info)@.width == final(info).width
        && final(info)@.height == final(info).height && final(info)@.format == final(info).format
        && final(info)@.share_handle == final(info).share_handle);
}

/// The senders that are listed are the names of the ten slots, in their order.
pub proof fn law_listing_senders(bytes: &[u8], res: Vec<String>)
    requires
        call_ensures(list_senders, (bytes,), res),
    ensures
        texts(res@) == Seq::new(
            10,
            |k: int| slot_name(bytes@.subrange(256 * k, 256 * k + 256)),
        ).filter(|name: Option<Seq<char>>| name is Some).map_values(
            |name: Option<Seq<char>>| name->0,
        ),
{
    law_names_are_listed_slot_by_slot(bytes@, 10);
}

/// What a receiver hands out is the texture that was read back last, red first, pixel for
/// pixel.
pub proof fn law_grabbing_a_texture(
    receiver: &mut SpoutReceiver,
    later: &mut SpoutReceiver,
    mapped: Vec<u8>,
    pitch: usize,
    res: Vec<u8>,
    x: int,
    y: int,
)
    requires
        call_ensures(SpoutReceiver::read_back, (receiver, mapped, pitch), ()),
        *later == *final(receiver),
        later.valid(),
        call_ensures(SpoutReceiver::grab, (later,), res),
        0 <= x < receiver.info.width,
        0 <= y < receiver.info.height,
    ensures
        ({
            let info = old(receiver).info;
            let (w, h) = (info.width as int, info.height as int);
            let (to, from) = (index_of(w, x, y, 0), y * pitch + 4 * x);
            let blue_first = info.format == 87 || info.format == 91;
            &&& res@.len() == frame_len(w, h)
            &&& blue_first ==> res@[to] == mapped@[from + 2] && res@[to + 2] == mapped@[from]
            &&& !blue_first ==> res@[to] == mapped@[from] && res@[to + 2] == mapped@[from + 2]
            &&& res@[to + 1] == mapped@[from + 1]
            &&& res@[to + 3] == mapped@[from + 3]
        }),
{
    law_received_pixel(*later, x, y);
}

/// A receiver goes by its sender's name, size and format, and by the name of its adapter.
pub proof fn law_new_receiver(
    info: SenderInfo,
    adapter: String,
    receiver: SpoutReceiver,
    size: (u32, u32),
    name: &str,
    sender: &str,
    on: &str,
    format: u32,
)
    requires
        call_ensures(SpoutReceiver::new, (info, adapter), receiver),
        call_ensures(<SpoutReceiver as FrameCapture>::dimensions, (&receiver,), size),
        call_ensures(<SpoutReceiver as FrameCapture>::source_name, (&receiver,), name),
        call_ensures(SpoutReceiver::sender_name, (&receiver,), sender),
        call_ensures(SpoutReceiver::adapter_name, (&receiver,), on),
        call_ensures(SpoutReceiver::format, (&receiver,), format),
    ensures
        size == (info.width, info.height),
        name@ == info.name@,
        sender@ == info.name@,
        on@ == adapter@,
        format == info.format,
{
}

/// Exchanging red and blue in a buffer leaves green and alpha where they are.
pub proof fn law_exchanging(out: &mut [u8], p: int)
    requires
        call_ensures(swap_red_blue, (out,), ()),
        0 <= p,
        4 * p + 3 < out@.len(),
    ensures
        final(out)@.len() == old(out)@.len(),
        final(out)@[4 * p] == old(out)@[4 * p + 2],
        final(out)@[4 * p + 1] == old(out)@[4 * p + 1],
        final(out)@[4 * p + 2] == old(out)@[4 * p],
        final(out)@[4 * p + 3] == old(out)@[4 * p + 3],
{
    law_swapped_pixel(out@, p);
}

/// A frame takes four bytes for each of its pixels.
pub proof fn law_frame_size(width: u32, height: u32, res: usize)
    requires
        call_ensures(frame_bytes, (width, height), res),
    ensures
        res == 4 * (width * height),
{
}

/// An adapter's name is what its description spells up to the first zero.
pub proof fn law_adapter_names(description: &[u16], n: int, res: String)
    requires
        call_ensures(adapter_name, (description,), res),
        0 <= n <= description@.len(),
        forall|i: int| 0 <= i < n ==> 0 < #[trigger] description@[i] < 0xd800,
        n < description@.len() ==> description@[n] == 0,
    ensures
        res@ == Seq::new(n as nat, |i: int| description@[i] as char),
{
    let units = description@;
    law_descriptions_end_at_zero(units);
    let t = until_zero(units);
    assert(t.len() == n) by {
        if t.len() < n {
            assert(units[t.len() as int] == 0);
        }
        if t.len() > n {
            assert(t[n] == units[n]);
        }
    }
    assert forall|i: int| 0 <= i < t.len() implies #[trigger] t[i] < 0xd800 by {
        assert(t[i] == units[i]);
    }
    lemma_plain_text(t);
    assert(res@ =~= Seq::new(n as nat, |i: int| units[i] as char));
}

/// Code units below the surrogates are their own characters.
proof fn lemma_plain_text(units: Seq<u16>)
    requires
        forall|i: int| 0 <= i < units.len() ==> #[trigger] units[i] < 0xd800,
    ensures
        utf16_text(units) == Seq::new(units.len(), |i: int| units[i] as char),
    decreases units.len(),
{
    if units.len() > 0 {
        let rest = units.skip(1);
        assert forall|i: int| 0 <= i < rest.len() implies #[trigger] rest[i] < 0xd800 by {
            assert(rest[i] == units[i + 1]);
        }
        lemma_plain_text(rest);
    }
    assert(utf16_text(units) =~= Seq::new(units.len(), |i: int| units[i] as char));
}

/// Black is black and opaque, all over.
pub proof fn law_blackening(out: &mut [u8], p: int)
    requires
        call_ensures(fill_opaque_black, (out,), ()),
        0 <= p,
        4 * p + 3 < out@.len(),
    ensures
        final(out)@.len() == old(out)@.len(),
        final(out)@.subrange(4 * p, 4 * p + 4) == seq![0u8, 0, 0, 255],
{
    law_black_pixel(old(out)@.len(), p);
}

/// Rows are copied one after the other, without what lies between them.
pub proof fn law_copying_rows(
    src: Vec<u8>,
    pitch: usize,
    row: usize,
    rows: usize,
    out: &mut [u8],
    y: int,
    k: int,
)
    requires
        call_ensures(copy_rows, (&src, pitch, row, rows, out), ()),
        0 <= y < rows,
        0 <= k < row,
    ensures
        final(out)@.len() == row * rows,
        final(out)@[y * row + k] == src@[y * pitch + k],
{
    law_rows_are_tight(src@, pitch as int, row as int, rows as int, y, k);
}

/// A texture is read in its own format where that names a layout, and else in one that does.
pub proof fn law_choosing_a_format(format: u32, res: u32)
    requires
        call_ensures(staging_safe_format, (format,), res),
    ensures
        format == 0 || format == 90 ==> res == 87,
        format == 27 ==> res == 28,
        format != 0 && format != 27 && format != 90 ==> res == format,
{
}

/// A name without surrogates is read unit by unit.
pub proof fn law_reading_a_name(units: &[u16], first: u16, rest: Seq<u16>, res: String)
    requires
        call_ensures(utf16_name, (units,), res),
        units@ == seq![first] + rest,
        first < 0xd800 || first > 0xdfff,
    ensures
        res@ == seq![first as char] + utf16_text(rest),
{
    law_utf16(first, 0xd800, 0xdc00, rest);
}

/// A texture that is read back changes the frame alone. A buffer of another size than the
/// frame's is refused, with both sizes, and left as it was.
pub proof fn law_refused_buffers(
    receiver: &mut SpoutReceiver,
    mapped: Vec<u8>,
    pitch: usize,
    later: &mut SpoutReceiver,
    out: &mut [u8],
    res: Result<(), GrabError>,
)
    requires
        call_ensures(SpoutReceiver::read_back, (receiver, mapped, pitch), ()),
        *later == *final(receiver),
        later.valid(),
        call_ensures(<SpoutReceiver as FrameCapture>::grab_into, (later, out), res),
    ensures
        final(receiver).info == old(receiver).info,
        final(receiver).adapter_name == old(receiver).adapter_name,
        ({
            let info = old(receiver).info;
            let needed = frame_len(info.width as int, info.height as int);
            &&& res is Err <==> old(out)@.len() != needed
            &&& res matches Err(e) ==> e.got == old(out)@.len() && e.need == needed && final(out)@
                == old(out)@
            &&& res is Ok ==> final(out)@.len() == needed
        }),
{
}

/// A frame of a receiver has four bytes for each pixel of its texture, and a texture that no
/// adapter opens is reported under its sender's name.
pub proof fn law_receiver_frames(
    receiver: SpoutReceiver,
    bytes: usize,
    handle: u32,
    name: &str,
    shared: bool,
    text: String,
)
    requires
        receiver.valid(),
        call_ensures(SpoutReceiver::frame_bytes, (&receiver,), bytes),
        call_ensures(no_adapter_text, (handle, name, shared), text),
    ensures
        bytes == 4 * (receiver.info.width * receiver.info.height),
        crate::text::occurs(text@, name@),
{
    law_unopened_textures_are_named(handle, name@, shared);
}

} // verus!
