//! Settings and bookkeeping of the NVENC encoder.

use std::collections::HashMap;

use vstd::prelude::*;

verus! {

broadcast use vstd::std_specs::hash::group_hash_axioms;

/// The version of the interface.
pub const NVENCAPI_MAJOR_VERSION: u32 = 13;

pub const NVENCAPI_MINOR_VERSION: u32 = 0;

/// The version as a session is opened with it: the major number, and the minor
/// one in the highest byte.
pub const NVENCAPI_VERSION: u32 = 13;

/// The status of a call that succeeded.
pub const NV_ENC_SUCCESS: i32 = 0;

/// The status of a picture that was taken without giving one back.
pub const NV_ENC_ERR_NEED_MORE_INPUT: i32 = 15;

/// An identifier of the interface.
#[derive(Debug, Clone, Copy)]
pub struct Guid {
    pub data1: u32,
    pub data2: u16,
    pub data3: u16,
    pub data4: [u8; 8],
}

/// An identifier of the interface.
pub fn guid(d1: u32, d2: u16, d3: u16, d4: [u8; 8]) -> (res: Guid)
    ensures
        res == (Guid { data1: d1, data2: d2, data3: d3, data4: d4 }),
{
    Guid { data1: d1, data2: d2, data3: d3, data4: d4 }
}

/// The H.264 codec.
pub fn codec_h264() -> (res: Guid)
    ensures
        res.data1 == 0x6bc82762,
        res.data2 == 0x4e63,
        res.data3 == 0x4ca4,
        res.data4@ == seq![0xaau8, 0x85, 0x1e, 0x50, 0xf3, 0x21, 0xf6, 0xbf],
{
    let res = guid(0x6bc82762, 0x4e63, 0x4ca4, [0xaa, 0x85, 0x1e, 0x50, 0xf3, 0x21, 0xf6, 0xbf]);
    assert(res.data4@ =~= seq![0xaau8, 0x85, 0x1e, 0x50, 0xf3, 0x21, 0xf6, 0xbf]);
    res
}

/// The High profile of H.264.
pub fn profile_high() -> (res: Guid)
    ensures
        res.data1 == 0xe7cbc309,
        res.data2 == 0x4f7a,
        res.data3 == 0x4b89,
        res.data4@ == seq![0xafu8, 0x2a, 0xd5, 0x37, 0xc9, 0x2b, 0xe3, 0x10],
{
    let res = guid(0xe7cbc309, 0x4f7a, 0x4b89, [0xaf, 0x2a, 0xd5, 0x37, 0xc9, 0x2b, 0xe3, 0x10]);
    assert(res.data4@ =~= seq![0xafu8, 0x2a, 0xd5, 0x37, 0xc9, 0x2b, 0xe3, 0x10]);
    res
}

/// The medium preset.
pub fn preset_p4() -> (res: Guid)
    ensures
        res.data1 == 0x90a7b826,
        res.data2 == 0xdf06,
        res.data3 == 0x4862,
        res.data4@ == seq![0xb9u8, 0xd2, 0xcd, 0x6d, 0x73, 0xa0, 0x86, 0x81],
{
    let res = guid(0x90a7b826, 0xdf06, 0x4862, [0xb9, 0xd2, 0xcd, 0x6d, 0x73, 0xa0, 0x86, 0x81]);
    assert(res.data4@ =~= seq![0xb9u8, 0xd2, 0xcd, 0x6d, 0x73, 0xa0, 0x86, 0x81]);
    res
}

/// The version number of a structure of the interface.
pub open spec fn versioned(v: int) -> int {
    0x7000_0000 + v * 0x1_0000 + 13
}

/// The version number of a structure of the interface.
pub fn struct_version(v: u32) -> (res: u32)
    ensures
        res == NVENCAPI_VERSION | (v << 16) | (0x7u32 << 28),
        v < 0x1000 ==> res == versioned(v as int),
{
    assert(v < 0x1000 ==> 13u32 | (v << 16) | (0x7u32 << 28) == 0x7000_0000 + v * 0x1_0000 + 13)
        by (bit_vector);
    NVENCAPI_VERSION | (v << 16) | (0x7 << 28)
}

/// The version number of a structure of the interface whose highest bit is set.
pub fn extended_struct_version(v: u32) -> (res: u32)
    ensures
        res == NVENCAPI_VERSION | (v << 16) | (0x7u32 << 28) | (1u32 << 31),
        v < 0x1000 ==> res == 0x8000_0000 + versioned(v as int),
{
    let base = struct_version(v);
    assert(base < 0x8000_0000 ==> base | (1u32 << 31) == base + 0x8000_0000) by (bit_vector);
    base | (1u32 << 31)
}

/// Whether a driver is new enough. It reports the newest version that it has,
/// the major number times sixteen and the minor one.
pub fn driver_supports(driver_max: u32) -> (res: bool)
    ensures
        res == (driver_max >= 16 * NVENCAPI_MAJOR_VERSION + NVENCAPI_MINOR_VERSION),
{
    driver_max >= NVENCAPI_MAJOR_VERSION * 16 + NVENCAPI_MINOR_VERSION
}

/// How an encoder is set up. What is not here stays as the preset has it.
#[derive(Debug, Clone, Copy, PartialEq, Eq, Structural)]
pub struct EncodeSettings {
    pub width: u32,
    pub height: u32,
    pub frame_rate_num: u32,
    pub frame_rate_den: u32,
    /// Pictures from one keyframe to the next.
    pub gop_length: u32,
    pub idr_period: u32,
    /// One for no pictures that depend on later ones.
    pub frame_interval_p: i32,
    /// Two for a constant bitrate.
    pub rate_control_mode: u32,
    /// In bits a second.
    pub average_bit_rate: u32,
    pub max_bit_rate: u32,
    /// In bits.
    pub vbv_buffer_size: u32,
    pub vbv_initial_delay: u32,
    pub h264_flags: u32,
    /// One for a quarter of the pixels.
    pub chroma_format_idc: u32,
    /// Two for low latency.
    pub tuning_info: u32,
    pub enable_ptd: u32,
    pub enable_encode_async: u32,
}

/// The bits that put a delimiter before every picture and parameter sets before
/// every keyframe.
pub const H264_FLAGS: u32 = 0x1040;

/// Sets an encoder up for a constant bitrate with a buffer of one second, no
/// pictures that depend on later ones, and a keyframe every two seconds.
/// `preset_flags` are the codec's flags of the preset.
pub fn encode_settings(width: u32, height: u32, fps: u32, bitrate_kbps: u32, preset_flags: u32) -> (res:
    EncodeSettings)
    requires
        fps * 2 <= u32::MAX,
        bitrate_kbps * 1000 <= u32::MAX,
    ensures
        res == (EncodeSettings {
            width,
            height,
            frame_rate_num: fps,
            frame_rate_den: 1,
            gop_length: (fps * 2) as u32,
            idr_period: (fps * 2) as u32,
            frame_interval_p: 1,
            rate_control_mode: 2,
            average_bit_rate: (bitrate_kbps * 1000) as u32,
            max_bit_rate: (bitrate_kbps * 1000) as u32,
            vbv_buffer_size: (bitrate_kbps * 1000) as u32,
            vbv_initial_delay: (bitrate_kbps * 1000) as u32,
            h264_flags: preset_flags | H264_FLAGS,
            chroma_format_idc: 1,
            tuning_info: 2,
            enable_ptd: 1,
            enable_encode_async: 0,
        }),
{
    let gop: u32 = fps * 2;
    let bps: u32 = bitrate_kbps * 1000;
    EncodeSettings {
        width,
        height,
        frame_rate_num: fps,
        frame_rate_den: 1,
        gop_length: gop,
        idr_period: gop,
        frame_interval_p: 1,
        rate_control_mode: 2,
        average_bit_rate: bps,
        max_bit_rate: bps,
        vbv_buffer_size: bps,
        vbv_initial_delay: bps,
        h264_flags: preset_flags | H264_FLAGS,
        chroma_format_idc: 1,
        tuning_info: 2,
        enable_ptd: 1,
        enable_encode_async: 0,
    }
}

/// What became of a picture.
#[derive(Debug, Clone, Copy, PartialEq, Eq, Structural)]
pub enum EncodeStatus {
    /// An access unit can be read.
    Unit,
    /// The picture is kept; there is nothing to read.
    Buffered,
    /// It failed.
    Failed,
}

/// What became of a picture, by the status of the call.
pub fn encode_status(status: i32) -> (res: EncodeStatus)
    ensures
        res == if status == NV_ENC_SUCCESS {
            EncodeStatus::Unit
        } else if status == NV_ENC_ERR_NEED_MORE_INPUT {
            EncodeStatus::Buffered
        } else {
            EncodeStatus::Failed
        },
{
    if status == NV_ENC_SUCCESS {
        EncodeStatus::Unit
    } else if status == NV_ENC_ERR_NEED_MORE_INPUT {
        EncodeStatus::Buffered
    } else {
        EncodeStatus::Failed
    }
}

/// The flags of a picture that must be a keyframe and carry parameter sets.
pub const FORCE_IDR_FLAGS: u32 = 0x6;

/// How a picture is submitted.
#[derive(Debug, Clone, Copy, PartialEq, Eq, Structural)]
pub struct Picture {
    pub width: u32,
    pub height: u32,
    pub pitch: u32,
    pub flags: u32,
    pub timestamp: u64,
    pub duration: u64,
}

/// The content of a [`NvencSession`].
#[verifier::ext_equal]
pub struct SessionView {
    pub width: u32,
    pub height: u32,
    pub pts: u64,
    pub registered: Map<u64, u64>,
}

/// An encode session: the size of its pictures, the time of the next one, and the
/// handles of the textures that it knows, by their addresses.
pub struct NvencSession {
    width: u32,
    height: u32,
    pts: u64,
    registered: HashMap<u64, u64>,
}

impl View for NvencSession {
    type V = SessionView;

    closed spec fn view(&self) -> SessionView {
        SessionView {
            width: self.width,
            height: self.height,
            pts: self.pts,
            registered: self.registered@,
        }
    }
}

impl NvencSession {
    /// A session that is not set up.
    pub fn new() -> (res: Self)
        ensures
            res@ == (SessionView { width: 0, height: 0, pts: 0, registered: Map::empty() }),
    {
        NvencSession { width: 0, height: 0, pts: 0, registered: HashMap::new() }
    }

    /// Notes that the session was set up.
    pub fn initialized(&mut self, width: u32, height: u32)
        ensures
            final(self)@ == (SessionView {
                width,
                height,
                pts: old(self)@.pts,
                registered: old(self)@.registered,
            }),
    {
        self.width = width;
        self.height = height;
    }

    /// The handle of a texture that is registered already.
    pub fn registered_for(&self, texture: u64) -> (res: Option<u64>)
        ensures
            res == if self@.registered.contains_key(texture) {
                Some(self@.registered[texture])
            } else {
                None
            },
    {
        match self.registered.get(&texture) {
            Some(handle) => Some(*handle),
            None => None,
        }
    }

    /// Notes the handle of a texture.
    pub fn register(&mut self, texture: u64, handle: u64)
        ensures
            final(self)@ == (SessionView {
                width: old(self)@.width,
                height: old(self)@.height,
                pts: old(self)@.pts,
                registered: old(self)@.registered.insert(texture, handle),
            }),
    {
        self.registered.insert(texture, handle);
    }

    /// The next picture. `force_idr` makes it a keyframe with parameter sets,
    /// wherever it stands.
    pub fn next_picture(&mut self, force_idr: bool) -> (res: Picture)
        requires
            old(self)@.pts < u64::MAX,
        ensures
            final(self)@ == (SessionView {
                width: old(self)@.width,
                height: old(self)@.height,
                pts: (old(self)@.pts + 1) as u64,
                registered: old(self)@.registered,
            }),
            res == (Picture {
                width: old(self)@.width,
                height: old(self)@.height,
                pitch: old(self)@.width,
                flags: if force_idr {
                    FORCE_IDR_FLAGS
                } else {
                    0
                },
                timestamp: old(self)@.pts,
                duration: 1,
            }),
    {
        let timestamp = self.pts;
        self.pts = timestamp + 1;
        Picture {
            width: self.width,
            height: self.height,
            pitch: self.width,
            flags: if force_idr {
                FORCE_IDR_FLAGS
            } else {
                0
            },
            timestamp,
            duration: 1,
        }
    }
}

/// The interface's numbers: a call succeeds with zero, a picture is kept with fifteen,
/// delimiters and repeated parameter sets are bits six and twelve, and a forced keyframe with
/// parameter sets is bits one and two.
pub proof fn law_interface_numbers()
    ensures
        NV_ENC_SUCCESS == 0,
        NV_ENC_ERR_NEED_MORE_INPUT == 15,
        H264_FLAGS == 64 + 4096,
        FORCE_IDR_FLAGS == 2 + 4,
        NVENCAPI_VERSION == NVENCAPI_MAJOR_VERSION + 0x100_0000 * NVENCAPI_MINOR_VERSION,
        NVENCAPI_MAJOR_VERSION == 13,
{
}

/// A structure's version is the interface's, with the structure's own in the upper half and
/// seven above that.
pub proof fn law_structure_versions(v: int)
    requires
        0 <= v < 0x1000,
    ensures
        versioned(v) % 0x1_0000 == 13,
        versioned(v) / 0x1_0000 % 0x1000 == v,
        versioned(v) / 0x1000_0000 == 7,
{
}

/// A texture that was registered is known by its handle from then on, and all others as before.
pub proof fn law_registering(
    session: &mut NvencSession,
    texture: u64,
    handle: u64,
    other: u64,
    known: Option<u64>,
    before: Option<u64>,
    after: Option<u64>,
)
    requires
        call_ensures(NvencSession::register, (session, texture, handle), ()),
        call_ensures(NvencSession::registered_for, (&*final(session), texture), known),
        other != texture,
        call_ensures(NvencSession::registered_for, (&*session, other), before),
        call_ensures(NvencSession::registered_for, (&*final(session), other), after),
    ensures
        known == Some(handle),
        after == before,
{
}

/// Pictures have the session's size and follow each other one unit of time apart. One is a
/// keyframe with parameter sets where that is asked for.
pub proof fn law_pictures(
    session: &mut NvencSession,
    next: &mut NvencSession,
    force: bool,
    a: Picture,
    b: Picture,
)
    requires
        session@.pts < u64::MAX - 1,
        call_ensures(NvencSession::next_picture, (session, force), a),
        *next == *final(session),
        call_ensures(NvencSession::next_picture, (next, false), b),
    ensures
        a.width == old(session)@.width && a.height == old(session)@.height,
        b.width == a.width && b.height == a.height,
        b.timestamp == a.timestamp + 1,
        a.duration == 1,
        a.flags == if force {
            6u32
        } else {
            0
        },
        b.flags == 0,
{
}

/// An encoder is set up for a constant bitrate with a buffer of a second, a keyframe every two
/// seconds, no pictures that depend on later ones, and delimiters and parameter sets besides
/// what the preset has.
pub proof fn law_encode_settings(
    width: u32,
    height: u32,
    fps: u32,
    kbps: u32,
    preset: u32,
    res: EncodeSettings,
)
    requires
        fps * 2 <= u32::MAX,
        kbps * 1000 <= u32::MAX,
        call_ensures(encode_settings, (width, height, fps, kbps, preset), res),
    ensures
        res.width == width && res.height == height,
        res.frame_rate_num == fps * res.frame_rate_den && res.frame_rate_den == 1,
        res.gop_length == 2 * fps && res.idr_period == res.gop_length,
        res.average_bit_rate == 1000 * kbps,
        res.max_bit_rate == res.average_bit_rate && res.vbv_buffer_size == res.average_bit_rate
            && res.vbv_initial_delay == res.average_bit_rate,
        res.rate_control_mode == 2 && res.frame_interval_p == 1 && res.tuning_info == 2,
        res.h264_flags == preset | 0x1040,
{
}

/// A call that succeeded yields a unit, one that wants more pictures keeps this one, and any
/// other failed. A driver is new enough from version 13.0 on.
pub proof fn law_statuses(status: i32, res: EncodeStatus, driver: u32, supported: bool)
    requires
        call_ensures(encode_status, (status,), res),
        call_ensures(driver_supports, (driver,), supported),
    ensures
        res == EncodeStatus::Unit <==> status == 0,
        res == EncodeStatus::Buffered <==> status == 15,
        supported <==> driver >= 16 * 13,
{
}

/// The version of a structure holds the interface's, its own and a mark; that of an extended one
/// holds the topmost bit besides.
pub proof fn law_versions(v: u32, plain: u32, extended: u32)
    requires
        v < 0x1000,
        call_ensures(struct_version, (v,), plain),
        call_ensures(extended_struct_version, (v,), extended),
    ensures
        plain % 0x1_0000 == 13,
        plain / 0x1_0000 % 0x1000 == v,
        plain / 0x1000_0000 == 7,
        extended == plain + 0x8000_0000,
{
    law_structure_versions(v as int);
}

/// A session that is set up has the size that it is given, and goes on where it was.
pub proof fn law_setting_up(session: &mut NvencSession, width: u32, height: u32)
    requires
        call_ensures(NvencSession::initialized, (session, width, height), ()),
    ensures
        final(session)@.width == width,
        final(session)@.height == height,
        final(session)@.pts == old(session)@.pts,
        final(session)@.registered == old(session)@.registered,
{
}

/// An identifier has the parts that it is made of.
pub proof fn law_identifiers(d1: u32, d2: u16, d3: u16, d4: [u8; 8], res: Guid)
    requires
        call_ensures(guid, (d1, d2, d3, d4), res),
    ensures
        res.data1 == d1 && res.data2 == d2 && res.data3 == d3 && res.data4 == d4,
{
}

} // verus!
