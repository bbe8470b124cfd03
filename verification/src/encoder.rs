//! The ffmpeg subprocess encoder's command line, and the splitting of its
//! output into access units.
//!
//! The output is H.264 Annex-B with an Access Unit Delimiter (AUD, NAL type 9)
//! at each picture boundary. The byte stream is split before each delimiter,
//! and each access unit's bytes, the delimiter included, become one sample.

use vstd::prelude::*;

use crate::text::{decimal, push_all, push_decimal, slice_texts, texts};

verus! {

/// The codec that ffmpeg is asked for.
#[derive(Debug, Clone, Copy, PartialEq, Eq, Structural)]
pub enum EncoderKind {
    /// Software libx264. Highest compatibility, highest CPU.
    Libx264,
    /// NVIDIA NVENC.
    Nvenc,
    /// Intel Quick Sync.
    Qsv,
    /// AMD AMF.
    Amf,
}

/// ffmpeg's name of a codec.
pub open spec fn codec(kind: EncoderKind) -> Seq<char> {
    match kind {
        EncoderKind::Libx264 => "libx264"@,
        EncoderKind::Nvenc => "h264_nvenc"@,
        EncoderKind::Qsv => "h264_qsv"@,
        EncoderKind::Amf => "h264_amf"@,
    }
}

/// The arguments that tune a codec for low latency.
pub open spec fn tuning(kind: EncoderKind) -> Seq<Seq<char>> {
    match kind {
        EncoderKind::Libx264 => seq![
            "-preset"@,
            "ultrafast"@,
            "-tune"@,
            "zerolatency"@,
            "-profile:v"@,
            "baseline"@,
        ],
        EncoderKind::Nvenc => seq![
            "-preset"@,
            "p1"@,
            "-tune"@,
            "ull"@,
            "-rc"@,
            "cbr"@,
            "-zerolatency"@,
            "1"@,
            "-profile:v"@,
            "baseline"@,
        ],
        EncoderKind::Qsv => seq![
            "-preset"@,
            "veryfast"@,
            "-async_depth"@,
            "1"@,
            "-profile:v"@,
            "baseline"@,
        ],
        EncoderKind::Amf => seq![
            "-quality"@,
            "speed"@,
            "-usage"@,
            "ultralowlatency"@,
            "-profile:v"@,
            "main"@,
        ],
    }
}

impl EncoderKind {
    /// ffmpeg's name of the codec.
    pub fn codec_name(self) -> (res: &'static str)
        ensures
            res@ == codec(self),
    {
        match self {
            EncoderKind::Libx264 => "libx264",
            EncoderKind::Nvenc => "h264_nvenc",
            EncoderKind::Qsv => "h264_qsv",
            EncoderKind::Amf => "h264_amf",
        }
    }

    /// Arguments that follow the codec's name and tune it for low-latency
    /// streaming. Delimiters and parameter-set repetition are not among them:
    /// a bitstream filter adds those for every codec.
    pub fn tune_args(self) -> (res: Vec<&'static str>)
        ensures
            slice_texts(res@) == tuning(self),
    {
        let res = match self {
            EncoderKind::Libx264 => vec![
                "-preset",
                "ultrafast",
                "-tune",
                "zerolatency",
                "-profile:v",
                "baseline",
            ],
            EncoderKind::Nvenc => vec![
                "-preset",
                "p1",
                "-tune",
                "ull",
                "-rc",
                "cbr",
                "-zerolatency",
                "1",
                "-profile:v",
                "baseline",
            ],
            EncoderKind::Qsv => vec![
                "-preset",
                "veryfast",
                "-async_depth",
                "1",
                "-profile:v",
                "baseline",
            ],
            EncoderKind::Amf => vec![
                "-quality",
                "speed",
                "-usage",
                "ultralowlatency",
                "-profile:v",
                "main",
            ],
        };
        assert(slice_texts(res@) =~= tuning(self));
        res
    }
}

/// The arguments of the ffmpeg process: raw RGBA frames on its input, Annex-B
/// H.264 with delimiters on its output, a keyframe every two seconds.
pub open spec fn encoder_command(
    kind: EncoderKind,
    width: nat,
    height: nat,
    fps: nat,
    bitrate_kbps: nat,
) -> Seq<Seq<char>> {
    let rate = decimal(bitrate_kbps) + "k"@;
    seq![
        "-hide_banner"@,
        "-loglevel"@,
        "warning"@,
        "-f"@,
        "rawvideo"@,
        "-pix_fmt"@,
        "rgba"@,
        "-s"@,
        decimal(width) + "x"@ + decimal(height),
        "-framerate"@,
        decimal(fps),
        "-i"@,
        "pipe:0"@,
        "-c:v"@,
        codec(kind),
    ] + tuning(kind) + seq![
        "-pix_fmt"@,
        "yuv420p"@,
        "-b:v"@,
        rate,
        "-maxrate"@,
        rate,
        "-bufsize"@,
        rate,
        "-g"@,
        decimal(fps * 2),
        "-bsf:v"@,
        "h264_metadata=aud=insert,dump_extra=freq=k"@,
        "-f"@,
        "h264"@,
        "pipe:1"@,
    ]
}

/// The program that `encoder_args` are for.
pub const ENCODER_PROGRAM: &'static str = "ffmpeg";

/// The arguments of the ffmpeg process.
pub fn encoder_args(
    kind: EncoderKind,
    width: u32,
    height: u32,
    fps: u32,
    bitrate_kbps: u32,
) -> (res: Vec<String>)
    requires
        fps * 2 <= u32::MAX,
    ensures
        texts(res@) == encoder_command(
            kind,
            width as nat,
            height as nat,
            fps as nat,
            bitrate_kbps as nat,
        ),
{
    let mut size = String::new();
    push_decimal(&mut size, width as u64);
    size.append("x");
    push_decimal(&mut size, height as u64);
    assert(size@ =~= decimal(width as nat) + "x"@ + decimal(height as nat));
    let mut fps_s = String::new();
    push_decimal(&mut fps_s, fps as u64);
    assert(fps_s@ =~= decimal(fps as nat));
    let mut bv = String::new();
    push_decimal(&mut bv, bitrate_kbps as u64);
    bv.append("k");
    assert(bv@ =~= decimal(bitrate_kbps as nat) + "k"@);
    let mut gop = String::new();
    push_decimal(&mut gop, fps as u64 * 2);
    assert(gop@ =~= decimal(fps as nat * 2));

    let mut args: Vec<String> = Vec::new();
    let head = [
        "-hide_banner",
        "-loglevel",
        "warning",
        "-f",
        "rawvideo",
        "-pix_fmt",
        "rgba",
        "-s",
        size.as_str(),
        "-framerate",
        fps_s.as_str(),
        "-i",
        "pipe:0",
        "-c:v",
        kind.codec_name(),
    ];
    push_all(&mut args, &head);
    let tune = kind.tune_args();
    push_all(&mut args, tune.as_slice());
    let tail = [
        "-pix_fmt",
        "yuv420p",
        "-b:v",
        bv.as_str(),
        "-maxrate",
        bv.as_str(),
        "-bufsize",
        bv.as_str(),
        "-g",
        gop.as_str(),
        "-bsf:v",
        "h264_metadata=aud=insert,dump_extra=freq=k",
        "-f",
        "h264",
        "pipe:1",
    ];
    push_all(&mut args, &tail);
    assert(texts(args@) =~= encoder_command(
        kind,
        width as nat,
        height as nat,
        fps as nat,
        bitrate_kbps as nat,
    ));
    args
}

/// What is reported when the ffmpeg process does not start.
pub open spec fn spawn_failure(kind: EncoderKind, not_found: bool) -> Seq<char> {
    if not_found {
        "ffmpeg not found on PATH. Install ffmpeg (https://ffmpeg.org/download.html) and ensure `ffmpeg --version` works, then re-run this command."@
    } else {
        "spawn ffmpeg (codec="@ + codec(kind) + ")"@
    }
}

/// What is reported when the ffmpeg process does not start.
pub fn spawn_failure_text(kind: EncoderKind, not_found: bool) -> (res: String)
    ensures
        res@ == spawn_failure(kind, not_found),
{
    if not_found {
        "ffmpeg not found on PATH. Install ffmpeg (https://ffmpeg.org/download.html) and ensure `ffmpeg --version` works, then re-run this command.".to_string()
    } else {
        let mut s = "spawn ffmpeg (codec=".to_string();
        s.append(kind.codec_name());
        s.append(")");
        s
    }
}

/// Whether an access unit delimiter begins at `i`: a start code (00 00 00 01 or
/// 00 00 01) and a NAL header of type 9.
pub open spec fn aud_at(s: Seq<u8>, i: int) -> bool {
    &&& 0 <= i
    &&& i + 3 < s.len()
    &&& s[i] == 0
    &&& s[i + 1] == 0
    &&& ({
        ||| i + 4 < s.len() && s[i + 2] == 0 && s[i + 3] == 1 && s[i + 4] & 0x1f == 9
        ||| s[i + 2] == 1 && s[i + 3] & 0x1f == 9
    })
}

/// The first delimiter at or after `from`.
pub open spec fn first_aud(s: Seq<u8>, from: int) -> Option<int>
    decreases s.len() - from,
{
    if from + 3 >= s.len() {
        None
    } else if aud_at(s, from) {
        Some(from)
    } else {
        first_aud(s, from + 1)
    }
}

/// Splits a stream that begins with a delimiter: the complete access units,
/// and the unit that is still in progress.
pub open spec fn split_units(d: Seq<u8>) -> (Seq<Seq<u8>>, Seq<u8>)
    decreases d.len(),
    via split_units_decreases
{
    match first_aud(d, 4) {
        None => (seq![], d),
        Some(i) => {
            let (units, rest) = split_units(d.skip(i));
            (seq![d.take(i)] + units, rest)
        },
    }
}

#[via_fn]
proof fn split_units_decreases(d: Seq<u8>) {
    lemma_first_aud(d, 4);
}

/// What a parser holds: the bytes kept, and whether an access unit is in
/// progress (it then begins with the bytes kept).
pub struct ParserState {
    pub kept: Seq<u8>,
    pub started: bool,
}

/// The state after more bytes, and the access units that they complete.
/// Bytes before the first delimiter are dropped.
pub open spec fn fed(state: ParserState, more: Seq<u8>) -> (ParserState, Seq<Seq<u8>>) {
    let d = state.kept + more;
    if state.started {
        let (units, rest) = split_units(d);
        (ParserState { kept: rest, started: true }, units)
    } else {
        match first_aud(d, 0) {
            None => (ParserState { kept: d, started: false }, seq![]),
            Some(i) => {
                let (units, rest) = split_units(d.skip(i));
                (ParserState { kept: rest, started: true }, units)
            },
        }
    }
}

/// `first_aud` is a delimiter, and there is none before it.
proof fn lemma_first_aud(s: Seq<u8>, from: int)
    ensures
        match first_aud(s, from) {
            None => forall|i: int| from <= i ==> !#[trigger] aud_at(s, i),
            Some(k) => from <= k && k + 3 < s.len() && (0 <= from ==> aud_at(s, k)) && forall|i: int|
                from <= i < k ==> !#[trigger] aud_at(s, i),
        },
    decreases s.len() - from,
{
    if from + 3 < s.len() && !aud_at(s, from) {
        lemma_first_aud(s, from + 1);
    }
}

/// A delimiter with none before it is the first.
proof fn lemma_is_first_aud(s: Seq<u8>, from: int, k: int)
    requires
        0 <= from <= k,
        aud_at(s, k),
        forall|i: int| from <= i < k ==> !#[trigger] aud_at(s, i),
    ensures
        first_aud(s, from) == Some(k),
{
    lemma_first_aud(s, from);
}

/// With no delimiter there is no first.
proof fn lemma_no_first_aud(s: Seq<u8>, from: int)
    requires
        0 <= from,
        forall|i: int| from <= i ==> !#[trigger] aud_at(s, i),
    ensures
        first_aud(s, from) is None,
{
    lemma_first_aud(s, from);
}

/// What was found stays where it is when bytes follow.
proof fn lemma_first_aud_extends(s: Seq<u8>, more: Seq<u8>, from: int)
    requires
        0 <= from,
        first_aud(s, from) is Some,
    ensures
        first_aud(s + more, from) == first_aud(s, from),
{
    lemma_first_aud(s, from);
    let k = first_aud(s, from)->0;
    assert forall|i: int| from <= i <= k implies #[trigger] aud_at(s + more, i) == aud_at(s, i) by {}
    lemma_is_first_aud(s + more, from, k);
}

/// Splitting the stream as far as it has come, and going on with what is in
/// progress, is splitting the whole stream.
proof fn lemma_split_extends(d: Seq<u8>, more: Seq<u8>)
    ensures
        ({
            let (units, rest) = split_units(d);
            let (units2, rest2) = split_units(rest + more);
            split_units(d + more) == (units + units2, rest2)
        }),
    decreases d.len(),
{
    lemma_first_aud(d, 4);
    match first_aud(d, 4) {
        None => {
            let (units2, rest2) = split_units(d + more);
            assert(seq![] + units2 =~= units2);
        },
        Some(i) => {
            lemma_first_aud_extends(d, more, 4);
            lemma_split_extends(d.skip(i), more);
            assert((d + more).skip(i) =~= d.skip(i) + more);
            assert((d + more).take(i) =~= d.take(i));
            let (units, rest) = split_units(d.skip(i));
            let (units2, rest2) = split_units(rest + more);
            assert((seq![d.take(i)] + units) + units2 =~= seq![d.take(i)] + (units + units2));
        },
    }
}

/// How a stream is cut into calls of `feed` makes no difference.
pub proof fn law_feeding_in_pieces(state: ParserState, a: Seq<u8>, b: Seq<u8>)
    ensures
        ({
            let (mid, first) = fed(state, a);
            let (end, second) = fed(mid, b);
            fed(state, a + b) == (end, first + second)
        }),
{
    let d = state.kept + a;
    assert(state.kept + (a + b) =~= d + b);
    if state.started {
        lemma_split_extends(d, b);
    } else {
        lemma_first_aud(d, 0);
        match first_aud(d, 0) {
            None => {
                let (end, second) = fed(ParserState { kept: d, started: false }, b);
                assert(Seq::<Seq<u8>>::empty() + second =~= second);
            },
            Some(i) => {
                lemma_first_aud_extends(d, b, 0);
                assert((d + b).skip(i) =~= d.skip(i) + b);
                lemma_split_extends(d.skip(i), b);
            },
        }
    }
}

/// The bytes of a sequence of units, one after the other.
pub open spec fn joined(units: Seq<Seq<u8>>) -> Seq<u8>
    decreases units.len(),
{
    if units.len() == 0 {
        seq![]
    } else {
        units[0] + joined(units.skip(1))
    }
}

/// Joining units puts all their bytes one after the other, and nothing else.
pub proof fn law_joining_is_concatenation(units: Seq<Seq<u8>>)
    ensures
        joined(units) == units.flatten(),
    decreases units.len(),
{
    if units.len() > 0 {
        law_joining_is_concatenation(units.skip(1));
        assert(units.drop_first() =~= units.skip(1));
    }
}

/// No byte is lost, added or moved once a delimiter has been seen: the units
/// and what is in progress make up the stream.
pub proof fn law_units_make_up_the_stream(d: Seq<u8>)
    ensures
        joined(split_units(d).0) + split_units(d).1 == d,
    decreases d.len(),
{
    lemma_first_aud(d, 4);
    match first_aud(d, 4) {
        None => {
            assert(joined(split_units(d).0) + d =~= d);
        },
        Some(i) => {
            law_units_make_up_the_stream(d.skip(i));
            let (units, rest) = split_units(d.skip(i));
            let all = seq![d.take(i)] + units;
            assert(all.skip(1) =~= units);
            assert(d.take(i) + (joined(units) + rest) =~= (d.take(i) + joined(units)) + rest);
            assert(d.take(i) + d.skip(i) =~= d);
        },
    }
}

/// Each unit of a stream that begins with a delimiter begins with one, and so
/// does what is in progress.
pub proof fn law_units_begin_with_a_delimiter(d: Seq<u8>)
    requires
        aud_at(d, 0),
    ensures
        forall|k: int|
            0 <= k < split_units(d).0.len() ==> aud_at(#[trigger] split_units(d).0[k], 0),
        aud_at(split_units(d).1, 0),
    decreases d.len(),
{
    lemma_first_aud(d, 4);
    match first_aud(d, 4) {
        None => {},
        Some(i) => {
            assert(aud_at(d.skip(i), 0));
            law_units_begin_with_a_delimiter(d.skip(i));
            let (units, rest) = split_units(d.skip(i));
            let all = seq![d.take(i)] + units;
            if d[2] == 0 && i == 4 {
                assert(d[4] == 0);
                assert(0u8 & 0x1f != 9) by (bit_vector);
            }
            assert(aud_at(all[0], 0));
            assert forall|k: int| 0 <= k < all.len() implies aud_at(#[trigger] all[k], 0) by {
                if k > 0 {
                    assert(all[k] == units[k - 1]);
                }
            }
        },
    }
}

/// Delimiters are recognized by their bytes: 00 00 01 or 00 00 00 01, and then a
/// NAL header whose lower five bits are nine. Nothing else is one.
pub proof fn law_delimiter_bytes(s: Seq<u8>, i: int, header: u8)
    requires
        0 <= i,
    ensures
        i + 4 <= s.len() && s.subrange(i, i + 4) == seq![0u8, 0, 1, header] ==> (aud_at(s, i)
            <==> header % 32 == 9),
        i + 5 <= s.len() && s.subrange(i, i + 5) == seq![0u8, 0, 0, 1, header] ==> (aud_at(s, i)
            <==> header % 32 == 9),
        aud_at(s, i) ==> (i + 4 <= s.len() && s.subrange(i, i + 3) == seq![0u8, 0, 1]) || (i + 5
            <= s.len() && s.subrange(i, i + 4) == seq![0u8, 0, 0, 1]),
{
    assert(forall|h: u8| #[trigger] (h & 0x1f) == h % 32) by (bit_vector);
    if i + 4 <= s.len() {
        let four = s.subrange(i, i + 4);
        assert(four[0] == s[i] && four[1] == s[i + 1] && four[2] == s[i + 2] && four[3] == s[i + 3]);
        if aud_at(s, i) {
            if s[i + 2] == 1 {
                assert(s.subrange(i, i + 3) =~= seq![0u8, 0, 1]);
            } else {
                assert(four =~= seq![0u8, 0, 0, 1]);
            }
        }
    }
    if i + 5 <= s.len() {
        let five = s.subrange(i, i + 5);
        assert(five[0] == s[i] && five[1] == s[i + 1] && five[2] == s[i + 2] && five[3] == s[i + 3]
            && five[4] == s[i + 4]);
    }
}

/// Every delimiter closes a unit: a unit has a delimiter at its beginning and at
/// no later place, and so has what is in progress.
pub proof fn law_every_delimiter_closes_a_unit(d: Seq<u8>)
    requires
        aud_at(d, 0),
    ensures
        forall|k: int, j: int|
            0 <= k < split_units(d).0.len() && 4 <= j ==> !#[trigger] aud_at(
                split_units(d).0[k],
                j,
            ),
        forall|j: int| 4 <= j ==> !#[trigger] aud_at(split_units(d).1, j),
    decreases d.len(),
{
    lemma_first_aud(d, 4);
    match first_aud(d, 4) {
        None => {},
        Some(i) => {
            assert(aud_at(d.skip(i), 0));
            law_every_delimiter_closes_a_unit(d.skip(i));
            let (units, rest) = split_units(d.skip(i));
            let all = seq![d.take(i)] + units;
            assert forall|k: int, j: int| 0 <= k < all.len() && 4 <= j implies !#[trigger] aud_at(
                all[k],
                j,
            ) by {
                if k == 0 {
                    if aud_at(all[0], j) {
                        assert(aud_at(d, j));
                    }
                } else {
                    assert(all[k] == units[k - 1]);
                }
            }
        },
    }
}

/// What a call of `feed` gives back, whatever it is fed: nothing of the stream is
/// lost from its first delimiter on, each unit begins with a delimiter and holds no
/// other, and so does what is in progress. Before the first delimiter everything is
/// kept and nothing is given back.
pub proof fn law_feeding(state: ParserState, more: Seq<u8>)
    requires
        state.started ==> aud_at(state.kept, 0),
    ensures
        ({
            let d = state.kept + more;
            let (after, units) = fed(state, more);
            let stream = joined(units) + after.kept;
            &&& state.started ==> after.started && stream == d
            &&& !state.started ==> (after.started <==> exists|i: int| #[trigger] aud_at(d, i))
            &&& !after.started ==> after.kept == d && units.len() == 0
            &&& !state.started && after.started ==> stream.len() <= d.len() && d.skip(
                d.len() - stream.len(),
            ) == stream && forall|i: int|
                0 <= i < d.len() - stream.len() ==> !#[trigger] aud_at(d, i)
            &&& after.started ==> aud_at(stream, 0) && aud_at(after.kept, 0)
            &&& after.started ==> forall|j: int| 4 <= j ==> !#[trigger] aud_at(after.kept, j)
            &&& forall|k: int| 0 <= k < units.len() ==> aud_at(#[trigger] units[k], 0)
            &&& forall|k: int, j: int|
                0 <= k < units.len() && 4 <= j ==> !#[trigger] aud_at(units[k], j)
        }),
{
    let d = state.kept + more;
    if state.started {
        assert(aud_at(d, 0));
        law_units_make_up_the_stream(d);
        law_units_begin_with_a_delimiter(d);
        law_every_delimiter_closes_a_unit(d);
    } else {
        lemma_first_aud(d, 0);
        match first_aud(d, 0) {
            None => {
                assert forall|i: int| !#[trigger] aud_at(d, i) by {}
            },
            Some(i) => {
                let whole = d.skip(i);
                assert(aud_at(d, i));
                assert(aud_at(whole, 0));
                law_units_make_up_the_stream(whole);
                law_units_begin_with_a_delimiter(whole);
                law_every_delimiter_closes_a_unit(whole);
            },
        }
    }
}

/// The offset of the next delimiter, beginning at `from`.
fn find_aud(buf: &Vec<u8>, from: usize) -> (res: Option<usize>)
    ensures
        match res {
            None => first_aud(buf@, from as int) is None,
            Some(i) => first_aud(buf@, from as int) == Some(i as int),
        },
{
    let len: usize = buf.len();
    let mut i: usize = from;
    while i < len && len - i > 3
        invariant
            len == buf@.len(),
            from <= i,
            forall|j: int| from <= j < i ==> !#[trigger] aud_at(buf@, j),
        decreases len - i,
    {
        if len - i > 4 && buf[i] == 0 && buf[i + 1] == 0 && buf[i + 2] == 0 && buf[i + 3] == 1 {
            if buf[i + 4] & 0x1f == 9 {
                proof {
                    lemma_is_first_aud(buf@, from as int, i as int);
                }
                return Some(i);
            }
            i += 4;
        } else if buf[i] == 0 && buf[i + 1] == 0 && buf[i + 2] == 1 {
            if buf[i + 3] & 0x1f == 9 {
                proof {
                    lemma_is_first_aud(buf@, from as int, i as int);
                }
                return Some(i);
            }
            i += 3;
        } else {
            i += 1;
        }
    }
    proof {
        lemma_no_first_aud(buf@, from as int);
    }
    None
}

/// A copy of bytes `from..to`.
fn copy_range(buf: &Vec<u8>, from: usize, to: usize) -> (res: Vec<u8>)
    requires
        from <= to <= buf@.len(),
    ensures
        res@ == buf@.subrange(from as int, to as int),
{
    let mut out: Vec<u8> = Vec::new();
    let mut i: usize = from;
    while i < to
        invariant
            from <= i <= to,
            to <= buf@.len(),
            out@ == buf@.subrange(from as int, i as int),
        decreases to - i,
    {
        out.push(buf[i]);
        i += 1;
        assert(out@ =~= buf@.subrange(from as int, i as int));
    }
    out
}

/// The bytes of a sequence of buffers.
pub open spec fn buffers(v: Seq<Vec<u8>>) -> Seq<Seq<u8>> {
    Seq::new(v.len(), |i: int| v[i]@)
}

/// Streaming parser that yields complete H.264 access units.
pub struct AccessUnitParser {
    buf: Vec<u8>,
    /// Whether `buf` begins with the delimiter of the unit in progress.
    started: bool,
}

impl View for AccessUnitParser {
    type V = ParserState;

    closed spec fn view(&self) -> ParserState {
        ParserState { kept: self.buf@, started: self.started }
    }
}

impl AccessUnitParser {
    /// Whether the unit in progress, if there is one, begins with its delimiter.
    pub open spec fn wf(&self) -> bool {
        self@.started ==> aud_at(self@.kept, 0)
    }

    /// A parser that has seen nothing.
    pub fn new() -> (res: Self)
        ensures
            res@ == (ParserState { kept: Seq::empty(), started: false }),
            res.wf(),
    {
        let res = AccessUnitParser { buf: Vec::new(), started: false };
        assert(res.buf@ =~= Seq::empty());
        res
    }

    /// Appends bytes from the encoder. Returns the access units that are now
    /// complete; the unit still in progress is kept for the next call.
    pub fn feed(&mut self, more: &[u8]) -> (res: Vec<Vec<u8>>)
        requires
            old(self).wf(),
        ensures
            final(self).wf(),
            (final(self)@, buffers(res@)) == fed(old(self)@, more@),
    {
        let ghost d = self.buf@ + more@;
        let mut i: usize = 0;
        let more_len: usize = more.len();
        let ghost kept = self.buf@;
        while i < more_len
            invariant
                i <= more_len,
                more_len == more@.len(),
                self.started == old(self)@.started,
                self.buf@ == kept + more@.take(i as int),
            decreases more_len - i,
        {
            self.buf.push(more[i]);
            assert(more@.take(i + 1) =~= more@.take(i as int).push(more@[i as int]));
            i += 1;
        }
        assert(self.buf@ =~= d) by {
            assert(more@.take(more_len as int) =~= more@);
        }
        let mut units: Vec<Vec<u8>> = Vec::new();
        assert(buffers(units@) =~= seq![]);
        if !self.started {
            match find_aud(&self.buf, 0) {
                Some(first) => {
                    proof {
                        lemma_first_aud(d, 0);
                    }
                    let tail = self.buf.split_off(first);
                    self.buf = tail;
                    assert(self.buf@ =~= d.skip(first as int));
                    self.started = true;
                },
                None => {
                    return units;
                },
            }
        }
        let ghost whole = self.buf@;
        let mut current: usize = 0;
        let len: usize = self.buf.len();
        proof {
            assert(whole.skip(0) =~= whole);
            assert(aud_at(whole, 0));
            law_units_begin_with_a_delimiter(whole);
            let (all, rest) = split_units(whole);
            assert(seq![] + all =~= all);
        }
        let mut going = true;
        while going
            invariant
                self.started,
                self.buf@ == whole,
                len == whole.len(),
                current + 4 <= len,
                aud_at(whole, current as int),
                ({
                    let (all, rest) = split_units(whole);
                    let (later, last) = split_units(whole.skip(current as int));
                    &&& all == buffers(units@) + later
                    &&& rest == last
                }),
                !going ==> split_units(whole.skip(current as int)) == (
                    Seq::<Seq<u8>>::empty(),
                    whole.skip(current as int),
                ),
            decreases len - current + if going {
                1int
            } else {
                0
            },
        {
            let ghost rem = whole.skip(current as int);
            let ghost (all, rest) = split_units(whole);
            proof {
                lemma_first_aud(rem, 4);
                lemma_first_aud(whole, current + 4);
                assert forall|j: int| 0 <= j implies aud_at(rem, j) == #[trigger] aud_at(
                    whole,
                    current + j,
                ) by {}
            }
            match find_aud(&self.buf, current + 4) {
                Some(found) => {
                    let unit = copy_range(&self.buf, current, found);
                    let ghost before = units@;
                    units.push(unit);
                    proof {
                        let k = found - current;
                        assert(aud_at(rem, k));
                        assert forall|j: int| 4 <= j < k implies !#[trigger] aud_at(rem, j) by {
                            assert(aud_at(rem, j) == aud_at(whole, current + j));
                        }
                        lemma_is_first_aud(rem, 4, k);
                        assert(rem.skip(k) =~= whole.skip(found as int));
                        assert(rem.take(k) =~= unit@);
                        let (later, last) = split_units(whole.skip(found as int));
                        assert(buffers(units@) =~= buffers(before).push(unit@));
                        assert(buffers(before) + (seq![unit@] + later) =~= buffers(units@) + later);
                    }
                    current = found;
                },
                None => {
                    proof {
                        assert forall|j: int| 4 <= j implies !#[trigger] aud_at(rem, j) by {
                            assert(aud_at(rem, j) == aud_at(whole, current + j));
                        }
                        lemma_no_first_aud(rem, 4);
                    }
                    going = false;
                },
            }
        }
        let tail = self.buf.split_off(current);
        self.buf = tail;
        proof {
            assert(self.buf@ =~= whole.skip(current as int));
            assert(buffers(units@) + Seq::<Seq<u8>>::empty() =~= buffers(units@));
        }
        units
    }

    /// Emits the unit in progress, if there is one. For the end of the stream.
    pub fn finish(&mut self) -> (res: Option<Vec<u8>>)
        requires
            old(self).wf(),
        ensures
            final(self).wf(),
            final(self)@ == (ParserState { kept: old(self)@.kept, started: false }),
            match res {
                Some(unit) => old(self)@.started && unit@ == old(self)@.kept,
                None => !old(self)@.started,
            },
    {
        if !self.started {
            return None;
        }
        self.started = false;
        let unit = copy_range(&self.buf, 0, self.buf.len());
        assert(unit@ =~= self.buf@);
        Some(unit)
    }
}

/// Whether a command line gives an option a value.
pub open spec fn has_option(args: Seq<Seq<char>>, name: Seq<char>, value: Seq<char>) -> bool {
    exists|i: int| 0 <= i && i + 1 < args.len() && #[trigger] args[i] == name && args[i + 1] == value
}

/// ffmpeg is asked for what the stream is: raw RGBA frames of the given size and rate on
/// its input, the codec of the kind, the bitrate as target, limit and buffer, a keyframe
/// every two seconds, a delimiter before each picture, and H.264 on its output.
pub proof fn law_command(kind: EncoderKind, width: nat, height: nat, fps: nat, kbps: nat)
    ensures
        ({
            let args = encoder_command(kind, width, height, fps, kbps);
            let rate = decimal(kbps) + "k"@;
            &&& has_option(args, "-pix_fmt"@, "rgba"@)
            &&& has_option(args, "-s"@, decimal(width) + "x"@ + decimal(height))
            &&& has_option(args, "-framerate"@, decimal(fps))
            &&& has_option(args, "-i"@, "pipe:0"@)
            &&& has_option(
                args,
                "-c:v"@,
                match kind {
                    EncoderKind::Libx264 => "libx264"@,
                    EncoderKind::Nvenc => "h264_nvenc"@,
                    EncoderKind::Qsv => "h264_qsv"@,
                    EncoderKind::Amf => "h264_amf"@,
                },
            )
            &&& has_option(args, "-pix_fmt"@, "yuv420p"@)
            &&& has_option(args, "-b:v"@, rate)
            &&& has_option(args, "-maxrate"@, rate)
            &&& has_option(args, "-bufsize"@, rate)
            &&& has_option(args, "-g"@, decimal(2 * fps))
            &&& has_option(args, "-bsf:v"@, "h264_metadata=aud=insert,dump_extra=freq=k"@)
            &&& has_option(args, "-f"@, "rawvideo"@)
            &&& has_option(args, "-f"@, "h264"@)
            &&& args.last() == "pipe:1"@
        }),
{
    let args = encoder_command(kind, width, height, fps, kbps);
    let rate = decimal(kbps) + "k"@;
    let n = 15 + tuning(kind).len() as int;
    assert(args.len() == n + 15);
    assert(args[3] == "-f"@ && args[4] == "rawvideo"@);
    assert(args[5] == "-pix_fmt"@ && args[6] == "rgba"@);
    assert(args[7] == "-s"@ && args[8] == decimal(width) + "x"@ + decimal(height));
    assert(args[9] == "-framerate"@ && args[10] == decimal(fps));
    assert(args[11] == "-i"@ && args[12] == "pipe:0"@);
    assert(args[13] == "-c:v"@ && args[14] == codec(kind));
    assert(args[n + 0] == "-pix_fmt"@ && args[n + 1] == "yuv420p"@);
    assert(args[n + 2] == "-b:v"@ && args[n + 3] == rate);
    assert(args[n + 4] == "-maxrate"@ && args[n + 5] == rate);
    assert(args[n + 6] == "-bufsize"@ && args[n + 7] == rate);
    assert(args[n + 8] == "-g"@ && args[n + 9] == decimal(fps * 2));
    assert(args[n + 10] == "-bsf:v"@ && args[n + 11]
        == "h264_metadata=aud=insert,dump_extra=freq=k"@);
    assert(args[n + 12] == "-f"@ && args[n + 13] == "h264"@);
    assert(args[n + 14] == "pipe:1"@);
}

/// Every codec is tuned for low latency in its own way, and for a profile that browsers
/// decode.
pub proof fn law_tuning(kind: EncoderKind)
    ensures
        ({
            let args = tuning(kind);
            &&& match kind {
                EncoderKind::Libx264 => has_option(args, "-preset"@, "ultrafast"@) && has_option(
                    args,
                    "-tune"@,
                    "zerolatency"@,
                ),
                EncoderKind::Nvenc => has_option(args, "-preset"@, "p1"@) && has_option(
                    args,
                    "-tune"@,
                    "ull"@,
                ) && has_option(args, "-rc"@, "cbr"@) && has_option(args, "-zerolatency"@, "1"@),
                EncoderKind::Qsv => has_option(args, "-preset"@, "veryfast"@) && has_option(
                    args,
                    "-async_depth"@,
                    "1"@,
                ),
                EncoderKind::Amf => has_option(args, "-quality"@, "speed"@) && has_option(
                    args,
                    "-usage"@,
                    "ultralowlatency"@,
                ),
            }
            &&& has_option(
                args,
                "-profile:v"@,
                if kind == EncoderKind::Amf {
                    "main"@
                } else {
                    "baseline"@
                },
            )
        }),
{
    let args = tuning(kind);
    let n = args.len() as int;
    assert(args[0] == args[0] && args[2] == args[2] && args[n - 2] == args[n - 2]);
    if kind == EncoderKind::Nvenc {
        assert(args[4] == "-rc"@ && args[6] == "-zerolatency"@);
    }
}

/// The bytes of buffers are those of each, in their order.
pub proof fn law_buffers(v: Seq<Vec<u8>>, i: int)
    requires
        0 <= i < v.len(),
    ensures
        buffers(v).len() == v.len(),
        buffers(v)[i] == v[i]@,
{
}

/// A process that was not found is reported with how to get it, any other failure with the
/// codec that was asked for.
pub proof fn law_spawn_failures(kind: EncoderKind)
    ensures
        spawn_failure(kind, false) == "spawn ffmpeg (codec="@ + codec(kind) + ")"@,
        spawn_failure(kind, true) == spawn_failure(EncoderKind::Libx264, true),
{
}

/// A parser that is fed a stream and then finished has given out all of it, from its first
/// delimiter on, as units that each begin with a delimiter and hold no other. A stream
/// without a delimiter gives nothing.
pub proof fn law_parsing_a_stream(
    parser: &mut AccessUnitParser,
    ended: &mut AccessUnitParser,
    stream: &[u8],
    units: Vec<Vec<u8>>,
    last: Option<Vec<u8>>,
)
    requires
        call_ensures(AccessUnitParser::new, (), *parser),
        call_ensures(AccessUnitParser::feed, (parser, stream), units),
        *ended == *final(parser),
        call_ensures(AccessUnitParser::finish, (ended,), last),
    ensures
        last is Some <==> exists|i: int| #[trigger] aud_at(stream@, i),
        last is None ==> units@.len() == 0,
        last matches Some(unit) ==> {
            let all = joined(buffers(units@)) + unit@;
            &&& all.len() <= stream@.len()
            &&& stream@.skip(stream@.len() - all.len()) == all
            &&& forall|i: int| 0 <= i < stream@.len() - all.len() ==> !#[trigger] aud_at(stream@, i)
            &&& aud_at(unit@, 0)
            &&& forall|j: int| 4 <= j ==> !#[trigger] aud_at(unit@, j)
        },
        forall|k: int| 0 <= k < units@.len() ==> aud_at((#[trigger] units@[k])@, 0),
        forall|k: int, j: int|
            0 <= k < units@.len() && 4 <= j ==> !#[trigger] aud_at(units@[k]@, j),
{
    let state = parser@;
    assert(state.kept + stream@ =~= stream@);
    law_feeding(state, stream@);
    assert forall|k: int| 0 <= k < units@.len() implies aud_at((#[trigger] units@[k])@, 0) by {
        assert(buffers(units@)[k] == units@[k]@);
    }
    assert forall|k: int, j: int| 0 <= k < units@.len() && 4 <= j implies !#[trigger] aud_at(
        units@[k]@,
        j,
    ) by {
        assert(buffers(units@)[k] == units@[k]@);
    }
}

/// A parser in the middle of a unit gives out each unit as soon as the next delimiter has
/// come, and keeps what has come of the next; a parser that is finished gives out what it
/// kept and begins anew.
pub proof fn law_feeding_a_parser(
    parser: &mut AccessUnitParser,
    ended: &mut AccessUnitParser,
    more: &[u8],
    units: Vec<Vec<u8>>,
    last: Option<Vec<u8>>,
)
    requires
        parser.wf(),
        parser@.started,
        call_ensures(AccessUnitParser::feed, (parser, more), units),
        *ended == *final(parser),
        call_ensures(AccessUnitParser::finish, (ended,), last),
    ensures
        joined(buffers(units@)) + final(parser)@.kept == old(parser)@.kept + more@,
        forall|k: int| 0 <= k < units@.len() ==> aud_at((#[trigger] units@[k])@, 0),
        forall|k: int, j: int|
            0 <= k < units@.len() && 4 <= j ==> !#[trigger] aud_at(units@[k]@, j),
        aud_at(final(parser)@.kept, 0),
        forall|j: int| 4 <= j ==> !#[trigger] aud_at(final(parser)@.kept, j),
        last matches Some(unit) && unit@ == final(parser)@.kept,
        !final(ended)@.started,
{
    law_feeding(parser@, more@);
    assert forall|k: int| 0 <= k < units@.len() implies aud_at((#[trigger] units@[k])@, 0) by {
        assert(buffers(units@)[k] == units@[k]@);
    }
    assert forall|k: int, j: int| 0 <= k < units@.len() && 4 <= j implies !#[trigger] aud_at(
        units@[k]@,
        j,
    ) by {
        assert(buffers(units@)[k] == units@[k]@);
    }
}

/// The command names the codec, the size, the rates and the tuning that are asked for, and reads
/// and writes through pipes.
pub proof fn law_arguments(
    kind: EncoderKind,
    width: u32,
    height: u32,
    fps: u32,
    kbps: u32,
    res: Vec<String>,
    name: &'static str,
    tune: Vec<&'static str>,
)
    requires
        call_ensures(encoder_args, (kind, width, height, fps, kbps), res),
        call_ensures(EncoderKind::codec_name, (kind,), name),
        call_ensures(EncoderKind::tune_args, (kind,), tune),
    ensures
        ({
            let args = texts(res@);
            let rate = decimal(kbps as nat) + "k"@;
            &&& has_option(args, "-s"@, decimal(width as nat) + "x"@ + decimal(height as nat))
            &&& has_option(args, "-framerate"@, decimal(fps as nat))
            &&& has_option(args, "-c:v"@, name@)
            &&& has_option(args, "-b:v"@, rate) && has_option(args, "-maxrate"@, rate)
                && has_option(args, "-bufsize"@, rate)
            &&& has_option(args, "-g"@, decimal((2 * fps) as nat))
            &&& has_option(args, "-i"@, "pipe:0"@) && args.last() == "pipe:1"@
            &&& has_option(args, "-bsf:v"@, "h264_metadata=aud=insert,dump_extra=freq=k"@)
        }),
        kind == EncoderKind::Libx264 ==> name@ == "libx264"@ && has_option(
            slice_texts(tune@),
            "-tune"@,
            "zerolatency"@,
        ),
        kind == EncoderKind::Nvenc ==> name@ == "h264_nvenc"@ && has_option(
            slice_texts(tune@),
            "-tune"@,
            "ull"@,
        ),
        kind == EncoderKind::Qsv ==> name@ == "h264_qsv"@ && has_option(
            slice_texts(tune@),
            "-async_depth"@,
            "1"@,
        ),
        kind == EncoderKind::Amf ==> name@ == "h264_amf"@ && has_option(
            slice_texts(tune@),
            "-usage"@,
            "ultralowlatency"@,
        ),
{
    law_command(kind, width as nat, height as nat, fps as nat, kbps as nat);
    law_tuning(kind);
}

} // verus!
