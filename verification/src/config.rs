//! Settings of the sender, and the addresses and sources that follow from them.

use vstd::prelude::*;

use crate::capture::{list_senders, registered, SENDER_NAME_LEN, SENDER_SLOTS};
use crate::encoder::EncoderKind;
use crate::packer::ChromaKey;
use crate::protocol::optional_text;
use crate::text::{contains, decimal, interleaved, law_decimal_is_plain, law_numbers_are_read,
    law_parts_are_found_again, law_trailing_is_cut_off, occurs, parse_unsigned, parsed, split,
    split_on, texts, trim, trim_end_matches, trimmed, without_trailing};

verus! {

/// Which input to capture from. The source's name is a sender name for Spout,
/// part of a window title for a window, and a monitor index for a display.
#[derive(Debug, Clone, Copy, PartialEq, Eq, Structural)]
pub enum SourceKind {
    Spout,
    Window,
    Display,
}

/// What encodes frames that are in main memory.
#[derive(Debug, Clone, Copy, PartialEq, Eq, Structural)]
pub enum EncoderBackend {
    /// An ffmpeg subprocess.
    Ffmpeg,
    /// Media Foundation, on Windows only.
    Mf,
}

/// Settings of the sender.
#[derive(Debug)]
pub struct Config {
    pub relay_url: String,
    /// None asks the relay for a fresh room.
    pub room: Option<String>,
    /// Spout sender name. None picks the first sender found.
    pub sender_name: Option<String>,
    pub fps: u32,
    pub bitrate_kbps: u32,
    pub encoder: EncoderKind,
    pub backend: EncoderBackend,
    pub source_kind: SourceKind,
    /// Part of a window title, or a monitor index. Ignored for Spout.
    pub source_name: Option<String>,
    /// Applied to the captured frame before it is packed.
    pub chroma_key: Option<ChromaKey>,
    /// Maximum width of the packed frame.
    pub max_packed_width: u32,
}

/// The packed width that hardware H.264 encoders take.
pub fn default_max_packed_width() -> (res: u32)
    ensures
        res == 4096,
{
    4096
}

/// The backend where none is set.
pub fn default_backend() -> (res: EncoderBackend)
    ensures
        res == EncoderBackend::Ffmpeg,
{
    EncoderBackend::Ffmpeg
}

/// The source where none is set.
pub fn default_source_kind() -> (res: SourceKind)
    ensures
        res == SourceKind::Spout,
{
    SourceKind::Spout
}

/// The relay where none is set.
pub const DEFAULT_RELAY_URL: &'static str = "https://vtcast.jamku.me";

impl Default for Config {
    /// Packing doubles the width of a frame, so the bitrate is twice what the
    /// visible picture needs.
    fn default() -> (res: Self)
        ensures
            res.relay_url@ == DEFAULT_RELAY_URL@,
            res.room is None,
            res.sender_name is None,
            res.fps == 30,
            res.bitrate_kbps == 8000,
            res.encoder == EncoderKind::Libx264,
            res.backend == EncoderBackend::Ffmpeg,
            res.source_kind == SourceKind::Spout,
            res.source_name is None,
            res.chroma_key is None,
            res.max_packed_width == 4096,
    {
        Config {
            relay_url: DEFAULT_RELAY_URL.to_string(),
            room: None,
            sender_name: None,
            fps: 30,
            bitrate_kbps: 8000,
            encoder: EncoderKind::Libx264,
            backend: default_backend(),
            source_kind: default_source_kind(),
            source_name: None,
            chroma_key: None,
            max_packed_width: default_max_packed_width(),
        }
    }
}

/// The backend that is used: where Media Foundation is at hand and ffmpeg is
/// not, the former stands in for the latter.
pub fn effective_backend(backend: EncoderBackend, mf_available: bool, ffmpeg_available: bool) -> (res:
    EncoderBackend)
    ensures
        res == if mf_available && !ffmpeg_available {
            EncoderBackend::Mf
        } else {
            backend
        },
{
    if mf_available && backend == EncoderBackend::Ffmpeg && !ffmpeg_available {
        EncoderBackend::Mf
    } else {
        backend
    }
}

/// The page on which a room is received.
pub open spec fn receiver_page(relay: Seq<char>, room: Seq<char>) -> Seq<char> {
    without_trailing(relay, '/') + "/r?room="@ + room
}

/// The page on which a room is received.
pub fn receiver_url(relay_url: &str, room: &str) -> (res: String)
    ensures
        res@ == receiver_page(relay_url@, room@),
{
    let mut url = trim_end_matches(relay_url, '/');
    url.append("/r?room=");
    url.append(room);
    url
}

/// Where a relay hands out new rooms.
pub open spec fn new_room_endpoint(relay: Seq<char>) -> Seq<char> {
    without_trailing(relay, '/') + "/api/new-room"@
}

/// Where a relay hands out new rooms.
pub fn new_room_url(relay_url: &str) -> (res: String)
    ensures
        res@ == new_room_endpoint(relay_url@),
{
    let mut url = trim_end_matches(relay_url, '/');
    url.append("/api/new-room");
    url
}

/// What is reported when a relay hands out no room.
pub fn new_room_failure(url: &str) -> (res: String)
    ensures
        res@ == "GET "@ + url@ + " — is the relay running?"@,
{
    let mut s = "GET ".to_string();
    s.append(url);
    s.append(" — is the relay running?");
    s
}

/// Why a chroma key setting is no chroma key.
#[derive(Debug)]
pub enum ChromaKeyError {
    /// It does not have five parts.
    Shape,
    /// This part, the first such, is no number of a byte.
    Number(String),
}

/// The number in part `i` of a list.
pub open spec fn key_part(parts: Seq<Seq<char>>, i: int) -> Option<nat> {
    parsed(trimmed(parts[i]), u8::MAX as nat)
}

/// What is reported of a setting that does not have five parts.
pub const CHROMA_KEY_SHAPE: &'static str =
    "--chroma-key wants 'r,g,b,threshold,softness' (e.g. '0,255,0,60,30')";

/// Reads a chroma key: red, green, blue, threshold and softness, separated by
/// commas.
pub fn parse_chroma_key(s: &str) -> (res: Result<ChromaKey, ChromaKeyError>)
    ensures
        ({
            let parts = split(s@, ',');
            match res {
                Ok(key) => parts.len() == 5 && key_part(parts, 0) == Some(key.r as nat)
                    && key_part(parts, 1) == Some(key.g as nat) && key_part(parts, 2) == Some(
                    key.b as nat,
                ) && key_part(parts, 3) == Some(key.threshold as nat) && key_part(parts, 4) == Some(
                    key.softness as nat,
                ),
                Err(ChromaKeyError::Shape) => parts.len() != 5,
                Err(ChromaKeyError::Number(part)) => parts.len() == 5 && exists|i: int|
                    0 <= i < 5 && key_part(parts, i) is None && part@ == trimmed(parts[i])
                        && forall|j: int| 0 <= j < i ==> #[trigger] key_part(parts, j) is Some,
            }
        }),
{
    let parts = split_on(s, ',');
    let ghost all = split(s@, ',');
    assert(texts(parts@).len() == parts@.len());
    if parts.len() != 5 {
        return Err(ChromaKeyError::Shape);
    }
    let mut numbers: Vec<u8> = Vec::new();
    let mut i: usize = 0;
    while i < 5
        invariant
            i <= 5,
            parts@.len() == 5,
            all == split(s@, ','),
            texts(parts@) == all,
            all.len() == 5,
            numbers@.len() == i,
            forall|j: int|
                0 <= j < i ==> #[trigger] key_part(all, j) == Some(numbers@[j] as nat),
        decreases 5 - i,
    {
        let part = trim(parts[i].as_str());
        assert(texts(parts@)[i as int] == parts@[i as int]@);
        match parse_unsigned(part.as_str(), u8::MAX as u64) {
            Some(n) => {
                numbers.push(n as u8);
            },
            None => {
                assert(key_part(all, i as int) is None);
                return Err(ChromaKeyError::Number(part));
            },
        }
        i += 1;
    }
    proof {
        assert(key_part(all, 0) == Some(numbers@[0] as nat));
        assert(key_part(all, 1) == Some(numbers@[1] as nat));
        assert(key_part(all, 2) == Some(numbers@[2] as nat));
        assert(key_part(all, 3) == Some(numbers@[3] as nat));
        assert(key_part(all, 4) == Some(numbers@[4] as nat));
    }
    Ok(
        ChromaKey {
            r: numbers[0],
            g: numbers[1],
            b: numbers[2],
            threshold: numbers[3],
            softness: numbers[4],
        },
    )
}

/// A source that is being captured.
#[derive(Debug)]
pub struct SourceInfo {
    pub sender_name: String,
    pub width: u32,
    pub height: u32,
    pub adapter: String,
}

/// The content of a [`SourceInfo`].
#[verifier::ext_equal]
pub struct SourceView {
    pub sender_name: Seq<char>,
    pub width: u32,
    pub height: u32,
    pub adapter: Seq<char>,
}

impl View for SourceInfo {
    type V = SourceView;

    open spec fn view(&self) -> SourceView {
        SourceView {
            sender_name: self.sender_name@,
            width: self.width,
            height: self.height,
            adapter: self.adapter@,
        }
    }
}

/// The sender that a setting names among those broadcasting: the one of that
/// very name, else the first whose name contains it, else the name itself. With
/// no setting, the first of all.
pub open spec fn chosen_sender(setting: Option<Seq<char>>, senders: Seq<Seq<char>>) -> Option<
    Seq<char>,
> {
    match setting {
        None => if senders.len() > 0 {
            Some(senders[0])
        } else {
            None
        },
        Some(name) => if senders.contains(name) {
            Some(name)
        } else {
            Some(first_containing(senders, name))
        },
    }
}

/// The first of `senders` that contains `name`; `name` if there is none.
pub open spec fn first_containing(senders: Seq<Seq<char>>, name: Seq<char>) -> Seq<char>
    decreases senders.len(),
{
    if senders.len() == 0 {
        name
    } else if occurs(senders[0], name) {
        senders[0]
    } else {
        first_containing(senders.skip(1), name)
    }
}

/// The sender that the settings name among those broadcasting.
pub fn resolve_spout_name(sender_name: &Option<String>, senders: &Vec<String>) -> (res: Option<String>)
    ensures
        optional_text(res) == chosen_sender(optional_text(*sender_name), texts(senders@)),
{
    let len: usize = senders.len();
    let ghost all = texts(senders@);
    let name = match sender_name {
        Some(name) => name,
        None => {
            if len == 0 {
                return None;
            }
            let first = senders[0].clone();
            assert(all[0] == first@);
            return Some(first);
        },
    };
    let mut i: usize = 0;
    while i < len
        invariant
            i <= len,
            len == senders@.len(),
            all == texts(senders@),
            *sender_name == Some(*name),
            forall|j: int| 0 <= j < i ==> #[trigger] all[j] != name@,
        decreases len - i,
    {
        if senders[i] == *name {
            assert(all[i as int] == name@);
            return Some(name.clone());
        }
        i += 1;
    }
    assert(!all.contains(name@));
    assert(all.skip(0) =~= all);
    i = 0;
    while i < len
        invariant
            i <= len,
            len == senders@.len(),
            all == texts(senders@),
            *sender_name == Some(*name),
            !all.contains(name@),
            first_containing(all, name@) == first_containing(all.skip(i as int), name@),
        decreases len - i,
    {
        assert(all.skip(i as int)[0] == senders@[i as int]@);
        assert(all.skip(i as int).skip(1) =~= all.skip(i + 1));
        if contains(senders[i].as_str(), name.as_str()) {
            return Some(senders[i].clone());
        }
        i += 1;
    }
    Some(name.clone())
}

/// Why a source cannot be opened.
#[derive(Debug, Clone, Copy, PartialEq, Eq, Structural)]
pub enum SourceError {
    /// There is no list of Spout senders.
    NoRegistry,
    /// No Spout sender is broadcasting.
    NoSender,
    /// A window capture needs a title.
    NoWindowTitle,
    /// Windows and displays are captured on Windows only.
    WindowCaptureUnsupported,
    DisplayCaptureUnsupported,
}

impl SourceError {
    /// What is reported.
    pub fn text(self) -> (res: &'static str)
        ensures
            res@ == match self {
                SourceError::NoRegistry
                    => "OpenFileMappingA(\"SpoutSenderNames\") failed — no Spout senders broadcasting?"@,
                SourceError::NoSender => "no Spout senders broadcasting"@,
                SourceError::NoWindowTitle
                    => "source_name (window title) required for window capture"@,
                SourceError::WindowCaptureUnsupported => "window capture is Windows-only"@,
                SourceError::DisplayCaptureUnsupported => "display capture is Windows-only"@,
            },
    {
        match self {
            SourceError::NoRegistry
                => "OpenFileMappingA(\"SpoutSenderNames\") failed — no Spout senders broadcasting?",
            SourceError::NoSender => "no Spout senders broadcasting",
            SourceError::NoWindowTitle => "source_name (window title) required for window capture",
            SourceError::WindowCaptureUnsupported => "window capture is Windows-only",
            SourceError::DisplayCaptureUnsupported => "display capture is Windows-only",
        }
    }
}

/// The names of the senders. `registry` is the shared memory that lists them, if
/// there is one.
pub fn list_spout_senders(registry: Option<&[u8]>) -> (res: Result<Vec<String>, SourceError>)
    requires
        registry matches Some(bytes) ==> bytes@.len() >= SENDER_SLOTS * SENDER_NAME_LEN,
    ensures
        match registry {
            Some(bytes) => res matches Ok(names) && texts(names@) == registered(
                bytes@,
                SENDER_SLOTS as nat,
            ),
            None => res == Err::<Vec<String>, SourceError>(SourceError::NoRegistry),
        },
{
    match registry {
        Some(bytes) => Ok(list_senders(bytes)),
        None => Err(SourceError::NoRegistry),
    }
}

/// What to open.
#[derive(Debug)]
pub enum SourceTarget {
    /// The Spout sender of this name.
    Spout(String),
    /// A window whose title contains this.
    Window(String),
    /// The monitor of this index; the primary one where there is none.
    Display(Option<usize>),
}

/// Whether a target is the one that the settings ask for. A monitor index that
/// does not fit is no index.
pub open spec fn is_target(
    config: Config,
    senders: Seq<Seq<char>>,
    windows: bool,
    res: Result<SourceTarget, SourceError>,
) -> bool {
    match config.source_kind {
        SourceKind::Spout => match chosen_sender(optional_text(config.sender_name), senders) {
            Some(name) => res matches Ok(SourceTarget::Spout(s)) && s@ == name,
            None => res == Err::<SourceTarget, SourceError>(SourceError::NoSender),
        },
        SourceKind::Window => if !windows {
            res == Err::<SourceTarget, SourceError>(SourceError::WindowCaptureUnsupported)
        } else {
            match optional_text(config.source_name) {
                Some(title) => res matches Ok(SourceTarget::Window(s)) && s@ == title,
                None => res == Err::<SourceTarget, SourceError>(SourceError::NoWindowTitle),
            }
        },
        SourceKind::Display => if !windows {
            res == Err::<SourceTarget, SourceError>(SourceError::DisplayCaptureUnsupported)
        } else {
            res matches Ok(SourceTarget::Display(index)) && match optional_text(
                config.source_name,
            ) {
                Some(s) => match parsed(s, usize::MAX as nat) {
                    Some(n) => index matches Some(i) && i == n,
                    None => index is None,
                },
                None => index is None,
            }
        },
    }
}

/// Decides what to open. `senders` are the Spout senders broadcasting;
/// `windows` says whether windows and displays can be captured here.
pub fn open_capture(config: &Config, senders: &Vec<String>, windows: bool) -> (res: Result<
    SourceTarget,
    SourceError,
>)
    ensures
        is_target(*config, texts(senders@), windows, res),
{
    match config.source_kind {
        SourceKind::Spout => match resolve_spout_name(&config.sender_name, senders) {
            Some(name) => Ok(SourceTarget::Spout(name)),
            None => Err(SourceError::NoSender),
        },
        SourceKind::Window => {
            if !windows {
                return Err(SourceError::WindowCaptureUnsupported);
            }
            match &config.source_name {
                Some(title) => Ok(SourceTarget::Window(title.clone())),
                None => Err(SourceError::NoWindowTitle),
            }
        },
        SourceKind::Display => {
            if !windows {
                return Err(SourceError::DisplayCaptureUnsupported);
            }
            let index = match &config.source_name {
                Some(s) => match parse_unsigned(s.as_str(), usize::MAX as u64) {
                    Some(n) => Some(n as usize),
                    None => None,
                },
                None => None,
            };
            Ok(SourceTarget::Display(index))
        },
    }
}

/// A source as it is announced. A window capture names no adapter and a display
/// capture neither: what captures them stands in its place.
pub fn source_info(kind: SourceKind, name: String, width: u32, height: u32, adapter: String) -> (res:
    SourceInfo)
    ensures
        res@ == (SourceView {
            sender_name: name@,
            width,
            height,
            adapter: match kind {
                SourceKind::Spout => adapter@,
                SourceKind::Window => "WGC"@,
                SourceKind::Display => "DDA"@,
            },
        }),
{
    let adapter = match kind {
        SourceKind::Spout => adapter,
        SourceKind::Window => "WGC".to_string(),
        SourceKind::Display => "DDA".to_string(),
    };
    SourceInfo { sender_name: name, width, height, adapter }
}

/// A source whose frames stay on the GPU, as it is announced.
pub fn gpu_source_info(name: String, width: u32, height: u32, adapter: &str) -> (res: SourceInfo)
    ensures
        res@ == (SourceView { sender_name: name@, width, height, adapter: adapter@ + " (GPU)"@ }),
{
    let mut label = adapter.to_string();
    label.append(" (GPU)");
    SourceInfo { sender_name: name, width, height, adapter: label }
}

/// Of the senders broadcasting, the one of the very name that is set is chosen. Where
/// there is none, it is the first whose name contains the setting, and where there is
/// none either, what is set is looked for all the same. With nothing set it is the first
/// of all, and none is chosen only where nothing is set and none broadcasts.
pub proof fn law_sender_is_chosen(name: Seq<char>, senders: Seq<Seq<char>>, k: int)
    ensures
        senders.contains(name) ==> chosen_sender(Some(name), senders) == Some(name),
        !senders.contains(name) && 0 <= k < senders.len() && occurs(senders[k], name) && (forall|
            j: int,
        |
            0 <= j < k ==> !occurs(#[trigger] senders[j], name)) ==> chosen_sender(
            Some(name),
            senders,
        ) == Some(senders[k]),
        (forall|j: int| 0 <= j < senders.len() ==> !occurs(#[trigger] senders[j], name))
            ==> chosen_sender(Some(name), senders) == Some(name),
        senders.len() > 0 ==> chosen_sender(None, senders) == Some(senders[0]),
        chosen_sender(None, Seq::<Seq<char>>::empty()) is None,
{
    if 0 <= k < senders.len() && occurs(senders[k], name) && (forall|j: int|
        0 <= j < k ==> !occurs(#[trigger] senders[j], name)) {
        lemma_first_containing(senders, name, k);
    }
    if forall|j: int| 0 <= j < senders.len() ==> !occurs(#[trigger] senders[j], name) {
        lemma_none_containing(senders, name);
    }
}

/// The first that contains a text is found.
proof fn lemma_first_containing(senders: Seq<Seq<char>>, name: Seq<char>, k: int)
    requires
        0 <= k < senders.len(),
        occurs(senders[k], name),
        forall|j: int| 0 <= j < k ==> !occurs(#[trigger] senders[j], name),
    ensures
        first_containing(senders, name) == senders[k],
    decreases k,
{
    if k > 0 {
        assert(!occurs(senders[0], name));
        let rest = senders.skip(1);
        assert forall|j: int| 0 <= j < k - 1 implies !occurs(#[trigger] rest[j], name) by {
            assert(rest[j] == senders[j + 1]);
        }
        lemma_first_containing(rest, name, k - 1);
    }
}

/// Where none contains a text, the text itself is what is left.
proof fn lemma_none_containing(senders: Seq<Seq<char>>, name: Seq<char>)
    requires
        forall|j: int| 0 <= j < senders.len() ==> !occurs(#[trigger] senders[j], name),
    ensures
        first_containing(senders, name) == name,
    decreases senders.len(),
{
    if senders.len() > 0 {
        assert(!occurs(senders[0], name));
        let rest = senders.skip(1);
        assert forall|j: int| 0 <= j < rest.len() implies !occurs(#[trigger] rest[j], name) by {
            assert(rest[j] == senders[j + 1]);
        }
        lemma_none_containing(rest, name);
    }
}

/// The addresses of a relay are its own address, whether or not it ends in slashes, and
/// what is asked for: the page of a room, and the place where new rooms are handed out.
pub proof fn law_relay_addresses(host: Seq<char>, slashes: Seq<char>, room: Seq<char>)
    requires
        host.len() > 0,
        host.last() != '/',
        forall|i: int| 0 <= i < slashes.len() ==> #[trigger] slashes[i] == '/',
    ensures
        receiver_page(host + slashes, room) == host + "/r?room="@ + room,
        new_room_endpoint(host + slashes) == host + "/api/new-room"@,
{
    lemma_slashes_are_cut_off(host, slashes);
}

/// Slashes at the end of an address are cut off.
pub(crate) proof fn lemma_slashes_are_cut_off(host: Seq<char>, slashes: Seq<char>)
    requires
        host.len() > 0,
        host.last() != '/',
        forall|i: int| 0 <= i < slashes.len() ==> #[trigger] slashes[i] == '/',
    ensures
        without_trailing(host + slashes, '/') == host,
{
    let s = host + slashes;
    law_trailing_is_cut_off(s, '/');
    let n = without_trailing(s, '/').len() as int;
    if n > host.len() {
        assert(s[n - 1] == slashes[n - 1 - host.len()]);
    }
    if n < host.len() {
        assert(s[host.len() - 1] == host.last());
    }
    assert(s.take(host.len() as int) =~= host);
}

/// A part of a chroma key setting is a number of a byte, with white space around it
/// allowed.
pub proof fn law_key_parts_are_numbers(parts: Seq<Seq<char>>, i: int, n: nat)
    requires
        0 <= i < parts.len(),
        trimmed(parts[i]) == decimal(n),
    ensures
        key_part(parts, i) == if n < 256 {
            Some(n)
        } else {
            None
        },
{
    law_numbers_are_read(n, 255, seq![], 0);
}

/// What is opened is what the settings ask for: the sender that is chosen, the window whose
/// title is set, or the monitor whose number is set, the primary one where none is. Without
/// a sender, without a title, and for windows and monitors where they cannot be captured, it
/// is an error that says so.
pub proof fn law_sources_are_opened(
    config: Config,
    senders: Seq<Seq<char>>,
    windows: bool,
    n: nat,
    res: Result<SourceTarget, SourceError>,
)
    requires
        is_target(config, senders, windows, res),
        n <= usize::MAX,
    ensures
        config.source_kind == SourceKind::Spout ==> match chosen_sender(
            optional_text(config.sender_name),
            senders,
        ) {
            Some(name) => res matches Ok(SourceTarget::Spout(s)) && s@ == name,
            None => res matches Err(e) && e == SourceError::NoSender,
        },
        config.source_kind == SourceKind::Window && windows ==> match config.source_name {
            Some(title) => res matches Ok(SourceTarget::Window(s)) && s@ == title@,
            None => res matches Err(e) && e == SourceError::NoWindowTitle,
        },
        config.source_kind == SourceKind::Display && windows ==> (res matches Ok(
            SourceTarget::Display(index),
        ) && match config.source_name {
            Some(s) => s@ == decimal(n) ==> index == Some(n as usize),
            None => index is None,
        }),
        config.source_kind == SourceKind::Window && !windows ==> (res matches Err(e) && e
            == SourceError::WindowCaptureUnsupported),
        config.source_kind == SourceKind::Display && !windows ==> (res matches Err(e) && e
            == SourceError::DisplayCaptureUnsupported),
{
    law_numbers_are_read(n, usize::MAX as nat, seq![], 0);
}

/// Five numbers of a byte, separated by commas, are read as the key that they spell: red,
/// green, blue, threshold and softness.
pub proof fn law_reading_a_chroma_key(
    s: &str,
    r: u8,
    g: u8,
    b: u8,
    threshold: u8,
    softness: u8,
    res: Result<ChromaKey, ChromaKeyError>,
)
    requires
        call_ensures(parse_chroma_key, (s,), res),
        s@ == interleaved(
            seq![
                decimal(r as nat),
                decimal(g as nat),
                decimal(b as nat),
                decimal(threshold as nat),
                decimal(softness as nat),
            ],
            ',',
        ),
    ensures
        res matches Ok(key) && key == (ChromaKey { r, g, b, threshold, softness }),
{
    let parts = seq![
        decimal(r as nat),
        decimal(g as nat),
        decimal(b as nat),
        decimal(threshold as nat),
        decimal(softness as nat),
    ];
    let numbers = seq![r as nat, g as nat, b as nat, threshold as nat, softness as nat];
    assert forall|k: int| 0 <= k < parts.len() implies !(#[trigger] parts[k]).contains(',')
        && key_part(parts, k) == Some(numbers[k]) by {
        assert(k == 0 || k == 1 || k == 2 || k == 3 || k == 4);
        law_decimal_is_plain(numbers[k], ',');
        law_numbers_are_read(numbers[k], 255, seq![], 0);
        assert(parts[k] == decimal(numbers[k]));
    }
    law_parts_are_found_again(parts, ',');
    assert(key_part(parts, 0) == Some(numbers[0]));
    assert(key_part(parts, 1) == Some(numbers[1]));
    assert(key_part(parts, 2) == Some(numbers[2]));
    assert(key_part(parts, 3) == Some(numbers[3]));
    assert(key_part(parts, 4) == Some(numbers[4]));
}

/// A setting with more or fewer commas than four is none of five parts.
pub proof fn law_misshapen_chroma_keys(s: &str, res: Result<ChromaKey, ChromaKeyError>)
    requires
        call_ensures(parse_chroma_key, (s,), res),
    ensures
        res matches Err(e) && e is Shape <==> split(s@, ',').len() != 5,
{
}

/// Media Foundation stands in for ffmpeg where there is the one and not the other; else what is
/// set is used.
pub proof fn law_backends(backend: EncoderBackend, mf: bool, ffmpeg: bool, res: EncoderBackend)
    requires
        call_ensures(effective_backend, (backend, mf, ffmpeg), res),
    ensures
        mf && !ffmpeg ==> res == EncoderBackend::Mf,
        !mf || ffmpeg ==> res == backend,
{
}

/// A source is announced under its name and with its size. Spout names the adapter; windows and
/// displays name what captures them; frames that stay on the GPU say so.
pub proof fn law_announced_sources(
    kind: SourceKind,
    name: String,
    width: u32,
    height: u32,
    adapter: String,
    res: SourceInfo,
    gpu: SourceInfo,
    on: &str,
)
    requires
        call_ensures(source_info, (kind, name, width, height, adapter), res),
        call_ensures(gpu_source_info, (name, width, height, on), gpu),
    ensures
        res.sender_name@ == name@ && res.width == width && res.height == height,
        kind == SourceKind::Spout ==> res.adapter@ == adapter@,
        kind == SourceKind::Window ==> res.adapter@ == "WGC"@,
        kind == SourceKind::Display ==> res.adapter@ == "DDA"@,
        gpu.sender_name@ == name@ && gpu.width == width && gpu.height == height,
        gpu.adapter@ == on@ + " (GPU)"@,
{
    assert(res@.sender_name == name@ && res@.width == width && res@.height == height);
    assert(gpu@.sender_name == name@ && gpu@.width == width && gpu@.height == height);
    assert(res@.adapter == res.adapter@ && gpu@.adapter == gpu.adapter@);
}

/// A pipeline without settings captures Spout at thirty frames a second, encodes 8000 kbit a
/// second by ffmpeg's own encoder, and stays within the width that hardware takes.
pub proof fn law_default_settings(config: Config)
    requires
        call_ensures(<Config as Default>::default, (), config),
    ensures
        config.fps == 30,
        config.bitrate_kbps == 8000,
        config.encoder == EncoderKind::Libx264,
        config.backend == EncoderBackend::Ffmpeg,
        config.source_kind == SourceKind::Spout,
        config.max_packed_width == 4096,
        config.room is None && config.sender_name is None && config.source_name is None
            && config.chroma_key is None,
        config.relay_url@ == DEFAULT_RELAY_URL@,
{
}

/// The sender of the very name that is set is taken where it broadcasts, and with nothing set
/// the first of all; nothing is found only where nothing is set and none broadcasts.
pub proof fn law_resolving_a_sender(
    name: String,
    senders: Vec<String>,
    named: Option<String>,
    first: Option<String>,
)
    requires
        call_ensures(resolve_spout_name, (&Some(name), &senders), named),
        call_ensures(resolve_spout_name, (&None::<String>, &senders), first),
    ensures
        named is Some,
        texts(senders@).contains(name@) ==> (named matches Some(s) && s@ == name@),
        senders@.len() > 0 ==> (first matches Some(s) && s@ == senders@[0]@),
        senders@.len() == 0 ==> first is None && (named matches Some(s) && s@ == name@),
{
    let all = texts(senders@);
    law_sender_is_chosen(name@, all, 0);
    if senders@.len() > 0 {
        assert(all[0] == senders@[0]@);
    }
}

/// Sources are opened as they are set: the sender that is found, the window of the title, or the
/// display of the number; and what cannot be captured is refused.
pub proof fn law_opening(
    config: Config,
    senders: Vec<String>,
    windows: bool,
    n: nat,
    res: Result<SourceTarget, SourceError>,
)
    requires
        call_ensures(open_capture, (&config, &senders, windows), res),
        n <= usize::MAX,
    ensures
        config.source_kind == SourceKind::Spout ==> match chosen_sender(
            optional_text(config.sender_name),
            texts(senders@),
        ) {
            Some(name) => res matches Ok(SourceTarget::Spout(s)) && s@ == name,
            None => res matches Err(e) && e == SourceError::NoSender,
        },
        config.source_kind == SourceKind::Window && windows ==> match config.source_name {
            Some(title) => res matches Ok(SourceTarget::Window(s)) && s@ == title@,
            None => res matches Err(e) && e == SourceError::NoWindowTitle,
        },
        config.source_kind == SourceKind::Display && windows ==> (res matches Ok(
            SourceTarget::Display(index),
        ) && match config.source_name {
            Some(s) => s@ == decimal(n) ==> index == Some(n as usize),
            None => index is None,
        }),
        config.source_kind != SourceKind::Spout && !windows ==> res is Err,
{
    law_sources_are_opened(config, texts(senders@), windows, n, res);
}

/// The page of a room and the address for new rooms are at the relay, with or without slashes at
/// its end.
pub proof fn law_pages(relay: &str, room: &str, host: Seq<char>, page: String, new: String)
    requires
        call_ensures(receiver_url, (relay, room), page),
        call_ensures(new_room_url, (relay,), new),
        host.len() > 0,
        host.last() != '/',
        relay@ == host || relay@ == host.push('/'),
    ensures
        page@ == host + "/r?room="@ + room@,
        new@ == host + "/api/new-room"@,
{
    let slashes = relay@.skip(host.len() as int);
    assert(relay@ =~= host + slashes);
    law_relay_addresses(host, slashes, room@);
}

/// The senders of a registry are listed slot by slot, and without a registry that is said.
pub proof fn law_registries(registry: Option<&[u8]>, res: Result<Vec<String>, SourceError>)
    requires
        call_ensures(list_spout_senders, (registry,), res),
    ensures
        res is Ok <==> registry is Some,
        registry is None ==> res->Err_0 == SourceError::NoRegistry,
        registry matches Some(bytes) ==> texts(res->Ok_0@) == registered(bytes@, 10),
{
}

/// A display that is not named by a number is left to choice.
pub proof fn law_unreadable_displays(
    config: Config,
    senders: Vec<String>,
    name: Seq<char>,
    i: int,
    res: Result<SourceTarget, SourceError>,
)
    requires
        call_ensures(open_capture, (&config, &senders, true), res),
        config.source_kind == SourceKind::Display,
        optional_text(config.source_name) == Some(name),
        name.len() == 0 || (0 < i < name.len() && !('0' <= name[i] <= '9')),
    ensures
        res matches Ok(SourceTarget::Display(index)) && index is None,
{
    law_numbers_are_read(0, usize::MAX as nat, name, i);
}

/// What is not set is Spout, through ffmpeg, within the width that hardware takes.
pub proof fn law_defaults(width: u32, backend: EncoderBackend, source: SourceKind)
    requires
        call_ensures(default_max_packed_width, (), width),
        call_ensures(default_backend, (), backend),
        call_ensures(default_source_kind, (), source),
    ensures
        width == 4096,
        backend == EncoderBackend::Ffmpeg,
        source == SourceKind::Spout,
{
}

/// A relay that does not answer is named.
pub proof fn law_unanswered_requests(url: &str, res: String)
    requires
        call_ensures(new_room_failure, (url,), res),
    ensures
        occurs(res@, url@),
{
    crate::text::law_occurring(res@, url@, "GET "@, " — is the relay running?"@);
}

} // verus!
