//! Window capture.
//!
//! A window's frames arrive by themselves; the last one is kept, and the part
//! of it that is the window's client area is what a frame shows.

use vstd::prelude::*;

use crate::capture::{fill_opaque_black, frame_bytes, opaque_black, ColorOrder, FrameCapture,
    GrabError};
use crate::config::SourceError;
use crate::pixels::{frame_len, index_of, lemma_frame_is_rows, lemma_index_inside, lemma_next_row,
    lemma_row_split};
use crate::protocol::optional_text;
use crate::resize::{even, even_part};
use crate::text::{contains, is_all_blank, is_blank, law_occurring, law_trimming, lowercase, occurs, texts,
    to_lowercase, trimmed};

verus! {

/// How long the first frame may take, in milliseconds.
pub const FIRST_FRAME_TIMEOUT_MS: u64 = 8000;

/// How often to look for the first frame, in milliseconds.
pub const FIRST_FRAME_POLL_MS: u64 = 20;

/// Edges on the screen.
#[derive(Debug, Clone, Copy, PartialEq, Eq, Structural)]
pub struct Edges {
    pub left: i32,
    pub top: i32,
    pub right: i32,
    pub bottom: i32,
}

/// A part of a captured frame.
#[derive(Debug, Clone, Copy, PartialEq, Eq, Structural)]
pub struct Crop {
    pub x: u32,
    pub y: u32,
    pub width: u32,
    pub height: u32,
}

/// A difference that is not negative.
pub open spec fn excess(a: int, b: int) -> int {
    if a > b {
        a - b
    } else {
        0
    }
}

/// A difference that is not negative.
fn excess_of(a: i32, b: i32) -> (res: u32)
    ensures
        res == excess(a as int, b as int),
{
    if a > b {
        (a as i64 - b as i64) as u32
    } else {
        0
    }
}

/// Where the client area lies in its window. `origin` is the client area's
/// corner on the screen. None if the client area is empty.
pub fn client_crop(window: Edges, client: Edges, origin: (i32, i32)) -> (res: Option<Crop>)
    ensures
        ({
            let w = excess(client.right as int, client.left as int);
            let h = excess(client.bottom as int, client.top as int);
            match res {
                Some(crop) => crop.x == excess(origin.0 as int, window.left as int) && crop.y
                    == excess(origin.1 as int, window.top as int) && crop.width == w && crop.height
                    == h && w > 0 && h > 0,
                None => w == 0 || h == 0,
            }
        }),
{
    let x = excess_of(origin.0, window.left);
    let y = excess_of(origin.1, window.top);
    let width = excess_of(client.right, client.left);
    let height = excess_of(client.bottom, client.top);
    if width == 0 || height == 0 {
        return None;
    }
    Some(Crop { x, y, width, height })
}

/// The smaller of two numbers.
pub open spec fn smaller(a: int, b: int) -> int {
    if a < b {
        a
    } else {
        b
    }
}

/// The part of a frame that is shown: the client area as far as it lies inside
/// the frame, or all of it, on even numbers.
pub open spec fn shown_crop(crop: Option<Crop>, raw_w: u32, raw_h: u32) -> Crop {
    match crop {
        Some(c) => {
            let x = smaller(c.x as int, raw_w as int);
            let y = smaller(c.y as int, raw_h as int);
            let w = smaller(c.width as int, raw_w - x);
            let h = smaller(c.height as int, raw_h - y);
            Crop {
                x: even(x as nat) as u32,
                y: even(y as nat) as u32,
                width: even(w as nat) as u32,
                height: even(h as nat) as u32,
            }
        },
        None => Crop {
            x: 0,
            y: 0,
            width: even(raw_w as nat) as u32,
            height: even(raw_h as nat) as u32,
        },
    }
}

/// What is shown lies inside the frame, on even numbers.
pub proof fn law_crop_is_inside(crop: Option<Crop>, raw_w: u32, raw_h: u32)
    ensures
        ({
            let c = shown_crop(crop, raw_w, raw_h);
            &&& c.x + c.width <= raw_w
            &&& c.y + c.height <= raw_h
            &&& c.x % 2 == 0 && c.y % 2 == 0 && c.width % 2 == 0 && c.height % 2 == 0
        }),
{
}

/// The part of a frame that is shown.
pub fn effective_crop(crop: Option<Crop>, raw_w: u32, raw_h: u32) -> (res: Crop)
    ensures
        res == shown_crop(crop, raw_w, raw_h),
{
    match crop {
        Some(c) => {
            let x: u32 = if c.x < raw_w {
                c.x
            } else {
                raw_w
            };
            let y: u32 = if c.y < raw_h {
                c.y
            } else {
                raw_h
            };
            let width: u32 = if c.width < raw_w - x {
                c.width
            } else {
                raw_w - x
            };
            let height: u32 = if c.height < raw_h - y {
                c.height
            } else {
                raw_h - y
            };
            Crop {
                x: even_part(x),
                y: even_part(y),
                width: even_part(width),
                height: even_part(height),
            }
        },
        None => Crop { x: 0, y: 0, width: even_part(raw_w), height: even_part(raw_h) },
    }
}

/// Why a window cannot be captured.
pub open spec fn refusal(title: Seq<char>, minimized: bool, visible: bool) -> Option<Seq<char>> {
    if minimized {
        Some("'"@ + title + "' is minimized — restore the window and try again"@)
    } else if !visible {
        Some("'"@ + title + "' is hidden — bring the window to the foreground"@)
    } else {
        None
    }
}

/// Why a window cannot be captured: one that is minimized or hidden delivers no
/// frames.
pub fn window_refusal(title: &str, minimized: bool, visible: bool) -> (res: Option<String>)
    ensures
        optional_text(res) == refusal(title@, minimized, visible),
{
    if !minimized && visible {
        return None;
    }
    let mut s = "'".to_string();
    s.append(title);
    if minimized {
        s.append("' is minimized — restore the window and try again");
    } else {
        s.append("' is hidden — bring the window to the foreground");
    }
    Some(s)
}

/// Whether to try again with the system's defaults after capturing without a
/// border failed: where the failure is that something is unsupported.
pub fn retry_with_default_border(failure: &str) -> (res: bool)
    ensures
        res == occurs(failure@, "Unsupported"@),
{
    contains(failure, "Unsupported")
}

/// What to do while the first frame is awaited.
#[derive(Debug, Clone, Copy, PartialEq, Eq, Structural)]
pub enum FirstFrame {
    /// It came, and has these dimensions.
    Here(u32, u32),
    /// It takes too long.
    TimedOut,
    /// Look again after this many milliseconds.
    Wait(u64),
}

/// What to do while the first frame is awaited. A frame of nothing is none.
pub fn await_first_frame(dims: Option<(u32, u32)>, elapsed_ms: u64) -> (res: FirstFrame)
    ensures
        res == match dims {
            Some((w, h)) if w > 0 && h > 0 => FirstFrame::Here(w, h),
            _ => if elapsed_ms > FIRST_FRAME_TIMEOUT_MS {
                FirstFrame::TimedOut
            } else {
                FirstFrame::Wait(FIRST_FRAME_POLL_MS)
            },
        },
{
    if let Some((w, h)) = dims {
        if w > 0 && h > 0 {
            return FirstFrame::Here(w, h);
        }
    }
    if elapsed_ms > FIRST_FRAME_TIMEOUT_MS {
        FirstFrame::TimedOut
    } else {
        FirstFrame::Wait(FIRST_FRAME_POLL_MS)
    }
}

/// What is reported when the first frame takes too long.
pub open spec fn timeout_text(title: Seq<char>) -> Seq<char> {
    "WGC did not produce a frame within 8s for '"@ + title
        + "'. The window may be on another virtual desktop, occluded, or doesn't support GraphicsCapture (some games / DRM windows refuse)."@
}

/// What is reported when the first frame takes too long.
pub fn first_frame_timeout_text(title: &str) -> (res: String)
    ensures
        res@ == timeout_text(title@),
{
    let mut s = "WGC did not produce a frame within 8s for '".to_string();
    s.append(title);
    s.append(
        "'. The window may be on another virtual desktop, occluded, or doesn't support GraphicsCapture (some games / DRM windows refuse).",
    );
    s
}

/// What is found out about a window before it is captured: whether it is minimized,
/// whether it is visible, and where its client area lies.
#[derive(Debug, Clone, Copy, PartialEq, Eq, Structural)]
pub struct WindowFacts {
    pub minimized: bool,
    pub visible: bool,
    pub client: Option<Crop>,
}

/// What to do to open a window.
#[derive(Debug)]
pub enum OpenStep {
    /// Start capturing it, without a border or as the system has it.
    Start { hide_border: bool },
    /// Look for the first frame.
    Poll,
    /// Look for it again after this many milliseconds.
    Wait(u64),
    /// It is open, and this part of it is shown.
    Open(Crop),
    /// Give up, and report this.
    Fail(String),
}

/// A window that is being opened.
#[derive(Debug)]
pub struct WindowOpening {
    pub title: String,
    pub client: Option<Crop>,
    /// Whether it is tried without a border.
    pub hide_border: bool,
}

/// Whether a step begins to open a window: one about which something was found out
/// must be such that it delivers frames.
pub open spec fn begins(title: Seq<char>, facts: Option<WindowFacts>, step: OpenStep) -> bool {
    match facts {
        Some(f) => match refusal(title, f.minimized, f.visible) {
            Some(text) => step matches OpenStep::Fail(t) && t@ == text,
            None => step == (OpenStep::Start { hide_border: true }),
        },
        None => step == (OpenStep::Start { hide_border: true }),
    }
}

impl WindowOpening {
    /// Begins to open a window.
    pub fn new(title: String, facts: Option<WindowFacts>) -> (res: (Self, OpenStep))
        ensures
            res.0.title == title,
            res.0.client == match facts {
                Some(f) => f.client,
                None => None,
            },
            res.0.hide_border,
            begins(title@, facts, res.1),
    {
        let (client, text) = match facts {
            Some(f) => (f.client, window_refusal(title.as_str(), f.minimized, f.visible)),
            None => (None, None),
        };
        let step = match text {
            Some(text) => OpenStep::Fail(text),
            None => OpenStep::Start { hide_border: true },
        };
        (WindowOpening { title, client, hide_border: true }, step)
    }

    /// Capturing started, or failed. Where hiding the border is what is unsupported,
    /// it is tried once more with the system's defaults.
    pub fn started(&mut self, failure: Option<String>) -> (res: OpenStep)
        ensures
            final(self).title == old(self).title,
            final(self).client == old(self).client,
            match failure {
                None => res is Poll && final(self).hide_border == old(self).hide_border,
                Some(text) => if old(self).hide_border && occurs(text@, "Unsupported"@) {
                    res == (OpenStep::Start { hide_border: false }) && !final(self).hide_border
                } else {
                    res == OpenStep::Fail(text) && final(self).hide_border
                        == old(self).hide_border
                },
            },
    {
        match failure {
            None => OpenStep::Poll,
            Some(text) => {
                if self.hide_border && retry_with_default_border(text.as_str()) {
                    self.hide_border = false;
                    OpenStep::Start { hide_border: false }
                } else {
                    OpenStep::Fail(text)
                }
            },
        }
    }

    /// The first frame was looked for, `elapsed_ms` after capturing started.
    pub fn polled(&self, dims: Option<(u32, u32)>, elapsed_ms: u64) -> (res: OpenStep)
        ensures
            match dims {
                Some((w, h)) if w > 0 && h > 0 => res == OpenStep::Open(
                    shown_crop(self.client, w, h),
                ),
                _ => if elapsed_ms > FIRST_FRAME_TIMEOUT_MS {
                    res matches OpenStep::Fail(text) && text@ == timeout_text(self.title@)
                } else {
                    res == OpenStep::Wait(FIRST_FRAME_POLL_MS)
                },
            },
    {
        match await_first_frame(dims, elapsed_ms) {
            FirstFrame::Here(w, h) => OpenStep::Open(effective_crop(self.client, w, h)),
            FirstFrame::Wait(ms) => OpenStep::Wait(ms),
            FirstFrame::TimedOut => OpenStep::Fail(first_frame_timeout_text(self.title.as_str())),
        }
    }
}

/// Whether a title contains a text, whatever the case of their letters.
pub open spec fn title_matches(title: Seq<char>, needle: Seq<char>) -> bool {
    title.len() > 0 && occurs(lowercase(title), lowercase(needle))
}

/// Whether a title contains a text in lowercase, whatever the case of its own
/// letters. `lower_title` and `lower_needle` are the two in lowercase.
pub fn lowered_title_matches(title: &str, lower_title: &str, lower_needle: &str) -> (res: bool)
    ensures
        res == (title@.len() > 0 && occurs(lower_title@, lower_needle@)),
{
    !title.is_empty() && contains(lower_title, lower_needle)
}

/// The first window whose title contains a text, whatever the case of the
/// letters.
pub fn find_window(titles: &Vec<String>, needle: &str) -> (res: Option<usize>)
    ensures
        match res {
            Some(k) => k < titles@.len() && title_matches(titles@[k as int]@, needle@) && forall|
                i: int,
            |
                0 <= i < k ==> !title_matches((#[trigger] titles@[i])@, needle@),
            None => forall|i: int|
                0 <= i < titles@.len() ==> !title_matches((#[trigger] titles@[i])@, needle@),
        },
        is_first_match(texts(titles@), needle@, res),
{
    let wanted = to_lowercase(needle);
    let len: usize = titles.len();
    let mut i: usize = 0;
    let ghost all = texts(titles@);
    while i < len
        invariant
            i <= len,
            len == titles@.len(),
            all == texts(titles@),
            wanted@ == lowercase(needle@),
            forall|j: int| 0 <= j < i ==> !title_matches((#[trigger] titles@[j])@, needle@),
            forall|j: int| 0 <= j < i ==> !title_matches(#[trigger] all[j], needle@),
        decreases len - i,
    {
        let lower = to_lowercase(titles[i].as_str());
        assert(all[i as int] == titles@[i as int]@);
        if lowered_title_matches(titles[i].as_str(), lower.as_str(), wanted.as_str()) {
            return Some(i);
        }
        i += 1;
    }
    None
}

/// The titles that are offered: those that can be read and are not blank.
pub open spec fn offered(titles: Seq<Option<String>>) -> Seq<Seq<char>>
    decreases titles.len(),
{
    if titles.len() == 0 {
        seq![]
    } else {
        let before = offered(titles.drop_last());
        match optional_text(titles.last()) {
            Some(t) if trimmed(t).len() > 0 => before.push(t),
            _ => before,
        }
    }
}

/// The windows that are offered, in their order. `titles` are the titles of the
/// windows found, where they can be captured at all.
pub fn list_capture_windows(titles: Option<Vec<Option<String>>>) -> (res: Result<
    Vec<String>,
    SourceError,
>)
    ensures
        match titles {
            Some(found) => res matches Ok(list) && texts(list@) == offered(found@),
            None => res == Err::<Vec<String>, SourceError>(SourceError::WindowCaptureUnsupported),
        },
{
    let found = match titles {
        Some(found) => found,
        None => {
            return Err(SourceError::WindowCaptureUnsupported);
        },
    };
    let mut out: Vec<String> = Vec::new();
    let len: usize = found.len();
    let mut i: usize = 0;
    assert(texts(out@) =~= offered(found@.take(0)));
    while i < len
        invariant
            i <= len,
            len == found@.len(),
            texts(out@) == offered(found@.take(i as int)),
        decreases len - i,
    {
        let ghost before = out@;
        assert(found@.take(i + 1).drop_last() =~= found@.take(i as int));
        if let Some(title) = &found[i] {
            if !is_blank(title.as_str()) {
                out.push(title.clone());
                assert(texts(out@) =~= texts(before).push(title@));
            }
        }
        i += 1;
    }
    assert(found@.take(len as int) =~= found@);
    Ok(out)
}

/// A frame's rows without what pads them: `raw` as it is where nothing pads it,
/// else the first `4 * w` bytes of each of its `h` equal parts.
pub open spec fn repacked(raw: Seq<u8>, w: int, h: int) -> Seq<u8> {
    if raw.len() == frame_len(w, h) {
        raw
    } else {
        crate::capture::tight_rows(raw, raw.len() as int / h, 4 * w, h)
    }
}

/// A frame's rows without what pads them.
pub fn repack_rows(raw: Vec<u8>, w: u32, h: u32) -> (res: Vec<u8>)
    requires
        frame_len(w as int, h as int) <= usize::MAX,
        raw@.len() == frame_len(w as int, h as int) || (h > 0 && (h - 1) * (raw@.len() as int
            / h as int) + 4 * w <= raw@.len()),
    ensures
        res@ == repacked(raw@, w as int, h as int),
{
    let needed = frame_bytes(w, h);
    let len: usize = raw.len();
    if len == needed {
        return raw;
    }
    proof {
        lemma_frame_is_rows(w as int, h as int);
        assert(4 * w <= (4 * w) * h) by (nonlinear_arith)
            requires
                h >= 1,
        ;
    }
    let mut out: Vec<u8> = Vec::new();
    out.resize(needed, 0);
    crate::capture::copy_rows(&raw, len / h as usize, w as usize * 4, h as usize, out.as_mut_slice());
    out
}

/// A window, the part of it that is shown, and the last frame that arrived.
pub struct WgcCapture {
    title: String,
    crop: Crop,
    latest: Option<(Vec<u8>, u32, u32)>,
}

/// Byte `i` of a part of a frame, `raw_w` by `raw_h` pixels, of which `buf` are
/// the bytes. Rows below the frame, and what lies past the end of `buf`, are
/// zero; a row that runs past the right edge goes on with the next row's bytes.
pub open spec fn cropped_byte(buf: Seq<u8>, raw_w: u32, raw_h: u32, crop: Crop, i: int) -> u8 {
    let row = 4 * crop.width;
    let y = crop.y + i / row;
    let at = y * (4 * raw_w) + 4 * crop.x + i % row;
    if y < raw_h && at < buf.len() {
        buf[at]
    } else {
        0
    }
}

impl WgcCapture {
    /// A window of which nothing arrived yet.
    pub fn new(title: String, crop: Crop) -> (res: Self)
        ensures
            res.crop() == crop,
            res.name() == title@,
            res.arrived() is None,
    {
        WgcCapture { title, crop, latest: None }
    }

    /// The part that is shown.
    pub closed spec fn crop(&self) -> Crop {
        self.crop
    }

    /// The last frame, with its width and height.
    pub closed spec fn arrived(&self) -> Option<(Seq<u8>, u32, u32)> {
        match self.latest {
            Some((buf, w, h)) => Some((buf@, w, h)),
            None => None,
        }
    }

    /// Takes a frame that arrived.
    pub fn arrive(&mut self, buf: Vec<u8>, raw_w: u32, raw_h: u32)
        ensures
            final(self).crop() == old(self).crop(),
            final(self).name() == old(self).name(),
            final(self).arrived() == Some((buf@, raw_w, raw_h)),
    {
        self.latest = Some((buf, raw_w, raw_h));
    }

    /// The part of a frame that is shown; black where there is no frame.
    pub open spec fn shown(crop: Crop, arrived: Option<(Seq<u8>, u32, u32)>) -> Seq<u8> {
        let len = frame_len(crop.width as int, crop.height as int) as nat;
        match arrived {
            Some((buf, raw_w, raw_h)) => Seq::new(
                len,
                |i: int| cropped_byte(buf, raw_w, raw_h, crop, i),
            ),
            None => opaque_black(len),
        }
    }
}

/// Copies a part of a frame.
fn crop_rows(buf: &Vec<u8>, raw_w: u32, raw_h: u32, crop: Crop, out: &mut [u8])
    requires
        old(out)@.len() == frame_len(crop.width as int, crop.height as int),
        crop.width > 0,
        crop.height > 0,
    ensures
        final(out)@ == WgcCapture::shown(crop, Some((buf@, raw_w, raw_h))),
{
    let ghost w = crop.width as int;
    let ghost h = crop.height as int;
    let ghost whole = WgcCapture::shown(crop, Some((buf@, raw_w, raw_h)));
    let len: usize = buf.len();
    let out_len: usize = out.len();
    proof {
        lemma_frame_is_rows(w, h);
        assert(4 * w <= (4 * w) * h) by (nonlinear_arith)
            requires
                h >= 1,
                w >= 0,
        ;
    }
    let row: usize = crop.width as usize * 4;
    let mut y: u32 = 0;
    let mut at: usize = 0;
    while y < crop.height
        invariant
            y <= crop.height,
            (w, h) == (crop.width as int, crop.height as int),
            row == 4 * w,
            row > 0,
            len == buf@.len(),
            out_len == out@.len(),
            out@.len() == row * h,
            out@.len() == frame_len(w, h),
            whole == WgcCapture::shown(crop, Some((buf@, raw_w, raw_h))),
            at == y * row,
            forall|j: int| 0 <= j < at ==> #[trigger] out@[j] == whole[j],
        decreases crop.height - y,
    {
        proof {
            lemma_next_row(row as int, h, y as int);
            assert(0 <= (crop.y + y) * (4 * raw_w) <= 0x1_ffff_ffff * 0x3_ffff_fffc)
                by (nonlinear_arith)
                requires
                    0 <= crop.y + y <= 0x1_ffff_ffff,
                    0 <= 4 * raw_w <= 0x3_ffff_fffc,
            ;
        }
        let src_y: u64 = crop.y as u64 + y as u64;
        let strip: u128 = src_y as u128 * (raw_w as u128 * 4) + crop.x as u128 * 4;
        let mut k: usize = 0;
        while k < row
            invariant
                k <= row,
                y < crop.height,
                (w, h) == (crop.width as int, crop.height as int),
                row == 4 * w,
                row <= 0x3_ffff_fffc,
                len == buf@.len(),
                out_len == out@.len(),
                out@.len() == row * h,
                out@.len() == frame_len(w, h),
                whole == WgcCapture::shown(crop, Some((buf@, raw_w, raw_h))),
                at == y * row + k,
                at + (row - k) <= out_len,
                src_y == crop.y + y,
                strip == src_y * (4 * raw_w) + 4 * crop.x,
                strip <= 0x1_ffff_ffff * 0x3_ffff_fffc + 0x3_ffff_fffc,
                forall|j: int| 0 <= j < at ==> #[trigger] out@[j] == whole[j],
            decreases row - k,
        {
            proof {
                lemma_row_split(row as int, h, y as int, k as int);
            }
            let pos: u128 = strip + k as u128;
            out[at] = if src_y < raw_h as u64 && pos < len as u128 {
                buf[pos as usize]
            } else {
                0
            };
            at += 1;
            k += 1;
        }
        y += 1;
    }
    proof {
        assert(h * row == row * h) by (nonlinear_arith);
    }
    assert(out@ =~= whole);
}

impl FrameCapture for WgcCapture {
    open spec fn valid(&self) -> bool {
        frame_len(self.size().0 as int, self.size().1 as int) <= usize::MAX
    }

    open spec fn size(&self) -> (u32, u32) {
        (self.crop().width, self.crop().height)
    }

    closed spec fn name(&self) -> Seq<char> {
        self.title@
    }

    open spec fn frame(&self) -> Seq<u8> {
        WgcCapture::shown(self.crop(), self.arrived())
    }

    fn dimensions(&self) -> (res: (u32, u32)) {
        (self.crop.width, self.crop.height)
    }

    fn source_name(&self) -> (res: &str) {
        self.title.as_str()
    }

    fn has_alpha(&self) -> (res: bool)
        ensures
            !res,
    {
        false
    }

    fn color_order(&self) -> (res: ColorOrder)
        ensures
            res == ColorOrder::Rgba,
    {
        ColorOrder::Rgba
    }

    fn grab_into(&mut self, out: &mut [u8]) -> (res: Result<(), GrabError>) {
        let (w, h) = (self.crop.width, self.crop.height);
        let need = frame_bytes(w, h);
        let got: usize = out.len();
        proof {
            assert(0 <= w * h) by (nonlinear_arith);
            assert(w == 0 || h == 0 ==> w * h == 0) by (nonlinear_arith);
        }
        if got != need {
            return Err(GrabError { got, need });
        }
        match &self.latest {
            None => {
                fill_opaque_black(out);
            },
            Some((buf, raw_w, raw_h)) => {
                if w > 0 && h > 0 {
                    crop_rows(buf, *raw_w, *raw_h, self.crop, out);
                } else {
                    assert(out@ =~= WgcCapture::shown(self.crop(), self.arrived()));
                }
            },
        }
        Ok(())
    }
}

/// Where the part that is shown lies inside the frame and all of the frame's bytes
/// arrived, pixel (`x`, `y`) of what is shown is the frame's pixel as far to the right
/// of the part's corner and as far below it.
pub proof fn law_client_area_is_shown(
    buf: Seq<u8>,
    raw_w: u32,
    raw_h: u32,
    crop: Crop,
    x: int,
    y: int,
    c: int,
)
    requires
        buf.len() == frame_len(raw_w as int, raw_h as int),
        crop.x + crop.width <= raw_w,
        crop.y + crop.height <= raw_h,
        0 <= x < crop.width,
        0 <= y < crop.height,
        0 <= c < 4,
    ensures
        WgcCapture::shown(crop, Some((buf, raw_w, raw_h))).len() == frame_len(
            crop.width as int,
            crop.height as int,
        ),
        WgcCapture::shown(crop, Some((buf, raw_w, raw_h)))[index_of(crop.width as int, x, y, c)]
            == buf[index_of(raw_w as int, crop.x + x, crop.y + y, c)],
{
    let (w, h) = (crop.width as int, crop.height as int);
    let i = index_of(w, x, y, c);
    lemma_index_inside(w, h, x, y);
    lemma_index_inside(raw_w as int, raw_h as int, crop.x + x, crop.y + y);
    assert(i == y * (4 * w) + (4 * x + c)) by (nonlinear_arith)
        requires
            i == (y * w + x) * 4 + c,
    ;
    lemma_row_split(4 * w, h, y, 4 * x + c);
    let (rw, sy) = (raw_w as int, crop.y + y);
    assert(sy * (4 * rw) == (sy * rw) * 4) by (nonlinear_arith);
}

/// A window of which nothing arrived shows opaque black pixels.
pub proof fn law_black_until_a_frame_arrives(crop: Crop, p: int)
    requires
        0 <= p < crop.width * crop.height,
    ensures
        ({
            let shown = WgcCapture::shown(crop, None);
            &&& shown.len() == 4 * (crop.width * crop.height)
            &&& shown[4 * p] == 0 && shown[4 * p + 1] == 0 && shown[4 * p + 2] == 0
            &&& shown[4 * p + 3] == 255
        }),
{
    assert((4 * p) % 4 == 0 && (4 * p + 1) % 4 == 1 && (4 * p + 2) % 4 == 2 && (4 * p + 3) % 4 == 3);
}

/// As much of the client area is shown as lies inside the frame, but for what even
/// numbers cost: at most a column and a row at each side. Without a client area the
/// whole frame is shown.
pub proof fn law_crop_follows_the_client_area(client: Crop, raw_w: u32, raw_h: u32)
    requires
        client.x <= raw_w,
        client.y <= raw_h,
    ensures
        ({
            let c = shown_crop(Some(client), raw_w, raw_h);
            let all = shown_crop(None, raw_w, raw_h);
            &&& c.x <= client.x <= c.x + 1
            &&& c.y <= client.y <= c.y + 1
            &&& c.width <= client.width && c.width <= raw_w - client.x
            &&& c.height <= client.height && c.height <= raw_h - client.y
            &&& client.width <= c.width + 1 || raw_w - client.x <= c.width + 1
            &&& client.height <= c.height + 1 || raw_h - client.y <= c.height + 1
            &&& all.x == 0 && all.y == 0
            &&& all.width <= raw_w <= all.width + 1
            &&& all.height <= raw_h <= all.height + 1
        }),
{
}

/// The client area lies as far from its window's corner as the two corners are apart
/// on the screen, and nothing lies before the corner.
pub proof fn law_excess(a: int, b: int)
    ensures
        a >= b ==> b + excess(a, b) == a,
        a <= b ==> excess(a, b) == 0,
{
}

/// A frame whose rows are padded is brought to its own rows: byte `k` of row `y` is
/// byte `k` of the padded row `y`. One that is not padded stays.
pub proof fn law_padding_is_cut_off(raw: Seq<u8>, w: int, h: int, y: int, k: int)
    requires
        0 <= y < h,
        0 <= k < 4 * w,
        (h - 1) * (raw.len() as int / h) + 4 * w <= raw.len(),
        raw.len() % h as nat == 0,
    ensures
        repacked(raw, w, h).len() == 4 * (w * h),
        repacked(raw, w, h)[y * (4 * w) + k] == raw[y * (raw.len() as int / h) + k],
{
    lemma_row_split(4 * w, h, y, k);
    lemma_frame_is_rows(w, h);
    let pitch = raw.len() as int / h;
    vstd::arithmetic::div_mod::lemma_fundamental_div_mod(raw.len() as int, h);
    if raw.len() == frame_len(w, h) {
        assert(pitch == 4 * w) by (nonlinear_arith)
            requires
                h * pitch == (4 * w) * h,
                h > 0,
        ;
    }
}

/// The titles that are offered are those that can be read and hold more than white
/// space, in their order and each as it is.
pub proof fn law_readable_titles_are_offered(titles: Seq<Option<String>>)
    ensures
        offered(titles) == titles.filter(
            |t: Option<String>| t matches Some(s) && !is_all_blank(s@),
        ).map_values(|t: Option<String>| t->0@),
    decreases titles.len(),
{
    reveal(Seq::filter);
    let wanted = |t: Option<String>| t matches Some(s) && !is_all_blank(s@);
    let text = |t: Option<String>| t->0@;
    if titles.len() == 0 {
        assert(titles.filter(wanted).map_values(text) =~= offered(titles));
    } else {
        law_readable_titles_are_offered(titles.drop_last());
        let rest = titles.drop_last().filter(wanted);
        if let Some(s) = titles.last() {
            law_trimming(s@);
        }
        if wanted(titles.last()) {
            assert(titles.filter(wanted) == rest.push(titles.last()));
            assert(rest.push(titles.last()).map_values(text) =~= rest.map_values(text).push(
                text(titles.last()),
            ));
        }
    }
}

/// What a window's capture hands out is the part of the last frame that arrived: pixel
/// (`x`, `y`) of it is the frame's pixel as far right of and below the part's corner.
pub proof fn law_captured_window(
    capture: WgcCapture,
    buf: Seq<u8>,
    raw_w: u32,
    raw_h: u32,
    x: int,
    y: int,
    c: int,
)
    requires
        capture.arrived() == Some((buf, raw_w, raw_h)),
        buf.len() == frame_len(raw_w as int, raw_h as int),
        capture.crop().x + capture.crop().width <= raw_w,
        capture.crop().y + capture.crop().height <= raw_h,
        0 <= x < capture.size().0,
        0 <= y < capture.size().1,
        0 <= c < 4,
    ensures
        capture.size() == (capture.crop().width, capture.crop().height),
        capture.frame()[index_of(capture.size().0 as int, x, y, c)] == buf[index_of(
            raw_w as int,
            capture.crop().x + x,
            capture.crop().y + y,
            c,
        )],
{
    law_client_area_is_shown(buf, raw_w, raw_h, capture.crop(), x, y, c);
}

/// A window that is minimized or hidden is refused, and the refusal names it; any other is
/// captured, first without a border.
pub proof fn law_windows_that_show_nothing_are_refused(
    title: Seq<char>,
    facts: WindowFacts,
    step: OpenStep,
)
    requires
        begins(title, Some(facts), step),
    ensures
        step is Fail <==> facts.minimized || !facts.visible,
        step is Fail || step == (OpenStep::Start { hide_border: true }),
        step matches OpenStep::Fail(text) ==> occurs(text@, title) && occurs(
            text@,
            if facts.minimized {
                "minimized"@
            } else {
                "hidden"@
            },
        ),
{
    if let OpenStep::Fail(text) = step {
        let (quote, minimized, hidden) = (
            "'"@,
            "' is minimized — restore the window and try again"@,
            "' is hidden — bring the window to the foreground"@,
        );
        let rest = if facts.minimized {
            minimized
        } else {
            hidden
        };
        assert(text@ =~= quote + title + rest);
        law_occurring(text@, title, quote, rest);
        reveal_strlit("minimized");
        reveal_strlit("hidden");
        reveal_strlit("' is minimized — restore the window and try again");
        reveal_strlit("' is hidden — bring the window to the foreground");
        let word = if facts.minimized {
            "minimized"@
        } else {
            "hidden"@
        };
        let after = rest.skip(5 + word.len() as int);
        assert(rest =~= rest.take(5) + word + after);
        assert(text@ =~= (quote + title + rest.take(5)) + word + after);
        law_occurring(text@, word, quote + title + rest.take(5), after);
    }
}

/// A title matches where it holds what is looked for, in whatever case; an empty one never
/// does.
pub proof fn law_matching_titles(title: Seq<char>, needle: Seq<char>, i: int)
    ensures
        title.len() == 0 ==> !title_matches(title, needle),
        title.len() > 0 && 0 <= i && i + lowercase(needle).len() <= lowercase(title).len()
            && lowercase(title).subrange(i, i + lowercase(needle).len()) == lowercase(needle)
            ==> title_matches(title, needle),
        title_matches(title, needle) ==> lowercase(needle).len() <= lowercase(title).len(),
{
    if title.len() > 0 && 0 <= i && i + lowercase(needle).len() <= lowercase(title).len()
        && lowercase(title).subrange(i, i + lowercase(needle).len()) == lowercase(needle) {
        assert(crate::text::has_at(lowercase(title), lowercase(needle), i));
    }
}

/// The first frame may take eight seconds, and is looked for fifty times a second.
pub proof fn law_waiting_for_the_first_frame()
    ensures
        FIRST_FRAME_TIMEOUT_MS == 8000,
        FIRST_FRAME_POLL_MS * 50 == 1000,
{
}

/// The client area's corner lies as far from the window's as the two are apart on the screen,
/// and the area is as large as its edges say; without width or height there is none.
pub proof fn law_finding_the_client_area(
    window: Edges,
    client: Edges,
    origin: (i32, i32),
    res: Option<Crop>,
)
    requires
        call_ensures(client_crop, (window, client, origin), res),
    ensures
        res is Some <==> client.right > client.left && client.bottom > client.top,
        res matches Some(crop) ==> {
            &&& crop.width == client.right - client.left
            &&& crop.height == client.bottom - client.top
            &&& origin.0 >= window.left ==> window.left + crop.x == origin.0
            &&& origin.1 >= window.top ==> window.top + crop.y == origin.1
            &&& origin.0 < window.left ==> crop.x == 0
            &&& origin.1 < window.top ==> crop.y == 0
        },
{
}

/// A window's capture that got a frame hands out the part of it that is to be shown, pixel for
/// pixel. The buffer must have the part's size, and else stays as it was.
pub proof fn law_grabbing_a_window(
    capture: &mut WgcCapture,
    later: &mut WgcCapture,
    buf: Vec<u8>,
    raw_w: u32,
    raw_h: u32,
    out: &mut [u8],
    res: Result<(), GrabError>,
    x: int,
    y: int,
    c: int,
)
    requires
        call_ensures(WgcCapture::arrive, (capture, buf, raw_w, raw_h), ()),
        *later == *final(capture),
        call_ensures(<WgcCapture as FrameCapture>::grab_into, (later, out), res),
        buf@.len() == frame_len(raw_w as int, raw_h as int),
        capture.crop().x + capture.crop().width <= raw_w,
        capture.crop().y + capture.crop().height <= raw_h,
        0 <= x < capture.crop().width,
        0 <= y < capture.crop().height,
        0 <= c < 4,
    ensures
        ({
            let crop = old(capture).crop();
            let needed = frame_len(crop.width as int, crop.height as int);
            &&& old(out)@.len() == needed ==> res is Ok
            &&& old(out)@.len() != needed ==> (res matches Err(e) && e.got == old(out)@.len()
                && e.need == needed) && final(out)@ == old(out)@
            &&& res is Ok ==> final(out)@[index_of(crop.width as int, x, y, c)] == buf@[index_of(
                raw_w as int,
                crop.x + x,
                crop.y + y,
                c,
            )]
        }),
{
    law_captured_window(*later, buf@, raw_w, raw_h, x, y, c);
}

/// A window that nothing arrived of is shown in opaque black, and goes by its title.
pub proof fn law_new_window(
    title: String,
    crop: Crop,
    capture: WgcCapture,
    size: (u32, u32),
    name: &str,
    p: int,
)
    requires
        call_ensures(WgcCapture::new, (title, crop), capture),
        call_ensures(<WgcCapture as FrameCapture>::dimensions, (&capture,), size),
        call_ensures(<WgcCapture as FrameCapture>::source_name, (&capture,), name),
        0 <= p < crop.width * crop.height,
    ensures
        size == (crop.width, crop.height),
        name@ == title@,
        capture.frame().len() == 4 * (crop.width * crop.height),
        capture.frame()[4 * p] == 0,
        capture.frame()[4 * p + 1] == 0,
        capture.frame()[4 * p + 2] == 0,
        capture.frame()[4 * p + 3] == 255,
{
    law_black_until_a_frame_arrives(crop, p);
}

/// A window is opened step by step. It is captured without a border first, and once more with
/// one where hiding it is what is unsupported; any other failure, and a second one, is
/// reported in its own words. A first frame that has come opens it on the part to be shown,
/// and one that takes more than eight seconds is given up.
pub proof fn law_opening_a_window(
    opening: &mut WindowOpening,
    failure: Option<String>,
    started: OpenStep,
    dims: Option<(u32, u32)>,
    elapsed_ms: u64,
    polled: OpenStep,
)
    requires
        call_ensures(WindowOpening::started, (opening, failure), started),
        call_ensures(WindowOpening::polled, (&*opening, dims, elapsed_ms), polled),
    ensures
        failure is None ==> started is Poll,
        failure matches Some(text) ==> {
            &&& started is Start <==> old(opening).hide_border && occurs(text@, "Unsupported"@)
            &&& started is Start ==> started == (OpenStep::Start { hide_border: false })
                && !final(opening).hide_border
            &&& !(started is Start) ==> started == OpenStep::Fail(text)
        },
        final(opening).title == old(opening).title,
        final(opening).client == old(opening).client,
        dims matches Some((w, h)) ==> w > 0 && h > 0 ==> polled == OpenStep::Open(
            shown_crop(old(opening).client, w, h),
        ),
        !(dims matches Some((w, h)) && w > 0 && h > 0) ==> (if elapsed_ms > 8000 {
            polled is Fail
        } else {
            polled == OpenStep::Wait(20)
        }),
{
}

/// Opening begins with what was found out: where nothing was, or nothing speaks against it, the
/// window is captured without a border, and its client area is kept for later.
pub proof fn law_beginning_to_open(
    title: String,
    facts: Option<WindowFacts>,
    res: (WindowOpening, OpenStep),
)
    requires
        call_ensures(WindowOpening::new, (title, facts), res),
    ensures
        res.0.title == title,
        res.0.hide_border,
        facts is None ==> res.0.client is None && res.1 == (OpenStep::Start { hide_border: true }),
        facts matches Some(f) ==> res.0.client == f.client && (res.1 is Fail <==> f.minimized
            || !f.visible) && (!(res.1 is Fail) ==> res.1 == (OpenStep::Start {
            hide_border: true,
        })),
{
}

/// Whether a choice is the first window whose title matches, or none where none does.
pub open spec fn is_first_match(titles: Seq<Seq<char>>, needle: Seq<char>, res: Option<usize>) -> bool {
    match res {
        Some(k) => k < titles.len() && title_matches(titles[k as int], needle) && forall|i: int|
            0 <= i < k ==> !title_matches(#[trigger] titles[i], needle),
        None => forall|i: int| 0 <= i < titles.len() ==> !title_matches(#[trigger] titles[i], needle),
    }
}

/// The window that is found is the first of those whose titles hold what is looked for, in
/// whatever case, and none is found only where none does.
pub proof fn law_finding_a_window(titles: Vec<String>, needle: &str, res: Option<usize>, i: int)
    requires
        call_ensures(find_window, (&titles, needle), res),
        0 <= i < titles@.len(),
    ensures
        titles@[i]@.len() > 0 && occurs(lowercase(titles@[i]@), lowercase(needle@)) ==> (
        res matches Some(k) && k <= i),
        res matches Some(k) ==> k < titles@.len() && titles@[k as int]@.len() > 0 && occurs(
            lowercase(titles@[k as int]@),
            lowercase(needle@),
        ),
{
    let all = texts(titles@);
    assert(is_first_match(all, needle@, res));
    assert(all[i] == titles@[i]@);
    if let Some(k) = res {
        assert(all[k as int] == titles@[k as int]@);
    }
}

/// The part of a frame that is shown lies inside it on even numbers, and is what of the client
/// area does, but for a column and a row.
pub proof fn law_effective_part(client: Crop, raw_w: u32, raw_h: u32, res: Crop, all: Crop)
    requires
        call_ensures(effective_crop, (Some(client), raw_w, raw_h), res),
        call_ensures(effective_crop, (None, raw_w, raw_h), all),
        client.x + client.width <= raw_w,
        client.y + client.height <= raw_h,
    ensures
        res.x <= client.x <= res.x + 1,
        res.y <= client.y <= res.y + 1,
        res.width <= client.width <= res.width + 1,
        res.height <= client.height <= res.height + 1,
        res.x % 2 == 0 && res.y % 2 == 0 && res.width % 2 == 0 && res.height % 2 == 0,
        all.x == 0 && all.y == 0,
        all.width <= raw_w <= all.width + 1,
        all.height <= raw_h <= all.height + 1,
{
    law_crop_follows_the_client_area(client, raw_w, raw_h);
}

/// A frame is repacked by cutting off what pads each of its rows.
pub proof fn law_repacking(raw: Vec<u8>, w: u32, h: u32, res: Vec<u8>, y: int, k: int)
    requires
        call_ensures(repack_rows, (raw, w, h), res),
        0 <= y < h,
        0 <= k < 4 * w,
        (h - 1) * (raw@.len() as int / h as int) + 4 * w <= raw@.len(),
        raw@.len() % h as nat == 0,
    ensures
        res@.len() == 4 * (w * h),
        res@[y * (4 * w) + k] == raw@[y * (raw@.len() as int / h as int) + k],
{
    law_padding_is_cut_off(raw@, w as int, h as int, y, k);
}

/// A window is refused where it is minimized or hidden, and then by its title.
pub proof fn law_refusing(title: &str, minimized: bool, visible: bool, res: Option<String>)
    requires
        call_ensures(window_refusal, (title, minimized, visible), res),
    ensures
        res is Some <==> minimized || !visible,
        res matches Some(text) ==> occurs(text@, title@),
        minimized ==> res->0@ == "'"@ + title@ + "' is minimized — restore the window and try again"@,
        !minimized && !visible ==> res->0@ == "'"@ + title@
            + "' is hidden — bring the window to the foreground"@,
{
    if let Some(text) = res {
        let rest = if minimized {
            "' is minimized — restore the window and try again"@
        } else {
            "' is hidden — bring the window to the foreground"@
        };
        assert(optional_text(res) == Some(text@));
        assert(text@ =~= "'"@ + title@ + rest);
        law_occurring(text@, title@, "'"@, rest);
    }
}

/// The first frame is here where it has a size. Else it is looked for every twenty milliseconds,
/// and given up after eight seconds.
pub proof fn law_first_frames(dims: Option<(u32, u32)>, elapsed_ms: u64, res: FirstFrame)
    requires
        call_ensures(await_first_frame, (dims, elapsed_ms), res),
    ensures
        dims matches Some((w, h)) ==> w > 0 && h > 0 ==> res == FirstFrame::Here(w, h),
        !(dims matches Some((w, h)) && w > 0 && h > 0) ==> res == if elapsed_ms > 8000 {
            FirstFrame::TimedOut
        } else {
            FirstFrame::Wait(20)
        },
{
}

/// A title matches where it holds what is looked for; an empty one never does. A border is kept
/// where hiding it is not supported.
pub proof fn law_matching(
    title: &str,
    lower_title: &str,
    lower_needle: &str,
    matches: bool,
    failure: &str,
    retry: bool,
)
    requires
        call_ensures(lowered_title_matches, (title, lower_title, lower_needle), matches),
        call_ensures(retry_with_default_border, (failure,), retry),
    ensures
        matches <==> title@.len() > 0 && occurs(lower_title@, lower_needle@),
        retry <==> occurs(failure@, "Unsupported"@),
{
}

/// Windows are offered by their readable titles, in order and without change; where windows
/// cannot be captured, that is said.
pub proof fn law_listing_windows(
    titles: Option<Vec<Option<String>>>,
    res: Result<Vec<String>, SourceError>,
)
    requires
        call_ensures(list_capture_windows, (titles,), res),
    ensures
        res is Ok <==> titles is Some,
        titles is None ==> res->Err_0 == SourceError::WindowCaptureUnsupported,
        titles matches Some(found) ==> (res matches Ok(list) && texts(list@) == offered(found@)),
{
}

/// Where a part reaches below its frame, or past the bytes that arrived, it is empty; where it
/// reaches past the right edge, the bytes that follow are shown.
pub proof fn law_beyond_the_frame(
    buf: Seq<u8>,
    raw_w: u32,
    raw_h: u32,
    crop: Crop,
    x: int,
    y: int,
    c: int,
)
    requires
        0 <= x < crop.width,
        0 <= y < crop.height,
        0 <= c < 4,
    ensures
        ({
            let i = index_of(crop.width as int, x, y, c);
            let at = index_of(raw_w as int, crop.x + x, crop.y + y, c);
            let byte = cropped_byte(buf, raw_w, raw_h, crop, i);
            &&& crop.y + y >= raw_h || at >= buf.len() ==> byte == 0
            &&& crop.y + y < raw_h && at < buf.len() ==> byte == buf[at]
        }),
{
    let (w, h) = (crop.width as int, crop.height as int);
    let i = index_of(w, x, y, c);
    assert(i == y * (4 * w) + (4 * x + c)) by (nonlinear_arith)
        requires
            i == (y * w + x) * 4 + c,
    ;
    lemma_row_split(4 * w, h, y, 4 * x + c);
    let (rw, sy) = (raw_w as int, crop.y + y);
    assert(sy * (4 * rw) == (sy * rw) * 4) by (nonlinear_arith);
}

/// A window that never shows a frame is reported under its title.
pub proof fn law_silent_windows(title: &str, res: String)
    requires
        call_ensures(first_frame_timeout_text, (title,), res),
    ensures
        occurs(res@, title@),
{
    let before = "WGC did not produce a frame within 8s for '"@;
    let after = res@.skip((before + title@).len() as int);
    assert(res@ =~= before + title@ + after);
    law_occurring(res@, title@, before, after);
}

} // verus!
