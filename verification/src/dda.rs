//! Display capture.
//!
//! The desktop is acquired anew for each frame. It comes in BGRA, and a frame
//! that could not be acquired is black.

use vstd::prelude::*;

use crate::capture::{fill_opaque_black, frame_bytes, law_black_pixel, law_swapped_pixel,
    opaque_black, red_blue_swapped, swap_red_blue, ColorOrder, FrameCapture, GrabError};
use crate::config::SourceError;
use crate::pixels::{frame_len, index_of, lemma_frame_is_rows, lemma_index_inside, lemma_next_row,
    lemma_row_split};
use crate::protocol::{clone_optional_text, optional_text};
use crate::resize::{even, even_part};
use crate::text::{decimal, push_decimal};

verus! {

/// How long to wait for the desktop to change, in milliseconds.
pub const ACQUIRE_TIMEOUT_MS: u32 = 33;

/// A monitor, and what was acquired of it last.
pub struct DdaCapture {
    name: String,
    width: u32,
    height: u32,
    /// The desktop's bytes in BGRA; None if it could not be acquired.
    latest: Option<Vec<u8>>,
}

/// The rows of a desktop brought to `row` bytes each: cut, or filled with
/// zeroes.
pub open spec fn fitted_rows(bytes: Seq<u8>, row: int, rows: int) -> Seq<u8> {
    let src_row = bytes.len() as int / rows;
    Seq::new(
        (row * rows) as nat,
        |i: int|
            if i % row < src_row {
                bytes[(i / row) * src_row + i % row]
            } else {
                0
            },
    )
}

impl DdaCapture {
    /// A monitor whose desktop was not acquired yet. Its dimensions are trimmed
    /// to even ones. A monitor without a name is called a display.
    pub fn new(name: Option<String>, raw_w: u32, raw_h: u32) -> (res: Self)
        ensures
            res.size() == (even(raw_w as nat) as u32, even(raw_h as nat) as u32),
            res.name() == match name {
                Some(s) => s@,
                None => "Display"@,
            },
            res.acquired() is None,
    {
        let name = match name {
            Some(s) => s,
            None => "Display".to_string(),
        };
        DdaCapture { name, width: even_part(raw_w), height: even_part(raw_h), latest: None }
    }

    /// The desktop's bytes, if it could be acquired.
    pub closed spec fn acquired(&self) -> Option<Seq<u8>> {
        match self.latest {
            Some(bytes) => Some(bytes@),
            None => None,
        }
    }

    /// Takes what was acquired.
    pub fn acquire(&mut self, bytes: Option<Vec<u8>>)
        ensures
            final(self).size() == old(self).size(),
            final(self).name() == old(self).name(),
            final(self).acquired() == match bytes {
                Some(b) => Some(b@),
                None => None,
            },
    {
        self.latest = bytes;
    }

    /// The frame of a desktop in RGBA.
    pub open spec fn shown(size: (u32, u32), acquired: Option<Seq<u8>>) -> Seq<u8> {
        match acquired {
            Some(bytes) => if size.1 == 0 {
                seq![]
            } else {
                red_blue_swapped(fitted_rows(bytes, 4 * size.0 as int, size.1 as int))
            },
            None => opaque_black(frame_len(size.0 as int, size.1 as int) as nat),
        }
    }
}

/// Copies rows of a desktop, cut or filled with zeroes.
fn fit_rows(bytes: &Vec<u8>, row: usize, rows: usize, out: &mut [u8])
    requires
        rows > 0,
        row > 0,
        old(out)@.len() == row * rows,
    ensures
        final(out)@ == fitted_rows(bytes@, row as int, rows as int),
{
    let len: usize = bytes.len();
    let out_len: usize = out.len();
    let src_row: usize = len / rows;
    let copy_row: usize = if src_row < row {
        src_row
    } else {
        row
    };
    proof {
        assert(src_row * rows <= len) by (nonlinear_arith)
            requires
                src_row == len / rows,
                rows > 0,
        ;
    }
    let mut y: usize = 0;
    let mut at: usize = 0;
    let mut from: usize = 0;
    while y < rows
        invariant
            y <= rows,
            row > 0,
            len == bytes@.len(),
            out_len == out@.len(),
            out@.len() == row * rows,
            src_row == len as int / rows as int,
            src_row * rows <= len,
            copy_row == if src_row < row {
                src_row
            } else {
                row
            },
            at == y * row,
            from == y * src_row,
            forall|j: int|
                0 <= j < at ==> #[trigger] out@[j] == fitted_rows(
                    bytes@,
                    row as int,
                    rows as int,
                )[j],
        decreases rows - y,
    {
        proof {
            lemma_next_row(row as int, rows as int, y as int);
            lemma_next_row(src_row as int, rows as int, y as int);
            assert(src_row * rows == rows * src_row) by (nonlinear_arith);
        }
        let mut k: usize = 0;
        while k < row
            invariant
                k <= row,
                y < rows,
                len == bytes@.len(),
                out_len == out@.len(),
                out@.len() == row * rows,
                src_row == len as int / rows as int,
                copy_row == if src_row < row {
                    src_row
                } else {
                    row
                },
                at == y * row + k,
                at + (row - k) <= out_len,
                from == y * src_row,
                from + src_row <= len,
                forall|j: int|
                    0 <= j < at ==> #[trigger] out@[j] == fitted_rows(
                        bytes@,
                        row as int,
                        rows as int,
                    )[j],
            decreases row - k,
        {
            proof {
                lemma_row_split(row as int, rows as int, y as int, k as int);
            }
            out[at] = if k < copy_row {
                bytes[from + k]
            } else {
                0
            };
            at += 1;
            k += 1;
        }
        from += src_row;
        y += 1;
    }
    proof {
        assert(rows * row == row * rows) by (nonlinear_arith);
    }
    assert(out@ =~= fitted_rows(bytes@, row as int, rows as int));
}

impl FrameCapture for DdaCapture {
    open spec fn valid(&self) -> bool {
        frame_len(self.size().0 as int, self.size().1 as int) <= usize::MAX
    }

    closed spec fn size(&self) -> (u32, u32) {
        (self.width, self.height)
    }

    closed spec fn name(&self) -> Seq<char> {
        self.name@
    }

    open spec fn frame(&self) -> Seq<u8> {
        DdaCapture::shown(self.size(), self.acquired())
    }

    fn dimensions(&self) -> (res: (u32, u32)) {
        (self.width, self.height)
    }

    fn source_name(&self) -> (res: &str) {
        self.name.as_str()
    }

    fn has_alpha(&self) -> (res: bool)
        ensures
            !res,
    {
        false
    }

    fn color_order(&self) -> (res: ColorOrder)
        ensures
            res == ColorOrder::Rgba,
    {
        ColorOrder::Rgba
    }

    fn grab_into(&mut self, out: &mut [u8]) -> (res: Result<(), GrabError>) {
        let (w, h) = (self.width, self.height);
        let need = frame_bytes(w, h);
        let got: usize = out.len();
        proof {
            lemma_frame_is_rows(w as int, h as int);
            assert((4 * w) * h == 4 * (w * h)) by (nonlinear_arith);
            assert(0 <= w * h) by (nonlinear_arith);
            assert(w == 0 || h == 0 ==> (4 * w) * h == 0) by (nonlinear_arith);
        }
        if got != need {
            return Err(GrabError { got, need });
        }
        match &self.latest {
            None => {
                fill_opaque_black(out);
            },
            Some(bytes) => {
                if w > 0 && h > 0 {
                    proof {
                        assert(4 * w <= (4 * w) * h) by (nonlinear_arith)
                            requires
                                h >= 1,
                        ;
                    }
                    fit_rows(bytes, w as usize * 4, h as usize, out);
                    swap_red_blue(out);
                } else {
                    assert(out@ =~= DdaCapture::shown(self.size(), self.acquired()));
                }
            },
        }
        Ok(())
    }
}

/// A monitor as it is offered: one without an index has the largest, one
/// without a name is called after its index.
pub open spec fn display_entry(index: Option<usize>, name: Option<Seq<char>>) -> (usize, Seq<char>) {
    let i = match index {
        Some(i) => i,
        None => usize::MAX,
    };
    (
        i,
        match name {
            Some(s) => s,
            None => "Display "@ + decimal(i as nat),
        },
    )
}

/// A monitor as it is offered.
fn display(index: Option<usize>, name: Option<String>) -> (res: (usize, String))
    ensures
        (res.0, res.1@) == display_entry(
            index,
            match name {
                Some(s) => Some(s@),
                None => None,
            },
        ),
{
    let i: usize = match index {
        Some(i) => i,
        None => usize::MAX,
    };
    let label = match name {
        Some(s) => s,
        None => {
            let mut s = "Display ".to_string();
            push_decimal(&mut s, i as u64);
            s
        },
    };
    (i, label)
}

/// What was found out about a monitor: its index and its name.
pub type MonitorReport = (Option<usize>, Option<String>);

/// The monitors as they are offered, in their order. `monitors` are the monitors
/// found, where they can be captured at all.
pub fn list_capture_displays(monitors: Option<Vec<MonitorReport>>) -> (res: Result<
    Vec<(usize, String)>,
    SourceError,
>)
    ensures
        match monitors {
            Some(found) => res matches Ok(list) && list@.len() == found@.len() && forall|i: int|
                0 <= i < list@.len() ==> ((#[trigger] list@[i]).0, list@[i].1@) == display_entry(
                    found@[i].0,
                    optional_text(found@[i].1),
                ),
            None => res == Err::<Vec<(usize, String)>, SourceError>(
                SourceError::DisplayCaptureUnsupported,
            ),
        },
{
    let found = match monitors {
        Some(found) => found,
        None => {
            return Err(SourceError::DisplayCaptureUnsupported);
        },
    };
    let mut out: Vec<(usize, String)> = Vec::new();
    let len: usize = found.len();
    let mut i: usize = 0;
    while i < len
        invariant
            i <= len,
            len == found@.len(),
            out@.len() == i,
            forall|j: int|
                0 <= j < i ==> ((#[trigger] out@[j]).0, out@[j].1@) == display_entry(
                    found@[j].0,
                    optional_text(found@[j].1),
                ),
        decreases len - i,
    {
        let name = clone_optional_text(&found[i].1);
        out.push(display(found[i].0, name));
        i += 1;
    }
    Ok(out)
}

/// A pixel of a display's frame is the desktop's pixel at the same place, with red
/// first where the desktop has blue first. The desktop's rows are equal parts of its
/// bytes.
pub proof fn law_desktop_pixel(size: (u32, u32), bytes: Seq<u8>, x: int, y: int)
    requires
        0 <= x < size.0,
        0 <= y < size.1,
        4 * x + 3 < bytes.len() as int / size.1 as int,
    ensures
        ({
            let (w, h) = (size.0 as int, size.1 as int);
            let at = y * (bytes.len() as int / h) + 4 * x;
            let frame = DdaCapture::shown(size, Some(bytes));
            &&& frame.len() == frame_len(w, h)
            &&& frame[index_of(w, x, y, 0)] == bytes[at + 2]
            &&& frame[index_of(w, x, y, 1)] == bytes[at + 1]
            &&& frame[index_of(w, x, y, 2)] == bytes[at]
            &&& frame[index_of(w, x, y, 3)] == bytes[at + 3]
        }),
{
    let (w, h) = (size.0 as int, size.1 as int);
    let rows = fitted_rows(bytes, 4 * w, h);
    let p = y * w + x;
    lemma_frame_is_rows(w, h);
    lemma_index_inside(w, h, x, y);
    assert(4 * p == y * (4 * w) + 4 * x) by (nonlinear_arith)
        requires
            p == y * w + x,
    ;
    lemma_row_split(4 * w, h, y, 4 * x);
    lemma_row_split(4 * w, h, y, 4 * x + 1);
    lemma_row_split(4 * w, h, y, 4 * x + 2);
    lemma_row_split(4 * w, h, y, 4 * x + 3);
    law_swapped_pixel(rows, p);
}

/// What a desktop's row is too short for is zero.
pub proof fn law_missing_pixels_are_empty(size: (u32, u32), bytes: Seq<u8>, x: int, y: int, c: int)
    requires
        0 <= x < size.0,
        0 <= y < size.1,
        0 <= c < 4,
        4 * x >= bytes.len() as int / size.1 as int,
    ensures
        DdaCapture::shown(size, Some(bytes))[index_of(size.0 as int, x, y, c)] == 0,
{
    let (w, h) = (size.0 as int, size.1 as int);
    let rows = fitted_rows(bytes, 4 * w, h);
    let p = y * w + x;
    lemma_frame_is_rows(w, h);
    lemma_index_inside(w, h, x, y);
    assert(4 * p == y * (4 * w) + 4 * x) by (nonlinear_arith)
        requires
            p == y * w + x,
    ;
    lemma_row_split(4 * w, h, y, 4 * x);
    lemma_row_split(4 * w, h, y, 4 * x + 1);
    lemma_row_split(4 * w, h, y, 4 * x + 2);
    lemma_row_split(4 * w, h, y, 4 * x + 3);
    law_swapped_pixel(rows, p);
}

/// A desktop that could not be acquired is shown as opaque black pixels.
pub proof fn law_black_without_a_desktop(size: (u32, u32), p: int)
    requires
        0 <= p < size.0 * size.1,
    ensures
        DdaCapture::shown(size, None).len() == 4 * (size.0 * size.1),
        DdaCapture::shown(size, None).subrange(4 * p, 4 * p + 4) == seq![0u8, 0, 0, 255],
{
    law_black_pixel((4 * (size.0 * size.1)) as nat, p);
}

/// A monitor is offered under its own name, and under its number where it has none.
pub proof fn law_monitors_are_named(index: usize, name: Seq<char>)
    ensures
        display_entry(Some(index), Some(name)) == (index, name),
        display_entry(Some(index), None) == (index, "Display "@ + decimal(index as nat)),
{
}

/// What a display's capture hands out is what was acquired last, red first.
pub proof fn law_captured_display(capture: DdaCapture, bytes: Seq<u8>, x: int, y: int)
    requires
        capture.acquired() == Some(bytes),
        0 <= x < capture.size().0,
        0 <= y < capture.size().1,
        bytes.len() == frame_len(capture.size().0 as int, capture.size().1 as int),
    ensures
        ({
            let at = index_of(capture.size().0 as int, x, y, 0);
            &&& capture.frame().len() == bytes.len()
            &&& capture.frame()[at] == bytes[at + 2]
            &&& capture.frame()[at + 1] == bytes[at + 1]
            &&& capture.frame()[at + 2] == bytes[at]
            &&& capture.frame()[at + 3] == bytes[at + 3]
        }),
{
    let (w, h) = (capture.size().0 as int, capture.size().1 as int);
    lemma_frame_is_rows(w, h);
    vstd::arithmetic::div_mod::lemma_fundamental_div_mod_converse(
        bytes.len() as int,
        h,
        4 * w,
        0,
    );
    law_desktop_pixel(capture.size(), bytes, x, y);
    assert(y * (4 * w) + 4 * x == (y * w + x) * 4) by (nonlinear_arith);
}

/// A display whose desktop could not be acquired hands out opaque black pixels.
pub proof fn law_captured_nothing(capture: DdaCapture, p: int)
    requires
        capture.acquired() is None,
        0 <= p < capture.size().0 * capture.size().1,
    ensures
        capture.frame().len() == 4 * (capture.size().0 * capture.size().1),
        capture.frame().subrange(4 * p, 4 * p + 4) == seq![0u8, 0, 0, 255],
{
    law_black_without_a_desktop(capture.size(), p);
}

/// A display's capture hands out what was acquired last, red first where the desktop has blue
/// first. The buffer must have the display's size, and else stays as it was.
pub proof fn law_grabbing_a_display(
    capture: &mut DdaCapture,
    later: &mut DdaCapture,
    bytes: Vec<u8>,
    out: &mut [u8],
    res: Result<(), GrabError>,
    x: int,
    y: int,
)
    requires
        call_ensures(DdaCapture::acquire, (capture, Some(bytes)), ()),
        *later == *final(capture),
        call_ensures(<DdaCapture as FrameCapture>::grab_into, (later, out), res),
        bytes@.len() == frame_len(capture.size().0 as int, capture.size().1 as int),
        0 <= x < capture.size().0,
        0 <= y < capture.size().1,
    ensures
        ({
            let at = index_of(old(capture).size().0 as int, x, y, 0);
            &&& res is Ok <==> old(out)@.len() == bytes@.len()
            &&& res is Err ==> final(out)@ == old(out)@
            &&& res is Ok ==> {
                &&& final(out)@[at] == bytes@[at + 2]
                &&& final(out)@[at + 1] == bytes@[at + 1]
                &&& final(out)@[at + 2] == bytes@[at]
                &&& final(out)@[at + 3] == bytes@[at + 3]
            }
        }),
{
    law_captured_display(*later, bytes@, x, y);
}

/// A display is captured at its own size, but for a column and a row that even numbers may
/// cost, under its own name, and nothing of it was acquired at first.
pub proof fn law_new_display(name: Option<String>, raw_w: u32, raw_h: u32, capture: DdaCapture)
    requires
        call_ensures(DdaCapture::new, (name, raw_w, raw_h), capture),
    ensures
        capture.size().0 % 2 == 0 && capture.size().1 % 2 == 0,
        capture.size().0 <= raw_w <= capture.size().0 + 1,
        capture.size().1 <= raw_h <= capture.size().1 + 1,
        name matches Some(s) ==> capture.name() == s@,
        name is None ==> capture.name() == "Display"@,
        capture.acquired() is None,
{
}

/// All monitors are offered in their order, each under its own number and name.
pub proof fn law_listing_displays(
    found: Vec<MonitorReport>,
    res: Result<Vec<(usize, String)>, SourceError>,
    none: Result<Vec<(usize, String)>, SourceError>,
    i: int,
)
    requires
        call_ensures(list_capture_displays, (Some(found),), res),
        call_ensures(list_capture_displays, (None,), none),
        0 <= i < found@.len(),
    ensures
        res matches Ok(list) && list@.len() == found@.len() && (found@[i].0 matches Some(n)
            ==> list@[i].0 == n) && (found@[i].1 matches Some(s) ==> list@[i].1@ == s@),
        none matches Err(e) && e == SourceError::DisplayCaptureUnsupported,
{
}

/// A display has the even part of its monitor's size, and its own name.
pub proof fn law_display_size(
    name: Option<String>,
    raw_w: u32,
    raw_h: u32,
    capture: DdaCapture,
    size: (u32, u32),
)
    requires
        call_ensures(DdaCapture::new, (name, raw_w, raw_h), capture),
        call_ensures(<DdaCapture as FrameCapture>::dimensions, (&capture,), size),
    ensures
        size.0 % 2 == 0 && size.0 <= raw_w <= size.0 + 1,
        size.1 % 2 == 0 && size.1 <= raw_h <= size.1 + 1,
{
}

} // verus!
