//! Decisions of the Media Foundation encoders: which one to open, on which
//! adapter, and how its events are answered.

use vstd::prelude::*;

use crate::protocol::{clone_optional_text, optional_text};
use crate::text::{contains, lowercase, occurs, texts, to_lowercase};

verus! {

/// How many frames wait for an encoder that asks for them.
pub const INPUT_QUEUE_DEPTH: usize = 4;

/// How many events are taken at a time.
pub const PUMP_EVENTS: u32 = 32;

/// How many events are taken at a time at the end of the stream.
pub const FINISH_EVENTS: u32 = 64;

/// How often events are taken at the end of the stream.
pub const FINISH_ROUNDS: u32 = 100;

/// How long to wait for more events, in milliseconds.
pub const EVENT_WAIT_MS: u64 = 2;

/// An encoder that is installed.
#[derive(Debug)]
pub struct EncoderDescriptor {
    pub name: String,
    pub flags: u32,
    pub is_hardware: bool,
    pub is_sync: bool,
}

/// Whether a name, in lowercase, is that of a hardware encoder.
pub open spec fn names_hardware(lower: Seq<char>) -> bool {
    ||| occurs(lower, "nvidia"@)
    ||| occurs(lower, "nvenc"@)
    ||| occurs(lower, "intel"@)
    ||| occurs(lower, "quick sync"@)
    ||| occurs(lower, "amd"@)
    ||| occurs(lower, "amf"@)
    ||| occurs(lower, "hardware"@)
}

/// Whether a name, in lowercase, is that of a hardware encoder.
pub fn is_hardware_name(lower: &str) -> (res: bool)
    ensures
        res == names_hardware(lower@),
{
    contains(lower, "nvidia") || contains(lower, "nvenc") || contains(lower, "intel") || contains(
        lower,
        "quick sync",
    ) || contains(lower, "amd") || contains(lower, "amf") || contains(lower, "hardware")
}

/// What an encoder is called.
pub open spec fn friendly(name: Option<Seq<char>>) -> Seq<char> {
    match name {
        Some(s) => s,
        None => "<unknown>"@,
    }
}

/// Describes an encoder: one that is not hardware is synchronous.
fn describe_encoder(name: Option<String>, flags: u32) -> (res: EncoderDescriptor)
    ensures
        res.name@ == friendly(
            match name {
                Some(s) => Some(s@),
                None => None,
            },
        ),
        res.flags == flags,
        res.is_hardware == names_hardware(lowercase(res.name@)),
        res.is_sync == !res.is_hardware,
{
    let name = match name {
        Some(s) => s,
        None => "<unknown>".to_string(),
    };
    let lower = to_lowercase(name.as_str());
    let is_hardware = is_hardware_name(lower.as_str());
    EncoderDescriptor { name, flags, is_hardware, is_sync: !is_hardware }
}

/// Describes the encoders that were found, in their order.
pub fn enumerate_h264_encoders(names: Vec<Option<String>>, flags: u32) -> (res: Vec<
    EncoderDescriptor,
>)
    ensures
        res@.len() == names@.len(),
        forall|i: int|
            0 <= i < res@.len() ==> (#[trigger] res@[i]).name@ == friendly(optional_text(names@[i]))
                && res@[i].flags == flags && res@[i].is_hardware == names_hardware(
                lowercase(res@[i].name@),
            ) && res@[i].is_sync == !res@[i].is_hardware,
{
    let mut out: Vec<EncoderDescriptor> = Vec::new();
    let len: usize = names.len();
    let mut i: usize = 0;
    while i < len
        invariant
            i <= len,
            len == names@.len(),
            out@.len() == i,
            forall|j: int|
                0 <= j < i ==> (#[trigger] out@[j]).name@ == friendly(optional_text(names@[j]))
                    && out@[j].flags == flags && out@[j].is_hardware == names_hardware(
                    lowercase(out@[j].name@),
                ) && out@[j].is_sync == !out@[j].is_hardware,
        decreases len - i,
    {
        out.push(describe_encoder(clone_optional_text(&names[i]), flags));
        i += 1;
    }
    out
}

/// Whether a choice is the first of `names` that contains `wanted`, and is missing only where
/// none does.
pub open spec fn is_first_of(names: Seq<Seq<char>>, wanted: Seq<char>, choice: Option<usize>) -> bool {
    match choice {
        Some(k) => k < names.len() && occurs(names[k as int], wanted) && forall|i: int|
            0 <= i < k ==> !occurs(#[trigger] names[i], wanted),
        None => forall|i: int| 0 <= i < names.len() ==> !occurs(#[trigger] names[i], wanted),
    }
}

/// The first of `names`, all in lowercase, that contains `wanted`.
pub fn first_containing(names: &Vec<String>, wanted: &str) -> (res: Option<usize>)
    ensures
        match res {
            Some(k) => k < names@.len() && occurs(names@[k as int]@, wanted@) && forall|i: int|
                0 <= i < k ==> !occurs((#[trigger] names@[i])@, wanted@),
            None => forall|i: int|
                0 <= i < names@.len() ==> !occurs((#[trigger] names@[i])@, wanted@),
        },
        is_first_of(texts(names@), wanted@, res),
{
    let len: usize = names.len();
    let mut i: usize = 0;
    while i < len
        invariant
            i <= len,
            len == names@.len(),
            forall|j: int| 0 <= j < i ==> !occurs((#[trigger] names@[j])@, wanted@),
            forall|j: int| 0 <= j < i ==> !occurs(#[trigger] texts(names@)[j], wanted@),
        decreases len - i,
    {
        if contains(names[i].as_str(), wanted) {
            return Some(i);
        }
        i += 1;
    }
    None
}

/// The names in lowercase.
fn lowered(names: &Vec<String>) -> (res: Vec<String>)
    ensures
        res@.len() == names@.len(),
        forall|i: int| 0 <= i < res@.len() ==> (#[trigger] res@[i])@ == lowercase(names@[i]@),
{
    let mut out: Vec<String> = Vec::new();
    let len: usize = names.len();
    let mut i: usize = 0;
    while i < len
        invariant
            i <= len,
            len == names@.len(),
            out@.len() == i,
            forall|j: int| 0 <= j < i ==> (#[trigger] out@[j])@ == lowercase(names@[j]@),
        decreases len - i,
    {
        out.push(to_lowercase(names[i].as_str()));
        i += 1;
    }
    out
}

/// The first encoder whose name contains `wanted`, whatever the case of the
/// letters.
pub fn pick_encoder(names: &Vec<String>, wanted: &str) -> (res: Option<usize>)
    ensures
        match res {
            Some(k) => k < names@.len() && occurs(lowercase(names@[k as int]@), lowercase(wanted@))
                && forall|i: int|
                0 <= i < k ==> !occurs(lowercase((#[trigger] names@[i])@), lowercase(wanted@)),
            None => forall|i: int|
                0 <= i < names@.len() ==> !occurs(
                    lowercase((#[trigger] names@[i])@),
                    lowercase(wanted@),
                ),
        },
        is_first_of(
            Seq::new(names@.len(), |i: int| lowercase(names@[i]@)),
            lowercase(wanted@),
            res,
        ),
{
    let lower = lowered(names);
    let needle = to_lowercase(wanted);
    let res = first_containing(&lower, needle.as_str());
    proof {
        assert(texts(lower@) =~= Seq::new(names@.len(), |i: int| lowercase(names@[i]@)));
        assert forall|i: int| 0 <= i < names@.len() implies lowercase((#[trigger] names@[i])@)
            == lower@[i]@ by {}
    }
    res
}

/// What is reported when no encoder has a name. `asynchronous` says which ones
/// were looked at.
pub fn no_encoder_text(wanted: &str, asynchronous: bool) -> (res: String)
    ensures
        res@ == (if asynchronous {
            "no async H.264 MFT name matches '"@
        } else {
            "no H.264 MFT name matches '"@
        }) + wanted@ + "'"@,
{
    let mut s = if asynchronous {
        "no async H.264 MFT name matches '".to_string()
    } else {
        "no H.264 MFT name matches '".to_string()
    };
    s.append(wanted);
    s.append("'");
    s
}

/// Who made an adapter.
#[derive(Debug, Clone, Copy, PartialEq, Eq, Structural)]
pub enum Vendor {
    Nvidia,
    Intel,
    Amd,
}

/// Whose adapter an encoder wants, by its name in lowercase.
pub open spec fn wanted_vendor(lower: Seq<char>) -> Option<Vendor> {
    if occurs(lower, "nvidia"@) {
        Some(Vendor::Nvidia)
    } else if occurs(lower, "quick sync"@) || occurs(lower, "intel"@) {
        Some(Vendor::Intel)
    } else if occurs(lower, "amf"@) || occurs(lower, "amd"@) || occurs(lower, "radeon"@) {
        Some(Vendor::Amd)
    } else {
        None
    }
}

/// Whose adapter an encoder wants, by its name in lowercase.
pub fn adapter_hint(lower: &str) -> (res: Option<Vendor>)
    ensures
        res == wanted_vendor(lower@),
{
    if contains(lower, "nvidia") {
        Some(Vendor::Nvidia)
    } else if contains(lower, "quick sync") || contains(lower, "intel") {
        Some(Vendor::Intel)
    } else if contains(lower, "amf") || contains(lower, "amd") || contains(lower, "radeon") {
        Some(Vendor::Amd)
    } else {
        None
    }
}

/// Whose adapter an encoder wants.
pub fn adapter_hint_for(name: &str) -> (res: Option<Vendor>)
    ensures
        res == wanted_vendor(lowercase(name@)),
{
    let lower = to_lowercase(name);
    adapter_hint(lower.as_str())
}

/// Whether an adapter, by its name in lowercase, renders in software.
pub open spec fn is_software(lower: Seq<char>) -> bool {
    occurs(lower, "microsoft basic"@)
}

/// Whether an adapter, by its name in lowercase, is a vendor's.
pub open spec fn is_made_by(lower: Seq<char>, vendor: Vendor) -> bool {
    match vendor {
        Vendor::Nvidia => occurs(lower, "nvidia"@),
        Vendor::Intel => occurs(lower, "intel"@),
        Vendor::Amd => occurs(lower, "amd"@) || occurs(lower, "radeon"@),
    }
}

/// Whether adapter `i` could be picked for a vendor; for none, any could that
/// does not render in software.
pub open spec fn suits(lower: Seq<Seq<char>>, hint: Option<Vendor>, i: int) -> bool {
    !is_software(lower[i]) && match hint {
        Some(vendor) => is_made_by(lower[i], vendor),
        None => true,
    }
}

/// Whether `k` is the first adapter that suits.
pub open spec fn is_first_suiting(lower: Seq<Seq<char>>, hint: Option<Vendor>, k: int) -> bool {
    0 <= k < lower.len() && suits(lower, hint, k) && forall|i: int|
        0 <= i < k ==> !#[trigger] suits(lower, hint, i)
}

/// Whether a choice is the first adapter of a vendor, or the first of all where
/// the vendor has none, of those that do not render in software.
pub open spec fn is_pick(lower: Seq<Seq<char>>, hint: Option<Vendor>, choice: Option<usize>) -> bool {
    if exists|i: int| 0 <= i < lower.len() && #[trigger] suits(lower, hint, i) {
        choice matches Some(k) && is_first_suiting(lower, hint, k as int)
    } else {
        match choice {
            Some(k) => is_first_suiting(lower, None, k as int),
            None => forall|i: int| 0 <= i < lower.len() ==> !#[trigger] suits(lower, None, i),
        }
    }
}

/// The first adapter that suits, by names in lowercase.
fn first_suiting(lower: &Vec<String>, hint: Option<Vendor>) -> (res: Option<usize>)
    ensures
        match res {
            Some(k) => is_first_suiting(texts(lower@), hint, k as int),
            None => forall|i: int|
                0 <= i < lower@.len() ==> !#[trigger] suits(texts(lower@), hint, i),
        },
{
    let len: usize = lower.len();
    let ghost all = texts(lower@);
    let mut i: usize = 0;
    while i < len
        invariant
            i <= len,
            len == lower@.len(),
            all == texts(lower@),
            forall|j: int| 0 <= j < i ==> !#[trigger] suits(all, hint, j),
        decreases len - i,
    {
        let name = lower[i].as_str();
        assert(all[i as int] == name@);
        if !contains(name, "microsoft basic") {
            let made = match hint {
                Some(Vendor::Nvidia) => contains(name, "nvidia"),
                Some(Vendor::Intel) => contains(name, "intel"),
                Some(Vendor::Amd) => contains(name, "amd") || contains(name, "radeon"),
                None => true,
            };
            if made {
                return Some(i);
            }
        }
        i += 1;
    }
    None
}

/// The adapter for a vendor's encoder, by names in lowercase.
pub fn pick_adapter(lower: &Vec<String>, hint: Option<Vendor>) -> (res: Option<usize>)
    ensures
        is_pick(texts(lower@), hint, res),
{
    match first_suiting(lower, hint) {
        Some(k) => Some(k),
        None => first_suiting(lower, None),
    }
}

/// The adapter for a vendor's encoder: one of the vendor's if there is one, else
/// the first that does not render in software.
pub fn pick_adapter_for_vendor(names: &Vec<String>, hint: Option<Vendor>) -> (res: Option<usize>)
    ensures
        is_pick(Seq::new(names@.len(), |i: int| lowercase(names@[i]@)), hint, res),
{
    let lower = lowered(names);
    assert(texts(lower@) =~= Seq::new(names@.len(), |i: int| lowercase(names@[i]@)));
    pick_adapter(&lower, hint)
}

/// The duration of a frame in units of 100 nanoseconds.
pub fn frame_duration_hns(fps: u32) -> (res: i64)
    requires
        fps > 0,
    ensures
        res == 10_000_000int / fps as int,
{
    (10_000_000u64 / fps as u64) as i64
}

/// Two numbers in one, the first in the upper half.
pub fn packed_pair(upper: u32, lower: u32) -> (res: u64)
    ensures
        res == upper * 0x1_0000_0000 + lower,
{
    let (u, l) = (upper as u64, lower as u64);
    assert((u << 32) | l == u * 0x1_0000_0000 + l) by (bit_vector)
        requires
            u <= 0xffff_ffff,
            l <= 0xffff_ffff,
    ;
    (u << 32) | l
}

/// The bitrate in bits a second.
pub fn bitrate_bps(bitrate_kbps: u32) -> (res: u32)
    requires
        bitrate_kbps * 1000 <= u32::MAX,
    ensures
        res == bitrate_kbps * 1000,
{
    bitrate_kbps * 1000
}

/// The size of an input buffer: what the encoder asks for, and an NV12 frame at
/// the least.
pub fn input_buffer_size(asked: u32, width: u32, height: u32) -> (res: usize)
    requires
        width * height * 3 / 2 <= usize::MAX,
    ensures
        res == if asked > width * height * 3 / 2 {
            asked as int
        } else {
            width * height * 3 / 2
        },
{
    proof {
        assert(0 <= width * height <= 0xffff_ffff * 0xffff_ffff) by (nonlinear_arith)
            requires
                0 <= width <= 0xffff_ffff,
                0 <= height <= 0xffff_ffff,
        ;
    }
    let frame: usize = (width as u128 * height as u128 * 3 / 2) as usize;
    if asked as usize > frame {
        asked as usize
    } else {
        frame
    }
}

/// The output bytes that are an access unit: all but none.
pub fn unit_of(bytes: Vec<u8>) -> (res: Option<Vec<u8>>)
    ensures
        res == if bytes@.len() > 0 {
            Some(bytes)
        } else {
            None
        },
{
    if bytes.len() > 0 {
        Some(bytes)
    } else {
        None
    }
}

/// What an encoder reports.
#[derive(Debug, Clone, Copy, PartialEq, Eq, Structural)]
pub enum MfEvent {
    /// It wants a frame.
    NeedInput,
    /// It has an access unit.
    HaveOutput,
    /// It has given out everything.
    DrainComplete,
    /// Something else.
    Other,
    /// There is nothing to report.
    Idle,
    /// It failed.
    Failed,
}

/// What to do with an encoder.
#[derive(Debug, Clone, Copy, PartialEq, Eq, Structural)]
pub enum MfStep {
    /// Hand it a frame from the queue.
    Submit,
    /// Ask it for an event.
    Poll,
    /// Take an access unit.
    Drain,
    /// Go on.
    Proceed,
    /// Enough for now.
    Done,
    /// Give up.
    Fail,
}

/// The state of an encoder that works by events: how many frames it still waits
/// for, whether it has given out everything, the time of the next frame, and how
/// many more events are taken.
#[derive(Debug, Clone, Copy, PartialEq, Eq, Structural)]
pub struct AsyncMfEncoder {
    pub pending: u32,
    pub finished: bool,
    pub next_pts_hns: i64,
    pub duration_hns: i64,
    pub left: u32,
}

/// What to do next, with `queued` frames in the queue, and the state after it:
/// frames that the encoder waits for come before events.
pub open spec fn next_step(s: AsyncMfEncoder, queued: nat) -> (AsyncMfEncoder, MfStep) {
    if s.left == 0 {
        (s, MfStep::Done)
    } else if s.pending > 0 && queued > 0 {
        (AsyncMfEncoder { pending: (s.pending - 1) as u32, ..s }, MfStep::Submit)
    } else {
        (AsyncMfEncoder { left: (s.left - 1) as u32, ..s }, MfStep::Poll)
    }
}

/// What an event asks for, with `queued` frames in the queue, and the state after
/// it. A request for a frame that cannot be met is kept.
pub open spec fn event_step(s: AsyncMfEncoder, event: MfEvent, queued: nat) -> (AsyncMfEncoder, MfStep) {
    match event {
        MfEvent::NeedInput => if queued > 0 {
            (s, MfStep::Submit)
        } else {
            (AsyncMfEncoder { pending: (s.pending + 1) as u32, ..s }, MfStep::Proceed)
        },
        MfEvent::HaveOutput => (s, MfStep::Drain),
        MfEvent::DrainComplete => (AsyncMfEncoder { finished: true, ..s }, MfStep::Proceed),
        MfEvent::Other => (s, MfStep::Proceed),
        MfEvent::Idle => (s, MfStep::Done),
        MfEvent::Failed => (s, MfStep::Fail),
    }
}

impl AsyncMfEncoder {
    /// An encoder that was just opened.
    pub fn new(fps: u32) -> (res: Self)
        requires
            fps > 0,
        ensures
            res == (AsyncMfEncoder {
                pending: 0,
                finished: false,
                next_pts_hns: 0,
                duration_hns: (10_000_000int / fps as int) as i64,
                left: 0,
            }),
    {
        AsyncMfEncoder {
            pending: 0,
            finished: false,
            next_pts_hns: 0,
            duration_hns: frame_duration_hns(fps),
            left: 0,
        }
    }

    /// Begins to take at most `events` events.
    pub fn begin(&mut self, events: u32)
        ensures
            *final(self) == (AsyncMfEncoder { left: events, ..*old(self) }),
    {
        self.left = events;
    }

    /// Whether the encoder waits for a frame.
    pub fn has_pending_requests(&self) -> (res: bool)
        ensures
            res == (self.pending > 0),
    {
        self.pending > 0
    }

    /// What to do next, with `queued` frames in the queue.
    pub fn next(&mut self, queued: usize) -> (res: MfStep)
        ensures
            (*final(self), res) == next_step(*old(self), queued as nat),
    {
        if self.left == 0 {
            MfStep::Done
        } else if self.pending > 0 && queued > 0 {
            self.pending = self.pending - 1;
            MfStep::Submit
        } else {
            self.left = self.left - 1;
            MfStep::Poll
        }
    }

    /// What an event asks for, with `queued` frames in the queue.
    pub fn on_event(&mut self, event: MfEvent, queued: usize) -> (res: MfStep)
        requires
            old(self).pending < u32::MAX,
        ensures
            (*final(self), res) == event_step(*old(self), event, queued as nat),
    {
        match event {
            MfEvent::NeedInput => {
                if queued > 0 {
                    MfStep::Submit
                } else {
                    self.pending = self.pending + 1;
                    MfStep::Proceed
                }
            },
            MfEvent::HaveOutput => MfStep::Drain,
            MfEvent::DrainComplete => {
                self.finished = true;
                MfStep::Proceed
            },
            MfEvent::Other => MfStep::Proceed,
            MfEvent::Idle => MfStep::Done,
            MfEvent::Failed => MfStep::Fail,
        }
    }

    /// The time of a frame that is handed over.
    pub fn stamp(&mut self) -> (res: i64)
        requires
            i64::MIN <= old(self).next_pts_hns + old(self).duration_hns <= i64::MAX,
        ensures
            res == old(self).next_pts_hns,
            *final(self) == (AsyncMfEncoder {
                next_pts_hns: (old(self).next_pts_hns + old(self).duration_hns) as i64,
                ..*old(self)
            }),
    {
        let pts = self.next_pts_hns;
        self.next_pts_hns = pts + self.duration_hns;
        pts
    }

    /// Whether to take more events at the end of the stream, after `rounds` rounds.
    pub fn keeps_draining(&self, rounds: u32) -> (res: bool)
        ensures
            res == (!self.finished && rounds < FINISH_ROUNDS),
    {
        !self.finished && rounds < FINISH_ROUNDS
    }
}

/// Whether the queue takes another frame.
pub fn takes_frame(queued: usize) -> (res: bool)
    ensures
        res == (queued < INPUT_QUEUE_DEPTH),
{
    queued < INPUT_QUEUE_DEPTH
}

/// Whether there is nothing to do until another frame comes.
pub fn must_wait(queued: usize, pending: bool) -> (res: bool)
    ensures
        res == (queued == 0 && !pending),
{
    queued == 0 && !pending
}

/// How many requests for frames a sequence of events holds.
pub open spec fn requests(events: Seq<MfEvent>) -> nat
    decreases events.len(),
{
    if events.len() == 0 {
        0
    } else {
        requests(events.drop_last()) + if events.last() == MfEvent::NeedInput {
            1nat
        } else {
            0
        }
    }
}

/// The state after events were taken until there is nothing more to do, how many
/// frames were handed over, and how many of `events` were taken. The queue is not
/// filled up in between.
pub open spec fn pumped(s: AsyncMfEncoder, queued: nat, events: Seq<MfEvent>) -> (AsyncMfEncoder, nat, nat)
    decreases s.left, s.pending,
{
    let (t, step) = next_step(s, queued);
    match step {
        MfStep::Submit => {
            let (end, sent, taken) = pumped(t, (queued - 1) as nat, events);
            (end, sent + 1, taken)
        },
        MfStep::Poll => if events.len() == 0 {
            (t, 0, 0)
        } else {
            let (u, asked) = event_step(t, events[0], queued);
            match asked {
                MfStep::Submit => {
                    let (end, sent, taken) = pumped(u, (queued - 1) as nat, events.skip(1));
                    (end, sent + 1, taken + 1)
                },
                MfStep::Drain | MfStep::Proceed => {
                    let (end, sent, taken) = pumped(u, queued, events.skip(1));
                    (end, sent, taken + 1)
                },
                _ => (u, 0, 1),
            }
        },
        _ => (t, 0, 0),
    }
}

/// Every request for a frame is answered by one frame or still waits, and no more
/// frames are handed over than there are.
pub proof fn law_every_request_is_answered_once(s: AsyncMfEncoder, queued: nat, events: Seq<MfEvent>)
    requires
        s.pending + s.left <= u32::MAX,
    ensures
        ({
            let (end, sent, taken) = pumped(s, queued, events);
            &&& sent + end.pending == s.pending + requests(events.take(taken as int))
            &&& sent <= queued
            &&& taken <= events.len()
            &&& taken <= s.left
        }),
    decreases s.left, s.pending,
{
    let (t, step) = next_step(s, queued);
    assert(requests(events.take(0)) == 0);
    match step {
        MfStep::Submit => {
            law_every_request_is_answered_once(t, (queued - 1) as nat, events);
        },
        MfStep::Poll => {
            if events.len() > 0 {
                let (u, asked) = event_step(t, events[0], queued);
                match asked {
                    MfStep::Submit => {
                        let rest = events.skip(1);
                        law_every_request_is_answered_once(u, (queued - 1) as nat, rest);
                        lemma_requests_of_rest(
                            events,
                            pumped(u, (queued - 1) as nat, rest).2 as int,
                        );
                    },
                    MfStep::Drain | MfStep::Proceed => {
                        law_every_request_is_answered_once(u, queued, events.skip(1));
                        lemma_requests_of_rest(events, pumped(u, queued, events.skip(1)).2 as int);
                    },
                    _ => {
                        lemma_requests_of_rest(events, 0);
                        assert(requests(events.skip(1).take(0)) == 0);
                    },
                }
            }
        },
        _ => {},
    }
}

/// The requests in the first `n + 1` events are those of the first, and of the `n`
/// after it.
proof fn lemma_requests_of_rest(events: Seq<MfEvent>, n: int)
    requires
        0 <= n < events.len(),
    ensures
        requests(events.take(n + 1)) == requests(events.skip(1).take(n)) + if events[0]
            == MfEvent::NeedInput {
            1nat
        } else {
            0
        },
    decreases n,
{
    if n == 0 {
        assert(events.take(1).drop_last() =~= Seq::empty());
        assert(requests(Seq::<MfEvent>::empty()) == 0);
        assert(events.skip(1).take(0) =~= Seq::empty());
    } else {
        lemma_requests_of_rest(events, n - 1);
        assert(events.take(n + 1).drop_last() =~= events.take(n));
        assert(events.skip(1).take(n).drop_last() =~= events.skip(1).take(n - 1));
    }
}

/// Whether encoder `i` to try for frames in main memory works by events, and what
/// its name contains: the asynchronous ones come first.
pub fn cpu_candidate(i: usize) -> (res: Option<(bool, &'static str)>)
    ensures
        match res {
            Some((by_events, name)) => i < 5 && by_events == (i < 3) && name@ == if i == 0 {
                "nvidia"@
            } else if i == 1 {
                "quick sync"@
            } else if i == 2 {
                "amf"@
            } else if i == 3 {
                "microsoft avc dx12"@
            } else {
                "h264 encoder mft"@
            },
            None => i >= 5,
        },
{
    match i {
        0 => Some((true, "nvidia")),
        1 => Some((true, "quick sync")),
        2 => Some((true, "amf")),
        3 => Some((false, "microsoft avc dx12")),
        4 => Some((false, "h264 encoder mft")),
        _ => None,
    }
}

/// What the name of encoder `i` to try for frames on the GPU contains.
pub fn gpu_candidate(i: usize) -> (res: Option<&'static str>)
    ensures
        match res {
            Some(name) => i < 3 && name@ == if i == 0 {
                "quick sync"@
            } else if i == 1 {
                "amf"@
            } else {
                "nvidia"@
            },
            None => i >= 3,
        },
{
    match i {
        0 => Some("quick sync"),
        1 => Some("amf"),
        2 => Some("nvidia"),
        _ => None,
    }
}

/// The adapter that is picked for an encoder does not render in software. It is the first
/// of the encoder's own vendor where there is one, and else the first of all; none is
/// picked only where there is none but such as render in software.
pub proof fn law_encoders_meet_their_adapters(
    encoder: Seq<char>,
    lower: Seq<Seq<char>>,
    choice: Option<usize>,
    i: int,
)
    requires
        is_pick(lower, wanted_vendor(encoder), choice),
        0 <= i < lower.len(),
        !occurs(lower[i], "microsoft basic"@),
    ensures
        choice matches Some(k) && k < lower.len() && !occurs(lower[k as int], "microsoft basic"@),
        occurs(encoder, "nvidia"@) && occurs(lower[i], "nvidia"@) ==> choice->0 <= i && occurs(
            lower[choice->0 as int],
            "nvidia"@,
        ),
        !occurs(encoder, "nvidia"@) && (occurs(encoder, "quick sync"@) || occurs(encoder, "intel"@))
            && occurs(lower[i], "intel"@) ==> choice->0 <= i && occurs(
            lower[choice->0 as int],
            "intel"@,
        ),
        !occurs(encoder, "nvidia"@) && !occurs(encoder, "quick sync"@) && !occurs(
            encoder,
            "intel"@,
        ) && (occurs(encoder, "amf"@) || occurs(encoder, "amd"@) || occurs(encoder, "radeon"@)) && (
        occurs(lower[i], "amd"@) || occurs(lower[i], "radeon"@)) ==> choice->0 <= i && (occurs(
            lower[choice->0 as int],
            "amd"@,
        ) || occurs(lower[choice->0 as int], "radeon"@)),
        wanted_vendor(encoder) is None ==> choice->0 <= i,
{
    let hint = wanted_vendor(encoder);
    assert(suits(lower, None, i));
    if suits(lower, hint, i) {
        let k = choice->0 as int;
        assert(k <= i) by {
            if k > i {
                assert(!suits(lower, hint, i));
            }
        }
    }
}

/// An encoder whose name mentions none of the vendors wants no adapter in particular.
pub proof fn law_unknown_encoders_take_any_adapter(encoder: Seq<char>)
    requires
        !occurs(encoder, "nvidia"@),
        !occurs(encoder, "quick sync"@),
        !occurs(encoder, "intel"@),
        !occurs(encoder, "amf"@),
        !occurs(encoder, "amd"@),
        !occurs(encoder, "radeon"@),
    ensures
        wanted_vendor(encoder) is None,
{
}

/// An encoder counts as hardware where its name mentions a maker of such, and only there.
pub proof fn law_hardware_names(before: Seq<char>, word: Seq<char>, after: Seq<char>)
    ensures
        word == "nvidia"@ || word == "nvenc"@ || word == "intel"@ || word == "quick sync"@ || word
            == "amd"@ || word == "amf"@ || word == "hardware"@ ==> names_hardware(
            before + word + after,
        ),
        names_hardware(word) ==> wanted_vendor(word) is Some || occurs(word, "nvenc"@) || occurs(
            word,
            "hardware"@,
        ),
{
    crate::text::law_occurring(word, word, before, after);
}

/// Every event is answered: a request by a frame at once where there is one, and kept for
/// later where there is none; an access unit that is ready is taken. Taking events ends
/// where there are none, and gives up where the encoder failed. Only a completed drain
/// marks the end, and nothing but a kept request changes what is waited for.
pub proof fn law_events_are_answered(s: AsyncMfEncoder, queued: nat)
    requires
        s.pending < u32::MAX,
    ensures
        queued > 0 ==> event_step(s, MfEvent::NeedInput, queued) == (s, MfStep::Submit),
        event_step(s, MfEvent::NeedInput, 0).1 == MfStep::Proceed,
        event_step(s, MfEvent::NeedInput, 0).0.pending == s.pending + 1,
        event_step(s, MfEvent::HaveOutput, queued) == (s, MfStep::Drain),
        event_step(s, MfEvent::DrainComplete, queued).0.finished,
        event_step(s, MfEvent::DrainComplete, queued).1 == MfStep::Proceed,
        event_step(s, MfEvent::Other, queued) == (s, MfStep::Proceed),
        event_step(s, MfEvent::Idle, queued) == (s, MfStep::Done),
        event_step(s, MfEvent::Failed, queued) == (s, MfStep::Fail),
        forall|event: MfEvent|
            ({
                let t = (#[trigger] event_step(s, event, queued)).0;
                &&& event != MfEvent::DrainComplete ==> t.finished == s.finished
                &&& event != MfEvent::NeedInput ==> t.pending == s.pending
                &&& t.left == s.left
                &&& t.next_pts_hns == s.next_pts_hns
                &&& t.duration_hns == s.duration_hns
            }),
{
}

/// A frame in the queue goes to a request that waits for it before another event is taken;
/// else an event is taken, and one less is left to take. Nothing is done once none is left.
pub proof fn law_requests_come_first(s: AsyncMfEncoder, queued: nat)
    ensures
        ({
            let (t, step) = next_step(s, queued);
            &&& s.left == 0 ==> step == MfStep::Done && t == s
            &&& s.left > 0 && s.pending > 0 && queued > 0 ==> step == MfStep::Submit && t.pending
                == s.pending - 1 && t.left == s.left
            &&& s.left > 0 && (s.pending == 0 || queued == 0) ==> step == MfStep::Poll && t.left
                == s.left - 1 && t.pending == s.pending
            &&& t.finished == s.finished
            &&& t.next_pts_hns == s.next_pts_hns
            &&& t.duration_hns == s.duration_hns
        }),
{
}

/// An encoder goes by its own name where it has one.
pub proof fn law_encoders_keep_their_names(name: Seq<char>)
    ensures
        friendly(Some(name)) == name,
        friendly(None) == "<unknown>"@,
{
}

/// Four frames wait for an encoder at most, and at the end of a stream events are taken a
/// hundred times before an encoder that has not finished is given up.
pub proof fn law_limits()
    ensures
        INPUT_QUEUE_DEPTH == 4,
        FINISH_ROUNDS == 100,
{
}

/// Frames follow each other by the duration of one, from nothing on.
pub proof fn law_stamping(
    fps: u32,
    first: &mut AsyncMfEncoder,
    second: &mut AsyncMfEncoder,
    a: i64,
    b: i64,
)
    requires
        fps > 0,
        call_ensures(AsyncMfEncoder::new, (fps,), *first),
        call_ensures(AsyncMfEncoder::stamp, (first,), a),
        *second == *final(first),
        call_ensures(AsyncMfEncoder::stamp, (second,), b),
    ensures
        a == 0,
        b == 10_000_000int / fps as int,
        b * fps <= 10_000_000,
        10_000_000 < (b + 1) * fps,
{
    let f = fps as int;
    vstd::arithmetic::div_mod::lemma_fundamental_div_mod(10_000_000, f);
    let q = 10_000_000int / f;
    assert(0 <= q <= 10_000_000) by (nonlinear_arith)
        requires
            10_000_000 == f * q + 10_000_000int % f,
            0 <= 10_000_000int % f,
            f >= 1,
    ;
    assert(f * q == q * f) by (nonlinear_arith);
    assert((q + 1) * f == q * f + f) by (nonlinear_arith);
}

/// The encoder's own questions: it waits where a request is open, the queue takes four frames,
/// there is nothing to do without frames and requests, and draining goes on until the end or a
/// hundred rounds.
pub proof fn law_asking(
    encoder: AsyncMfEncoder,
    queued: usize,
    pending: bool,
    waits: bool,
    takes: bool,
    must: bool,
    rounds: u32,
    drains: bool,
)
    requires
        call_ensures(AsyncMfEncoder::has_pending_requests, (&encoder,), waits),
        call_ensures(takes_frame, (queued,), takes),
        call_ensures(must_wait, (queued, pending), must),
        call_ensures(AsyncMfEncoder::keeps_draining, (&encoder, rounds), drains),
    ensures
        waits <==> encoder.pending > 0,
        takes <==> queued < 4,
        must <==> queued == 0 && !pending,
        drains <==> !encoder.finished && rounds < 100,
{
}

/// An encoder that works by events answers them: a request by a frame where there is one, a
/// unit that is ready by taking it.
pub proof fn law_answering(
    encoder: &mut AsyncMfEncoder,
    other: &mut AsyncMfEncoder,
    queued: usize,
    asked: MfStep,
    ready: MfStep,
)
    requires
        encoder.pending < u32::MAX,
        call_ensures(AsyncMfEncoder::on_event, (encoder, MfEvent::NeedInput, queued), asked),
        call_ensures(AsyncMfEncoder::on_event, (other, MfEvent::HaveOutput, queued), ready),
    ensures
        queued > 0 ==> asked == MfStep::Submit && *final(encoder) == *old(encoder),
        queued == 0 ==> asked == MfStep::Proceed && final(encoder).pending == old(encoder).pending
            + 1,
        ready == MfStep::Drain,
        *final(other) == *old(other),
{
}

/// Two numbers in one can be told apart again.
pub proof fn law_pairs(upper: u32, lower: u32, res: u64)
    requires
        call_ensures(packed_pair, (upper, lower), res),
    ensures
        res / 0x1_0000_0000 == upper,
        res % 0x1_0000_0000 == lower,
{
}

/// An input buffer has room for an NV12 frame, which takes one and a half bytes a pixel, and for
/// what the encoder asks for; an output of no bytes is no unit.
pub proof fn law_buffers(
    asked: u32,
    width: u32,
    height: u32,
    size: usize,
    bytes: Vec<u8>,
    unit: Option<Vec<u8>>,
)
    requires
        call_ensures(input_buffer_size, (asked, width, height), size),
        call_ensures(unit_of, (bytes,), unit),
    ensures
        size >= asked,
        2 * size >= width * height * 3 - 1,
        size == asked || size == width * height * 3 / 2,
        unit is Some <==> bytes@.len() > 0,
        unit matches Some(u) ==> u == bytes,
{
}

/// Encoders are tried vendor by vendor: by events first for frames in main memory.
pub proof fn law_candidates(
    i: usize,
    cpu: Option<(bool, &'static str)>,
    gpu: Option<&'static str>,
)
    requires
        call_ensures(cpu_candidate, (i,), cpu),
        call_ensures(gpu_candidate, (i,), gpu),
    ensures
        cpu is Some <==> i < 5,
        gpu is Some <==> i < 3,
        cpu matches Some((by_events, name)) ==> (by_events <==> i < 3) && (i == 0 ==> name@
            == "nvidia"@) && (i == 1 ==> name@ == "quick sync"@) && (i == 2 ==> name@ == "amf"@),
        gpu matches Some(name) ==> (i == 0 ==> name@ == "quick sync"@) && (i == 1 ==> name@
            == "amf"@) && (i == 2 ==> name@ == "nvidia"@),
{
}

/// The encoder that is picked is the first whose name holds what is looked for, in whatever
/// case, and none is picked only where no name does.
pub proof fn law_picking_an_encoder(
    names: Vec<String>,
    wanted: &str,
    res: Option<usize>,
    lower: Option<usize>,
    i: int,
)
    requires
        call_ensures(pick_encoder, (&names, wanted), res),
        call_ensures(first_containing, (&names, wanted), lower),
        0 <= i < names@.len(),
    ensures
        res matches Some(k) ==> k < names@.len() && occurs(
            lowercase(names@[k as int]@),
            lowercase(wanted@),
        ),
        occurs(lowercase(names@[i]@), lowercase(wanted@)) ==> (res matches Some(k) && k <= i),
        lower matches Some(k) ==> k < names@.len() && occurs(names@[k as int]@, wanted@),
        occurs(names@[i]@, wanted@) ==> (lower matches Some(k) && k <= i),
{
    let folded = Seq::new(names@.len(), |j: int| lowercase(names@[j]@));
    assert(is_first_of(folded, lowercase(wanted@), res));
    assert(folded[i] == lowercase(names@[i]@));
    assert(texts(names@)[i] == names@[i]@);
}

/// Encoders are listed in order and under their names; one is a hardware encoder where its
/// name says so, and works by events exactly then.
pub proof fn law_listing_encoders(
    names: Vec<Option<String>>,
    flags: u32,
    res: Vec<EncoderDescriptor>,
    i: int,
)
    requires
        call_ensures(enumerate_h264_encoders, (names, flags), res),
        0 <= i < names@.len(),
    ensures
        res@.len() == names@.len(),
        names@[i] matches Some(name) ==> res@[i].name@ == name@,
        names@[i] is None ==> res@[i].name@ == "<unknown>"@,
        res@[i].flags == flags,
        res@[i].is_hardware == names_hardware(lowercase(res@[i].name@)),
        res@[i].is_sync == !res@[i].is_hardware,
{
    assert(res@[i].name@ == friendly(optional_text(names@[i])));
}

/// An encoder goes to an adapter of its vendor where there is one, and never to the basic
/// adapter of the system where there is another.
pub proof fn law_picking_an_adapter(
    encoder: &str,
    hint: Option<Vendor>,
    lower: Vec<String>,
    res: Option<usize>,
    i: int,
)
    requires
        call_ensures(adapter_hint, (encoder,), hint),
        call_ensures(pick_adapter, (&lower, hint), res),
        0 <= i < lower@.len(),
        !occurs(lower@[i]@, "microsoft basic"@),
    ensures
        res matches Some(k) && k < lower@.len() && !occurs(lower@[k as int]@, "microsoft basic"@),
        occurs(encoder@, "nvidia"@) && occurs(lower@[i]@, "nvidia"@) ==> res->0 <= i && occurs(
            lower@[res->0 as int]@,
            "nvidia"@,
        ),
        !occurs(encoder@, "nvidia"@) && occurs(encoder@, "quick sync"@) && occurs(
            lower@[i]@,
            "intel"@,
        ) ==> res->0 <= i && occurs(lower@[res->0 as int]@, "intel"@),
        !occurs(encoder@, "nvidia"@) && !occurs(encoder@, "quick sync"@) && !occurs(
            encoder@,
            "intel"@,
        ) && occurs(encoder@, "amf"@) && occurs(lower@[i]@, "radeon"@) ==> res->0 <= i && (occurs(
            lower@[res->0 as int]@,
            "amd"@,
        ) || occurs(lower@[res->0 as int]@, "radeon"@)),
{
    assert(texts(lower@)[i] == lower@[i]@);
    law_encoders_meet_their_adapters(encoder@, texts(lower@), res, i);
    assert(texts(lower@)[res->0 as int] == lower@[res->0 as int]@);
}

/// Names in whatever case are treated as the names in lowercase.
pub proof fn law_letter_case(
    encoder: &str,
    lower_encoder: &str,
    adapters: Vec<String>,
    lower: Vec<String>,
    hint: Option<Vendor>,
    plain: Option<Vendor>,
    res: Option<usize>,
)
    requires
        lower_encoder@ == lowercase(encoder@),
        texts(lower@) == Seq::new(adapters@.len(), |i: int| lowercase(adapters@[i]@)),
        call_ensures(adapter_hint_for, (encoder,), hint),
        call_ensures(adapter_hint, (lower_encoder,), plain),
        call_ensures(pick_adapter_for_vendor, (&adapters, hint), res),
    ensures
        hint == plain,
        is_pick(texts(lower@), plain, res),
{
}

/// A frame is handed over where one is asked for and there is one, and else the next event is
/// looked at, until all of this round's have been.
pub proof fn law_stepping(encoder: &mut AsyncMfEncoder, queued: usize, res: MfStep)
    requires
        call_ensures(AsyncMfEncoder::next, (encoder, queued), res),
    ensures
        res == MfStep::Done <==> old(encoder).left == 0,
        res == MfStep::Submit <==> old(encoder).left > 0 && old(encoder).pending > 0 && queued > 0,
        res == MfStep::Submit ==> final(encoder).pending == old(encoder).pending - 1,
        res == MfStep::Poll ==> final(encoder).left == old(encoder).left - 1,
{
}

/// Rates are a thousand bits a second each, and a second of frames lasts no longer than ten
/// million units of 100 ns, and less than one unit a frame short of it.
pub proof fn law_rates(kbps: u32, bps: u32, fps: u32, duration: i64)
    requires
        call_ensures(bitrate_bps, (kbps,), bps),
        fps > 0,
        call_ensures(frame_duration_hns, (fps,), duration),
    ensures
        bps == 1000 * kbps,
        duration * fps <= 10_000_000,
        10_000_000 < (duration + 1) * fps,
{
    let f = fps as int;
    vstd::arithmetic::div_mod::lemma_fundamental_div_mod(10_000_000, f);
    let q = 10_000_000int / f;
    assert(f * q == q * f && (q + 1) * f == q * f + f) by (nonlinear_arith);
}

/// Names of the known makers, and no others, are those of hardware.
pub proof fn law_hardware_is_told_by_its_name(
    lower: &str,
    before: Seq<char>,
    word: Seq<char>,
    after: Seq<char>,
    res: bool,
)
    requires
        call_ensures(is_hardware_name, (lower,), res),
        lower@ == before + word + after,
    ensures
        word == "nvidia"@ || word == "nvenc"@ || word == "intel"@ || word == "quick sync"@ || word
            == "amd"@ || word == "amf"@ || word == "hardware"@ ==> res,
        res ==> wanted_vendor(lower@) is Some || occurs(lower@, "nvenc"@) || occurs(
            lower@,
            "hardware"@,
        ),
{
    law_hardware_names(before, word, after);
    law_hardware_names(before, lower@, after);
}

/// An encoder that is not found is reported under the name that was looked for.
pub proof fn law_missing_encoders(wanted: &str, asynchronous: bool, res: String)
    requires
        call_ensures(no_encoder_text, (wanted, asynchronous), res),
    ensures
        occurs(res@, wanted@),
{
    let before = if asynchronous {
        "no async H.264 MFT name matches '"@
    } else {
        "no H.264 MFT name matches '"@
    };
    crate::text::law_occurring(res@, wanted@, before, "'"@);
}

} // verus!
