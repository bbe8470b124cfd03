//! The sender's pipeline: what becomes of a captured frame, when the next one
//! is due, and when the publisher connects again.

use vstd::prelude::*;

use crate::config::{effective_backend, new_room_endpoint, new_room_url, receiver_page, receiver_url,
    Config, EncoderBackend, SourceInfo, SourceKind, SourceView};
use crate::gpu::tries_gpu;
use crate::packer::{apply_chroma_key, keyed, law_keying_goes_by_the_farthest_channel,
    law_packing_is_lossless, pack_rgba_side_by_side, packed, packed_dims, ChromaKey};
use crate::pixels::{frame_len, index_of};
use crate::protocol::optional_text;
use crate::publisher::PumpEnded;
use crate::resize::{box_resize_rgba, compute_effective_dims, effective_dims,
    law_effective_dims_are_as_large_as_allowed, resized};
use crate::scaling::{law_scaled_round_shrinks, law_whole_nanos_are_nearest, whole_nanos, Ratio};
use crate::text::{decimal, push_decimal};

verus! {

/// How many access units wait for the publisher: one second at 30 fps. More
/// than these are dropped, so that an encoder never waits for a publisher that
/// is not connected.
pub const AU_CHANNEL_DEPTH: usize = 30;

/// How many packed frames wait for the encoder.
pub const FRAME_CHANNEL_DEPTH: usize = 2;

/// How many events wait for whoever reads them.
pub const EVENT_CHANNEL_DEPTH: usize = 64;

/// How long the first retry waits, in milliseconds.
pub const RECONNECT_INITIAL_BACKOFF_MS: u64 = 500;

/// How long a retry waits at most, in milliseconds.
pub const RECONNECT_MAX_BACKOFF_MS: u64 = 8000;

/// How many access units are sent between two reports of them.
pub const PUBLISHING_EMIT_EVERY: u64 = 150;

/// How long a capture that failed is left alone, in milliseconds.
pub const GRAB_RETRY_MS: u64 = 100;

/// How long the workers get to wind down, in milliseconds.
pub const WIND_DOWN_MS: u64 = 200;

/// How a captured source is brought to the encoder.
#[derive(Debug, Clone, Copy, PartialEq, Eq, Structural)]
pub struct FramePlan {
    /// Dimensions of the source.
    pub raw_w: u32,
    pub raw_h: u32,
    /// Dimensions after downscaling.
    pub src_w: u32,
    pub src_h: u32,
    /// Dimensions after packing.
    pub packed_w: u32,
    pub packed_h: u32,
    /// Time between two frames, in nanoseconds.
    pub interval_ns: u64,
}

impl FramePlan {
    /// Whether the dimensions belong to each other and their frames fit in
    /// memory.
    pub open spec fn wf(&self) -> bool {
        &&& self.packed_w == 2 * self.src_w
        &&& self.packed_h == self.src_h
        &&& frame_len(self.raw_w as int, self.raw_h as int) <= usize::MAX
        &&& frame_len(self.packed_w as int, self.packed_h as int) <= usize::MAX
        &&& frame_len(self.src_w as int, self.src_h as int) > 0 ==> self.raw_w > 0 && self.raw_h
            > 0
    }

    /// Whether frames are downscaled.
    pub open spec fn resizes(&self) -> bool {
        !(self.raw_w == self.src_w && self.raw_h == self.src_h)
    }
}

/// The time between two frames, in nanoseconds.
pub fn frame_interval_ns(fps: u32) -> (res: u64)
    requires
        fps > 0,
    ensures
        res == whole_nanos(1, fps as nat),
        2 * (res * fps - 1_000_000_000) <= fps,
        2 * (1_000_000_000 - res * fps) <= fps,
{
    let ratio = Ratio::new(1, fps);
    let res = ratio.nanos();
    proof {
        law_whole_nanos_are_nearest(fps as nat);
        assert(res <= 2_000_000_000) by (nonlinear_arith)
            requires
                2 * (res * fps - 1_000_000_000) <= fps,
                fps >= 1,
        ;
    }
    res as u64
}

/// Plans for a source of given dimensions. None where its frames would not fit
/// in memory, or where there are no rows to scale to some.
pub fn plan(raw_w: u32, raw_h: u32, max_packed_width: u32, fps: u32) -> (res: Option<FramePlan>)
    requires
        fps > 0,
    ensures
        ({
            let dims = effective_dims(raw_w as nat, raw_h as nat, max_packed_width as nat);
            match res {
                Some(p) => p.wf() && p.raw_w == raw_w && p.raw_h == raw_h && p.src_w == dims.0
                    && p.src_h == dims.1 && p.packed_w == 2 * dims.0 && p.packed_h == dims.1
                    && p.packed_w <= max_packed_width && p.interval_ns == whole_nanos(
                    1,
                    fps as nat,
                ),
                None => frame_len(raw_w as int, raw_h as int) > usize::MAX || frame_len(
                    (2 * dims.0) as int,
                    dims.1 as int,
                ) > usize::MAX || (raw_h == 0 && dims.0 > 0 && dims.1 > 0),
            }
        }),
{
    let (src_w, src_h) = compute_effective_dims(raw_w, raw_h, max_packed_width);
    let (packed_w, packed_h) = packed_dims(src_w, src_h);
    if !fits(raw_w, raw_h) || !fits(packed_w, packed_h) || (raw_h == 0 && src_w > 0 && src_h > 0) {
        return None;
    }
    let interval_ns = frame_interval_ns(fps);
    let p = FramePlan { raw_w, raw_h, src_w, src_h, packed_w, packed_h, interval_ns };
    proof {
        assert(src_w == 0 || src_h == 0 ==> src_w * src_h * 4 == 0) by (nonlinear_arith);
    }
    Some(p)
}

/// Whether a frame fits in memory.
fn fits(w: u32, h: u32) -> (res: bool)
    ensures
        res == (frame_len(w as int, h as int) <= usize::MAX),
{
    proof {
        assert(0 <= w * h <= 0xffff_ffff * 0xffff_ffff) by (nonlinear_arith)
            requires
                0 <= w <= 0xffff_ffff,
                0 <= h <= 0xffff_ffff,
        ;
    }
    w as u128 * h as u128 * 4 <= usize::MAX as u128
}

/// The frame that a captured frame is downscaled to.
pub open spec fn downscaled(plan: FramePlan, raw: Seq<u8>) -> Seq<u8> {
    resized(
        raw,
        plan.raw_w as nat,
        plan.raw_h as nat,
        plan.src_w as nat,
        plan.src_h as nat,
    )
}

/// The frame with its background removed, where there is a key.
pub open spec fn with_key(key: Option<ChromaKey>, frame: Seq<u8>) -> Seq<u8> {
    match key {
        Some(k) => keyed(frame, k),
        None => frame,
    }
}

/// The frame that the encoder gets for a captured one: downscaled, keyed and
/// packed.
pub open spec fn composed(plan: FramePlan, key: Option<ChromaKey>, raw: Seq<u8>) -> Seq<u8> {
    packed(with_key(key, downscaled(plan, raw)), plan.src_w as int, plan.src_h as int)
}

/// `len` zero bytes.
fn zeroes(len: usize) -> (res: Vec<u8>)
    ensures
        res@.len() == len,
{
    let mut out: Vec<u8> = Vec::new();
    out.resize(len, 0);
    out
}

/// The frame that the encoder gets for a captured one. Where nothing is
/// downscaled, the captured frame itself is keyed.
pub fn compose_frame(plan: &FramePlan, key: &Option<ChromaKey>, raw: &mut Vec<u8>) -> (res: Vec<u8>)
    requires
        plan.wf(),
        old(raw)@.len() == frame_len(plan.raw_w as int, plan.raw_h as int),
    ensures
        res@ == composed(*plan, *key, old(raw)@),
        final(raw)@ == if plan.resizes() {
            old(raw)@
        } else {
            with_key(*key, old(raw)@)
        },
{
    proof {
        assert(2 * plan.src_w * plan.src_h == 2 * (plan.src_w * plan.src_h)) by (nonlinear_arith);
        assert(0 <= plan.src_w * plan.src_h) by (nonlinear_arith);
        assert(0 <= plan.raw_w * plan.raw_h) by (nonlinear_arith);
    }
    let src_len: usize = (plan.src_w as u128 * plan.src_h as u128 * 4) as usize;
    let packed_len: usize = src_len * 2;
    let mut out = zeroes(packed_len);
    if plan.raw_w == plan.src_w && plan.raw_h == plan.src_h {
        if let Some(k) = key {
            apply_chroma_key(raw.as_mut_slice(), k);
        }
        pack_rgba_side_by_side(raw.as_slice(), plan.src_w, plan.src_h, out.as_mut_slice());
    } else {
        let mut src = zeroes(src_len);
        box_resize_rgba(
            raw.as_slice(),
            plan.raw_w,
            plan.raw_h,
            src.as_mut_slice(),
            plan.src_w,
            plan.src_h,
        );
        if let Some(k) = key {
            apply_chroma_key(src.as_mut_slice(), k);
        }
        pack_rgba_side_by_side(src.as_slice(), plan.src_w, plan.src_h, out.as_mut_slice());
    }
    out
}

/// When the next frame is due. Times are nanoseconds since the loop began.
#[derive(Debug, Clone, Copy, PartialEq, Eq, Structural)]
pub struct Pacer {
    pub due: u64,
}

/// When the frame after one that was due at `due` and finished at `now` is due.
/// A loop that fell behind goes on from `now`.
pub open spec fn next_due(due: int, interval: int, now: int) -> int {
    if due + interval > now {
        due + interval
    } else {
        now
    }
}

impl Pacer {
    /// The first frame is due at `now`.
    pub fn new(now: u64) -> (res: Self)
        ensures
            res.due == now,
    {
        Pacer { due: now }
    }

    /// Moves on to the next frame after one was finished at `now`, and tells how
    /// long to sleep.
    pub fn advance(&mut self, interval: u64, now: u64) -> (res: u64)
        requires
            old(self).due + interval <= u64::MAX,
        ensures
            final(self).due == next_due(old(self).due as int, interval as int, now as int),
            res == final(self).due - now,
    {
        let next: u64 = self.due + interval;
        if next > now {
            self.due = next;
            next - now
        } else {
            self.due = now;
            0
        }
    }
}

/// A loop that fell behind does not catch up by a burst: however late a frame
/// is finished, the next is due no earlier than that and at most an interval
/// after it, and a loop in time keeps to the interval.
pub proof fn law_pacing_never_bursts(due: int, interval: int, now: int)
    requires
        0 <= interval,
        due <= now,
    ensures
        now <= next_due(due, interval, now) <= now + interval,
        now < due + interval ==> next_due(due, interval, now) == due + interval,
{
}

/// What the capture loop does next.
#[derive(Debug, Clone, Copy, PartialEq, Eq, Structural)]
pub enum CaptureNext {
    /// Grab a frame.
    Grab,
    /// Compose the frame and hand it to the encoder.
    Compose,
    /// Sleep this many nanoseconds, and begin again.
    Sleep(u64),
    /// Sleep this many milliseconds, and begin again without a frame.
    RetryAfter(u64),
    /// Stop.
    Finish,
}

/// The loop that captures and composes frames at the source's pace.
#[derive(Debug, Clone, Copy, PartialEq, Eq, Structural)]
pub struct CaptureLoop {
    pub pacer: Pacer,
    pub interval_ns: u64,
}

impl CaptureLoop {
    /// Begins at `now`.
    pub fn new(plan: &FramePlan, now: u64) -> (res: Self)
        ensures
            res == (CaptureLoop { pacer: Pacer { due: now }, interval_ns: plan.interval_ns }),
    {
        CaptureLoop { pacer: Pacer::new(now), interval_ns: plan.interval_ns }
    }

    /// Begins a turn, unless the pipeline is shutting down.
    pub fn begin(&self, shutdown: bool) -> (res: CaptureNext)
        ensures
            res == if shutdown {
                CaptureNext::Finish
            } else {
                CaptureNext::Grab
            },
    {
        if shutdown {
            CaptureNext::Finish
        } else {
            CaptureNext::Grab
        }
    }

    /// After a frame was grabbed, or was not.
    pub fn grabbed(&self, ok: bool) -> (res: CaptureNext)
        ensures
            res == if ok {
                CaptureNext::Compose
            } else {
                CaptureNext::RetryAfter(GRAB_RETRY_MS)
            },
    {
        if ok {
            CaptureNext::Compose
        } else {
            CaptureNext::RetryAfter(GRAB_RETRY_MS)
        }
    }

    /// After a frame was handed over at `now`, or the encoder takes no more.
    pub fn sent(&mut self, ok: bool, now: u64) -> (res: CaptureNext)
        requires
            old(self).pacer.due + old(self).interval_ns <= u64::MAX,
        ensures
            final(self).interval_ns == old(self).interval_ns,
            !ok ==> res == CaptureNext::Finish && final(self).pacer == old(self).pacer,
            ok ==> final(self).pacer.due == next_due(
                old(self).pacer.due as int,
                old(self).interval_ns as int,
                now as int,
            ) && res == CaptureNext::Sleep((final(self).pacer.due - now) as u64),
    {
        if !ok {
            return CaptureNext::Finish;
        }
        CaptureNext::Sleep(self.pacer.advance(self.interval_ns, now))
    }
}

/// What a pipeline reports.
#[derive(Debug)]
pub enum PipelineEvent {
    /// The source is open, the room is known and the workers run.
    Started { room: String, receiver_url: String, source: SourceInfo },
    /// The publisher connected to the relay at its nth attempt.
    PublisherConnected { attempt: u32 },
    /// The publisher lost its connection. It does not try again only where the
    /// relay turned it away.
    PublisherDisconnected { reason: String, will_retry: bool },
    /// How many access units were sent over the present connection.
    Publishing { aus_sent: u64 },
    /// The pipeline is winding down.
    Error { detail: String },
    /// The pipeline has stopped.
    Stopped,
}

/// The content of a [`PipelineEvent`].
#[verifier::ext_equal]
pub enum EventView {
    Started { room: Seq<char>, receiver_url: Seq<char>, source: SourceView },
    PublisherConnected { attempt: u32 },
    PublisherDisconnected { reason: Seq<char>, will_retry: bool },
    Publishing { aus_sent: u64 },
    Error { detail: Seq<char> },
    Stopped,
}

impl View for PipelineEvent {
    type V = EventView;

    open spec fn view(&self) -> EventView {
        match *self {
            PipelineEvent::Started { room, receiver_url, source } => EventView::Started {
                room: room@,
                receiver_url: receiver_url@,
                source: source@,
            },
            PipelineEvent::PublisherConnected { attempt } => EventView::PublisherConnected {
                attempt,
            },
            PipelineEvent::PublisherDisconnected {
                reason,
                will_retry,
            } => EventView::PublisherDisconnected { reason: reason@, will_retry },
            PipelineEvent::Publishing { aus_sent } => EventView::Publishing { aus_sent },
            PipelineEvent::Error { detail } => EventView::Error { detail: detail@ },
            PipelineEvent::Stopped => EventView::Stopped,
        }
    }
}

/// The contents of a sequence of events.
pub open spec fn event_views(v: Seq<PipelineEvent>) -> Seq<EventView> {
    Seq::new(v.len(), |i: int| v[i]@)
}

/// An event in a line.
pub open spec fn event_line(event: EventView) -> Seq<char> {
    match event {
        EventView::Started { room, .. } => "Started(room="@ + room + ")"@,
        EventView::PublisherConnected { attempt } => "PublisherConnected("@ + decimal(
            attempt as nat,
        ) + ")"@,
        EventView::PublisherDisconnected { reason, will_retry } => (if will_retry {
            "PublisherDisconnected(retry=true, "@
        } else {
            "PublisherDisconnected(retry=false, "@
        }) + reason + ")"@,
        EventView::Publishing { aus_sent } => "Publishing("@ + decimal(aus_sent as nat) + ")"@,
        EventView::Error { detail } => "Error("@ + detail + ")"@,
        EventView::Stopped => "Stopped"@,
    }
}

impl PipelineEvent {
    /// Whether nothing follows this event.
    pub fn is_last(&self) -> (res: bool)
        ensures
            res == (self is Stopped),
    {
        match self {
            PipelineEvent::Stopped => true,
            _ => false,
        }
    }

    /// The event in a line.
    pub fn summary(&self) -> (res: String)
        ensures
            res@ == event_line(self@),
    {
        match self {
            PipelineEvent::Started { room, receiver_url: _, source: _ } => {
                let mut s = "Started(room=".to_string();
                s.append(room.as_str());
                s.append(")");
                s
            },
            PipelineEvent::PublisherConnected { attempt } => {
                let mut s = "PublisherConnected(".to_string();
                push_decimal(&mut s, *attempt as u64);
                s.append(")");
                s
            },
            PipelineEvent::PublisherDisconnected { reason, will_retry } => {
                let mut s = if *will_retry {
                    "PublisherDisconnected(retry=true, ".to_string()
                } else {
                    "PublisherDisconnected(retry=false, ".to_string()
                };
                s.append(reason.as_str());
                s.append(")");
                s
            },
            PipelineEvent::Publishing { aus_sent } => {
                let mut s = "Publishing(".to_string();
                push_decimal(&mut s, *aus_sent);
                s.append(")");
                s
            },
            PipelineEvent::Error { detail } => {
                let mut s = "Error(".to_string();
                s.append(detail.as_str());
                s.append(")");
                s
            },
            PipelineEvent::Stopped => "Stopped".to_string(),
        }
    }
}

/// The first event of a pipeline.
pub fn started(room: &str, relay_url: &str, source: SourceInfo) -> (res: PipelineEvent)
    ensures
        res@ == (EventView::Started {
            room: room@,
            receiver_url: receiver_page(relay_url@, room@),
            source: source@,
        }),
{
    PipelineEvent::Started {
        room: room.to_string(),
        receiver_url: receiver_url(relay_url, room),
        source,
    }
}

/// How a pipeline is to start.
#[derive(Debug)]
pub struct StartPlan {
    /// What encodes frames in main memory.
    pub backend: EncoderBackend,
    /// The room, or where to ask for one.
    pub room: Result<String, String>,
    /// Whether to try to keep frames on the GPU first.
    pub try_gpu: bool,
}

/// Plans the start of a pipeline.
pub fn plan_start(config: &Config, windows: bool, ffmpeg_available: bool) -> (res: StartPlan)
    ensures
        res.backend == if windows && !ffmpeg_available {
            EncoderBackend::Mf
        } else {
            config.backend
        },
        match optional_text(config.room) {
            Some(room) => res.room matches Ok(r) && r@ == room,
            None => res.room matches Err(url) && url@ == new_room_endpoint(config.relay_url@),
        },
        res.try_gpu == (windows && config.source_kind == SourceKind::Spout),
{
    let room = match &config.room {
        Some(room) => Ok(room.clone()),
        None => Err(new_room_url(config.relay_url.as_str())),
    };
    StartPlan {
        backend: effective_backend(config.backend, windows, ffmpeg_available),
        room,
        try_gpu: tries_gpu(config.source_kind, windows),
    }
}

/// Whether a user interface may start a pipeline: not while one runs. One whose
/// events have ended runs no longer.
pub fn may_start(listener_finished: Option<bool>) -> (res: bool)
    ensures
        res == (listener_finished != Some(false)),
{
    match listener_finished {
        Some(finished) => finished,
        None => true,
    }
}

/// What the publisher does next.
#[derive(Debug, Clone, Copy, PartialEq, Eq, Structural)]
pub enum Next {
    /// Connect to the relay.
    Connect,
    /// Wait for an access unit or for signaling to end.
    Stream,
    /// Sleep this many milliseconds, and begin again.
    Rest(u64),
    /// Stop.
    Finish,
}

/// The publisher's reconnection: how long the next rest is, how often it has
/// tried, and what it has sent over the present connection.
#[derive(Debug, Clone, Copy, PartialEq, Eq, Structural)]
pub struct PublisherWorker {
    pub backoff_ms: u64,
    pub attempt: u32,
    pub aus_sent: u64,
}

/// What signaling's end is called.
pub open spec fn ending_name(ended: PumpEnded) -> Seq<char> {
    match ended {
        PumpEnded::WsClosed => "WsClosed"@,
        PumpEnded::RelayError(detail) => detail@,
        PumpEnded::OutboundClosed => "OutboundClosed"@,
    }
}

/// The rest after one of `backoff` milliseconds.
pub open spec fn next_backoff(backoff: u64) -> int {
    if backoff * 2 < RECONNECT_MAX_BACKOFF_MS {
        backoff * 2
    } else {
        RECONNECT_MAX_BACKOFF_MS as int
    }
}

/// The rest after `failures` failures in a row.
pub open spec fn backoff_after(failures: nat) -> int
    decreases failures,
{
    if failures == 0 {
        RECONNECT_INITIAL_BACKOFF_MS as int
    } else {
        next_backoff(backoff_after((failures - 1) as nat) as u64)
    }
}

/// The rests double from half a second up to eight seconds, where they stay.
pub proof fn law_backoff_doubles_up_to_its_limit(failures: nat)
    ensures
        backoff_after(failures) == if failures == 0 {
            500int
        } else if failures == 1 {
            1000
        } else if failures == 2 {
            2000
        } else if failures == 3 {
            4000
        } else {
            8000
        },
    decreases failures,
{
    reveal_with_fuel(backoff_after, 5);
    if failures > 4 {
        law_backoff_doubles_up_to_its_limit((failures - 1) as nat);
    }
}

impl PublisherWorker {
    /// Whether the rest is within its limits.
    pub open spec fn wf(&self) -> bool {
        RECONNECT_INITIAL_BACKOFF_MS <= self.backoff_ms <= RECONNECT_MAX_BACKOFF_MS
    }

    /// Has not tried yet.
    pub fn new() -> (res: Self)
        ensures
            res.wf(),
            res == (PublisherWorker {
                backoff_ms: RECONNECT_INITIAL_BACKOFF_MS,
                attempt: 0,
                aus_sent: 0,
            }),
    {
        PublisherWorker { backoff_ms: RECONNECT_INITIAL_BACKOFF_MS, attempt: 0, aus_sent: 0 }
    }

    /// Begins an attempt, unless the pipeline is shutting down.
    pub fn begin(&mut self, shutdown: bool) -> (res: Next)
        requires
            old(self).wf(),
            old(self).attempt < u32::MAX,
        ensures
            final(self).wf(),
            res == if shutdown {
                Next::Finish
            } else {
                Next::Connect
            },
            *final(self) == (PublisherWorker {
                backoff_ms: old(self).backoff_ms,
                attempt: (old(self).attempt + if shutdown {
                    0int
                } else {
                    1
                }) as u32,
                aus_sent: old(self).aus_sent,
            }),
    {
        if shutdown {
            Next::Finish
        } else {
            self.attempt = self.attempt + 1;
            Next::Connect
        }
    }

    /// The attempt succeeded: rests start from the shortest again, and counting
    /// from nothing.
    pub fn connected(&mut self) -> (res: (PipelineEvent, Next))
        requires
            old(self).wf(),
        ensures
            final(self).wf(),
            res.0@ == (EventView::PublisherConnected { attempt: old(self).attempt }),
            res.1 == Next::Stream,
            *final(self) == (PublisherWorker {
                backoff_ms: RECONNECT_INITIAL_BACKOFF_MS,
                attempt: old(self).attempt,
                aus_sent: 0,
            }),
    {
        self.backoff_ms = RECONNECT_INITIAL_BACKOFF_MS;
        self.aus_sent = 0;
        (PipelineEvent::PublisherConnected { attempt: self.attempt }, Next::Stream)
    }

    /// Rests, and makes the next rest longer.
    fn rest(&mut self) -> (res: Next)
        requires
            old(self).wf(),
        ensures
            final(self).wf(),
            res == Next::Rest(old(self).backoff_ms),
            *final(self) == (PublisherWorker {
                backoff_ms: next_backoff(old(self).backoff_ms) as u64,
                attempt: old(self).attempt,
                aus_sent: old(self).aus_sent,
            }),
    {
        let wait: u64 = self.backoff_ms;
        let doubled: u64 = wait * 2;
        self.backoff_ms = if doubled < RECONNECT_MAX_BACKOFF_MS {
            doubled
        } else {
            RECONNECT_MAX_BACKOFF_MS
        };
        Next::Rest(wait)
    }

    /// The attempt failed.
    pub fn connect_failed(&mut self) -> (res: Next)
        requires
            old(self).wf(),
        ensures
            final(self).wf(),
            res == Next::Rest(old(self).backoff_ms),
            *final(self) == (PublisherWorker {
                backoff_ms: next_backoff(old(self).backoff_ms) as u64,
                attempt: old(self).attempt,
                aus_sent: old(self).aus_sent,
            }),
    {
        self.rest()
    }

    /// An access unit was sent; each hundred and fiftieth is reported.
    pub fn sample_sent(&mut self) -> (res: Option<PipelineEvent>)
        requires
            old(self).wf(),
            old(self).aus_sent < u64::MAX,
        ensures
            final(self).wf(),
            *final(self) == (PublisherWorker {
                backoff_ms: old(self).backoff_ms,
                attempt: old(self).attempt,
                aus_sent: (old(self).aus_sent + 1) as u64,
            }),
            match res {
                Some(event) => final(self).aus_sent % PUBLISHING_EMIT_EVERY == 0 && event@ == (
                EventView::Publishing { aus_sent: final(self).aus_sent }),
                None => final(self).aus_sent % PUBLISHING_EMIT_EVERY != 0,
            },
    {
        self.aus_sent = self.aus_sent + 1;
        if self.aus_sent % PUBLISHING_EMIT_EVERY == 0 {
            Some(PipelineEvent::Publishing { aus_sent: self.aus_sent })
        } else {
            None
        }
    }

    /// No access unit will come any more.
    pub fn samples_ended(&self) -> (res: Next)
        ensures
            res == Next::Finish,
    {
        Next::Finish
    }

    /// Signaling ended: for good where the relay turned the publisher away.
    pub fn pump_ended(&mut self, ended: PumpEnded) -> (res: (Vec<PipelineEvent>, Next))
        requires
            old(self).wf(),
        ensures
            final(self).wf(),
            match ended {
                PumpEnded::RelayError(detail) => *final(self) == *old(self) && res.1 == Next::Finish
                    && event_views(res.0@) == seq![
                    EventView::PublisherDisconnected { reason: detail@, will_retry: false },
                    EventView::Error { detail: detail@ },
                ],
                _ => res.1 == Next::Rest(old(self).backoff_ms) && *final(self) == (
                PublisherWorker {
                    backoff_ms: next_backoff(old(self).backoff_ms) as u64,
                    attempt: old(self).attempt,
                    aus_sent: old(self).aus_sent,
                }) && event_views(res.0@) == seq![
                    EventView::PublisherDisconnected {
                        reason: ending_name(ended),
                        will_retry: true,
                    },
                ],
            },
    {
        let reason = match ended {
            PumpEnded::RelayError(detail) => {
                let copy = detail.clone();
                let events = vec![
                    PipelineEvent::PublisherDisconnected { reason: copy, will_retry: false },
                    PipelineEvent::Error { detail },
                ];
                assert(event_views(events@) =~= seq![
                    EventView::PublisherDisconnected { reason: detail@, will_retry: false },
                    EventView::Error { detail: detail@ },
                ]);
                return (events, Next::Finish);
            },
            PumpEnded::WsClosed => "WsClosed".to_string(),
            PumpEnded::OutboundClosed => "OutboundClosed".to_string(),
        };
        let events = vec![PipelineEvent::PublisherDisconnected { reason, will_retry: true }];
        assert(event_views(events@) =~= seq![
            EventView::PublisherDisconnected { reason: ending_name(ended), will_retry: true },
        ]);
        (events, self.rest())
    }
}

/// How many access units came out of an encoder, and how many of them found no
/// place in the queue.
#[derive(Debug, Clone, Copy, PartialEq, Eq, Structural)]
pub struct Tally {
    pub produced: u64,
    pub dropped: u64,
}

impl Tally {
    /// No more were dropped than there were.
    pub open spec fn wf(&self) -> bool {
        self.dropped <= self.produced
    }

    /// Nothing yet.
    pub fn new() -> (res: Self)
        ensures
            res.wf(),
            res.produced == 0,
            res.dropped == 0,
    {
        Tally { produced: 0, dropped: 0 }
    }

    /// One more, which was queued or not.
    pub fn count(&mut self, queued: bool)
        requires
            old(self).wf(),
            old(self).produced < u64::MAX,
        ensures
            final(self).wf(),
            final(self).produced == old(self).produced + 1,
            final(self).dropped == old(self).dropped + if queued {
                0int
            } else {
                1
            },
    {
        self.produced = self.produced + 1;
        if !queued {
            self.dropped = self.dropped + 1;
        }
    }
}

/// What the encoder gets for a captured frame. Its left half shows the frame's colors,
/// brought to the effective size. Its right half shows what is to be seen of each pixel:
/// its own alpha without a key; with one, nothing where all three colors are within the
/// threshold of the key's, and all of it where one of them is beyond the band.
pub proof fn law_composed_frame(
    plan: FramePlan,
    key: Option<ChromaKey>,
    raw: Seq<u8>,
    x: int,
    y: int,
    c: int,
)
    requires
        0 <= x < plan.src_w,
        0 <= y < plan.src_h,
        0 <= c < 3,
        raw.len() == frame_len(plan.raw_w as int, plan.raw_h as int),
    ensures
        ({
            let (w, h) = (plan.src_w as int, plan.src_h as int);
            let scaled = if plan.raw_w == plan.src_w && plan.raw_h == plan.src_h {
                raw
            } else {
                resized(raw, plan.raw_w as nat, plan.raw_h as nat, w as nat, h as nat)
            };
            let frame = composed(plan, key, raw);
            let at = index_of(w, x, y, 0);
            let shown = frame[index_of(2 * w, x + w, y, c)];
            &&& frame.len() == 2 * frame_len(w, h)
            &&& frame[index_of(2 * w, x, y, c)] == scaled[at + c]
            &&& match key {
                None => shown == scaled[at + 3],
                Some(k) => {
                    let near = |limit: int|
                        -limit <= scaled[at] - k.r <= limit && -limit <= scaled[at + 1] - k.g
                            <= limit && -limit <= scaled[at + 2] - k.b <= limit;
                    &&& near(k.threshold as int) <==> shown == 0
                    &&& !near(k.threshold + k.softness) && !near(k.threshold + 1) ==> shown == 255
                },
            }
        }),
{
    let (w, h) = (plan.src_w as int, plan.src_h as int);
    let scaled = downscaled(plan, raw);
    let keyed_frame = with_key(key, scaled);
    let at = index_of(w, x, y, 0);
    assert(frame_len(w, h) >= 0) by {
        crate::pixels::lemma_index_inside(w, h, x, y);
    }
    crate::pixels::lemma_index_inside(w, h, x, y);
    assert(keyed_frame.len() == frame_len(w, h));
    law_packing_is_lossless(keyed_frame, w, h, x, y);
    assert((2 * w) * h == 2 * (w * h)) by (nonlinear_arith);
    if let Some(k) = key {
        let p = y * w + x;
        assert(at == 4 * p);
        law_keying_goes_by_the_farthest_channel(scaled, k, p);
        assert(keyed_frame[at + c] == scaled[at + c]) by {
            assert(c == 0 || c == 1 || c == 2);
        }
    }
}

/// A frame that was due and is finished before the next one is due leaves the beat as it
/// is. One that is finished later makes the next one due at once, and the beat goes on from
/// there.
pub proof fn law_pacing(due: int, interval: int, now: int)
    requires
        0 <= interval,
    ensures
        now < due + interval ==> next_due(due, interval, now) == due + interval,
        now >= due + interval ==> next_due(due, interval, now) == now,
{
}

/// A rest is twice the one before it, but never more than eight seconds.
pub proof fn law_rests_double(backoff: u64)
    ensures
        backoff <= 4000 ==> next_backoff(backoff) == 2 * backoff,
        backoff >= 4000 ==> next_backoff(backoff) == 8000,
        backoff_after(0) == 500,
{
}

/// An end of signaling is reported under its own name, and an error of the relay in the
/// relay's words.
pub proof fn law_endings_are_named(detail: String)
    ensures
        ending_name(PumpEnded::RelayError(detail)) == detail@,
        ending_name(PumpEnded::WsClosed) == "WsClosed"@,
        ending_name(PumpEnded::OutboundClosed) == "OutboundClosed"@,
{
}

/// A capture that failed is tried again after a tenth of a second, and every hundred and
/// fifty access units are reported: five seconds at thirty a second.
pub proof fn law_limits()
    ensures
        GRAB_RETRY_MS == 100,
        PUBLISHING_EMIT_EVERY == 5 * 30,
        RECONNECT_INITIAL_BACKOFF_MS == 500,
        RECONNECT_MAX_BACKOFF_MS == 16 * RECONNECT_INITIAL_BACKOFF_MS,
{
}

/// The contents of events are those of each, in their order.
pub proof fn law_event_views(v: Seq<PipelineEvent>, i: int)
    requires
        0 <= i < v.len(),
    ensures
        event_views(v).len() == v.len(),
        event_views(v)[i] == v[i]@,
{
}

/// An event's line names the event, and what it tells: the room, the number of the attempt
/// or of the units, or the text.
pub proof fn law_event_lines(text: Seq<char>, attempt: u32, aus_sent: u64, source: SourceView)
    ensures
        event_line(EventView::Started { room: text, receiver_url: seq![], source })
            == "Started(room="@ + text + ")"@,
        event_line(EventView::PublisherConnected { attempt }) == "PublisherConnected("@ + decimal(
            attempt as nat,
        ) + ")"@,
        event_line(EventView::PublisherDisconnected { reason: text, will_retry: true })
            == "PublisherDisconnected(retry=true, "@ + text + ")"@,
        event_line(EventView::PublisherDisconnected { reason: text, will_retry: false })
            == "PublisherDisconnected(retry=false, "@ + text + ")"@,
        event_line(EventView::Publishing { aus_sent }) == "Publishing("@ + decimal(aus_sent as nat)
            + ")"@,
        event_line(EventView::Error { detail: text }) == "Error("@ + text + ")"@,
        event_line(EventView::Stopped) == "Stopped"@,
{
}

/// A plan keeps the source's own size, scales it within the cap to even dimensions, and packs
/// it to twice the width at the same height. There is a plan for every source of two rows or
/// more whose packed frames fit in memory.
pub proof fn law_plans(raw_w: u32, raw_h: u32, max_packed_width: u32, fps: u32, res: Option<FramePlan>)
    requires
        fps > 0,
        call_ensures(plan, (raw_w, raw_h, max_packed_width, fps), res),
    ensures
        res matches Some(p) ==> {
            &&& p.raw_w == raw_w && p.raw_h == raw_h
            &&& p.src_w % 2 == 0 && p.src_h % 2 == 0
            &&& p.packed_w == 2 * p.src_w && p.packed_h == p.src_h
            &&& p.packed_w <= max_packed_width
            &&& p.src_w <= raw_w
            &&& 2 * raw_w <= max_packed_width ==> raw_w <= p.src_w + 1 && p.src_h <= raw_h
                <= p.src_h + 1
            &&& 2 * raw_w > max_packed_width ==> max_packed_width <= p.packed_w + 3
            &&& 2 * (p.interval_ns * fps - 1_000_000_000) <= fps
            &&& 2 * (1_000_000_000 - p.interval_ns * fps) <= fps
        },
        raw_h >= 2 && 8 * (raw_w * raw_h) <= usize::MAX ==> res is Some,
{
    let dims = effective_dims(raw_w as nat, raw_h as nat, max_packed_width as nat);
    law_effective_dims_are_as_large_as_allowed(
        raw_w as nat,
        raw_h as nat,
        max_packed_width as nat,
    );
    law_whole_nanos_are_nearest(fps as nat);
    if raw_w > max_packed_width / 2 {
        law_scaled_round_shrinks(raw_h as nat, (max_packed_width / 2) as nat, raw_w as nat);
    }
    if raw_h >= 2 {
        let (w, h) = (dims.0 as int, dims.1 as int);
        assert(w * h <= raw_w * raw_h) by (nonlinear_arith)
            requires
                0 <= w <= raw_w,
                0 <= h <= raw_h,
        ;
        assert((2 * w) * h == 2 * (w * h)) by (nonlinear_arith);
        assert(0 <= raw_w * raw_h) by (nonlinear_arith);
    }
}

/// A captured frame that was composed: its colors, brought to the effective size, are in the
/// left half, and what is to be seen of each pixel in the right. The capture keeps its colors.
pub proof fn law_composing(
    plan: FramePlan,
    key: Option<ChromaKey>,
    raw: &mut Vec<u8>,
    res: Vec<u8>,
    x: int,
    y: int,
    c: int,
)
    requires
        call_ensures(compose_frame, (&plan, &key, raw), res),
        raw@.len() == frame_len(plan.raw_w as int, plan.raw_h as int),
        plan.raw_w == plan.src_w,
        plan.raw_h == plan.src_h,
        0 <= x < plan.src_w,
        0 <= y < plan.src_h,
        0 <= c < 3,
    ensures
        ({
            let w = plan.src_w as int;
            let before = old(raw)@;
            let at = index_of(w, x, y, 0);
            let shown = res@[index_of(2 * w, x + w, y, c)];
            &&& res@.len() == 2 * before.len()
            &&& res@[index_of(2 * w, x, y, c)] == before[at + c]
            &&& match key {
                None => shown == before[at + 3],
                Some(k) => {
                    let near = |limit: int|
                        -limit <= before[at] - k.r <= limit && -limit <= before[at + 1] - k.g
                            <= limit && -limit <= before[at + 2] - k.b <= limit;
                    &&& near(k.threshold as int) <==> shown == 0
                    &&& !near(k.threshold + k.softness) && !near(k.threshold + 1) ==> shown == 255
                },
            }
        }),
{
    law_composed_frame(plan, key, raw@, x, y, c);
}

/// A loop of captures paces itself: a frame that is handed over before the next is due is
/// followed by a sleep until then, and a frame that is late by none; the next frame is due
/// when the sleep ends. The loop ends where the encoder takes no more or the pipeline shuts
/// down, and a capture that failed is tried again.
pub proof fn law_capturing(
    turn: &mut CaptureLoop,
    ok: bool,
    now: u64,
    shutdown: bool,
    first: CaptureNext,
    grabbed: CaptureNext,
    sent: CaptureNext,
)
    requires
        call_ensures(CaptureLoop::begin, (&*turn, shutdown), first),
        call_ensures(CaptureLoop::grabbed, (&*turn, ok), grabbed),
        call_ensures(CaptureLoop::sent, (turn, ok, now), sent),
    ensures
        first == if shutdown {
            CaptureNext::Finish
        } else {
            CaptureNext::Grab
        },
        ok ==> grabbed == CaptureNext::Compose,
        !ok ==> grabbed == CaptureNext::RetryAfter(100),
        !ok ==> sent == CaptureNext::Finish,
        ok ==> {
            let due = old(turn).pacer.due + old(turn).interval_ns;
            &&& now < due ==> sent == CaptureNext::Sleep((due - now) as u64)
                && final(turn).pacer.due == due
            &&& now >= due ==> sent == CaptureNext::Sleep(0) && final(turn).pacer.due == now
        },
        final(turn).interval_ns == old(turn).interval_ns,
{
}

/// The pacer alone: it sleeps until the next frame is due, and not at all where that is past.
pub proof fn law_advancing(pacer: &mut Pacer, interval: u64, now: u64, sleep: u64)
    requires
        call_ensures(Pacer::advance, (pacer, interval, now), sleep),
        pacer.due + interval <= u64::MAX,
    ensures
        now < old(pacer).due + interval ==> now + sleep == old(pacer).due + interval,
        now >= old(pacer).due + interval ==> sleep == 0,
        final(pacer).due == now + sleep,
{
}

/// Two attempts that fail one after the other rest twice as long the second time, but never
/// more than eight seconds.
pub proof fn law_failing_twice(
    first: &mut PublisherWorker,
    second: &mut PublisherWorker,
    rest: Next,
    longer: Next,
)
    requires
        first.wf(),
        call_ensures(PublisherWorker::connect_failed, (first,), rest),
        *second == *final(first),
        call_ensures(PublisherWorker::connect_failed, (second,), longer),
    ensures
        rest == Next::Rest(old(first).backoff_ms),
        500 <= old(first).backoff_ms <= 8000,
        old(first).backoff_ms <= 4000 ==> longer == Next::Rest((2 * old(first).backoff_ms) as u64),
        old(first).backoff_ms >= 4000 ==> longer == Next::Rest(8000),
        final(second).attempt == old(first).attempt,
{
}

/// An attempt is counted when it begins, and is not made while the pipeline shuts down. One
/// that succeeds is reported with its number, streams, counts from nothing and rests for half
/// a second when it next has to, however long the rests have grown.
pub proof fn law_connecting(
    worker: &mut PublisherWorker,
    begun: &mut PublisherWorker,
    lost: &mut PublisherWorker,
    shutdown: bool,
    first: Next,
    connected: (PipelineEvent, Next),
    ended: PumpEnded,
    after: (Vec<PipelineEvent>, Next),
)
    requires
        worker.wf(),
        worker.attempt < u32::MAX,
        call_ensures(PublisherWorker::begin, (worker, shutdown), first),
        *begun == *final(worker),
        call_ensures(PublisherWorker::connected, (begun,), connected),
        *lost == *final(begun),
        call_ensures(PublisherWorker::pump_ended, (lost, ended), after),
    ensures
        shutdown ==> first == Next::Finish && *final(worker) == *old(worker),
        !shutdown ==> first == Next::Connect && final(worker).attempt == old(worker).attempt + 1,
        connected.0@ == (EventView::PublisherConnected { attempt: final(worker).attempt }),
        connected.1 == Next::Stream,
        final(begun).aus_sent == 0,
        !(ended is RelayError) ==> after.1 == Next::Rest(500) && final(lost).backoff_ms == 1000
            && after.0@.len() == 1 && (after.0@[0]@ matches EventView::PublisherDisconnected {
            will_retry,
            ..
        } && will_retry),
        ended matches PumpEnded::RelayError(detail) ==> after.1 == Next::Finish && after.0@.len() == 2
            && after.0@[0]@ == (EventView::PublisherDisconnected {
            reason: detail@,
            will_retry: false,
        }) && after.0@[1]@ == (EventView::Error { detail: detail@ }),
{
    assert(event_views(after.0@).len() == after.0@.len());
    if ended is RelayError {
        assert(event_views(after.0@)[0] == after.0@[0]@);
        assert(event_views(after.0@)[1] == after.0@[1]@);
    } else {
        assert(event_views(after.0@)[0] == after.0@[0]@);
    }
}

/// Each access unit is counted, and every hundred and fiftieth is reported with the count;
/// no other is. Where no unit will come any more, the publisher finishes.
pub proof fn law_counting_units(
    worker: &mut PublisherWorker,
    report: Option<PipelineEvent>,
    end: Next,
)
    requires
        worker.aus_sent < u64::MAX,
        call_ensures(PublisherWorker::sample_sent, (worker,), report),
        call_ensures(PublisherWorker::samples_ended, (&*worker,), end),
    ensures
        final(worker).aus_sent == old(worker).aus_sent + 1,
        final(worker).attempt == old(worker).attempt,
        final(worker).backoff_ms == old(worker).backoff_ms,
        report is Some <==> (old(worker).aus_sent + 1) % 150 == 0,
        report matches Some(event) ==> event@ == (EventView::Publishing {
            aus_sent: final(worker).aus_sent,
        }),
        end == Next::Finish,
{
}

/// Every unit counts as produced, and those that found no place as dropped too.
pub proof fn law_tallying(tally: &mut Tally, queued: bool)
    requires
        tally.produced < u64::MAX,
        call_ensures(Tally::count, (tally, queued), ()),
    ensures
        final(tally).produced - old(tally).produced == 1,
        final(tally).dropped - old(tally).dropped == if queued {
            0int
        } else {
            1
        },
{
}

/// A pipeline starts in the room that is set, and asks the relay for one where none is. It
/// tries the GPU for Spout on Windows only, and without ffmpeg it encodes by Media Foundation
/// where there is that.
pub proof fn law_starting(config: Config, windows: bool, ffmpeg: bool, res: StartPlan)
    requires
        call_ensures(plan_start, (&config, windows, ffmpeg), res),
    ensures
        config.room matches Some(room) ==> (res.room matches Ok(r) && r@ == room@),
        config.room is None ==> (res.room matches Err(url) && url@ == new_room_endpoint(
            config.relay_url@,
        )),
        ffmpeg || !windows ==> res.backend == config.backend,
        windows && !ffmpeg ==> res.backend == EncoderBackend::Mf,
        res.try_gpu <==> windows && config.source_kind == SourceKind::Spout,
{
}

/// A pipeline announces the room, the page on which it is received, and the source.
pub proof fn law_announcing(
    room: &str,
    host: Seq<char>,
    relay_url: &str,
    source: SourceInfo,
    res: PipelineEvent,
)
    requires
        call_ensures(started, (room, relay_url, source), res),
        relay_url@ == host,
        host.len() > 0,
        host.last() != '/',
    ensures
        res@ == (EventView::Started {
            room: room@,
            receiver_url: host + "/r?room="@ + room@,
            source: source@,
        }),
{
    crate::config::law_relay_addresses(host, seq![], room@);
    assert(host + Seq::<char>::empty() =~= host);
}

/// One pipeline runs at a time: another may start where none was, or where the last has ended.
pub proof fn law_one_at_a_time(listener: Option<bool>, res: bool)
    requires
        call_ensures(may_start, (listener,), res),
    ensures
        listener is None ==> res,
        listener matches Some(finished) ==> res == finished,
{
}

/// Nothing follows the last event, and every other is followed by one.
pub proof fn law_last_event(event: PipelineEvent, res: bool)
    requires
        call_ensures(PipelineEvent::is_last, (&event,), res),
    ensures
        res <==> event@ == EventView::Stopped,
{
}

/// A second of frames differs from a second by half a nanosecond a frame at the most.
pub proof fn law_intervals(fps: u32, res: u64)
    requires
        fps > 0,
        call_ensures(frame_interval_ns, (fps,), res),
    ensures
        2 * (res * fps - 1_000_000_000) <= fps,
        2 * (1_000_000_000 - res * fps) <= fps,
{
}

/// A frame of another size than the one that is sent is resized, and itself left as it was; one
/// of the same size is keyed where it lies.
pub proof fn law_captured_bytes(
    plan: FramePlan,
    key: Option<ChromaKey>,
    raw: &mut Vec<u8>,
    res: Vec<u8>,
    x: int,
    y: int,
    c: int,
)
    requires
        call_ensures(compose_frame, (&plan, &key, raw), res),
        raw@.len() == frame_len(plan.raw_w as int, plan.raw_h as int),
        0 <= x < plan.src_w,
        0 <= y < plan.src_h,
        0 <= c < 3,
    ensures
        plan.raw_w != plan.src_w || plan.raw_h != plan.src_h ==> {
            let (w, h) = (plan.src_w as int, plan.src_h as int);
            &&& final(raw)@ == old(raw)@
            &&& res@[index_of(2 * w, x, y, c)] == resized(
                old(raw)@,
                plan.raw_w as nat,
                plan.raw_h as nat,
                w as nat,
                h as nat,
            )[index_of(w, x, y, c)]
        },
        plan.raw_w == plan.src_w && plan.raw_h == plan.src_h ==> final(raw)@.len() == old(
            raw,
        )@.len() && (key is None ==> final(raw)@ == old(raw)@),
{
    law_composed_frame(plan, key, raw@, x, y, c);
}

/// Nothing has been counted at first, and each unit is counted once, as sent or as dropped.
pub proof fn law_counting_from_nothing(tally: &mut Tally, queued: bool)
    requires
        call_ensures(Tally::new, (), *tally),
        call_ensures(Tally::count, (tally, queued), ()),
    ensures
        final(tally).produced == 1,
        final(tally).dropped == if queued {
            0int
        } else {
            1
        },
{
}

} // verus!
