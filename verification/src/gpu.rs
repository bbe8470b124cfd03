//! Decisions of the pipeline that keeps frames on the GPU.

use vstd::prelude::*;

use crate::config::SourceKind;
use crate::pipeline::Tally;
use crate::protocol::optional_text;
use crate::text::{contains, lowercase, occurs, to_lowercase};

verus! {

/// How long the encoder may take to produce its first frame, in milliseconds.
pub const INIT_TIMEOUT_MS: u64 = 10_000;

/// How long a conversion that failed is left alone, in milliseconds.
pub const CONVERT_RETRY_MS: u64 = 50;

/// How many frames are converted ahead of the encoder.
pub const CONVERT_AHEAD: usize = 2;

/// How far the GPU's scheduler puts this program behind the others.
pub const GPU_THREAD_PRIORITY: i32 = -4;

/// What encodes frames that are on the GPU.
#[derive(Debug, Clone, Copy, PartialEq, Eq, Structural)]
pub enum GpuEncoder {
    /// NVENC, on an adapter of NVIDIA.
    Nvenc,
    /// Media Foundation, on any other.
    Mf,
}

/// What encodes on an adapter, by its name in lowercase.
pub open spec fn encoder_on(lower: Seq<char>) -> GpuEncoder {
    if occurs(lower, "nvidia"@) {
        GpuEncoder::Nvenc
    } else {
        GpuEncoder::Mf
    }
}

/// What encodes on an adapter, by its name in lowercase.
pub fn gpu_encoder_of(lower: &str) -> (res: GpuEncoder)
    ensures
        res == encoder_on(lower@),
{
    if contains(lower, "nvidia") {
        GpuEncoder::Nvenc
    } else {
        GpuEncoder::Mf
    }
}

/// What encodes on an adapter.
pub fn gpu_encoder(adapter: &str) -> (res: GpuEncoder)
    ensures
        res == encoder_on(lowercase(adapter@)),
{
    let lower = to_lowercase(adapter);
    gpu_encoder_of(lower.as_str())
}

/// Whether frames of a source can stay on the GPU at all.
pub fn tries_gpu(source: SourceKind, windows: bool) -> (res: bool)
    ensures
        res == (windows && source == SourceKind::Spout),
{
    windows && source == SourceKind::Spout
}

/// Whether the encoder of an adapter is at hand.
pub fn gpu_viable(encoder: GpuEncoder, nvenc: bool, mf: bool) -> (res: bool)
    ensures
        res == match encoder {
            GpuEncoder::Nvenc => nvenc,
            GpuEncoder::Mf => mf,
        },
{
    match encoder {
        GpuEncoder::Nvenc => nvenc,
        GpuEncoder::Mf => mf,
    }
}

/// How the start of the encoder went.
#[derive(Debug)]
pub enum InitOutcome {
    /// It produced a frame.
    Ready,
    /// It reported why not.
    Failed(String),
    /// It ended without a word.
    Gone,
    /// It took too long.
    TimedOut,
}

/// Why the encoder cannot be used.
pub open spec fn init_failure(outcome: InitOutcome) -> Option<Seq<char>> {
    match outcome {
        InitOutcome::Ready => None,
        InitOutcome::Failed(reason) => Some(reason@),
        InitOutcome::Gone => Some("GPU worker exited before signalling init"@),
        InitOutcome::TimedOut => Some("GPU worker init timed out"@),
    }
}

/// Why the encoder cannot be used, and frames go through main memory instead.
pub fn fallback_reason(outcome: InitOutcome) -> (res: Option<String>)
    ensures
        optional_text(res) == init_failure(outcome),
{
    match outcome {
        InitOutcome::Ready => None,
        InitOutcome::Failed(reason) => Some(reason),
        InitOutcome::Gone => Some("GPU worker exited before signalling init".to_string()),
        InitOutcome::TimedOut => Some("GPU worker init timed out".to_string()),
    }
}

/// The steps of the start of the encoder.
#[derive(Debug, Clone, Copy, PartialEq, Eq, Structural)]
pub enum InitStep {
    OpenSource,
    BuildConverter,
    LoadNvenc,
    OpenSession,
    Initialize,
    WarmupConvert,
    WarmupEncode,
    OpenMft,
}

/// What the failure of a step is reported as. Where no encoder of Media Foundation
/// opens, there is not one reason.
pub open spec fn step_failure(step: InitStep, detail: Seq<char>) -> Seq<char> {
    match step {
        InitStep::OpenSource => "re-open Spout on worker thread: "@ + detail,
        InitStep::BuildConverter => "NV12 converter init: "@ + detail,
        InitStep::LoadNvenc => "NVENC load: "@ + detail,
        InitStep::OpenSession => "NVENC open_session: "@ + detail,
        InitStep::Initialize => "NVENC initialize: "@ + detail,
        InitStep::WarmupConvert => "NV12 convert warmup: "@ + detail,
        InitStep::WarmupEncode => "NVENC warmup encode: "@ + detail,
        InitStep::OpenMft => "no usable hardware MFT opened on the shared device"@,
    }
}

/// The step after one that succeeded; none after the last. NVENC has to encode a
/// frame before it counts as started.
pub open spec fn step_after(step: InitStep, encoder: GpuEncoder) -> Option<InitStep> {
    match step {
        InitStep::OpenSource => Some(InitStep::BuildConverter),
        InitStep::BuildConverter => Some(
            match encoder {
                GpuEncoder::Nvenc => InitStep::LoadNvenc,
                GpuEncoder::Mf => InitStep::OpenMft,
            },
        ),
        InitStep::LoadNvenc => Some(InitStep::OpenSession),
        InitStep::OpenSession => Some(InitStep::Initialize),
        InitStep::Initialize => Some(InitStep::WarmupConvert),
        InitStep::WarmupConvert => Some(InitStep::WarmupEncode),
        InitStep::WarmupEncode => None,
        InitStep::OpenMft => None,
    }
}

/// How the start goes on.
#[derive(Debug)]
pub enum InitProgress {
    /// With this step.
    Step(InitStep),
    /// The encoder has started.
    Ready,
    /// It has not, and this is reported.
    Failed(String),
}

/// How the start goes on after a step, of which `failure` says what went wrong if
/// anything did.
pub fn after_step(step: InitStep, encoder: GpuEncoder, failure: Option<&str>) -> (res: InitProgress)
    ensures
        match failure {
            Some(detail) => res matches InitProgress::Failed(text) && text@ == step_failure(
                step,
                detail@,
            ),
            None => match step_after(step, encoder) {
                Some(next) => res == InitProgress::Step(next),
                None => res is Ready,
            },
        },
{
    match failure {
        None => match step {
            InitStep::OpenSource => InitProgress::Step(InitStep::BuildConverter),
            InitStep::BuildConverter => match encoder {
                GpuEncoder::Nvenc => InitProgress::Step(InitStep::LoadNvenc),
                GpuEncoder::Mf => InitProgress::Step(InitStep::OpenMft),
            },
            InitStep::LoadNvenc => InitProgress::Step(InitStep::OpenSession),
            InitStep::OpenSession => InitProgress::Step(InitStep::Initialize),
            InitStep::Initialize => InitProgress::Step(InitStep::WarmupConvert),
            InitStep::WarmupConvert => InitProgress::Step(InitStep::WarmupEncode),
            InitStep::WarmupEncode => InitProgress::Ready,
            InitStep::OpenMft => InitProgress::Ready,
        },
        Some(detail) => {
            let label = match step {
                InitStep::OpenSource => "re-open Spout on worker thread: ",
                InitStep::BuildConverter => "NV12 converter init: ",
                InitStep::LoadNvenc => "NVENC load: ",
                InitStep::OpenSession => "NVENC open_session: ",
                InitStep::Initialize => "NVENC initialize: ",
                InitStep::WarmupConvert => "NV12 convert warmup: ",
                InitStep::WarmupEncode => "NVENC warmup encode: ",
                InitStep::OpenMft => {
                    return InitProgress::Failed(
                        "no usable hardware MFT opened on the shared device".to_string(),
                    );
                },
            };
            let mut text = label.to_string();
            text.append(detail);
            InitProgress::Failed(text)
        },
    }
}

/// The steps from one on, as long as all succeed.
pub open spec fn steps_from(step: InitStep, encoder: GpuEncoder, limit: nat) -> Seq<InitStep>
    decreases limit,
{
    if limit == 0 {
        seq![]
    } else {
        seq![step] + match step_after(step, encoder) {
            Some(next) => steps_from(next, encoder, (limit - 1) as nat),
            None => seq![],
        }
    }
}

/// The steps that an encoder takes to start.
pub open spec fn all_steps(encoder: GpuEncoder) -> Seq<InitStep> {
    match encoder {
        GpuEncoder::Nvenc => seq![
            InitStep::OpenSource,
            InitStep::BuildConverter,
            InitStep::LoadNvenc,
            InitStep::OpenSession,
            InitStep::Initialize,
            InitStep::WarmupConvert,
            InitStep::WarmupEncode,
        ],
        GpuEncoder::Mf => seq![
            InitStep::OpenSource,
            InitStep::BuildConverter,
            InitStep::OpenMft,
        ],
    }
}

/// An encoder has started only after all of its steps, each of them once.
pub proof fn law_start_takes_every_step(encoder: GpuEncoder, limit: nat)
    requires
        limit >= 8,
    ensures
        steps_from(InitStep::OpenSource, encoder, limit) == all_steps(encoder),
{
    reveal_with_fuel(steps_from, 8);
    assert(steps_from(InitStep::OpenSource, encoder, limit) =~= all_steps(encoder));
}

/// What became of a frame.
#[derive(Debug, Clone, Copy, PartialEq, Eq, Structural)]
pub enum FrameOutcome {
    /// An access unit came out, and was queued or not.
    Unit { queued: bool },
    /// The encoder keeps the frame.
    Buffered,
    /// The encoder failed.
    EncodeFailed,
    /// The frame could not be converted.
    ConvertFailed,
}

/// What a loop over frames does next.
#[derive(Debug, Clone, Copy, PartialEq, Eq, Structural)]
pub enum LoopNext {
    /// Wait until the next frame is due.
    Pace,
    /// Sleep this many milliseconds, and try again at once.
    RetryAfter(u64),
    /// Stop.
    Stop,
}

/// What becomes of the loop after a frame. Units are counted.
pub fn after_frame(tally: &mut Tally, outcome: FrameOutcome) -> (res: LoopNext)
    requires
        old(tally).wf(),
        old(tally).produced < u64::MAX,
    ensures
        final(tally).wf(),
        match outcome {
            FrameOutcome::Unit { queued } => {
                &&& res == LoopNext::Pace
                &&& final(tally).produced == old(tally).produced + 1
                &&& queued ==> final(tally).dropped == old(tally).dropped
                &&& !queued ==> final(tally).dropped == old(tally).dropped + 1
            },
            FrameOutcome::Buffered => res == LoopNext::Pace && *final(tally) == *old(tally),
            FrameOutcome::EncodeFailed => res == LoopNext::Stop && *final(tally) == *old(tally),
            FrameOutcome::ConvertFailed => {
                &&& res == LoopNext::RetryAfter(CONVERT_RETRY_MS)
                &&& *final(tally) == *old(tally)
            },
        },
{
    match outcome {
        FrameOutcome::Unit { queued } => {
            tally.count(queued);
            LoopNext::Pace
        },
        FrameOutcome::Buffered => LoopNext::Pace,
        FrameOutcome::EncodeFailed => LoopNext::Stop,
        FrameOutcome::ConvertFailed => LoopNext::RetryAfter(CONVERT_RETRY_MS),
    }
}

/// Whether to convert a frame while the encoder has `backlog` of them: no more
/// than leave the textures that it still reads alone.
pub fn converts_ahead(backlog: usize) -> (res: bool)
    ensures
        res == (backlog < CONVERT_AHEAD),
        res ==> backlog + 1 < crate::gpu_convert::RING,
{
    backlog < CONVERT_AHEAD
}

/// What has to have succeeded before an encoder counts as started, in its order: the
/// source is open and the converter built, and then NVENC has been loaded, opened and
/// initialized, and has encoded a frame that was converted, or an encoder of Media
/// Foundation is open.
pub proof fn law_start(limit: nat)
    requires
        limit >= 7,
    ensures
        steps_from(InitStep::OpenSource, GpuEncoder::Nvenc, limit) == seq![
            InitStep::OpenSource,
            InitStep::BuildConverter,
            InitStep::LoadNvenc,
            InitStep::OpenSession,
            InitStep::Initialize,
            InitStep::WarmupConvert,
            InitStep::WarmupEncode,
        ],
        steps_from(InitStep::OpenSource, GpuEncoder::Mf, limit) == seq![
            InitStep::OpenSource,
            InitStep::BuildConverter,
            InitStep::OpenMft,
        ],
        step_after(InitStep::WarmupEncode, GpuEncoder::Nvenc) is None,
        step_after(InitStep::OpenMft, GpuEncoder::Mf) is None,
{
    reveal_with_fuel(steps_from, 8);
    assert(steps_from(InitStep::OpenSource, GpuEncoder::Nvenc, limit) =~= seq![
        InitStep::OpenSource,
        InitStep::BuildConverter,
        InitStep::LoadNvenc,
        InitStep::OpenSession,
        InitStep::Initialize,
        InitStep::WarmupConvert,
        InitStep::WarmupEncode,
    ]);
    assert(steps_from(InitStep::OpenSource, GpuEncoder::Mf, limit) =~= seq![
        InitStep::OpenSource,
        InitStep::BuildConverter,
        InitStep::OpenMft,
    ]);
}

/// Whatever went wrong in a step is reported in its own words, but where no encoder of
/// Media Foundation opened.
pub proof fn law_failures_are_reported(step: InitStep, detail: Seq<char>)
    requires
        step != InitStep::OpenMft,
    ensures
        ({
            let text = step_failure(step, detail);
            &&& text.len() >= detail.len()
            &&& text.skip(text.len() - detail.len()) == detail
        }),
{
    let text = step_failure(step, detail);
    assert(text.skip(text.len() - detail.len()) =~= detail);
}

/// NVENC encodes on an adapter whose name mentions NVIDIA, wherever in it, and Media
/// Foundation on any other.
pub proof fn law_adapters_and_encoders(before: Seq<char>, after: Seq<char>, other: Seq<char>)
    ensures
        encoder_on(before + "nvidia"@ + after) == GpuEncoder::Nvenc,
        !occurs(other, "nvidia"@) ==> encoder_on(other) == GpuEncoder::Mf,
{
    crate::text::law_occurring(other, "nvidia"@, before, after);
}

/// An encoder that produced a frame is used, and no other: every other start has a reason
/// to fall back, its own where it reported one.
pub proof fn law_falling_back(outcome: InitOutcome)
    ensures
        init_failure(outcome) is None <==> outcome is Ready,
        outcome matches InitOutcome::Failed(reason) ==> init_failure(outcome) == Some(reason@),
{
}

/// A conversion that failed is tried again after fifty milliseconds, two frames are
/// converted ahead, and the encoder has ten seconds to start.
pub proof fn law_limits()
    ensures
        CONVERT_RETRY_MS == 50,
        CONVERT_AHEAD == 2,
        INIT_TIMEOUT_MS == 10_000,
{
}

/// The start of an encoder goes on with the next step after each that succeeded, and stops at
/// the first that fails.
pub proof fn law_steps_follow_each_other(
    step: InitStep,
    encoder: GpuEncoder,
    ok: InitProgress,
    failed: InitProgress,
    detail: &str,
)
    requires
        call_ensures(after_step, (step, encoder, None::<&str>), ok),
        call_ensures(after_step, (step, encoder, Some(detail)), failed),
    ensures
        failed is Failed,
        ok is Ready <==> step == InitStep::WarmupEncode || step == InitStep::OpenMft,
        step == InitStep::OpenSource ==> ok == InitProgress::Step(InitStep::BuildConverter),
        step == InitStep::BuildConverter && encoder == GpuEncoder::Nvenc ==> ok
            == InitProgress::Step(InitStep::LoadNvenc),
        step == InitStep::BuildConverter && encoder == GpuEncoder::Mf ==> ok == InitProgress::Step(
            InitStep::OpenMft,
        ),
        step == InitStep::LoadNvenc ==> ok == InitProgress::Step(InitStep::OpenSession),
        step == InitStep::OpenSession ==> ok == InitProgress::Step(InitStep::Initialize),
        step == InitStep::Initialize ==> ok == InitProgress::Step(InitStep::WarmupConvert),
        step == InitStep::WarmupConvert ==> ok == InitProgress::Step(InitStep::WarmupEncode),
{
}

/// A frame that yields a unit is counted, and the loop goes on at its pace; so it does where the
/// encoder keeps a frame. It stops where the encoder fails, and tries again shortly where a
/// conversion does.
pub proof fn law_frames_of_the_loop(tally: &mut Tally, outcome: FrameOutcome, res: LoopNext)
    requires
        tally.produced < u64::MAX,
        call_ensures(after_frame, (tally, outcome), res),
    ensures
        outcome matches FrameOutcome::Unit { queued } ==> {
            &&& res == LoopNext::Pace
            &&& final(tally).produced == old(tally).produced + 1
            &&& final(tally).dropped == old(tally).dropped + if queued {
                0int
            } else {
                1
            }
        },
        !(outcome is Unit) ==> *final(tally) == *old(tally),
        outcome is Buffered ==> res == LoopNext::Pace,
        outcome is EncodeFailed ==> res == LoopNext::Stop,
        outcome is ConvertFailed ==> res == LoopNext::RetryAfter(50),
{
}

/// The GPU is tried for Spout on Windows only, with the encoder of the adapter where that is at
/// hand, and two frames are converted ahead at most.
pub proof fn law_trying_the_gpu(
    source: SourceKind,
    windows: bool,
    tries: bool,
    encoder: GpuEncoder,
    nvenc: bool,
    mf: bool,
    viable: bool,
    backlog: usize,
    ahead: bool,
)
    requires
        call_ensures(tries_gpu, (source, windows), tries),
        call_ensures(gpu_viable, (encoder, nvenc, mf), viable),
        call_ensures(converts_ahead, (backlog,), ahead),
    ensures
        tries <==> windows && source == SourceKind::Spout,
        encoder == GpuEncoder::Nvenc ==> viable == nvenc,
        encoder == GpuEncoder::Mf ==> viable == mf,
        ahead <==> backlog < 2,
{
}

/// An encoder that is ready needs no fallback, and any other is fallen back from with a reason.
pub proof fn law_reasons_to_fall_back(outcome: InitOutcome, res: Option<String>)
    requires
        call_ensures(fallback_reason, (outcome,), res),
    ensures
        res is None <==> outcome is Ready,
        outcome matches InitOutcome::Failed(reason) ==> (res matches Some(s) && s@ == reason@),
{
}

/// NVENC encodes on the adapters of its maker, in whatever case they are named, and Media
/// Foundation on all others.
pub proof fn law_encoder_of_an_adapter(lower: &str, adapter: &str, res: GpuEncoder, any: GpuEncoder)
    requires
        call_ensures(gpu_encoder_of, (lower,), res),
        call_ensures(gpu_encoder, (adapter,), any),
    ensures
        res == GpuEncoder::Nvenc <==> occurs(lower@, "nvidia"@),
        any == GpuEncoder::Nvenc <==> occurs(lowercase(adapter@), "nvidia"@),
{
}

} // verus!
