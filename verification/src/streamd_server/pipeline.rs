//! Pipeline orchestration: capture, encode, send.
//!
//! The pipeline is told what came of each piece of work and says what to do
//! next. It starts with DMA-BUF capture where the platform has it and falls back
//! to shared memory once, when DMA-BUF capture cannot be had or breaks.

use crate::streamd_proto::packets::{Codec, ServerTelemetry};
use crate::streamd_server::capture::formats::CaptureMode;
use std::collections::HashSet;
use vstd::prelude::*;

verus! {

broadcast use vstd::std_specs::hash::group_hash_axioms;

// ---------------------------------------------------------------------------
// Telemetry
// ---------------------------------------------------------------------------

/// Statistics tracked by the pipeline for telemetry.
#[derive(Debug)]
pub struct Stats {
    pub total_encode_us: u64,
    pub frame_count: u32,
    pub idr_count: u8,
}

impl Stats {
    /// No frame took longer than 32 bits can say.
    pub open spec fn wf(self) -> bool {
        self.total_encode_us <= self.frame_count * u32::MAX
    }

    /// No frames.
    pub open spec fn empty() -> Stats {
        Stats { total_encode_us: 0, frame_count: 0, idr_count: 0 }
    }

    /// One frame more. A full window counts no further frames.
    pub open spec fn with_frame(self, encode_us: u32, is_keyframe: bool) -> Stats {
        Stats {
            total_encode_us: if self.frame_count < u32::MAX {
                (self.total_encode_us + encode_us) as u64
            } else {
                self.total_encode_us
            },
            frame_count: if self.frame_count < u32::MAX {
                (self.frame_count + 1) as u32
            } else {
                self.frame_count
            },
            idr_count: if is_keyframe && self.idr_count < u8::MAX {
                (self.idr_count + 1) as u8
            } else {
                self.idr_count
            },
        }
    }

    /// The telemetry of the frames.
    pub open spec fn telemetry(self) -> ServerTelemetry {
        ServerTelemetry {
            avg_encode_us: if self.frame_count > 0 {
                (self.total_encode_us as nat / self.frame_count as nat) as u32
            } else {
                0
            },
            send_queue_frames: 0,
            idr_count: self.idr_count,
        }
    }

    pub fn new() -> (r: Stats)
        ensures
            r == Stats::empty(),
            r.wf(),
    {
        Stats { total_encode_us: 0, frame_count: 0, idr_count: 0 }
    }

    /// Counts a frame.
    pub fn record(&mut self, encode_us: u32, is_keyframe: bool)
        requires
            old(self).wf(),
        ensures
            *final(self) == old(self).with_frame(encode_us, is_keyframe),
            final(self).wf(),
    {
        if self.frame_count < u32::MAX {
            assert((self.frame_count + 1) * u32::MAX == self.frame_count * u32::MAX + u32::MAX)
                by (nonlinear_arith);
            assert((self.frame_count + 1) * u32::MAX <= u32::MAX * u32::MAX) by (nonlinear_arith)
                requires
                    self.frame_count < u32::MAX,
            ;
            self.total_encode_us = self.total_encode_us + encode_us as u64;
            self.frame_count = self.frame_count + 1;
        }
        if is_keyframe && self.idr_count < u8::MAX {
            self.idr_count = self.idr_count + 1;
        }
    }

    /// Gives the telemetry of the frames since the last call.
    pub fn drain(&mut self) -> (t: ServerTelemetry)
        requires
            old(self).wf(),
        ensures
            t == old(self).telemetry(),
            *final(self) == Stats::empty(),
            final(self).wf(),
    {
        let avg_encode_us: u32 = if self.frame_count > 0 {
            proof {
                average_is_a_frame_time(*self);
            }
            (self.total_encode_us / self.frame_count as u64) as u32
        } else {
            0
        };
        let t = ServerTelemetry {
            avg_encode_us,
            send_queue_frames: 0,
            idr_count: self.idr_count,
        };
        self.total_encode_us = 0;
        self.frame_count = 0;
        self.idr_count = 0;
        t
    }
}

/// The average encode time fits the telemetry: it is exact, not cut off.
pub proof fn average_is_a_frame_time(stats: Stats)
    requires
        stats.wf(),
        stats.frame_count > 0,
    ensures
        stats.total_encode_us as nat / stats.frame_count as nat <= u32::MAX,
        stats.telemetry().avg_encode_us == stats.total_encode_us as nat / stats.frame_count as nat,
{
    let total = stats.total_encode_us as int;
    let count = stats.frame_count as int;
    assert(total / count <= u32::MAX) by (nonlinear_arith)
        requires
            0 <= total <= count * u32::MAX,
            count > 0,
    ;
}

// ---------------------------------------------------------------------------
// Frames and their encoding
// ---------------------------------------------------------------------------

/// What the pipeline needs to know of a captured frame.
#[derive(Clone, Copy, Debug, PartialEq, Eq, Structural)]
pub enum CaptureFrame {
    Shm { width: u32, height: u32 },
    DmaBuf {
        buffer_id: u64,
        width: u32,
        height: u32,
        pitch: u32,
        offset: u32,
        allocation_size: u64,
    },
}

impl CaptureFrame {
    pub open spec fn size(self) -> (u32, u32) {
        match self {
            CaptureFrame::Shm { width, height } => (width, height),
            CaptureFrame::DmaBuf { width, height, .. } => (width, height),
        }
    }
}

pub fn first_frame_dimensions(frame: &CaptureFrame) -> (r: (u32, u32))
    ensures
        r == frame.size(),
{
    match frame {
        CaptureFrame::Shm { width, height } => (*width, *height),
        CaptureFrame::DmaBuf { width, height, .. } => (*width, *height),
    }
}

/// The two presets of the encoder.
#[derive(Clone, Copy, Debug, PartialEq, Eq, Structural)]
pub enum EncoderPreset {
    LanH264,
    WanHevc,
}

/// The settings of the encoder.
#[derive(Clone, Copy, Debug, PartialEq, Eq, Structural)]
pub struct EncoderConfig {
    pub preset: EncoderPreset,
    pub width: u32,
    pub height: u32,
    pub fps: u8,
}

/// The settings for a codec: HEVC has its own preset, all else is H.264.
pub open spec fn config_for(codec: Codec, width: u32, height: u32, fps: u8) -> EncoderConfig {
    EncoderConfig {
        preset: if codec is Hevc {
            EncoderPreset::WanHevc
        } else {
            EncoderPreset::LanH264
        },
        width,
        height,
        fps,
    }
}

pub fn encoder_config(codec: Codec, width: u32, height: u32, fps: u8) -> (r: EncoderConfig)
    ensures
        r == config_for(codec, width, height, fps),
{
    let preset = match codec {
        Codec::H264 => EncoderPreset::LanH264,
        Codec::Hevc => EncoderPreset::WanHevc,
        Codec::Av1 => EncoderPreset::LanH264,
    };
    EncoderConfig { preset, width, height, fps }
}

/// A DMA-BUF that the encoder is to be told of before it encodes from it.
#[derive(Clone, Copy, Debug, PartialEq, Eq, Structural)]
pub struct Registration {
    pub buffer_id: u64,
    pub allocation_size: u64,
    pub offset: u64,
    pub mapping_size: u64,
    pub pitch: u32,
}

/// How the frame at hand is encoded.
#[derive(Clone, Copy, Debug)]
pub struct FramePlan {
    /// The encoder to create first, in place of the one in use.
    pub new_encoder: Option<EncoderConfig>,
    /// The buffer to register first.
    pub register: Option<Registration>,
    /// The frame is to be a keyframe.
    pub force_idr: bool,
}

/// What is to be done next.
#[derive(Clone, Copy, Debug)]
pub enum Work {
    /// Set up capture.
    Open(CaptureMode),
    /// Receive a frame.
    Receive,
    /// Encode the frame, and send it.
    Encode(FramePlan),
    /// The pipeline has been stopped.
    Finish,
    /// Capture or the encoder failed.
    Fail,
    /// Nothing.
    Idle,
}

/// What came of it.
#[derive(Clone, Copy, Debug)]
pub enum PipelineEvent {
    /// Capture is set up, or could not be.
    Opened(bool),
    /// A frame was received, or none could be. `idr_requested` tells whether a
    /// keyframe has been asked for since the last frame.
    Captured { frame: Option<CaptureFrame>, idr_requested: bool },
    /// The frame was encoded and sent. `second_over` tells whether a second has
    /// passed since the last telemetry.
    Encoded { encode_us: u32, is_keyframe: bool, second_over: bool },
    /// The frame could not be encoded.
    EncodeFailed,
    /// The pipeline is to stop.
    Stop,
}

#[derive(Clone, Copy, Debug, PartialEq, Eq, Structural)]
pub enum Stage {
    Opening,
    Receiving,
    Encoding,
    Stopped,
}

// ---------------------------------------------------------------------------
// The course of the pipeline
// ---------------------------------------------------------------------------

#[verifier::ext_equal]
pub struct PipelineView {
    pub stage: Stage,
    pub codec: Codec,
    pub fps: u8,
    pub mode: CaptureMode,
    /// The size that the encoder was made for.
    pub size: Option<(u32, u32)>,
    /// The buffers that the encoder knows.
    pub registered: Set<u64>,
    /// Capture was set up anew, so the next frame is a keyframe.
    pub reset: bool,
    pub frame_seq: u32,
    pub stats: Stats,
}

/// The registration of a frame's buffer.
pub open spec fn registration(frame: CaptureFrame) -> Option<Registration> {
    match frame {
        CaptureFrame::DmaBuf { buffer_id, width, height, pitch, offset, allocation_size } => Some(
            Registration {
                buffer_id,
                allocation_size,
                offset: offset as u64,
                mapping_size: (pitch * height) as u64,
                pitch,
            },
        ),
        CaptureFrame::Shm { .. } => None,
    }
}

impl PipelineView {
    /// Before anything has been captured.
    pub open spec fn initial(codec: Codec, fps: u8, mode: CaptureMode) -> PipelineView {
        PipelineView {
            stage: Stage::Opening,
            codec,
            fps,
            mode,
            size: None,
            registered: Set::empty(),
            reset: false,
            frame_seq: 0,
            stats: Stats::empty(),
        }
    }

    pub open spec fn stopped(self) -> PipelineView {
        PipelineView { stage: Stage::Stopped, ..self }
    }

    /// Capture failed: shared memory takes the place of DMA-BUF, and nothing the
    /// place of shared memory.
    pub open spec fn capture_failed(self) -> (PipelineView, Work) {
        match self.mode {
            CaptureMode::DmaBuf => (
                PipelineView {
                    stage: Stage::Opening,
                    mode: CaptureMode::Shm,
                    registered: Set::empty(),
                    reset: true,
                    ..self
                },
                Work::Open(CaptureMode::Shm),
            ),
            CaptureMode::Shm => (self.stopped(), Work::Fail),
        }
    }

    /// The frame has not the size that the encoder was made for.
    pub open spec fn resized(self, frame: CaptureFrame) -> bool {
        self.size != Some(frame.size())
    }

    /// The buffers that the encoder knows when it comes to the frame.
    pub open spec fn known(self, frame: CaptureFrame) -> Set<u64> {
        if self.resized(frame) {
            Set::empty()
        } else {
            self.registered
        }
    }

    /// How the frame is encoded.
    pub open spec fn plan(self, frame: CaptureFrame, idr_requested: bool) -> FramePlan {
        FramePlan {
            new_encoder: if self.resized(frame) {
                Some(config_for(self.codec, frame.size().0, frame.size().1, self.fps))
            } else {
                None
            },
            register: match registration(frame) {
                Some(r) => if self.known(frame).contains(r.buffer_id) {
                    None
                } else {
                    Some(r)
                },
                None => None,
            },
            force_idr: idr_requested || self.frame_seq == 0 || self.reset || self.resized(frame),
        }
    }

    /// The frame is at hand.
    pub open spec fn with_frame(self, frame: CaptureFrame) -> PipelineView {
        PipelineView {
            stage: Stage::Encoding,
            size: Some(frame.size()),
            registered: match registration(frame) {
                Some(r) => self.known(frame).insert(r.buffer_id),
                None => self.known(frame),
            },
            reset: false,
            ..self
        }
    }

    /// The pipeline after an event, what to do next, and the telemetry to report.
    pub open spec fn step(self, event: PipelineEvent) -> (
        PipelineView,
        Work,
        Option<ServerTelemetry>,
    ) {
        match (self.stage, event) {
            (Stage::Stopped, _) => (self, Work::Idle, None),
            (_, PipelineEvent::Stop) => (self.stopped(), Work::Finish, None),
            (Stage::Opening, PipelineEvent::Opened(true)) => (
                PipelineView { stage: Stage::Receiving, ..self },
                Work::Receive,
                None,
            ),
            (Stage::Opening, PipelineEvent::Opened(false)) => {
                let (next, work) = self.capture_failed();
                (next, work, None)
            },
            (Stage::Receiving, PipelineEvent::Captured { frame: None, .. }) => {
                let (next, work) = self.capture_failed();
                (next, work, None)
            },
            (Stage::Receiving, PipelineEvent::Captured { frame: Some(frame), idr_requested }) => (
                self.with_frame(frame),
                Work::Encode(self.plan(frame, idr_requested)),
                None,
            ),
            (Stage::Encoding, PipelineEvent::Encoded { encode_us, is_keyframe, second_over }) => {
                let stats = self.stats.with_frame(encode_us, is_keyframe);
                (
                    PipelineView {
                        stage: Stage::Receiving,
                        frame_seq: if self.frame_seq == u32::MAX {
                            0
                        } else {
                            (self.frame_seq + 1) as u32
                        },
                        stats: if second_over {
                            Stats::empty()
                        } else {
                            stats
                        },
                        ..self
                    },
                    Work::Receive,
                    if second_over {
                        Some(stats.telemetry())
                    } else {
                        None
                    },
                )
            },
            (Stage::Encoding, PipelineEvent::EncodeFailed) => (self.stopped(), Work::Fail, None),
            _ => (self, Work::Idle, None),
        }
    }
}

/// A running pipeline.
#[derive(Debug)]
pub struct Pipeline {
    stage: Stage,
    codec: Codec,
    fps: u8,
    mode: CaptureMode,
    size: Option<(u32, u32)>,
    registered: HashSet<u64>,
    reset: bool,
    frame_seq: u32,
    stats: Stats,
}

impl View for Pipeline {
    type V = PipelineView;

    closed spec fn view(&self) -> PipelineView {
        PipelineView {
            stage: self.stage,
            codec: self.codec,
            fps: self.fps,
            mode: self.mode,
            size: self.size,
            registered: self.registered@,
            reset: self.reset,
            frame_seq: self.frame_seq,
            stats: self.stats,
        }
    }
}

impl Pipeline {
    /// A pipeline that starts with capture in `mode`, and its first work.
    pub fn new(codec: Codec, fps: u8, mode: CaptureMode) -> (r: (Pipeline, Work))
        ensures
            r.0@ == PipelineView::initial(codec, fps, mode),
            r.1 == Work::Open(mode),
            r.0@.stats.wf(),
    {
        let pipeline = Pipeline {
            stage: Stage::Opening,
            codec,
            fps,
            mode,
            size: None,
            registered: HashSet::new(),
            reset: false,
            frame_seq: 0,
            stats: Stats::new(),
        };
        assert(pipeline@ =~= PipelineView::initial(codec, fps, mode));
        (pipeline, Work::Open(mode))
    }

    fn capture_failed(&mut self) -> (work: Work)
        ensures
            (final(self)@, work) == old(self)@.capture_failed(),
    {
        match self.mode {
            CaptureMode::DmaBuf => {
                self.stage = Stage::Opening;
                self.mode = CaptureMode::Shm;
                self.registered.clear();
                self.reset = true;
                assert(self@ =~= old(self)@.capture_failed().0);
                Work::Open(CaptureMode::Shm)
            },
            CaptureMode::Shm => {
                self.stage = Stage::Stopped;
                Work::Fail
            },
        }
    }

    fn take_frame(&mut self, frame: CaptureFrame, idr_requested: bool) -> (plan: FramePlan)
        ensures
            final(self)@ == old(self)@.with_frame(frame),
            plan == old(self)@.plan(frame, idr_requested),
    {
        let (width, height) = first_frame_dimensions(&frame);
        let mut force_idr = idr_requested || self.frame_seq == 0 || self.reset;
        self.reset = false;
        let same_size = match self.size {
            Some((w, h)) => w == width && h == height,
            None => false,
        };
        let mut new_encoder: Option<EncoderConfig> = None;
        if !same_size {
            self.size = Some((width, height));
            new_encoder = Some(encoder_config(self.codec, width, height, self.fps));
            self.registered.clear();
            force_idr = true;
        }
        let mut register: Option<Registration> = None;
        match frame {
            CaptureFrame::Shm { .. } => {},
            CaptureFrame::DmaBuf { buffer_id, width, height, pitch, offset, allocation_size } => {
                if self.registered.insert(buffer_id) {
                    assert(pitch * height <= u32::MAX * u32::MAX) by (nonlinear_arith)
                        requires
                            pitch <= u32::MAX,
                            height <= u32::MAX,
                    ;
                    register = Some(
                        Registration {
                            buffer_id,
                            allocation_size,
                            offset: offset as u64,
                            mapping_size: pitch as u64 * height as u64,
                            pitch,
                        },
                    );
                }
            },
        }
        self.stage = Stage::Encoding;
        assert(self@ =~= old(self)@.with_frame(frame));
        FramePlan { new_encoder, register, force_idr }
    }

    /// Takes the next event.
    pub fn step(&mut self, event: PipelineEvent) -> (r: (Work, Option<ServerTelemetry>))
        requires
            old(self)@.stats.wf(),
        ensures
            (final(self)@, r.0, r.1) == old(self)@.step(event),
            final(self)@.stats.wf(),
    {
        match event {
            PipelineEvent::Stop => {
                if self.stage == Stage::Stopped {
                    return (Work::Idle, None);
                }
                self.stage = Stage::Stopped;
                return (Work::Finish, None);
            },
            _ => {},
        }
        match self.stage {
            Stage::Opening => match event {
                PipelineEvent::Opened(true) => {
                    self.stage = Stage::Receiving;
                    (Work::Receive, None)
                },
                PipelineEvent::Opened(false) => (self.capture_failed(), None),
                _ => (Work::Idle, None),
            },
            Stage::Receiving => match event {
                PipelineEvent::Captured { frame, idr_requested } => match frame {
                    None => (self.capture_failed(), None),
                    Some(frame) => (Work::Encode(self.take_frame(frame, idr_requested)), None),
                },
                _ => (Work::Idle, None),
            },
            Stage::Encoding => match event {
                PipelineEvent::Encoded { encode_us, is_keyframe, second_over } => {
                    self.stats.record(encode_us, is_keyframe);
                    self.frame_seq = if self.frame_seq == u32::MAX {
                        0
                    } else {
                        self.frame_seq + 1
                    };
                    self.stage = Stage::Receiving;
                    let telemetry = if second_over {
                        Some(self.stats.drain())
                    } else {
                        None
                    };
                    (Work::Receive, telemetry)
                },
                PipelineEvent::EncodeFailed => {
                    self.stage = Stage::Stopped;
                    (Work::Fail, None)
                },
                _ => (Work::Idle, None),
            },
            Stage::Stopped => (Work::Idle, None),
        }
    }
}

/// The time from one frame to the next, in nanoseconds.
pub open spec fn frame_interval(fps: u8) -> nat {
    1_000_000_000nat / fps as nat
}

/// How long to wait, in nanoseconds, before the next frame, when the last one
/// took `elapsed_ns`.
pub fn pause_ns(fps: u8, elapsed_ns: u64) -> (r: u64)
    requires
        fps > 0,
    ensures
        r == if elapsed_ns < frame_interval(fps) {
            frame_interval(fps) - elapsed_ns
        } else {
            0
        },
        r > 0 ==> (elapsed_ns + r) * fps <= 1_000_000_000 < (elapsed_ns + r + 1) * fps,
        r == 0 ==> (elapsed_ns + 1) * fps > 1_000_000_000,
{
    proof {
        frames_are_evenly_spaced(fps);
        let interval = frame_interval(fps) as int;
        assert(elapsed_ns >= interval ==> (elapsed_ns + 1) * fps >= (interval + 1) * fps)
            by (nonlinear_arith)
            requires
                fps > 0,
        ;
    }
    let interval: u64 = 1_000_000_000 / fps as u64;
    if elapsed_ns < interval {
        interval - elapsed_ns
    } else {
        0
    }
}

// ---------------------------------------------------------------------------
// Laws
// ---------------------------------------------------------------------------

/// The stream starts with a keyframe.
pub proof fn first_frame_is_a_keyframe(
    codec: Codec,
    fps: u8,
    mode: CaptureMode,
    frame: CaptureFrame,
    idr_requested: bool,
)
    ensures
        ({
            let opened = PipelineView::initial(codec, fps, mode).step(PipelineEvent::Opened(true)).0;
            opened.plan(frame, idr_requested).force_idr && opened.plan(
                frame,
                idr_requested,
            ).new_encoder == Some(config_for(codec, frame.size().0, frame.size().1, fps))
        }),
{
}

/// A keyframe that was asked for is the next frame.
pub proof fn requested_keyframe_comes_next(pipeline: PipelineView, frame: CaptureFrame)
    requires
        pipeline.stage is Receiving,
    ensures
        pipeline.step(
            PipelineEvent::Captured { frame: Some(frame), idr_requested: true },
        ).1 matches Work::Encode(plan) && plan.force_idr,
{
}

/// When DMA-BUF capture breaks, shared memory takes over: the pipeline goes on,
/// and its next frame is a keyframe.
pub proof fn broken_dmabuf_capture_falls_back(
    pipeline: PipelineView,
    frame: CaptureFrame,
    idr_requested: bool,
)
    requires
        pipeline.stage is Receiving,
        pipeline.mode is DmaBuf,
    ensures
        ({
            let (failed, work, _) = pipeline.step(
                PipelineEvent::Captured { frame: None, idr_requested },
            );
            let (opened, then, _) = failed.step(PipelineEvent::Opened(true));
            work == Work::Open(CaptureMode::Shm) && then == Work::Receive && opened.mode is Shm
                && opened.plan(frame, false).force_idr
        }),
{
}

/// The pipeline falls back at most once: capture from shared memory that fails
/// ends it.
pub proof fn broken_shm_capture_ends_the_pipeline(pipeline: PipelineView, idr_requested: bool)
    requires
        pipeline.mode is Shm,
        pipeline.stage is Receiving || pipeline.stage is Opening,
    ensures
        pipeline.stage is Receiving ==> pipeline.step(
            PipelineEvent::Captured { frame: None, idr_requested },
        ) == (pipeline.stopped(), Work::Fail, None::<ServerTelemetry>),
        pipeline.stage is Opening ==> pipeline.step(PipelineEvent::Opened(false)) == (
            pipeline.stopped(),
            Work::Fail,
            None::<ServerTelemetry>,
        ),
{
}

/// A frame of another size gets an encoder of its size, a keyframe, and its
/// buffer registered with that encoder.
pub proof fn resized_frames_start_anew(
    pipeline: PipelineView,
    frame: CaptureFrame,
    idr_requested: bool,
)
    requires
        pipeline.resized(frame),
    ensures
        ({
            let plan = pipeline.plan(frame, idr_requested);
            plan.force_idr && plan.new_encoder == Some(
                config_for(pipeline.codec, frame.size().0, frame.size().1, pipeline.fps),
            ) && plan.register == registration(frame)
        }),
{
}

/// A buffer is registered when the encoder first meets it, and not again: the
/// next frame from the same buffer, of the same size, is encoded as it is.
pub proof fn buffers_are_registered_once(
    pipeline: PipelineView,
    frame: CaptureFrame,
    next: CaptureFrame,
    idr_requested: bool,
)
    requires
        registration(frame) is Some,
        registration(next) is Some,
        registration(frame)->0.buffer_id == registration(next)->0.buffer_id,
        frame.size() == next.size(),
    ensures
        ({
            let after = pipeline.with_frame(frame);
            after.registered.contains(registration(frame)->0.buffer_id) && after.plan(
                next,
                idr_requested,
            ).register is None && after.plan(next, idr_requested).new_encoder is None
        }),
{
}

/// Every frame is encoded for the size it has.
pub proof fn encoder_fits_the_frame(pipeline: PipelineView, frame: CaptureFrame, idr_requested: bool)
    ensures
        pipeline.with_frame(frame).size == Some(frame.size()),
        pipeline.plan(frame, idr_requested).new_encoder is None ==> pipeline.size == Some(
            frame.size(),
        ),
{
}

/// A stopped pipeline does nothing more.
pub proof fn stopped_pipelines_stay_stopped(pipeline: PipelineView, event: PipelineEvent)
    requires
        pipeline.stage is Stopped,
    ensures
        pipeline.step(event) == (pipeline, Work::Idle, None::<ServerTelemetry>),
{
}

/// The time from one frame to the next is the longest in which `fps` frames still fit
/// into a second.
pub proof fn frames_are_evenly_spaced(fps: u8)
    requires
        fps > 0,
    ensures
        frame_interval(fps) * fps <= 1_000_000_000 < (frame_interval(fps) + 1) * fps,
{
    let n = frame_interval(fps) as int;
    let f = fps as int;
    assert(n * f <= 1_000_000_000 < (n + 1) * f) by (nonlinear_arith)
        requires
            f > 0,
            n == 1_000_000_000int / f,
    ;
}

/// The frame is this wide and this high.
pub open spec fn measures(frame: CaptureFrame, w: u32, h: u32) -> bool {
    match frame {
        CaptureFrame::Shm { width, height } => width == w && height == h,
        CaptureFrame::DmaBuf { width, height, .. } => width == w && height == h,
    }
}

/// A keyframe is forced for a reason and for no other: one was asked for, no frame has
/// been sent, capture was set up anew, or the last frame had another size. It does not
/// matter how the frame was captured.
pub proof fn keyframes_have_a_reason(
    pipeline: PipelineView,
    frame: CaptureFrame,
    w: u32,
    h: u32,
    idr_requested: bool,
)
    requires
        pipeline.stage is Receiving,
        measures(frame, w, h),
    ensures
        pipeline.step(
            PipelineEvent::Captured { frame: Some(frame), idr_requested },
        ).1 matches Work::Encode(plan) && (!plan.force_idr <==> !idr_requested
            && pipeline.frame_seq != 0 && !pipeline.reset && pipeline.size == Some((w, h))),
{
}

/// Frames of one size that follow each other are predicted frames: after a frame was
/// encoded, the next one of the same size is no keyframe unless one is asked for, and
/// needs no encoder. The frame counter must not wrap between them.
pub proof fn steady_frames_are_predicted(
    pipeline: PipelineView,
    frame: CaptureFrame,
    next: CaptureFrame,
    w: u32,
    h: u32,
    first_requested: bool,
    encode_us: u32,
    is_keyframe: bool,
    second_over: bool,
    next_requested: bool,
)
    requires
        pipeline.stage is Receiving,
        pipeline.frame_seq < u32::MAX,
        measures(frame, w, h),
        measures(next, w, h),
    ensures
        ({
            let (encoding, _, _) = pipeline.step(
                PipelineEvent::Captured { frame: Some(frame), idr_requested: first_requested },
            );
            let (sent, work, _) = encoding.step(
                PipelineEvent::Encoded { encode_us, is_keyframe, second_over },
            );
            &&& work == Work::Receive
            &&& sent.frame_seq == pipeline.frame_seq + 1
            &&& sent.step(
                PipelineEvent::Captured { frame: Some(next), idr_requested: next_requested },
            ).1 matches Work::Encode(plan) && plan.force_idr == next_requested
                && plan.new_encoder is None
        }),
{
}

/// An encoder is made for the size of the frame, the rate and the codec of the session,
/// and only where the last frame had another size.
pub proof fn encoders_are_made_to_measure(
    pipeline: PipelineView,
    frame: CaptureFrame,
    w: u32,
    h: u32,
    idr_requested: bool,
)
    requires
        pipeline.stage is Receiving,
        measures(frame, w, h),
    ensures
        pipeline.step(
            PipelineEvent::Captured { frame: Some(frame), idr_requested },
        ).1 matches Work::Encode(plan) && match plan.new_encoder {
            None => pipeline.size == Some((w, h)),
            Some(config) => {
                &&& pipeline.size != Some((w, h))
                &&& config.width == w
                &&& config.height == h
                &&& config.fps == pipeline.fps
                &&& config.preset is WanHevc <==> pipeline.codec is Hevc
            },
        },
{
}

/// A buffer is registered with its own numbers: the memory from its offset on that holds
/// its rows. It is registered where the encoder does not know it, and only there; a frame
/// in shared memory has none.
pub proof fn buffers_are_registered_as_they_are(
    pipeline: PipelineView,
    frame: CaptureFrame,
    idr_requested: bool,
)
    requires
        pipeline.stage is Receiving,
    ensures
        pipeline.step(
            PipelineEvent::Captured { frame: Some(frame), idr_requested },
        ).1 matches Work::Encode(plan) && match frame {
            CaptureFrame::Shm { .. } => plan.register is None,
            CaptureFrame::DmaBuf {
                buffer_id,
                width,
                height,
                pitch,
                offset,
                allocation_size,
            } => match plan.register {
                None => pipeline.registered.contains(buffer_id) && pipeline.size == Some(
                    (width, height),
                ),
                Some(r) => {
                    &&& !pipeline.registered.contains(buffer_id) || pipeline.size != Some(
                        (width, height),
                    )
                    &&& r.buffer_id == buffer_id
                    &&& r.allocation_size == allocation_size
                    &&& r.offset == offset
                    &&& r.mapping_size == pitch * height
                    &&& r.pitch == pitch
                },
            },
        },
{
    if let CaptureFrame::DmaBuf { pitch, height, .. } = frame {
        assert(pitch * height <= u32::MAX * u32::MAX) by (nonlinear_arith)
            requires
                pitch <= u32::MAX,
                height <= u32::MAX,
        ;
    }
}

/// The encode times of the frames, added up.
pub open spec fn encode_time(frames: Seq<(u32, bool)>) -> nat
    decreases frames.len(),
{
    if frames.len() == 0 {
        0
    } else {
        encode_time(frames.drop_last()) + frames.last().0 as nat
    }
}

/// How many of the frames are keyframes.
pub open spec fn keyframes_in(frames: Seq<(u32, bool)>) -> nat
    decreases frames.len(),
{
    if frames.len() == 0 {
        0
    } else {
        keyframes_in(frames.drop_last()) + if frames.last().1 {
            1nat
        } else {
            0nat
        }
    }
}

/// The statistics once these frames have been recorded.
pub open spec fn recorded(frames: Seq<(u32, bool)>) -> Stats
    decreases frames.len(),
{
    if frames.len() == 0 {
        Stats::empty()
    } else {
        recorded(frames.drop_last()).with_frame(frames.last().0, frames.last().1)
    }
}

/// Telemetry tells what was encoded: the average time of the frames that were recorded,
/// rounded down, and how many of them were keyframes, as far as a byte can say.
pub proof fn telemetry_tells_what_was_encoded(frames: Seq<(u32, bool)>)
    requires
        frames.len() <= u32::MAX,
    ensures
        recorded(frames).frame_count == frames.len(),
        recorded(frames).total_encode_us == encode_time(frames),
        recorded(frames).idr_count == if keyframes_in(frames) <= u8::MAX {
            keyframes_in(frames) as int
        } else {
            u8::MAX as int
        },
        recorded(frames).wf(),
        ({
            let t = recorded(frames).telemetry();
            &&& t.idr_count == recorded(frames).idr_count
            &&& t.send_queue_frames == 0
            &&& frames.len() == 0 ==> t.avg_encode_us == 0
            &&& frames.len() > 0 ==> t.avg_encode_us * frames.len() <= encode_time(frames) < (
            t.avg_encode_us + 1) * frames.len()
        }),
    decreases frames.len(),
{
    if frames.len() > 0 {
        let before = frames.drop_last();
        telemetry_tells_what_was_encoded(before);
        let n = frames.len() as int;
        let limit = u32::MAX as int;
        assert(n * limit == (n - 1) * limit + limit) by (nonlinear_arith);
        assert(n * limit <= limit * limit) by (nonlinear_arith)
            requires
                n <= limit,
                limit >= 0,
        ;
        let stats = recorded(frames);
        assert(stats.frame_count == n);
        assert(stats.total_encode_us == encode_time(frames));
        average_is_a_frame_time(stats);
        let total = encode_time(frames) as int;
        let avg = total / n;
        assert(avg * n <= total < (avg + 1) * n) by (nonlinear_arith)
            requires
                n > 0,
                avg == total / n,
        ;
    }
}

/// Telemetry is reported when a second is over, with the frame at hand counted, and the
/// count starts anew; else the frame is counted and nothing is reported. The frame counter
/// goes up by one and wraps.
pub proof fn telemetry_comes_once_a_second(
    pipeline: PipelineView,
    encode_us: u32,
    is_keyframe: bool,
    second_over: bool,
)
    requires
        pipeline.stage is Encoding,
    ensures
        ({
            let counted = pipeline.stats.with_frame(encode_us, is_keyframe);
            let (after, work, telemetry) = pipeline.step(
                PipelineEvent::Encoded { encode_us, is_keyframe, second_over },
            );
            &&& work == Work::Receive
            &&& after.stage is Receiving
            &&& telemetry == if second_over {
                Some(counted.telemetry())
            } else {
                None
            }
            &&& second_over ==> after.stats.frame_count == 0 && after.stats.idr_count == 0
                && after.stats.total_encode_us == 0
            &&& !second_over ==> after.stats == counted
            &&& after.frame_seq == (pipeline.frame_seq + 1) % 0x1_0000_0000
            &&& after.size == pipeline.size && after.registered == pipeline.registered
                && after.mode == pipeline.mode && after.reset == pipeline.reset && after.codec
                == pipeline.codec && after.fps == pipeline.fps
        }),
{
}

/// A stop ends the pipeline in every stage, a frame that cannot be encoded ends it with a
/// failure, and capture that is set up is read from.
pub proof fn pipelines_start_and_end(pipeline: PipelineView)
    ensures
        !(pipeline.stage is Stopped) ==> pipeline.step(PipelineEvent::Stop).1 == Work::Finish
            && pipeline.step(PipelineEvent::Stop).0.stage is Stopped,
        pipeline.stage is Encoding ==> pipeline.step(PipelineEvent::EncodeFailed).1 == Work::Fail
            && pipeline.step(PipelineEvent::EncodeFailed).0.stage is Stopped,
        pipeline.stage is Opening ==> pipeline.step(PipelineEvent::Opened(true)).1 == Work::Receive
            && pipeline.step(PipelineEvent::Opened(true)).0 == (PipelineView {
            stage: Stage::Receiving,
            ..pipeline
        }),
        pipeline.stage is Opening && pipeline.mode is DmaBuf ==> pipeline.step(
            PipelineEvent::Opened(false),
        ).1 == Work::Open(CaptureMode::Shm),
{
}

/// What comes out of turn changes nothing and asks for nothing.
pub proof fn events_out_of_turn_are_passed_over(pipeline: PipelineView, event: PipelineEvent)
    requires
        event is Opened ==> !(pipeline.stage is Opening),
        event is Captured ==> !(pipeline.stage is Receiving),
        event is Encoded || event is EncodeFailed ==> !(pipeline.stage is Encoding),
        !(event is Stop),
    ensures
        pipeline.step(event) == (pipeline, Work::Idle, None::<ServerTelemetry>),
{
}

/// When DMA-BUF capture breaks the encoder stays, but is told of every buffer anew, and
/// the frames go on counting.
pub proof fn falling_back_keeps_the_encoder(pipeline: PipelineView, idr_requested: bool)
    requires
        pipeline.stage is Receiving,
        pipeline.mode is DmaBuf,
    ensures
        ({
            let after = pipeline.step(PipelineEvent::Captured { frame: None, idr_requested }).0;
            &&& after.stage is Opening
            &&& after.mode is Shm
            &&& after.reset
            &&& after.registered == Set::<u64>::empty()
            &&& after.size == pipeline.size
            &&& after.frame_seq == pipeline.frame_seq
            &&& after.stats == pipeline.stats
            &&& after.codec == pipeline.codec
            &&& after.fps == pipeline.fps
        }),
{
}

/// A pipeline begins by opening capture in the mode and for the codec and rate that it was
/// made for; no frame has been numbered, no buffer registered and nothing counted.
pub proof fn pipelines_begin_with_nothing(codec: Codec, fps: u8, mode: CaptureMode)
    ensures
        ({
            let p = PipelineView::initial(codec, fps, mode);
            &&& p.stage is Opening && p.codec == codec && p.fps == fps && p.mode == mode
            &&& p.size is None && !p.reset && p.frame_seq == 0
            &&& forall|id: u64| !#[trigger] p.registered.contains(id)
        }),
{
}

} // verus!
