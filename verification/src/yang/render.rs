//! Presentation of decoded frames: which frame is shown, with which cursor, and
//! what is reported of it.

use crate::clock::cap_us;
use crate::streamd_client::cursor::CursorSnapshot;
use crate::yang::telemetry::{
    average, average_of, averages_are_quotients, capped_sum32, capped_sum64, ClientTelemetryAccumulator,
};
use crate::yin_yang_proto::packets::{
    RemoteCursorShapeKind, RemoteCursorShapeView, RemoteCursorState,
};
use vstd::prelude::*;

verus! {

// ---------------------------------------------------------------------------
// The queue
// ---------------------------------------------------------------------------

/// The newest frame that waits to be shown.
#[derive(Debug)]
pub struct RenderQueue<T> {
    pub queued: Option<T>,
}

impl<T> RenderQueue<T> {
    pub fn new() -> (r: RenderQueue<T>)
        ensures
            r.queued is None,
    {
        RenderQueue { queued: None }
    }

    /// Takes the waiting frame.
    pub fn take(&mut self) -> (r: Option<T>)
        ensures
            r == old(self).queued,
            final(self).queued is None,
    {
        self.queued.take()
    }

    /// Puts a frame in the place of the waiting one. Counts the one that is
    /// dropped.
    pub fn offer(&mut self, frame: T, dropped_frames: &mut u32)
        ensures
            final(self).queued == Some(frame),
            *final(dropped_frames) == if old(self).queued is Some {
                capped_sum32(*old(dropped_frames), 1)
            } else {
                *old(dropped_frames)
            },
    {
        if self.queued.is_some() {
            *dropped_frames = dropped_frames.saturating_add(1);
        }
        self.queued = Some(frame);
    }

    /// Puts all frames that have arrived in the queue, oldest first.
    pub fn offer_all(&mut self, frames: Vec<T>) -> (dropped_frames: u32)
        ensures
            final(self).queued == if frames@.len() > 0 {
                Some(frames@.last())
            } else {
                old(self).queued
            },
            dropped_frames == dropped(old(self).queued is Some, frames@.len()),
    {
        let mut left = frames;
        let count: usize = left.len();
        let some = self.queued.is_some();
        if count > 0 {
            self.queued = left.pop();
        }
        let replaced: usize = if some || count == 0 {
            count
        } else {
            count - 1
        };
        if replaced as u64 > u32::MAX as u64 {
            u32::MAX
        } else {
            replaced as u32
        }
    }
}

/// How many frames are dropped when `n` arrive: all but the newest.
pub open spec fn dropped(waiting: bool, n: nat) -> u32 {
    let replaced = if waiting || n == 0 {
        n
    } else {
        (n - 1) as nat
    };
    if replaced > u32::MAX {
        u32::MAX
    } else {
        replaced as u32
    }
}

// ---------------------------------------------------------------------------
// The frame at hand
// ---------------------------------------------------------------------------

/// A decoded frame, but for its picture.
#[derive(Clone, Copy, Debug, PartialEq, Eq, Structural)]
pub struct FrameInfo {
    pub frame_seq: u32,
    pub width: u32,
    pub height: u32,
    pub timestamp_us: u64,
    pub is_keyframe: bool,
    pub received_at_us: u64,
    pub decode_submitted_at_us: u64,
    pub decoded_at_us: u64,
}

/// How a frame is presented.
#[derive(Clone, Copy, Debug, PartialEq, Eq, Structural)]
pub struct PresentPlan {
    /// The layer, and the interpolator's textures, are to be resized first.
    pub resize: bool,
    /// A mid-frame between the previous frame and this one is presented first.
    pub interpolate: bool,
}

/// The state of the renderer.
#[derive(Clone, Copy, Debug, PartialEq, Eq, Structural)]
pub struct RenderLoop {
    pub width: u32,
    pub height: u32,
    /// Frames can be interpolated.
    pub has_interpolator: bool,
    /// The previous frame is at hand.
    pub has_previous: bool,
}

impl RenderLoop {
    /// How a frame is presented. Nothing is interpolated across a resolution
    /// boundary, nor across a keyframe, where the decoder recovers or the scene
    /// changes.
    pub open spec fn plan(self, frame: FrameInfo) -> PresentPlan {
        let resize = self.width != frame.width || self.height != frame.height;
        PresentPlan {
            resize,
            interpolate: self.has_interpolator && self.has_previous && !resize
                && !frame.is_keyframe,
        }
    }

    /// The state once the frame has been presented.
    pub open spec fn after(self, frame: FrameInfo) -> RenderLoop {
        RenderLoop {
            width: frame.width,
            height: frame.height,
            has_interpolator: self.has_interpolator,
            has_previous: self.has_interpolator || (self.has_previous && !self.plan(frame).resize),
        }
    }

    pub fn new(width: u32, height: u32, has_interpolator: bool) -> (r: RenderLoop)
        ensures
            r == (RenderLoop { width, height, has_interpolator, has_previous: false }),
    {
        RenderLoop { width, height, has_interpolator, has_previous: false }
    }

    /// Plans the presentation of a frame, which is then the previous one.
    pub fn next_frame(&mut self, frame: &FrameInfo) -> (r: PresentPlan)
        ensures
            r == old(self).plan(*frame),
            *final(self) == old(self).after(*frame),
    {
        let resize = self.width != frame.width || self.height != frame.height;
        if resize {
            self.width = frame.width;
            self.height = frame.height;
            self.has_previous = false;
        }
        let interpolate = self.has_interpolator && self.has_previous && !frame.is_keyframe;
        if self.has_interpolator {
            self.has_previous = true;
        }
        PresentPlan { resize, interpolate }
    }
}

/// How many drawables the layer has: with interpolation two are submitted for
/// each decoded frame, so that a third is needed.
pub fn drawable_count(interpolate: bool) -> (r: u64)
    ensures
        r == if interpolate {
            3u64
        } else {
            2u64
        },
{
    if interpolate {
        3
    } else {
        2
    }
}

/// The rendering ends when no frame can come and none waits.
pub fn is_done(disconnected: bool, waiting: bool) -> (r: bool)
    ensures
        r == (disconnected && !waiting),
{
    disconnected && !waiting
}

/// Whether a pixel format has the full range of values: `420f` has, `420v` has
/// not, and others cannot be presented.
pub fn full_range(pixel_format: u32) -> (r: Option<bool>)
    ensures
        r == if pixel_format == 0x3432_3076 {
            Some(false)
        } else if pixel_format == 0x3432_3066 {
            Some(true)
        } else {
            None
        },
{
    if pixel_format == 0x3432_3076 {
        Some(false)
    } else if pixel_format == 0x3432_3066 {
        Some(true)
    } else {
        None
    }
}

// ---------------------------------------------------------------------------
// Times
// ---------------------------------------------------------------------------

/// The span from one time to another, nothing where the clock went back.
pub open spec fn span(from_us: u64, to_us: u64) -> u64 {
    if to_us > from_us {
        (to_us - from_us) as u64
    } else {
        0
    }
}

/// How long the stages of a frame took.
#[derive(Clone, Copy, Debug, PartialEq, Eq, Structural)]
pub struct FrameTimes {
    pub decode_queue_us: u64,
    pub decode_us: u64,
    pub render_queue_us: u32,
    pub present_cpu_us: u32,
}

/// The times of a frame that was presented from `started_us` to `finished_us`. Of
/// the time in the render queue the low 32 bits count.
pub open spec fn times_of(frame: FrameInfo, started_us: u64, finished_us: u64) -> FrameTimes {
    FrameTimes {
        decode_queue_us: span(frame.received_at_us, frame.decode_submitted_at_us),
        decode_us: span(frame.decode_submitted_at_us, frame.decoded_at_us),
        render_queue_us: (span(frame.decoded_at_us, started_us) % 0x1_0000_0000) as u32,
        present_cpu_us: if span(started_us, finished_us) > u32::MAX {
            u32::MAX
        } else {
            span(started_us, finished_us) as u32
        },
    }
}

pub fn frame_times(frame: &FrameInfo, started_us: u64, finished_us: u64) -> (r: FrameTimes)
    ensures
        r == times_of(*frame, started_us, finished_us),
{
    FrameTimes {
        decode_queue_us: frame.decode_submitted_at_us.saturating_sub(frame.received_at_us),
        decode_us: frame.decoded_at_us.saturating_sub(frame.decode_submitted_at_us),
        render_queue_us: (started_us.saturating_sub(frame.decoded_at_us) % 0x1_0000_0000) as u32,
        present_cpu_us: cap_us(finished_us.saturating_sub(started_us) as u128),
    }
}

/// Reports a presented frame to the client's telemetry. Of the time in the decode
/// queue the low 32 bits count.
pub fn record_telemetry(
    telemetry: &mut ClientTelemetryAccumulator,
    times: &FrameTimes,
    dropped_frames: u32,
)
    ensures
        *final(telemetry) == (ClientTelemetryAccumulator {
            presented_frames: capped_sum32(old(telemetry).presented_frames, 1),
            render_dropped_frames: capped_sum32(
                old(telemetry).render_dropped_frames,
                dropped_frames,
            ),
            total_decode_queue_us: capped_sum64(
                old(telemetry).total_decode_queue_us,
                (times.decode_queue_us % 0x1_0000_0000) as u32,
            ),
            total_render_queue_us: capped_sum64(
                old(telemetry).total_render_queue_us,
                times.render_queue_us,
            ),
            ..*old(telemetry)
        }),
{
    telemetry.record_render(
        (times.decode_queue_us % 0x1_0000_0000) as u32,
        times.render_queue_us,
        dropped_frames,
    );
}

/// `a` and `b` together, up to the limit of 64 bits.
pub open spec fn total(a: u64, b: u64) -> u64 {
    if a + b > u64::MAX {
        u64::MAX
    } else {
        (a + b) as u64
    }
}

/// Counts what is presented.
#[derive(Clone, Copy, Debug, PartialEq, Eq, Structural)]
pub struct RenderStats {
    pub presented_frames: u32,
    pub dropped_frames: u32,
    pub total_decode_queue_us: u64,
    pub total_decode_us: u64,
    pub total_render_queue_us: u64,
    pub total_present_cpu_us: u64,
}

/// The averages of a window of time.
#[derive(Clone, Copy, Debug, PartialEq, Eq, Structural)]
pub struct RenderReport {
    pub presented_frames: u32,
    pub dropped_frames: u32,
    pub decode_queue_us: u32,
    pub decode_us: u32,
    pub render_queue_us: u32,
    pub present_cpu_us: u32,
}

impl RenderStats {
    pub open spec fn zero() -> RenderStats {
        RenderStats {
            presented_frames: 0,
            dropped_frames: 0,
            total_decode_queue_us: 0,
            total_decode_us: 0,
            total_render_queue_us: 0,
            total_present_cpu_us: 0,
        }
    }

    pub open spec fn report(self) -> RenderReport {
        RenderReport {
            presented_frames: self.presented_frames,
            dropped_frames: self.dropped_frames,
            decode_queue_us: average_of(self.total_decode_queue_us, self.presented_frames),
            decode_us: average_of(self.total_decode_us, self.presented_frames),
            render_queue_us: average_of(self.total_render_queue_us, self.presented_frames),
            present_cpu_us: average_of(self.total_present_cpu_us, self.presented_frames),
        }
    }

    pub fn new() -> (r: RenderStats)
        ensures
            r == RenderStats::zero(),
    {
        RenderStats {
            presented_frames: 0,
            dropped_frames: 0,
            total_decode_queue_us: 0,
            total_decode_us: 0,
            total_render_queue_us: 0,
            total_present_cpu_us: 0,
        }
    }

    pub fn record_presented(&mut self, times: &FrameTimes, dropped_frames: u32)
        ensures
            *final(self) == (RenderStats {
                presented_frames: capped_sum32(old(self).presented_frames, 1),
                dropped_frames: capped_sum32(old(self).dropped_frames, dropped_frames),
                total_decode_queue_us: total(
                    old(self).total_decode_queue_us,
                    times.decode_queue_us,
                ),
                total_decode_us: total(old(self).total_decode_us, times.decode_us),
                total_render_queue_us: total(
                    old(self).total_render_queue_us,
                    times.render_queue_us as u64,
                ),
                total_present_cpu_us: total(
                    old(self).total_present_cpu_us,
                    times.present_cpu_us as u64,
                ),
            }),
    {
        self.presented_frames = self.presented_frames.saturating_add(1);
        self.dropped_frames = self.dropped_frames.saturating_add(dropped_frames);
        self.total_decode_queue_us = self.total_decode_queue_us.saturating_add(
            times.decode_queue_us,
        );
        self.total_decode_us = self.total_decode_us.saturating_add(times.decode_us);
        self.total_render_queue_us = self.total_render_queue_us.saturating_add(
            times.render_queue_us as u64,
        );
        self.total_present_cpu_us = self.total_present_cpu_us.saturating_add(
            times.present_cpu_us as u64,
        );
    }

    /// Reports and starts again from zero once a second has passed.
    pub fn take_window(&mut self, elapsed_us: u64) -> (r: Option<RenderReport>)
        ensures
            elapsed_us < 1_000_000 ==> r is None && *final(self) == *old(self),
            elapsed_us >= 1_000_000 ==> r == Some(old(self).report()) && *final(self)
                == RenderStats::zero(),
    {
        if elapsed_us < 1_000_000 {
            return None;
        }
        let frames = self.presented_frames;
        let report = RenderReport {
            presented_frames: frames,
            dropped_frames: self.dropped_frames,
            decode_queue_us: average(self.total_decode_queue_us, frames),
            decode_us: average(self.total_decode_us, frames),
            render_queue_us: average(self.total_render_queue_us, frames),
            present_cpu_us: average(self.total_present_cpu_us, frames),
        };
        *self = RenderStats::new();
        Some(report)
    }
}

// ---------------------------------------------------------------------------
// The cursor
// ---------------------------------------------------------------------------

/// What the shader is told of the cursor.
#[derive(Clone, Copy, Debug, PartialEq, Eq, Structural)]
pub struct CursorRenderParams {
    pub origin_x: i32,
    pub origin_y: i32,
    pub width: u32,
    pub height: u32,
    pub row_bytes: u32,
    pub kind: u32,
    pub visible: u32,
    pub has_shape: u32,
    pub frame_width: u32,
    pub frame_height: u32,
}

/// The number of a kind of cursor image.
pub open spec fn kind_value(kind: RemoteCursorShapeKind) -> u32 {
    match kind {
        RemoteCursorShapeKind::Color => 1,
        RemoteCursorShapeKind::MaskedColor => 2,
        RemoteCursorShapeKind::Monochrome => 3,
    }
}

pub fn cursor_kind_value(kind: RemoteCursorShapeKind) -> (r: u32)
    ensures
        r == kind_value(kind),
{
    match kind {
        RemoteCursorShapeKind::Color => 1,
        RemoteCursorShapeKind::MaskedColor => 2,
        RemoteCursorShapeKind::Monochrome => 3,
    }
}

/// `1` for yes and `0` for no.
pub open spec fn flag(b: bool) -> u32 {
    if b {
        1
    } else {
        0
    }
}

/// No cursor.
pub open spec fn no_cursor(frame: FrameInfo) -> CursorRenderParams {
    CursorRenderParams {
        origin_x: 0,
        origin_y: 0,
        width: 0,
        height: 0,
        row_bytes: 0,
        kind: 0,
        visible: 0,
        has_shape: 0,
        frame_width: frame.width,
        frame_height: frame.height,
    }
}

/// A cursor in a state, with an image where there is one.
pub open spec fn cursor_params(
    state: RemoteCursorState,
    shape: Option<RemoteCursorShapeView>,
    frame: FrameInfo,
) -> CursorRenderParams {
    CursorRenderParams {
        origin_x: state.x,
        origin_y: state.y,
        visible: flag(state.visible),
        has_shape: flag(state.visible && shape is Some),
        width: match shape {
            Some(s) => s.width,
            None => 0,
        },
        height: match shape {
            Some(s) => s.height,
            None => 0,
        },
        row_bytes: match shape {
            Some(s) => s.pitch,
            None => 0,
        },
        kind: match shape {
            Some(s) => kind_value(s.kind),
            None => 0,
        },
        ..no_cursor(frame)
    }
}

/// A texture to make of the cursor image's bytes.
#[derive(Clone, Copy, Debug, PartialEq, Eq, Structural)]
pub enum CursorTexture {
    /// Four bytes a pixel.
    Color { width: u32, height: u32, bytes_per_row: u32 },
    /// One byte a pixel: the rows of both masks.
    Mono { width: u32, height: u32, bytes_per_row: u32 },
}

/// The texture of a cursor image, where it is not empty.
pub open spec fn texture_of(shape: RemoteCursorShapeView) -> Option<CursorTexture> {
    if shape.width == 0 || shape.height == 0 || shape.data.len() == 0 {
        None
    } else if shape.kind is Monochrome {
        Some(
            CursorTexture::Mono {
                width: shape.pitch,
                height: if 2 * shape.height > u32::MAX {
                    u32::MAX
                } else {
                    (2 * shape.height) as u32
                },
                bytes_per_row: shape.pitch,
            },
        )
    } else {
        Some(
            CursorTexture::Color {
                width: shape.width,
                height: shape.height,
                bytes_per_row: shape.pitch,
            },
        )
    }
}

/// What is to be done with the textures of the cursor.
#[derive(Clone, Copy, Debug, PartialEq, Eq, Structural)]
pub enum TextureStep {
    /// Use those at hand.
    Keep,
    /// Drop them.
    Drop,
    /// Drop them, and make this one.
    Make(CursorTexture),
}

/// The view of the image of a snapshot.
pub open spec fn shape_of(snapshot: CursorSnapshot) -> Option<RemoteCursorShapeView> {
    match snapshot.shape {
        Some(shape) => Some((*shape)@),
        None => None,
    }
}

/// The cursor of a frame: what to do with its textures, what to tell the shader,
/// and which image the textures then hold. `at_hand` is the image that they hold.
pub open spec fn cursor_of(
    at_hand: Option<u64>,
    snapshot: Option<CursorSnapshot>,
    frame: FrameInfo,
) -> (TextureStep, CursorRenderParams, Option<u64>) {
    match snapshot {
        None => (TextureStep::Drop, no_cursor(frame), None),
        Some(s) => {
            let params = cursor_params(s.state, shape_of(s), frame);
            match shape_of(s) {
                None => (TextureStep::Drop, params, None),
                Some(shape) => if at_hand == Some(shape.generation) {
                    (TextureStep::Keep, params, at_hand)
                } else {
                    (
                        match texture_of(shape) {
                            Some(texture) => TextureStep::Make(texture),
                            None => TextureStep::Drop,
                        },
                        params,
                        Some(shape.generation),
                    )
                },
            }
        },
    }
}

fn as_flag(b: bool) -> (r: u32)
    ensures
        r == flag(b),
{
    if b {
        1
    } else {
        0
    }
}

/// The cursor of a frame.
pub fn update_cursor_resources(
    at_hand: &mut Option<u64>,
    snapshot: &Option<CursorSnapshot>,
    frame: &FrameInfo,
) -> (r: (TextureStep, CursorRenderParams))
    ensures
        (r.0, r.1, *final(at_hand)) == cursor_of(*old(at_hand), *snapshot, *frame),
{
    let mut params = CursorRenderParams {
        origin_x: 0,
        origin_y: 0,
        width: 0,
        height: 0,
        row_bytes: 0,
        kind: 0,
        visible: 0,
        has_shape: 0,
        frame_width: frame.width,
        frame_height: frame.height,
    };
    let snapshot = match snapshot {
        Some(snapshot) => snapshot,
        None => {
            *at_hand = None;
            return (TextureStep::Drop, params);
        },
    };
    params.origin_x = snapshot.state.x;
    params.origin_y = snapshot.state.y;
    params.visible = as_flag(snapshot.state.visible);
    let shape = match &snapshot.shape {
        Some(shape) => shape,
        None => {
            *at_hand = None;
            return (TextureStep::Drop, params);
        },
    };
    params.has_shape = as_flag(snapshot.state.visible);
    params.width = shape.width;
    params.height = shape.height;
    params.row_bytes = shape.pitch;
    params.kind = cursor_kind_value(shape.kind);
    let known = match *at_hand {
        Some(generation) => generation == shape.generation,
        None => false,
    };
    if known {
        return (TextureStep::Keep, params);
    }
    *at_hand = Some(shape.generation);
    if shape.width == 0 || shape.height == 0 || shape.data.len() == 0 {
        return (TextureStep::Drop, params);
    }
    let texture = match shape.kind {
        RemoteCursorShapeKind::Color | RemoteCursorShapeKind::MaskedColor => CursorTexture::Color {
            width: shape.width,
            height: shape.height,
            bytes_per_row: shape.pitch,
        },
        RemoteCursorShapeKind::Monochrome => CursorTexture::Mono {
            width: shape.pitch,
            height: if shape.height > u32::MAX / 2 {
                u32::MAX
            } else {
                shape.height * 2
            },
            bytes_per_row: shape.pitch,
        },
    };
    (TextureStep::Make(texture), params)
}

// ---------------------------------------------------------------------------
// Laws
// ---------------------------------------------------------------------------

/// A mid-frame is shown only between two frames of one size that follow each
/// other, and never before a keyframe or the first frame.
pub proof fn mid_frames_join_like_frames(
    width: u32,
    height: u32,
    has_interpolator: bool,
    first: FrameInfo,
    second: FrameInfo,
)
    ensures
        ({
            let start = RenderLoop { width, height, has_interpolator, has_previous: false };
            &&& !start.plan(first).interpolate
            &&& start.after(first).plan(second).interpolate <==> has_interpolator
                && !second.is_keyframe && first.width == second.width && first.height
                == second.height
        }),
{
}

/// A frame of a size that was just shown needs no resizing.
pub proof fn sizes_are_kept(state: RenderLoop, first: FrameInfo, second: FrameInfo)
    requires
        first.width == second.width,
        first.height == second.height,
    ensures
        !state.after(first).plan(second).resize,
{
}

/// An image of the cursor is made into a texture once, and kept for the frames
/// that follow.
pub proof fn cursor_images_are_made_once(
    at_hand: Option<u64>,
    snapshot: CursorSnapshot,
    frame: FrameInfo,
    next: FrameInfo,
)
    requires
        snapshot.shape is Some,
    ensures
        ({
            let (_, _, after) = cursor_of(at_hand, Some(snapshot), frame);
            let (step, _, later) = cursor_of(after, Some(snapshot), next);
            step == TextureStep::Keep && later == after
        }),
{
}

/// No frame is lost without being counted: the frames that arrive and the one that waited
/// are dropped, but for the one that waits now.
pub proof fn only_the_newest_frame_waits(waiting: bool, n: nat)
    requires
        n <= u32::MAX,
    ensures
        dropped(waiting, n) + (if waiting || n > 0 {
            1nat
        } else {
            0nat
        }) == n + (if waiting {
            1nat
        } else {
            0nat
        }),
{
}

/// The renderer takes the size of each frame over, and resizes where it was another. It
/// holds on to a frame for the next one only if it can interpolate.
pub proof fn frames_are_shown_in_their_size(state: RenderLoop, frame: FrameInfo)
    ensures
        state.after(frame).width == frame.width,
        state.after(frame).height == frame.height,
        state.after(frame).has_interpolator == state.has_interpolator,
        state.has_interpolator ==> state.after(frame).has_previous,
        !state.has_interpolator && !state.has_previous ==> !state.after(frame).has_previous,
        state.plan(frame).resize <==> !(state.width == frame.width && state.height == frame.height),
        state.plan(frame).interpolate ==> !state.plan(frame).resize && !frame.is_keyframe
            && state.has_interpolator && state.has_previous,
        state.has_interpolator && state.has_previous && !frame.is_keyframe && state.width
            == frame.width && state.height == frame.height ==> state.plan(frame).interpolate,
{
}

/// Each stage is timed from the end of the one before to its own end, and takes no time
/// where the clock went back.
pub proof fn stages_are_timed(frame: FrameInfo, started_us: u64, finished_us: u64)
    ensures
        ({
            let t = times_of(frame, started_us, finished_us);
            &&& frame.received_at_us <= frame.decode_submitted_at_us ==> frame.received_at_us
                + t.decode_queue_us == frame.decode_submitted_at_us
            &&& frame.decode_submitted_at_us <= frame.decoded_at_us ==> frame.decode_submitted_at_us
                + t.decode_us == frame.decoded_at_us
            &&& frame.decoded_at_us <= started_us < frame.decoded_at_us + 0x1_0000_0000
                ==> frame.decoded_at_us + t.render_queue_us == started_us
            &&& started_us <= finished_us < started_us + 0x1_0000_0000 ==> started_us
                + t.present_cpu_us == finished_us
            &&& finished_us >= started_us + 0x1_0000_0000 ==> t.present_cpu_us == 0xffff_ffff
            &&& frame.received_at_us >= frame.decode_submitted_at_us ==> t.decode_queue_us == 0
            &&& frame.decode_submitted_at_us >= frame.decoded_at_us ==> t.decode_us == 0
            &&& frame.decoded_at_us >= started_us ==> t.render_queue_us == 0
            &&& started_us >= finished_us ==> t.present_cpu_us == 0
        }),
{
}

/// Times are added up, and stay at the limit where they would pass it.
pub proof fn times_add_up(a: u64, b: u64)
    ensures
        a + b <= u64::MAX ==> total(a, b) == a + b,
        a + b > u64::MAX ==> total(a, b) == u64::MAX,
{
}

/// A report tells the average of each stage over the frames presented, rounded down, and
/// how many frames were presented and dropped.
pub proof fn reports_tell_averages(stats: RenderStats)
    requires
        stats.presented_frames > 0,
        stats.total_decode_queue_us < stats.presented_frames * 0x1_0000_0000,
        stats.total_decode_us < stats.presented_frames * 0x1_0000_0000,
        stats.total_render_queue_us < stats.presented_frames * 0x1_0000_0000,
        stats.total_present_cpu_us < stats.presented_frames * 0x1_0000_0000,
    ensures
        ({
            let n = stats.presented_frames;
            let r = stats.report();
            &&& r.presented_frames == n && r.dropped_frames == stats.dropped_frames
            &&& r.decode_queue_us * n <= stats.total_decode_queue_us < (r.decode_queue_us + 1) * n
            &&& r.decode_us * n <= stats.total_decode_us < (r.decode_us + 1) * n
            &&& r.render_queue_us * n <= stats.total_render_queue_us < (r.render_queue_us + 1) * n
            &&& r.present_cpu_us * n <= stats.total_present_cpu_us < (r.present_cpu_us + 1) * n
        }),
{
    let n = stats.presented_frames;
    averages_are_quotients(stats.total_decode_queue_us, n);
    averages_are_quotients(stats.total_decode_us, n);
    averages_are_quotients(stats.total_render_queue_us, n);
    averages_are_quotients(stats.total_present_cpu_us, n);
}

/// Without a frame presented there is nothing to report.
pub proof fn empty_windows_report_nothing()
    ensures
        RenderStats::zero().report() == (RenderReport {
            presented_frames: 0,
            dropped_frames: 0,
            decode_queue_us: 0,
            decode_us: 0,
            render_queue_us: 0,
            present_cpu_us: 0,
        }),
{
}

/// The shader is told where the cursor stands and the frame's size, and of the image its
/// size, its pitch and its kind: 1 for colours, 2 for masked colours and 3 for masks. An
/// image is drawn only with a cursor that is visible.
pub proof fn the_shader_is_told_of_the_cursor(
    state: RemoteCursorState,
    shape: Option<RemoteCursorShapeView>,
    frame: FrameInfo,
)
    ensures
        ({
            let p = cursor_params(state, shape, frame);
            &&& p.origin_x == state.x && p.origin_y == state.y
            &&& p.frame_width == frame.width && p.frame_height == frame.height
            &&& state.visible ==> p.visible == 1
            &&& !state.visible ==> p.visible == 0 && p.has_shape == 0
            &&& state.visible && shape is Some ==> p.has_shape == 1
            &&& shape is None ==> p.has_shape == 0 && p.width == 0 && p.height == 0 && p.row_bytes
                == 0 && p.kind == 0
            &&& shape matches Some(s) ==> p.width == s.width && p.height == s.height && p.row_bytes
                == s.pitch && (s.kind is Color ==> p.kind == 1) && (s.kind is MaskedColor ==> p.kind
                == 2) && (s.kind is Monochrome ==> p.kind == 3)
        }),
{
}

/// An image that holds anything has a texture: of its own size, or, for a pair of masks,
/// as wide as a row has bytes and twice as high. One that holds nothing has none.
pub proof fn images_have_textures(shape: RemoteCursorShapeView)
    ensures
        shape.width == 0 || shape.height == 0 || shape.data.len() == 0 <==> texture_of(
            shape,
        ) is None,
        texture_of(shape) matches Some(CursorTexture::Color { width, height, bytes_per_row })
            ==> !(shape.kind is Monochrome) && width == shape.width && height == shape.height
            && bytes_per_row == shape.pitch,
        texture_of(shape) matches Some(CursorTexture::Mono { width, height, bytes_per_row })
            ==> shape.kind is Monochrome && width == shape.pitch && bytes_per_row == shape.pitch && (
        shape.height < 0x8000_0000 ==> height == 2 * shape.height) && (shape.height >= 0x8000_0000
            ==> height == 0xffff_ffff),
{
}

/// A frame without a cursor, or whose cursor has no image, drops the textures; a cursor
/// with another image than the one at hand gets that image's texture, and the image is
/// then at hand.
pub proof fn textures_follow_the_cursor(
    at_hand: Option<u64>,
    snapshot: CursorSnapshot,
    frame: FrameInfo,
)
    ensures
        ({
            let (step, params, after) = cursor_of(at_hand, None, frame);
            &&& step == TextureStep::Drop && after is None
            &&& params.visible == 0 && params.has_shape == 0
            &&& params.origin_x == 0 && params.origin_y == 0
            &&& params.width == 0 && params.height == 0 && params.row_bytes == 0 && params.kind == 0
            &&& params.frame_width == frame.width && params.frame_height == frame.height
        }),
        ({
            let (step, params, after) = cursor_of(at_hand, Some(snapshot), frame);
            &&& params == cursor_params(snapshot.state, shape_of(snapshot), frame)
            &&& snapshot.shape is None ==> step == TextureStep::Drop && after is None
            &&& snapshot.shape matches Some(shape) ==> {
                &&& after == Some((*shape)@.generation)
                &&& at_hand == Some((*shape)@.generation) ==> step == TextureStep::Keep
                &&& at_hand != Some((*shape)@.generation) && texture_of((*shape)@) is None ==> step
                    == TextureStep::Drop
                &&& at_hand != Some((*shape)@.generation) ==> (texture_of((*shape)@) matches Some(
                    texture,
                ) ==> step == TextureStep::Make(texture))
            }
        }),
{
}

} // verus!
