//! Wayland screen capture via `ext-image-copy-capture-v1`.
//!
//! Capture runs in shared memory or in DMA-BUFs. A `CaptureSession` is told what
//! the compositor said and what came of its own requests, and says what to
//! request next.

use crate::streamd_server::capture::formats::{
    dmabuf_choice, dmabuf_device, dmabuf_modifiers, maybe_update_dmabuf_format,
    maybe_update_shm_format, parse_dmabuf_device, parse_dmabuf_modifiers, shm_choice, ByteOrder,
    CaptureMode, DmabufFormatSelection, DmabufPixelFormat, ShmPixelFormat, DRM_FORMAT_MOD_LINEAR,
};
use crate::text::{
    before, begins_with, is_before, order_of_texts_is_total, order_of_texts_is_transitive,
    push_signed, signed, starts_with,
};
use vstd::prelude::*;
use vstd::string::StringExecFns;

verus! {

// ---------------------------------------------------------------------------
// Buffers
// ---------------------------------------------------------------------------

/// Why capture cannot go on.
#[derive(Debug)]
pub enum CaptureError {
    NoShmFormat,
    InvalidSize,
    ShmStrideOverflow,
    ShmSizeOverflow,
    ShmTooLarge,
    ShmEmpty,
    NoDmabufGlobal,
    NoDmabufDevice,
    NoDmabufFormat,
    ReadyWithoutShmBuffer,
    ReadyWithoutDmabuf,
    ImportRejected,
    PlaneCount(i32),
    /// A request to the system failed, with this message.
    Failed(String),
}

impl CaptureError {
    pub open spec fn text(self) -> Seq<char> {
        match self {
            CaptureError::NoShmFormat =>
                "compositor did not advertise an SHM format supported by streamd"@,
            CaptureError::InvalidSize => "compositor reported an invalid capture size"@,
            CaptureError::ShmStrideOverflow => "SHM stride overflow for capture buffer"@,
            CaptureError::ShmSizeOverflow => "SHM size overflow for capture buffer"@,
            CaptureError::ShmTooLarge => "SHM buffer too large for wl_shm"@,
            CaptureError::ShmEmpty => "cannot allocate a zero-sized SHM buffer"@,
            CaptureError::NoDmabufGlobal =>
                "linux-dmabuf global is unavailable for DMA-BUF capture"@,
            CaptureError::NoDmabufDevice => "compositor did not advertise a DMA-BUF device"@,
            CaptureError::NoDmabufFormat =>
                "compositor did not advertise a supported DMA-BUF format/modifier"@,
            CaptureError::ReadyWithoutShmBuffer =>
                "frame became ready before a SHM buffer was available"@,
            CaptureError::ReadyWithoutDmabuf =>
                "frame became ready before a DMA-BUF was available"@,
            CaptureError::ImportRejected =>
                "compositor rejected the client DMA-BUF buffer import"@,
            CaptureError::PlaneCount(count) =>
                "only single-plane DMA-BUF buffers are supported, got "@ + signed(count as int),
            CaptureError::Failed(message) => message@,
        }
    }

    pub fn message(&self) -> (r: String)
        ensures
            r@ == self.text(),
    {
        match self {
            CaptureError::NoShmFormat => String::from_str(
                "compositor did not advertise an SHM format supported by streamd",
            ),
            CaptureError::InvalidSize => String::from_str(
                "compositor reported an invalid capture size",
            ),
            CaptureError::ShmStrideOverflow => String::from_str(
                "SHM stride overflow for capture buffer",
            ),
            CaptureError::ShmSizeOverflow => String::from_str(
                "SHM size overflow for capture buffer",
            ),
            CaptureError::ShmTooLarge => String::from_str("SHM buffer too large for wl_shm"),
            CaptureError::ShmEmpty => String::from_str("cannot allocate a zero-sized SHM buffer"),
            CaptureError::NoDmabufGlobal => String::from_str(
                "linux-dmabuf global is unavailable for DMA-BUF capture",
            ),
            CaptureError::NoDmabufDevice => String::from_str(
                "compositor did not advertise a DMA-BUF device",
            ),
            CaptureError::NoDmabufFormat => String::from_str(
                "compositor did not advertise a supported DMA-BUF format/modifier",
            ),
            CaptureError::ReadyWithoutShmBuffer => String::from_str(
                "frame became ready before a SHM buffer was available",
            ),
            CaptureError::ReadyWithoutDmabuf => String::from_str(
                "frame became ready before a DMA-BUF was available",
            ),
            CaptureError::ImportRejected => String::from_str(
                "compositor rejected the client DMA-BUF buffer import",
            ),
            CaptureError::PlaneCount(count) => {
                let mut text = String::from_str(
                    "only single-plane DMA-BUF buffers are supported, got ",
                );
                push_signed(&mut text, *count);
                text
            },
            CaptureError::Failed(message) => message.clone(),
        }
    }
}

/// A buffer in shared memory.
#[derive(Clone, Copy, Debug, PartialEq, Eq, Structural)]
pub struct ShmLayout {
    pub width: u32,
    pub height: u32,
    /// Bytes from one row to the next.
    pub stride: u32,
    pub size: u32,
    pub format: ShmPixelFormat,
}

/// The buffer for frames of this size, of four bytes a pixel. `wl_shm` takes
/// sizes up to 2^31 - 1.
pub open spec fn shm_layout(width: u32, height: u32, format: ShmPixelFormat) -> Result<
    ShmLayout,
    CaptureError,
> {
    if 4 * width > u32::MAX {
        Err(CaptureError::ShmStrideOverflow)
    } else if 4 * width * height > u32::MAX {
        Err(CaptureError::ShmSizeOverflow)
    } else if 4 * width * height > i32::MAX {
        Err(CaptureError::ShmTooLarge)
    } else if width == 0 || height == 0 {
        Err(CaptureError::ShmEmpty)
    } else {
        Ok(
            ShmLayout {
                width,
                height,
                stride: (4 * width) as u32,
                size: (4 * width * height) as u32,
                format,
            },
        )
    }
}

pub fn plan_shm_buffer(width: u32, height: u32, format: ShmPixelFormat) -> (r: Result<
    ShmLayout,
    CaptureError,
>)
    ensures
        r == shm_layout(width, height, format),
{
    if width > u32::MAX / 4 {
        return Err(CaptureError::ShmStrideOverflow);
    }
    let stride: u32 = width * 4;
    proof {
        assert(stride * height <= u32::MAX * u32::MAX) by (nonlinear_arith)
            requires
                stride <= u32::MAX,
                height <= u32::MAX,
        ;
        assert(stride == 0 ==> stride * height == 0) by (nonlinear_arith);
        assert(height == 0 ==> stride * height == 0) by (nonlinear_arith);
    }
    let size: u64 = stride as u64 * height as u64;
    if size > u32::MAX as u64 {
        return Err(CaptureError::ShmSizeOverflow);
    }
    if size > i32::MAX as u64 {
        return Err(CaptureError::ShmTooLarge);
    }
    if width == 0 || height == 0 {
        return Err(CaptureError::ShmEmpty);
    }
    Ok(ShmLayout { width, height, stride, size: size as u32, format })
}

/// A buffer in a DMA-BUF.
#[derive(Clone, Copy, Debug, PartialEq, Eq, Structural)]
pub struct DmabufLayout {
    pub id: u64,
    pub width: u32,
    pub height: u32,
    pub pitch: u32,
    pub offset: u32,
    pub allocation_size: u64,
    pub format: DmabufPixelFormat,
    pub modifier: u64,
}

/// What the allocator tells of a buffer.
#[derive(Clone, Copy, Debug, PartialEq, Eq, Structural)]
pub struct AllocatedBo {
    pub plane_count: i32,
    pub pitch: u32,
    pub offset: u32,
    pub modifier: u64,
}

/// The allocator is to be asked once more, without modifiers: it had no buffer
/// with the modifier, which only asks for linear rows.
pub fn retry_without_modifiers(allocated: bool, modifier: u64) -> (r: bool)
    ensures
        r == (!allocated && modifier == DRM_FORMAT_MOD_LINEAR),
{
    !allocated && modifier == DRM_FORMAT_MOD_LINEAR
}

/// The buffer that was allocated: its single plane holds `height` rows behind the
/// offset.
pub open spec fn dmabuf_layout(
    id: u64,
    width: u32,
    height: u32,
    format: DmabufPixelFormat,
    bo: AllocatedBo,
) -> Result<DmabufLayout, CaptureError> {
    if bo.plane_count != 1 {
        Err(CaptureError::PlaneCount(bo.plane_count))
    } else {
        Ok(
            DmabufLayout {
                id,
                width,
                height,
                pitch: bo.pitch,
                offset: bo.offset,
                allocation_size: (bo.offset + bo.pitch * height) as u64,
                format,
                modifier: bo.modifier,
            },
        )
    }
}

pub fn describe_dmabuf(
    id: u64,
    width: u32,
    height: u32,
    format: DmabufPixelFormat,
    bo: AllocatedBo,
) -> (r: Result<DmabufLayout, CaptureError>)
    ensures
        r == dmabuf_layout(id, width, height, format, bo),
        r matches Ok(layout) ==> layout.allocation_size == bo.offset + bo.pitch * height,
{
    if bo.plane_count != 1 {
        return Err(CaptureError::PlaneCount(bo.plane_count));
    }
    let pitch = bo.pitch;
    assert(pitch * height <= u32::MAX * u32::MAX) by (nonlinear_arith)
        requires
            pitch <= u32::MAX,
            height <= u32::MAX,
    ;
    let allocation_size: u64 = bo.offset as u64 + pitch as u64 * height as u64;
    Ok(
        DmabufLayout {
            id,
            width,
            height,
            pitch,
            offset: bo.offset,
            allocation_size,
            format,
            modifier: bo.modifier,
        },
    )
}

/// The two halves in which a modifier is sent: the high one, then the low one.
pub fn modifier_words(modifier: u64) -> (r: (u32, u32))
    ensures
        r.0 * 0x1_0000_0000 + r.1 == modifier,
{
    assert(modifier >> 32 == modifier / 0x1_0000_0000) by (bit_vector);
    ((modifier >> 32) as u32, (modifier % 0x1_0000_0000) as u32)
}

// ---------------------------------------------------------------------------
// DRM nodes
// ---------------------------------------------------------------------------

/// A file under `/dev/dri`.
#[derive(Debug)]
pub struct DriEntry {
    pub name: String,
    pub device: u64,
}

/// Whether a file under `/dev/dri` is a node of a device, by its name.
pub fn is_drm_node(name: &str) -> (r: bool)
    ensures
        r == (begins_with(name@, "renderD"@) || begins_with(name@, "card"@)),
{
    starts_with(name, "renderD") || starts_with(name, "card")
}

/// A node of this device that renders.
pub open spec fn is_render_node(entry: DriEntry, device: u64) -> bool {
    begins_with(entry.name@, "renderD"@) && entry.device == device
}

/// A primary node of this device.
pub open spec fn is_primary_node(entry: DriEntry, device: u64) -> bool {
    !begins_with(entry.name@, "renderD"@) && begins_with(entry.name@, "card"@) && entry.device
        == device
}

/// The `at`th entry is of this kind, and none of that kind comes before it by
/// name.
pub open spec fn is_first_of(entries: Seq<DriEntry>, at: int, kind: spec_fn(DriEntry) -> bool) -> bool {
    &&& 0 <= at < entries.len()
    &&& kind(entries[at])
    &&& forall|i: int|
        0 <= i < entries.len() && kind(#[trigger] entries[i]) ==> !before(
            entries[i].name@,
            entries[at].name@,
        )
}

/// The node to open for a device: the first render node by name or, where there
/// is none, the first primary node.
pub fn pick_drm_node(entries: &Vec<DriEntry>, device: u64) -> (r: Option<usize>)
    ensures
        match r {
            Some(at) => is_first_of(entries@, at as int, |e: DriEntry| is_render_node(e, device))
                || ((forall|i: int|
                0 <= i < entries@.len() ==> !is_render_node(#[trigger] entries@[i], device))
                && is_first_of(entries@, at as int, |e: DriEntry| is_primary_node(e, device))),
            None => forall|i: int|
                0 <= i < entries@.len() ==> !is_render_node(#[trigger] entries@[i], device)
                    && !is_primary_node(entries@[i], device),
        },
{
    let mut render: Option<usize> = None;
    let mut primary: Option<usize> = None;
    let ghost renders = |e: DriEntry| is_render_node(e, device);
    let ghost shows = |e: DriEntry| is_primary_node(e, device);
    let mut i: usize = 0;
    while i < entries.len()
        invariant
            i <= entries@.len(),
            renders == (|e: DriEntry| is_render_node(e, device)),
            shows == (|e: DriEntry| is_primary_node(e, device)),
            match render {
                Some(at) => at < i && is_first_of(entries@.take(i as int), at as int, renders),
                None => forall|j: int|
                    0 <= j < i ==> !is_render_node(#[trigger] entries@[j], device),
            },
            match primary {
                Some(at) => at < i && is_first_of(entries@.take(i as int), at as int, shows),
                None => forall|j: int|
                    0 <= j < i ==> !is_primary_node(#[trigger] entries@[j], device),
            },
        decreases entries@.len() - i,
    {
        let entry = &entries[i];
        let is_render = starts_with(entry.name.as_str(), "renderD") && entry.device == device;
        let is_primary = !starts_with(entry.name.as_str(), "renderD") && starts_with(
            entry.name.as_str(),
            "card",
        ) && entry.device == device;
        let ghost was = entries@.take(i as int);
        let ghost now = entries@.take(i as int + 1);
        assert(now =~= was.push(entries@[i as int]));
        if is_render {
            let better = match render {
                Some(at) => is_before(entry.name.as_str(), entries[at].name.as_str()),
                None => true,
            };
            proof {
                lemma_first_of_more(entries@, i as int, render, renders);
            }
            if better {
                render = Some(i);
            }
        } else {
            proof {
                lemma_first_of_other(entries@, i as int, render, renders);
            }
        }
        if is_primary {
            let better = match primary {
                Some(at) => is_before(entry.name.as_str(), entries[at].name.as_str()),
                None => true,
            };
            proof {
                lemma_first_of_more(entries@, i as int, primary, shows);
            }
            if better {
                primary = Some(i);
            }
        } else {
            proof {
                lemma_first_of_other(entries@, i as int, primary, shows);
            }
        }
        i = i + 1;
    }
    assert(entries@.take(entries@.len() as int) =~= entries@);
    match render {
        Some(at) => Some(at),
        None => primary,
    }
}

proof fn lemma_first_of_more(
    entries: Seq<DriEntry>,
    i: int,
    best: Option<usize>,
    kind: spec_fn(DriEntry) -> bool,
)
    requires
        0 <= i < entries.len(),
        kind(entries[i]),
        match best {
            Some(at) => at < i && is_first_of(entries.take(i), at as int, kind),
            None => forall|j: int| 0 <= j < i ==> !kind(#[trigger] entries[j]),
        },
    ensures
        match best {
            Some(at) => if before(entries[i].name@, entries[at as int].name@) {
                is_first_of(entries.take(i + 1), i, kind)
            } else {
                is_first_of(entries.take(i + 1), at as int, kind)
            },
            None => is_first_of(entries.take(i + 1), i, kind),
        },
{
    let was = entries.take(i);
    let now = entries.take(i + 1);
    order_of_texts_is_total(entries[i].name@, entries[i].name@);
    match best {
        Some(at) => {
            let a = entries[at as int].name@;
            let b = entries[i].name@;
            if before(b, a) {
                assert forall|j: int| 0 <= j < now.len() && kind(#[trigger] now[j]) implies !before(
                    now[j].name@,
                    b,
                ) by {
                    if j < i {
                        assert(was[j] == now[j]);
                        if before(now[j].name@, b) {
                            order_of_texts_is_transitive(now[j].name@, b, a);
                        }
                    }
                }
            } else {
                assert forall|j: int| 0 <= j < now.len() && kind(#[trigger] now[j]) implies !before(
                    now[j].name@,
                    a,
                ) by {
                    if j < i {
                        assert(was[j] == now[j]);
                    }
                }
            }
        },
        None => {
            assert forall|j: int| 0 <= j < now.len() && kind(#[trigger] now[j]) implies !before(
                now[j].name@,
                entries[i].name@,
            ) by {
                if j < i {
                    assert(now[j] == entries[j]);
                }
            }
        },
    }
}

proof fn lemma_first_of_other(
    entries: Seq<DriEntry>,
    i: int,
    best: Option<usize>,
    kind: spec_fn(DriEntry) -> bool,
)
    requires
        0 <= i < entries.len(),
        !kind(entries[i]),
        match best {
            Some(at) => at < i && is_first_of(entries.take(i), at as int, kind),
            None => true,
        },
    ensures
        match best {
            Some(at) => is_first_of(entries.take(i + 1), at as int, kind),
            None => true,
        },
{
    match best {
        Some(at) => {
            let was = entries.take(i);
            let now = entries.take(i + 1);
            assert forall|j: int| 0 <= j < now.len() && kind(#[trigger] now[j]) implies !before(
                now[j].name@,
                now[at as int].name@,
            ) by {
                assert(j < i);
                assert(was[j] == now[j]);
            }
        },
        None => {},
    }
}

// ---------------------------------------------------------------------------
// The capture session
// ---------------------------------------------------------------------------

/// Why a frame could not be captured.
#[derive(Clone, Copy, Debug, PartialEq, Eq, Structural)]
pub enum FailureReason {
    Unknown,
    BufferConstraints,
    Stopped,
    Other(u32),
}

/// What happened to a capture session.
#[derive(Debug)]
pub enum SessionEvent {
    BufferSize { width: u32, height: u32 },
    /// A format that frames in shared memory can have, by its `wl_shm` code.
    ShmFormat(u32),
    DmabufDevice(Vec<u8>),
    DmabufFormat { format: u32, modifiers: Vec<u8> },
    /// All constraints on buffers have been told.
    Done,
    /// The compositor stopped the session.
    Stopped,
    PresentationTime { tv_sec_hi: u32, tv_sec_lo: u32, tv_nsec: u32 },
    /// The frame has been captured.
    Ready,
    /// The frame could not be captured.
    Failed(FailureReason),
    /// The compositor does not take the DMA-BUF.
    ImportFailed,
    /// The buffer in shared memory was allocated, or could not be.
    ShmAllocated(Result<ShmLayout, CaptureError>),
    /// The DMA-BUF was allocated, or could not be.
    DmabufAllocated(Result<DmabufLayout, CaptureError>),
    /// The frame was handed on, or could not be.
    Sent(Result<(), CaptureError>),
}

/// What is to be requested next.
#[derive(Clone, Copy, Debug, PartialEq, Eq, Structural)]
pub enum Request {
    Nothing,
    AllocateShm(ShmLayout),
    AllocateDmabuf { width: u32, height: u32, selection: DmabufFormatSelection, device: u64 },
    /// Capture a frame of this size into the buffer.
    StartCapture { width: u32, height: u32 },
    /// Hand the frame on.
    SendShm { shm: ShmLayout, timestamp_us: u64 },
    SendDmabuf { dmabuf: DmabufLayout, timestamp_us: u64 },
}

#[verifier::ext_equal]
pub struct SessionView {
    pub mode: CaptureMode,
    /// The compositor takes DMA-BUFs.
    pub has_dmabuf: bool,
    pub width: u32,
    pub height: u32,
    pub shm_format: Option<ShmPixelFormat>,
    pub dmabuf_device: Option<u64>,
    pub dmabuf_format: Option<DmabufFormatSelection>,
    pub configured: bool,
    pub constraints_dirty: bool,
    pub shm_buf: Option<ShmLayout>,
    pub dmabuf_buf: Option<DmabufLayout>,
    /// A frame is being captured.
    pub inflight: bool,
    pub timestamp_us: Option<u64>,
    pub frames_emitted: u64,
    pub stopped: bool,
    /// The first error, by its text.
    pub error: Option<Seq<char>>,
}

/// The time that a frame is presented, in microseconds.
pub open spec fn presented_us(tv_sec_hi: u32, tv_sec_lo: u32, tv_nsec: u32) -> u64 {
    let us = (tv_sec_hi * 0x1_0000_0000 + tv_sec_lo) * 1_000_000 + tv_nsec as int / 1_000;
    if us > u64::MAX {
        u64::MAX
    } else {
        us as u64
    }
}

/// The time that a frame is presented, in microseconds, capped at what 64 bits
/// hold.
pub fn presentation_time_us(tv_sec_hi: u32, tv_sec_lo: u32, tv_nsec: u32) -> (r: u64)
    ensures
        r == presented_us(tv_sec_hi, tv_sec_lo, tv_nsec),
{
    let seconds: u64 = tv_sec_hi as u64 * 0x1_0000_0000 + tv_sec_lo as u64;
    let us: u128 = seconds as u128 * 1_000_000 + (tv_nsec / 1_000) as u128;
    if us > u64::MAX as u128 {
        u64::MAX
    } else {
        us as u64
    }
}

/// A presentation time is told to the microsecond: the last whole one that is not after
/// the time that the compositor told, as long as 64 bits hold it. A time beyond that is
/// told as the last one that they hold.
pub proof fn presentation_times_are_exact(tv_sec_hi: u32, tv_sec_lo: u32, tv_nsec: u32)
    ensures
        ({
            let ns = (tv_sec_hi * 0x1_0000_0000 + tv_sec_lo) * 1_000_000_000 + tv_nsec;
            let us = presented_us(tv_sec_hi, tv_sec_lo, tv_nsec);
            &&& us * 1_000 <= ns
            &&& us < u64::MAX ==> ns < (us + 1) * 1_000
        }),
{
}

/// A frame that is presented later never gets an earlier time.
pub proof fn later_frames_have_later_times(
    hi: u32,
    lo: u32,
    nsec: u32,
    later_hi: u32,
    later_lo: u32,
    later_nsec: u32,
)
    requires
        (hi * 0x1_0000_0000 + lo) * 1_000_000_000 + nsec <= (later_hi * 0x1_0000_0000 + later_lo)
            * 1_000_000_000 + later_nsec,
    ensures
        presented_us(hi, lo, nsec) <= presented_us(later_hi, later_lo, later_nsec),
{
    presentation_times_are_exact(hi, lo, nsec);
    presentation_times_are_exact(later_hi, later_lo, later_nsec);
}

impl SessionView {
    pub open spec fn initial(mode: CaptureMode, has_dmabuf: bool) -> SessionView {
        SessionView {
            mode,
            has_dmabuf,
            width: 0,
            height: 0,
            shm_format: None,
            dmabuf_device: None,
            dmabuf_format: None,
            configured: false,
            constraints_dirty: false,
            shm_buf: None,
            dmabuf_buf: None,
            inflight: false,
            timestamp_us: None,
            frames_emitted: 0,
            stopped: false,
            error: None,
        }
    }

    /// The first error is kept.
    pub open spec fn failed(self, error: CaptureError) -> (SessionView, Request) {
        (
            SessionView {
                error: match self.error {
                    Some(first) => Some(first),
                    None => Some(error.text()),
                },
                ..self
            },
            Request::Nothing,
        )
    }

    /// A frame is captured.
    pub open spec fn started(self, width: u32, height: u32) -> (SessionView, Request) {
        (
            SessionView { constraints_dirty: false, timestamp_us: None, inflight: true, ..self },
            Request::StartCapture { width, height },
        )
    }

    /// The buffer in shared memory can take the next frame.
    pub open spec fn shm_fits(self, format: ShmPixelFormat) -> bool {
        self.shm_buf matches Some(b) && b.width == self.width && b.height == self.height && b.format
            == format
    }

    /// The DMA-BUF can take the next frame.
    pub open spec fn dmabuf_fits(self, selection: DmabufFormatSelection) -> bool {
        self.dmabuf_buf matches Some(b) && b.width == self.width && b.height == self.height
            && b.format == selection.format && b.modifier == selection.modifier
    }

    /// The next frame is captured, if one can be: in the buffer at hand where it
    /// fits, else in a new one.
    pub open spec fn next_frame(self) -> (SessionView, Request) {
        if self.stopped || self.inflight || !self.configured {
            (self, Request::Nothing)
        } else {
            match self.mode {
                CaptureMode::Shm => match self.shm_format {
                    None => self.failed(CaptureError::NoShmFormat),
                    Some(format) => if self.width == 0 || self.height == 0 {
                        self.failed(CaptureError::InvalidSize)
                    } else if self.shm_fits(format) {
                        self.started(self.width, self.height)
                    } else {
                        match shm_layout(self.width, self.height, format) {
                            Ok(layout) => (self, Request::AllocateShm(layout)),
                            Err(error) => self.failed(error),
                        }
                    },
                },
                CaptureMode::DmaBuf => if !self.has_dmabuf {
                    self.failed(CaptureError::NoDmabufGlobal)
                } else {
                    match (self.dmabuf_device, self.dmabuf_format) {
                        (None, _) => self.failed(CaptureError::NoDmabufDevice),
                        (Some(_), None) => self.failed(CaptureError::NoDmabufFormat),
                        (Some(device), Some(selection)) => if self.width == 0 || self.height == 0 {
                            self.failed(CaptureError::InvalidSize)
                        } else if self.dmabuf_fits(selection) {
                            self.started(self.width, self.height)
                        } else {
                            (
                                self,
                                Request::AllocateDmabuf {
                                    width: self.width,
                                    height: self.height,
                                    selection,
                                    device,
                                },
                            )
                        },
                    }
                },
            }
        }
    }

    /// The frame has been captured and is handed on.
    pub open spec fn frame_ready(self) -> (SessionView, Request) {
        let timestamp_us = match self.timestamp_us {
            Some(us) => us,
            None => 0,
        };
        let s = SessionView { inflight: false, timestamp_us: None, ..self };
        match self.mode {
            CaptureMode::Shm => match self.shm_buf {
                Some(layout) => (s, Request::SendShm { shm: layout, timestamp_us }),
                None => s.failed(CaptureError::ReadyWithoutShmBuffer),
            },
            CaptureMode::DmaBuf => match self.dmabuf_buf {
                Some(layout) => (s, Request::SendDmabuf { dmabuf: layout, timestamp_us }),
                None => s.failed(CaptureError::ReadyWithoutDmabuf),
            },
        }
    }

    /// The frame could not be captured.
    pub open spec fn frame_failed(self, reason: FailureReason) -> (SessionView, Request) {
        let s = SessionView { inflight: false, timestamp_us: None, ..self };
        match reason {
            FailureReason::BufferConstraints => (SessionView {
                constraints_dirty: true,
                shm_buf: None,
                dmabuf_buf: None,
                ..s
            }).next_frame(),
            FailureReason::Stopped => (SessionView { stopped: true, ..s }, Request::Nothing),
            _ => s.next_frame(),
        }
    }

    /// The session after an event, and what to request next.
    pub open spec fn step(self, event: SessionEvent, order: ByteOrder) -> (SessionView, Request) {
        match event {
            SessionEvent::BufferSize { width, height } => (
                SessionView { width, height, constraints_dirty: true, ..self },
                Request::Nothing,
            ),
            SessionEvent::ShmFormat(code) => (
                SessionView {
                    shm_format: shm_choice(self.shm_format, code),
                    constraints_dirty: true,
                    ..self
                },
                Request::Nothing,
            ),
            SessionEvent::DmabufDevice(device) => (
                SessionView {
                    dmabuf_device: dmabuf_device(device@, order),
                    constraints_dirty: true,
                    ..self
                },
                Request::Nothing,
            ),
            SessionEvent::DmabufFormat { format, modifiers } => (
                SessionView {
                    dmabuf_format: dmabuf_choice(
                        self.dmabuf_format,
                        format,
                        dmabuf_modifiers(modifiers@, order),
                    ),
                    constraints_dirty: true,
                    ..self
                },
                Request::Nothing,
            ),
            SessionEvent::Done => (SessionView { configured: true, ..self }).next_frame(),
            SessionEvent::Stopped => (SessionView { stopped: true, ..self }, Request::Nothing),
            SessionEvent::PresentationTime { tv_sec_hi, tv_sec_lo, tv_nsec } => (
                SessionView {
                    timestamp_us: Some(presented_us(tv_sec_hi, tv_sec_lo, tv_nsec)),
                    ..self
                },
                Request::Nothing,
            ),
            SessionEvent::Ready => self.frame_ready(),
            SessionEvent::Failed(reason) => self.frame_failed(reason),
            SessionEvent::ImportFailed => self.failed(CaptureError::ImportRejected),
            SessionEvent::ShmAllocated(result) => match result {
                Ok(layout) => (SessionView { shm_buf: Some(layout), ..self }).started(
                    layout.width,
                    layout.height,
                ),
                Err(error) => self.failed(error),
            },
            SessionEvent::DmabufAllocated(result) => match result {
                Ok(layout) => (SessionView { dmabuf_buf: Some(layout), ..self }).started(
                    layout.width,
                    layout.height,
                ),
                Err(error) => self.failed(error),
            },
            SessionEvent::Sent(result) => match result {
                Ok(_) => (SessionView {
                    frames_emitted: if self.frames_emitted < u64::MAX {
                        (self.frames_emitted + 1) as u64
                    } else {
                        self.frames_emitted
                    },
                    ..self
                }).next_frame(),
                Err(error) => self.failed(error),
            },
        }
    }
}

/// How waiting for a frame stands.
#[derive(Debug)]
pub enum PumpStep {
    /// Wait on.
    Continue,
    Delivered,
    Failed(String),
}

/// A running capture session.
#[derive(Debug)]
pub struct CaptureSession {
    mode: CaptureMode,
    has_dmabuf: bool,
    buf_width: u32,
    buf_height: u32,
    shm_format: Option<ShmPixelFormat>,
    dmabuf_device: Option<u64>,
    dmabuf_format: Option<DmabufFormatSelection>,
    session_configured: bool,
    constraints_dirty: bool,
    shm_buf: Option<ShmLayout>,
    dmabuf_buf: Option<DmabufLayout>,
    frame_inflight: bool,
    pending_timestamp_us: Option<u64>,
    frames_emitted: u64,
    stopped: bool,
    fatal_error: Option<CaptureError>,
}

impl View for CaptureSession {
    type V = SessionView;

    closed spec fn view(&self) -> SessionView {
        SessionView {
            mode: self.mode,
            has_dmabuf: self.has_dmabuf,
            width: self.buf_width,
            height: self.buf_height,
            shm_format: self.shm_format,
            dmabuf_device: self.dmabuf_device,
            dmabuf_format: self.dmabuf_format,
            configured: self.session_configured,
            constraints_dirty: self.constraints_dirty,
            shm_buf: self.shm_buf,
            dmabuf_buf: self.dmabuf_buf,
            inflight: self.frame_inflight,
            timestamp_us: self.pending_timestamp_us,
            frames_emitted: self.frames_emitted,
            stopped: self.stopped,
            error: match self.fatal_error {
                Some(error) => Some(error.text()),
                None => None,
            },
        }
    }
}

impl CaptureSession {
    pub fn new(mode: CaptureMode, has_dmabuf: bool) -> (r: CaptureSession)
        ensures
            r@ == SessionView::initial(mode, has_dmabuf),
    {
        CaptureSession {
            mode,
            has_dmabuf,
            buf_width: 0,
            buf_height: 0,
            shm_format: None,
            dmabuf_device: None,
            dmabuf_format: None,
            session_configured: false,
            constraints_dirty: false,
            shm_buf: None,
            dmabuf_buf: None,
            frame_inflight: false,
            pending_timestamp_us: None,
            frames_emitted: 0,
            stopped: false,
            fatal_error: None,
        }
    }

    pub fn frames_emitted(&self) -> (r: u64)
        ensures
            r == self@.frames_emitted,
    {
        self.frames_emitted
    }

    fn set_fatal_error(&mut self, error: CaptureError) -> (r: Request)
        ensures
            (final(self)@, r) == old(self)@.failed(error),
    {
        if self.fatal_error.is_none() {
            self.fatal_error = Some(error);
        }
        Request::Nothing
    }

    fn start_capture(&mut self, width: u32, height: u32) -> (r: Request)
        ensures
            (final(self)@, r) == old(self)@.started(width, height),
    {
        self.constraints_dirty = false;
        self.pending_timestamp_us = None;
        self.frame_inflight = true;
        Request::StartCapture { width, height }
    }

    fn maybe_start_capture(&mut self) -> (r: Request)
        ensures
            (final(self)@, r) == old(self)@.next_frame(),
    {
        if self.stopped || self.frame_inflight || !self.session_configured {
            return Request::Nothing;
        }
        match self.mode {
            CaptureMode::Shm => self.ensure_shm_buffer(),
            CaptureMode::DmaBuf => self.ensure_dmabuf_buffer(),
        }
    }

    fn ensure_shm_buffer(&mut self) -> (r: Request)
        requires
            old(self)@.mode is Shm,
            !old(self)@.stopped && !old(self)@.inflight && old(self)@.configured,
        ensures
            (final(self)@, r) == old(self)@.next_frame(),
    {
        let format = match self.shm_format {
            Some(format) => format,
            None => {
                return self.set_fatal_error(CaptureError::NoShmFormat);
            },
        };
        if self.buf_width == 0 || self.buf_height == 0 {
            return self.set_fatal_error(CaptureError::InvalidSize);
        }
        let recreate = match self.shm_buf {
            None => true,
            Some(b) => b.width != self.buf_width || b.height != self.buf_height || b.format
                != format,
        };
        if recreate {
            match plan_shm_buffer(self.buf_width, self.buf_height, format) {
                Ok(layout) => Request::AllocateShm(layout),
                Err(error) => self.set_fatal_error(error),
            }
        } else {
            self.start_capture(self.buf_width, self.buf_height)
        }
    }

    fn ensure_dmabuf_buffer(&mut self) -> (r: Request)
        requires
            old(self)@.mode is DmaBuf,
            !old(self)@.stopped && !old(self)@.inflight && old(self)@.configured,
        ensures
            (final(self)@, r) == old(self)@.next_frame(),
    {
        if !self.has_dmabuf {
            return self.set_fatal_error(CaptureError::NoDmabufGlobal);
        }
        let device = match self.dmabuf_device {
            Some(device) => device,
            None => {
                return self.set_fatal_error(CaptureError::NoDmabufDevice);
            },
        };
        let selection = match self.dmabuf_format {
            Some(selection) => selection,
            None => {
                return self.set_fatal_error(CaptureError::NoDmabufFormat);
            },
        };
        if self.buf_width == 0 || self.buf_height == 0 {
            return self.set_fatal_error(CaptureError::InvalidSize);
        }
        let recreate = match self.dmabuf_buf {
            None => true,
            Some(b) => b.width != self.buf_width || b.height != self.buf_height || b.format
                != selection.format || b.modifier != selection.modifier,
        };
        if recreate {
            Request::AllocateDmabuf {
                width: self.buf_width,
                height: self.buf_height,
                selection,
                device,
            }
        } else {
            self.start_capture(self.buf_width, self.buf_height)
        }
    }

    fn handle_frame_ready(&mut self) -> (r: Request)
        ensures
            (final(self)@, r) == old(self)@.frame_ready(),
    {
        self.frame_inflight = false;
        let timestamp_us: u64 = match self.pending_timestamp_us {
            Some(us) => us,
            None => 0,
        };
        self.pending_timestamp_us = None;
        match self.mode {
            CaptureMode::Shm => match self.shm_buf {
                Some(layout) => Request::SendShm { shm: layout, timestamp_us },
                None => self.set_fatal_error(CaptureError::ReadyWithoutShmBuffer),
            },
            CaptureMode::DmaBuf => match self.dmabuf_buf {
                Some(layout) => Request::SendDmabuf { dmabuf: layout, timestamp_us },
                None => self.set_fatal_error(CaptureError::ReadyWithoutDmabuf),
            },
        }
    }

    fn handle_frame_failed(&mut self, reason: FailureReason) -> (r: Request)
        ensures
            (final(self)@, r) == old(self)@.frame_failed(reason),
    {
        self.frame_inflight = false;
        self.pending_timestamp_us = None;
        match reason {
            FailureReason::BufferConstraints => {
                self.constraints_dirty = true;
                self.shm_buf = None;
                self.dmabuf_buf = None;
            },
            FailureReason::Stopped => {
                self.stopped = true;
                return Request::Nothing;
            },
            _ => {},
        }
        self.maybe_start_capture()
    }

    /// Takes the next event. `order` is the machine's byte order.
    pub fn step(&mut self, event: SessionEvent, order: ByteOrder) -> (r: Request)
        ensures
            (final(self)@, r) == old(self)@.step(event, order),
    {
        match event {
            SessionEvent::BufferSize { width, height } => {
                self.buf_width = width;
                self.buf_height = height;
                self.constraints_dirty = true;
                Request::Nothing
            },
            SessionEvent::ShmFormat(code) => {
                self.shm_format = maybe_update_shm_format(self.shm_format, code);
                self.constraints_dirty = true;
                Request::Nothing
            },
            SessionEvent::DmabufDevice(device) => {
                self.dmabuf_device = parse_dmabuf_device(device.as_slice(), order);
                self.constraints_dirty = true;
                Request::Nothing
            },
            SessionEvent::DmabufFormat { format, modifiers } => {
                let parsed = parse_dmabuf_modifiers(modifiers.as_slice(), order);
                self.dmabuf_format = maybe_update_dmabuf_format(self.dmabuf_format, format, &parsed);
                self.constraints_dirty = true;
                Request::Nothing
            },
            SessionEvent::Done => {
                self.session_configured = true;
                self.maybe_start_capture()
            },
            SessionEvent::Stopped => {
                self.stopped = true;
                Request::Nothing
            },
            SessionEvent::PresentationTime { tv_sec_hi, tv_sec_lo, tv_nsec } => {
                self.pending_timestamp_us = Some(
                    presentation_time_us(tv_sec_hi, tv_sec_lo, tv_nsec),
                );
                Request::Nothing
            },
            SessionEvent::Ready => self.handle_frame_ready(),
            SessionEvent::Failed(reason) => self.handle_frame_failed(reason),
            SessionEvent::ImportFailed => self.set_fatal_error(CaptureError::ImportRejected),
            SessionEvent::ShmAllocated(result) => match result {
                Ok(layout) => {
                    self.shm_buf = Some(layout);
                    self.start_capture(layout.width, layout.height)
                },
                Err(error) => self.set_fatal_error(error),
            },
            SessionEvent::DmabufAllocated(result) => match result {
                Ok(layout) => {
                    self.dmabuf_buf = Some(layout);
                    self.start_capture(layout.width, layout.height)
                },
                Err(error) => self.set_fatal_error(error),
            },
            SessionEvent::Sent(result) => match result {
                Ok(_) => {
                    self.frames_emitted = self.frames_emitted.saturating_add(1);
                    self.maybe_start_capture()
                },
                Err(error) => self.set_fatal_error(error),
            },
        }
    }

    /// Tells, between events, whether a frame has been delivered since
    /// `delivered_before` had been. An error is handed out once.
    pub fn pump_step(&mut self, delivered_before: u64) -> (r: PumpStep)
        ensures
            final(self)@ == (SessionView { error: None, ..old(self)@ }),
            match old(self)@.error {
                Some(text) => r matches PumpStep::Failed(message) && message@ == text,
                None => if old(self)@.stopped {
                    r matches PumpStep::Failed(message) && message@
                        == "Wayland capture session stopped"@
                } else if old(self)@.frames_emitted != delivered_before {
                    r is Delivered
                } else {
                    r is Continue
                },
            },
    {
        let error = self.fatal_error.take();
        if let Some(error) = error {
            return PumpStep::Failed(error.message());
        }
        if self.stopped {
            return PumpStep::Failed(String::from_str("Wayland capture session stopped"));
        }
        if self.frames_emitted != delivered_before {
            PumpStep::Delivered
        } else {
            PumpStep::Continue
        }
    }
}

// ---------------------------------------------------------------------------
// Laws
// ---------------------------------------------------------------------------

/// A frame is captured into a buffer of the size that the compositor told, and
/// only when no other frame is being captured, the session has been configured
/// and it has not been stopped.
pub proof fn frames_are_captured_in_turn(s: SessionView)
    ensures
        s.next_frame().1 matches Request::StartCapture { width, height } ==> !s.inflight
            && s.configured && !s.stopped && width == s.width && height == s.height && width > 0
            && height > 0 && s.next_frame().0.inflight,
        s.inflight || s.stopped || !s.configured ==> s.next_frame() == (s, Request::Nothing),
{
}

/// A buffer in shared memory holds a whole frame, row by row.
pub proof fn shm_buffers_hold_a_frame(width: u32, height: u32, format: ShmPixelFormat)
    ensures
        shm_layout(width, height, format) matches Ok(layout) ==> layout.stride == 4 * width
            && layout.size == layout.stride * height && 0 < layout.size <= i32::MAX,
        shm_layout(width, height, format) is Ok <==> width > 0 && height > 0 && 4 * width
            * height <= i32::MAX,
{
    assert(4 * width * height == (4 * width) * height) by (nonlinear_arith);
    assert(width > 0 && height > 0 ==> 4 * width * height >= 4 * width) by (nonlinear_arith);
    assert(width > 0 && height > 0 ==> 4 * width * height > 0) by (nonlinear_arith);
    assert(width == 0 ==> 4 * width * height == 0) by (nonlinear_arith);
    assert(height == 0 ==> 4 * width * height == 0) by (nonlinear_arith);
}

/// A buffer that was allocated for the session is used for the next frame too,
/// as long as the constraints stay the same.
pub proof fn buffers_are_used_again(s: SessionView, order: ByteOrder)
    requires
        s.mode is Shm,
        s.next_frame().1 is AllocateShm,
    ensures
        ({
            let layout = s.next_frame().1->AllocateShm_0;
            let (capturing, started) = s.step(
                SessionEvent::ShmAllocated(Ok::<ShmLayout, CaptureError>(layout)),
                order,
            );
            let (ready, sent) = capturing.step(SessionEvent::Ready, order);
            let (again, next) = ready.step(SessionEvent::Sent(Ok::<(), CaptureError>(())), order);
            started == (Request::StartCapture { width: s.width, height: s.height }) && next
                == started && again.shm_buf == Some(layout) && sent == (Request::SendShm {
                shm: layout,
                timestamp_us: 0,
            })
        }),
{
}

/// After the first error no other takes its place.
pub proof fn first_error_is_kept(s: SessionView, event: SessionEvent, order: ByteOrder)
    requires
        s.error is Some,
    ensures
        s.step(event, order).0.error == s.error,
{
}

/// A session that was stopped stays so, and captures nothing more, but for a frame
/// whose buffer was being allocated.
pub proof fn stopped_sessions_start_nothing(s: SessionView, event: SessionEvent, order: ByteOrder)
    requires
        s.stopped,
        !(event is ShmAllocated) && !(event is DmabufAllocated),
    ensures
        !(s.step(event, order).1 is StartCapture),
        s.step(event, order).0.stopped,
{
}

/// A frame is handed on with the time that the compositor told for it, to the
/// microsecond, and with the buffer that it was captured into; one for which no time was
/// told has the time 0. The next frame does not inherit the time.
pub proof fn frames_are_handed_on_with_their_time(
    s: SessionView,
    tv_sec_hi: u32,
    tv_sec_lo: u32,
    tv_nsec: u32,
    order: ByteOrder,
)
    ensures
        ({
            let ns = (tv_sec_hi * 0x1_0000_0000 + tv_sec_lo) * 1_000_000_000 + tv_nsec;
            let (told, request) = s.step(
                SessionEvent::PresentationTime { tv_sec_hi, tv_sec_lo, tv_nsec },
                order,
            );
            let (ready, sent) = told.step(SessionEvent::Ready, order);
            &&& request is Nothing
            &&& told == (SessionView { timestamp_us: told.timestamp_us, ..s })
            &&& told.timestamp_us matches Some(us) && us * 1_000 <= ns && (us < u64::MAX ==> ns < (
            us + 1) * 1_000)
            &&& s.mode is Shm ==> (s.shm_buf matches Some(layout) ==> sent == (Request::SendShm {
                shm: layout,
                timestamp_us: told.timestamp_us->0,
            }))
            &&& s.mode is DmaBuf ==> (s.dmabuf_buf matches Some(layout) ==> sent == (
            Request::SendDmabuf { dmabuf: layout, timestamp_us: told.timestamp_us->0 }))
            &&& ready.timestamp_us is None && !ready.inflight
        }),
        s.timestamp_us is None ==> (s.step(SessionEvent::Ready, order).1 matches Request::SendShm {
            timestamp_us,
            ..
        } ==> timestamp_us == 0) && (s.step(
            SessionEvent::Ready,
            order,
        ).1 matches Request::SendDmabuf { timestamp_us, .. } ==> timestamp_us == 0),
{
    presentation_times_are_exact(tv_sec_hi, tv_sec_lo, tv_nsec);
}

/// A frame that is ready without a buffer is an error, of the buffer that was looked for.
/// What is ready changes nothing but that the frame is no longer on its way.
pub proof fn ready_frames_have_a_buffer(s: SessionView, order: ByteOrder)
    ensures
        ({
            let (after, request) = s.step(SessionEvent::Ready, order);
            &&& after == (SessionView {
                inflight: false,
                timestamp_us: None,
                error: after.error,
                ..s
            })
            &&& request is Nothing <==> (s.mode is Shm && s.shm_buf is None) || (s.mode is DmaBuf
                && s.dmabuf_buf is None)
            &&& request is SendShm <==> s.mode is Shm && s.shm_buf is Some
            &&& !(request is Nothing) ==> after.error == s.error
            &&& request is Nothing && s.error is None ==> after.error == Some(
                if s.mode is Shm {
                    "frame became ready before a SHM buffer was available"@
                } else {
                    "frame became ready before a DMA-BUF was available"@
                },
            )
        }),
{
}

/// What the compositor told is kept: the size as it is, and that the buffers may no longer
/// fit. Nothing is requested before the compositor is done.
pub proof fn constraints_are_kept(s: SessionView, width: u32, height: u32, code: u32, order: ByteOrder)
    ensures
        s.step(SessionEvent::BufferSize { width, height }, order) == (
            SessionView { width, height, constraints_dirty: true, ..s },
            Request::Nothing,
        ),
        ({
            let (after, request) = s.step(SessionEvent::ShmFormat(code), order);
            request is Nothing && after == (SessionView {
                shm_format: after.shm_format,
                constraints_dirty: true,
                ..s
            })
        }),
        s.step(SessionEvent::Stopped, order) == (
            SessionView { stopped: true, ..s },
            Request::Nothing,
        ),
        s.step(SessionEvent::Done, order) == (SessionView { configured: true, ..s }).next_frame(),
{
}

/// The session may capture its next frame.
pub open spec fn may_capture(s: SessionView) -> bool {
    s.configured && !s.stopped && !s.inflight
}

/// In shared memory, a frame is captured at once where the buffer has the size and the
/// format that the compositor told, and else a buffer of that size and format is asked
/// for. Without a format or a size there is an error, and nothing is asked for.
pub proof fn shm_frames_get_their_buffer(s: SessionView)
    requires
        s.mode is Shm,
        may_capture(s),
    ensures
        ({
            let (after, request) = s.next_frame();
            let sized = s.width > 0 && s.height > 0;
            let fits = s.shm_buf matches Some(b) && Some(b.format) == s.shm_format && b.width
                == s.width && b.height == s.height;
            &&& request is StartCapture <==> s.shm_format is Some && sized && fits
            &&& request is StartCapture ==> after == (SessionView {
                inflight: true,
                constraints_dirty: false,
                timestamp_us: None,
                ..s
            })
            &&& request is AllocateShm <==> s.shm_format is Some && sized && !fits && 4 * s.width
                * s.height <= i32::MAX
            &&& request matches Request::AllocateShm(layout) ==> layout.width == s.width
                && layout.height == s.height && Some(layout.format) == s.shm_format
                && layout.stride == 4 * s.width && layout.size == 4 * s.width * s.height && after
                == s
            &&& request is AllocateShm || request is StartCapture || request is Nothing
            &&& request is Nothing ==> after == (SessionView { error: after.error, ..s })
                && after.error is Some
            &&& s.error is None && s.shm_format is None ==> after.error == Some(
                "compositor did not advertise an SHM format supported by streamd"@,
            )
            &&& s.error is None && s.shm_format is Some && !sized ==> after.error == Some(
                "compositor reported an invalid capture size"@,
            )
        }),
{
    let (width, height) = (s.width, s.height);
    if let Some(format) = s.shm_format {
        shm_buffers_hold_a_frame(width, height, format);
        assert(4 * width * height == (4 * width) * height) by (nonlinear_arith);
    }
}

/// In DMA-BUFs, a frame is captured at once where the buffer has the size, the format and
/// the modifier that were chosen, and else a buffer with these is asked for, on the device
/// that the compositor told. What is missing is an error.
pub proof fn dmabuf_frames_get_their_buffer(s: SessionView)
    requires
        s.mode is DmaBuf,
        may_capture(s),
    ensures
        ({
            let (after, request) = s.next_frame();
            let sized = s.width > 0 && s.height > 0;
            let told = s.has_dmabuf && s.dmabuf_device is Some && s.dmabuf_format is Some;
            let fits = s.dmabuf_buf matches Some(b) && b.width == s.width && b.height == s.height
                && b.format == s.dmabuf_format->0.format && b.modifier
                == s.dmabuf_format->0.modifier;
            &&& request is StartCapture <==> told && sized && fits
            &&& request matches Request::StartCapture { width, height } ==> width == s.width
                && height == s.height && after == (SessionView {
                inflight: true,
                constraints_dirty: false,
                timestamp_us: None,
                ..s
            })
            &&& request is AllocateDmabuf <==> told && sized && !fits
            &&& request matches Request::AllocateDmabuf { width, height, selection, device } ==> {
                &&& width == s.width
                &&& height == s.height
                &&& Some(selection) == s.dmabuf_format
                &&& Some(device) == s.dmabuf_device
                &&& after == s
            }
            &&& request is Nothing <==> !told || !sized
            &&& request is Nothing ==> after == (SessionView { error: after.error, ..s })
                && after.error is Some
            &&& s.error is None && !s.has_dmabuf ==> after.error == Some(
                "linux-dmabuf global is unavailable for DMA-BUF capture"@,
            )
            &&& s.error is None && s.has_dmabuf && s.dmabuf_device is None ==> after.error == Some(
                "compositor did not advertise a DMA-BUF device"@,
            )
            &&& s.error is None && s.has_dmabuf && s.dmabuf_device is Some && s.dmabuf_format is None
                ==> after.error == Some(
                "compositor did not advertise a supported DMA-BUF format/modifier"@,
            )
            &&& s.error is None && told && !sized ==> after.error == Some(
                "compositor reported an invalid capture size"@,
            )
        }),
{
}

/// A buffer that was allocated is kept and captured into; one that could not be is an
/// error.
pub proof fn allocated_buffers_are_captured_into(
    s: SessionView,
    shm: ShmLayout,
    dmabuf: DmabufLayout,
    error: CaptureError,
    order: ByteOrder,
)
    ensures
        s.step(SessionEvent::ShmAllocated(Ok::<ShmLayout, CaptureError>(shm)), order) == (
            SessionView {
                shm_buf: Some(shm),
                inflight: true,
                constraints_dirty: false,
                timestamp_us: None,
                ..s
            },
            Request::StartCapture { width: shm.width, height: shm.height },
        ),
        s.step(SessionEvent::DmabufAllocated(Ok::<DmabufLayout, CaptureError>(dmabuf)), order) == (
            SessionView {
                dmabuf_buf: Some(dmabuf),
                inflight: true,
                constraints_dirty: false,
                timestamp_us: None,
                ..s
            },
            Request::StartCapture { width: dmabuf.width, height: dmabuf.height },
        ),
        s.error is None ==> ({
            let failed = (SessionView { error: Some(error.text()), ..s }, Request::Nothing);
            &&& s.step(SessionEvent::ShmAllocated(Err::<ShmLayout, CaptureError>(error)), order)
                == failed
            &&& s.step(
                SessionEvent::DmabufAllocated(Err::<DmabufLayout, CaptureError>(error)),
                order,
            ) == failed
            &&& s.step(SessionEvent::Sent(Err::<(), CaptureError>(error)), order) == failed
        }),
        s.error is None ==> s.step(SessionEvent::ImportFailed, order) == (
            SessionView {
                error: Some("compositor rejected the client DMA-BUF buffer import"@),
                ..s
            },
            Request::Nothing,
        ),
{
}

/// A frame counts once it has been handed on, and the next one follows; nothing else
/// counts.
pub proof fn frames_count_once_sent(s: SessionView, event: SessionEvent, order: ByteOrder)
    ensures
        event is Sent && event->Sent_0 is Ok && s.frames_emitted < u64::MAX ==> s.step(
            event,
            order,
        ).0.frames_emitted == s.frames_emitted + 1,
        event is Sent && event->Sent_0 is Ok ==> s.step(event, order).1 == s.next_frame().1,
        !(event is Sent && event->Sent_0 is Ok) ==> s.step(event, order).0.frames_emitted
            == s.frames_emitted,
        s.step(event, order).0.mode == s.mode,
        s.step(event, order).0.has_dmabuf == s.has_dmabuf,
{
}

/// A frame that failed is tried again: into a new buffer where the old one did not meet
/// the constraints, into the same where the reason was another. A session that was stopped
/// tries no more.
pub proof fn failed_frames_are_tried_again(s: SessionView, reason: FailureReason, order: ByteOrder)
    requires
        s.configured,
        !s.stopped,
    ensures
        ({
            let (after, request) = s.step(SessionEvent::Failed(reason), order);
            let calm = SessionView { inflight: false, timestamp_us: None, ..s };
            &&& reason is Stopped ==> request is Nothing && after == (SessionView {
                stopped: true,
                ..calm
            })
            &&& reason is BufferConstraints ==> !(request is StartCapture) && after.shm_buf is None
                && after.dmabuf_buf is None && after.constraints_dirty
            &&& reason is Unknown || reason is Other ==> (after, request) == calm.next_frame()
                && after.shm_buf == s.shm_buf && after.dmabuf_buf == s.dmabuf_buf
        }),
{
}

/// Why there can be no buffer in shared memory: rows that 32 bits cannot count, a buffer
/// that they cannot, one that `wl_shm` does not take, or an empty one.
pub proof fn shm_errors_have_their_reason(width: u32, height: u32, format: ShmPixelFormat)
    ensures
        match shm_layout(width, height, format) {
            Ok(layout) => layout.width == width && layout.height == height && layout.format
                == format,
            Err(CaptureError::ShmStrideOverflow) => width >= 0x4000_0000,
            Err(CaptureError::ShmSizeOverflow) => width < 0x4000_0000 && 4 * width * height
                >= 0x1_0000_0000,
            Err(CaptureError::ShmTooLarge) => 0x8000_0000 <= 4 * width * height < 0x1_0000_0000,
            Err(CaptureError::ShmEmpty) => (width == 0 || height == 0) && width < 0x4000_0000,
            Err(_) => false,
        },
{
    assert(width == 0 || height == 0 ==> 4 * width * height == 0) by (nonlinear_arith);
}

/// A DMA-BUF is described as the allocator told it, with memory for all of its rows behind
/// the offset; one of several planes cannot be used.
pub proof fn dmabufs_are_described_as_allocated(
    id: u64,
    width: u32,
    height: u32,
    format: DmabufPixelFormat,
    bo: AllocatedBo,
)
    ensures
        match dmabuf_layout(id, width, height, format, bo) {
            Ok(layout) => {
                &&& bo.plane_count == 1
                &&& layout.id == id
                &&& layout.width == width
                &&& layout.height == height
                &&& layout.format == format
                &&& layout.pitch == bo.pitch
                &&& layout.offset == bo.offset
                &&& layout.modifier == bo.modifier
                &&& layout.allocation_size == bo.offset + bo.pitch * height
            },
            Err(CaptureError::PlaneCount(count)) => count == bo.plane_count && count != 1,
            Err(_) => false,
        },
{
    let pitch = bo.pitch;
    assert(pitch * height <= u32::MAX * u32::MAX) by (nonlinear_arith)
        requires
            pitch <= u32::MAX,
            height <= u32::MAX,
    ;
}

/// A new session knows nothing yet and waits for the compositor.
pub proof fn new_sessions_wait(mode: CaptureMode, has_dmabuf: bool)
    ensures
        ({
            let s = SessionView::initial(mode, has_dmabuf);
            &&& s.next_frame() == (s, Request::Nothing)
            &&& s.mode == mode && s.has_dmabuf == has_dmabuf
            &&& s.error is None && !s.stopped && s.frames_emitted == 0 && s.timestamp_us is None
            &&& s.shm_buf is None && s.dmabuf_buf is None && s.shm_format is None
                && s.dmabuf_format is None && s.dmabuf_device is None
            &&& s.width == 0 && s.height == 0
            &&& !s.configured && !s.constraints_dirty && !s.inflight
        }),
{
}

/// The nodes under `/dev/dri` by their names: one that renders is called `renderD`, and a
/// primary one `card`, with whatever follows. No node is both.
pub proof fn nodes_are_told_by_their_names(entry: DriEntry, device: u64)
    ensures
        is_render_node(entry, device) <==> entry.device == device && entry.name@.len() >= 7
            && entry.name@.take(7) == "renderD"@,
        is_primary_node(entry, device) <==> entry.device == device && entry.name@.len() >= 4
            && entry.name@.take(4) == "card"@,
        !(is_render_node(entry, device) && is_primary_node(entry, device)),
{
    reveal_strlit("renderD");
    reveal_strlit("card");
    if entry.name@.len() >= 7 {
        assert(entry.name@.take(7)[0] == entry.name@[0]);
        assert("renderD"@[0] == 'r');
    }
    if entry.name@.len() >= 4 {
        assert(entry.name@.take(4)[0] == entry.name@[0]);
        assert("card"@[0] == 'c');
    }
}

} // verus!
