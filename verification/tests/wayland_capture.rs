use streamd::streamd_server::capture::formats::{
    drm_fourcc, maybe_update_dmabuf_format, maybe_update_shm_format, parse_dmabuf_device,
    parse_dmabuf_modifiers, ByteOrder, CaptureMode, DmabufFormatSelection, DmabufPixelFormat,
    ShmPixelFormat, DRM_FORMAT_MOD_LINEAR,
};
use streamd::streamd_server::capture::outputs::{
    combine_make_model, output_globals, parse_wayland_display_id, select_output_global,
    wayland_display_id, Global, OutputDiscoveryState, OutputEvent, OutputGlobal,
};
use streamd::streamd_server::capture::wayland::{
    describe_dmabuf, is_drm_node, modifier_words, pick_drm_node, plan_shm_buffer,
    presentation_time_us, retry_without_modifiers, AllocatedBo, CaptureError, CaptureSession,
    DmabufLayout, DriEntry, FailureReason, PumpStep, Request, SessionEvent, ShmLayout,
};

const LITTLE: ByteOrder = ByteOrder::Little;

#[test]
fn formats_and_codes_stand_for_each_other() {
    assert_eq!(drm_fourcc(b'X', b'R', b'2', b'4'), 0x3432_5258);
    assert_eq!(DmabufPixelFormat::Argb8888.drm_format(), 0x3432_5241);
    assert_eq!(
        DmabufPixelFormat::from_drm_format(0x3432_5258),
        Some(DmabufPixelFormat::Xrgb8888)
    );
    assert_eq!(DmabufPixelFormat::from_drm_format(0), None);
    assert_eq!(ShmPixelFormat::from_wayland(0), Some(ShmPixelFormat::Argb8888));
    assert_eq!(ShmPixelFormat::Xrgb8888.to_wayland(), 1);
    assert_eq!(ShmPixelFormat::from_wayland(2), None);
}

#[test]
fn advertisements_are_parsed() {
    assert_eq!(parse_dmabuf_device(&[1, 2, 0, 0], LITTLE), Some(0x201));
    assert_eq!(parse_dmabuf_device(&[0, 0, 2, 1], ByteOrder::Big), Some(0x201));
    assert_eq!(
        parse_dmabuf_device(&[0, 0, 0, 0, 0, 0, 0, 1], LITTLE),
        Some(1 << 56)
    );
    assert_eq!(parse_dmabuf_device(&[1, 2, 3], LITTLE), None);
    let mut bytes = vec![0u8; 20];
    bytes[8] = 5;
    assert_eq!(parse_dmabuf_modifiers(&bytes, LITTLE), vec![0, 5]);
    assert_eq!(parse_dmabuf_modifiers(&bytes, ByteOrder::Big), vec![0, 5 << 56]);
}

#[test]
fn xrgb_is_preferred() {
    let xrgb = Some(ShmPixelFormat::Xrgb8888);
    let argb = Some(ShmPixelFormat::Argb8888);
    assert_eq!(maybe_update_shm_format(None, 0), argb);
    assert_eq!(maybe_update_shm_format(argb, 1), xrgb);
    assert_eq!(maybe_update_shm_format(xrgb, 0), xrgb);
    assert_eq!(maybe_update_shm_format(argb, 99), argb);

    let selection = |format: DmabufPixelFormat| {
        Some(DmabufFormatSelection {
            format,
            modifier: DRM_FORMAT_MOD_LINEAR,
        })
    };
    let xr24 = DmabufPixelFormat::Xrgb8888;
    let ar24 = DmabufPixelFormat::Argb8888;
    let linear = vec![7, DRM_FORMAT_MOD_LINEAR];
    assert_eq!(
        maybe_update_dmabuf_format(None, ar24.drm_format(), &linear),
        selection(ar24)
    );
    assert_eq!(
        maybe_update_dmabuf_format(selection(ar24), xr24.drm_format(), &linear),
        selection(xr24)
    );
    assert_eq!(
        maybe_update_dmabuf_format(selection(xr24), ar24.drm_format(), &linear),
        selection(xr24)
    );
    assert_eq!(
        maybe_update_dmabuf_format(selection(ar24), xr24.drm_format(), &vec![7]),
        selection(ar24)
    );
    assert_eq!(
        maybe_update_dmabuf_format(selection(xr24), 1, &linear),
        selection(xr24)
    );
    assert_eq!(maybe_update_dmabuf_format(None, 1, &linear), None);
}

#[test]
fn display_identifiers_are_read_back() {
    assert_eq!(wayland_display_id(68), "wayland:68");
    assert_eq!(parse_wayland_display_id("wayland:68"), Some(68));
    assert_eq!(parse_wayland_display_id("wl:68"), Some(68));
    assert_eq!(parse_wayland_display_id("68"), Some(68));
    assert_eq!(parse_wayland_display_id("x:68"), None);
    assert_eq!(parse_wayland_display_id("wayland:wl:68"), None);
    assert_eq!(parse_wayland_display_id("wayland:4294967296"), None);
}

fn global(name: u32, interface: &str) -> Global {
    Global {
        name,
        interface: interface.into(),
        version: name + 1,
    }
}

#[test]
fn outputs_are_found_among_the_globals() {
    let globals = vec![global(9, "wl_output"), global(3, "wl_shm"), global(5, "wl_output")];
    assert_eq!(
        output_globals(&globals),
        vec![
            OutputGlobal { name: 5, version: 6 },
            OutputGlobal { name: 9, version: 10 }
        ]
    );
    assert_eq!(select_output_global(&globals, &None).expect("first").name, 5);
    assert_eq!(
        select_output_global(&globals, &Some("wl:9".into())).expect("named").name,
        9
    );
    assert_eq!(
        select_output_global(&globals, &Some("DP-3".into())).expect_err("no number"),
        "unsupported Wayland display id \"DP-3\""
    );
    assert_eq!(
        select_output_global(&globals, &Some("wayland:3".into())).expect_err("no output"),
        "Wayland output wayland:3 was not advertised by the compositor"
    );
    assert_eq!(
        select_output_global(&vec![global(3, "wl_shm")], &None).expect_err("none"),
        "wl_output global unavailable on the Wayland compositor"
    );
}

#[test]
fn makers_and_models_are_joined() {
    let some = |text: &str| Some(text.to_string());
    assert_eq!(combine_make_model(&some(" A "), &some("B")), some("A B"));
    assert_eq!(combine_make_model(&some("A"), &some("  ")), some("A"));
    assert_eq!(combine_make_model(&None, &some("B ")), some("B"));
    assert_eq!(combine_make_model(&some(""), &None), None);
}

#[test]
fn discovered_outputs_become_displays() {
    let outputs = vec![
        OutputGlobal { name: 67, version: 4 },
        OutputGlobal { name: 68, version: 4 },
        OutputGlobal { name: 69, version: 4 },
    ];
    let mut state = OutputDiscoveryState::new(&outputs);
    state.event(67, OutputEvent::Name("HDMI-A-2".into()));
    state.event(67, OutputEvent::Description("ASUSTek VG279".into()));
    state.event(67, OutputEvent::Mode { width: 1920, height: 1080 });
    state.event(67, OutputEvent::Mode { width: 0, height: 5 });
    state.event(
        68,
        OutputEvent::Geometry {
            make: "Samsung".into(),
            model: "G80".into(),
        },
    );
    state.event(70, OutputEvent::Name("nobody".into()));
    state.event(69, OutputEvent::Other);
    let displays = state.into_display_infos();
    assert_eq!(displays.len(), 3);
    assert_eq!(displays[0].id, "wayland:67");
    assert_eq!(displays[0].name, "HDMI-A-2");
    assert_eq!(displays[0].description.as_deref(), Some("ASUSTek VG279"));
    assert_eq!((displays[0].width, displays[0].height), (1920, 1080));
    assert_eq!(displays[1].name, "Samsung G80");
    assert_eq!(displays[1].description, None);
    assert_eq!(displays[1].index, 1);
    assert_eq!(displays[2].name, "wayland-output-69");
    assert_eq!((displays[2].width, displays[2].height), (0, 0));
}

#[test]
fn shm_buffers_are_laid_out() {
    let format = ShmPixelFormat::Xrgb8888;
    assert!(matches!(
        plan_shm_buffer(1920, 1080, format),
        Ok(ShmLayout { stride: 7680, size: 8_294_400, .. })
    ));
    assert!(matches!(plan_shm_buffer(1 << 30, 1, format), Err(CaptureError::ShmStrideOverflow)));
    assert!(matches!(plan_shm_buffer(1 << 20, 1 << 10, format), Err(CaptureError::ShmSizeOverflow)));
    assert!(matches!(plan_shm_buffer(1 << 15, 1 << 14, format), Err(CaptureError::ShmTooLarge)));
    assert!(matches!(plan_shm_buffer(0, 7, format), Err(CaptureError::ShmEmpty)));
}

#[test]
fn dmabufs_are_described() {
    let bo = |plane_count: i32| AllocatedBo {
        plane_count,
        pitch: 7680,
        offset: 64,
        modifier: 0x0100_0000_0000_0002,
    };
    let layout = describe_dmabuf(3, 1920, 1080, DmabufPixelFormat::Argb8888, bo(1)).expect("layout");
    assert_eq!(layout.allocation_size, 8_294_464);
    assert_eq!(modifier_words(layout.modifier), (0x0100_0000, 2));
    let error = describe_dmabuf(3, 1, 1, DmabufPixelFormat::Argb8888, bo(-2)).expect_err("planes");
    assert_eq!(
        error.message(),
        "only single-plane DMA-BUF buffers are supported, got -2"
    );
    assert!(retry_without_modifiers(false, DRM_FORMAT_MOD_LINEAR));
    assert!(!retry_without_modifiers(true, DRM_FORMAT_MOD_LINEAR));
    assert!(!retry_without_modifiers(false, 2));
}

#[test]
fn render_nodes_are_picked_first() {
    let entry = |name: &str, device: u64| DriEntry {
        name: name.into(),
        device,
    };
    let entries = vec![
        entry("card1", 5),
        entry("renderD129", 5),
        entry("renderD128", 5),
        entry("renderD127", 6),
        entry("by-path", 5),
    ];
    assert_eq!(pick_drm_node(&entries, 5), Some(2));
    assert_eq!(pick_drm_node(&entries, 6), Some(3));
    assert_eq!(pick_drm_node(&entries[..1].iter().map(|e| entry(&e.name, e.device)).collect(), 5), Some(0));
    assert_eq!(pick_drm_node(&entries, 7), None);
    assert!(is_drm_node("renderD128") && is_drm_node("card0"));
    assert!(!is_drm_node("by-path") && !is_drm_node("render"));
}

fn configured(mode: CaptureMode) -> CaptureSession {
    let mut session = CaptureSession::new(mode, true);
    session.step(SessionEvent::BufferSize { width: 8, height: 4 }, LITTLE);
    session.step(SessionEvent::ShmFormat(1), LITTLE);
    session.step(SessionEvent::DmabufDevice(vec![5, 0, 0, 0]), LITTLE);
    session.step(
        SessionEvent::DmabufFormat {
            format: DmabufPixelFormat::Xrgb8888.drm_format(),
            modifiers: vec![0; 8],
        },
        LITTLE,
    );
    session
}

#[test]
fn shm_frames_are_captured_in_turn() {
    let mut session = configured(CaptureMode::Shm);
    let layout = match session.step(SessionEvent::Done, LITTLE) {
        Request::AllocateShm(layout) => layout,
        other => panic!("unexpected request: {other:?}"),
    };
    assert_eq!((layout.width, layout.height, layout.stride, layout.size), (8, 4, 32, 128));
    let start = Request::StartCapture { width: 8, height: 4 };
    assert_eq!(session.step(SessionEvent::ShmAllocated(Ok(layout)), LITTLE), start);
    assert_eq!(session.step(SessionEvent::Done, LITTLE), Request::Nothing);
    session.step(
        SessionEvent::PresentationTime {
            tv_sec_hi: 0,
            tv_sec_lo: 2,
            tv_nsec: 5_999,
        },
        LITTLE,
    );
    assert_eq!(
        session.step(SessionEvent::Ready, LITTLE),
        Request::SendShm {
            shm: layout,
            timestamp_us: 2_000_005
        }
    );
    assert!(matches!(session.pump_step(0), PumpStep::Continue));
    assert_eq!(session.step(SessionEvent::Sent(Ok(())), LITTLE), start);
    assert_eq!(session.frames_emitted(), 1);
    assert!(matches!(session.pump_step(0), PumpStep::Delivered));
    assert_eq!(session.step(SessionEvent::Failed(FailureReason::Unknown), LITTLE), start);
    assert_eq!(
        session.step(SessionEvent::Failed(FailureReason::BufferConstraints), LITTLE),
        Request::AllocateShm(layout)
    );
    assert_eq!(
        session.step(SessionEvent::Failed(FailureReason::Stopped), LITTLE),
        Request::Nothing
    );
    assert!(matches!(
        session.pump_step(0),
        PumpStep::Failed(m) if m == "Wayland capture session stopped"
    ));
}

#[test]
fn dmabuf_frames_are_captured_in_turn() {
    let mut session = configured(CaptureMode::DmaBuf);
    let (selection, device) = match session.step(SessionEvent::Done, LITTLE) {
        Request::AllocateDmabuf {
            width: 8,
            height: 4,
            selection,
            device,
        } => (selection, device),
        other => panic!("unexpected request: {other:?}"),
    };
    assert_eq!(device, 5);
    let layout = DmabufLayout {
        id: 1,
        width: 8,
        height: 4,
        pitch: 32,
        offset: 0,
        allocation_size: 128,
        format: selection.format,
        modifier: selection.modifier,
    };
    let start = Request::StartCapture { width: 8, height: 4 };
    assert_eq!(session.step(SessionEvent::DmabufAllocated(Ok(layout)), LITTLE), start);
    assert_eq!(
        session.step(SessionEvent::Ready, LITTLE),
        Request::SendDmabuf {
            dmabuf: layout,
            timestamp_us: 0
        }
    );
    assert_eq!(session.step(SessionEvent::Sent(Ok(())), LITTLE), start);
    session.step(SessionEvent::BufferSize { width: 16, height: 4 }, LITTLE);
    session.step(SessionEvent::Ready, LITTLE);
    assert!(matches!(
        session.step(SessionEvent::Sent(Ok(())), LITTLE),
        Request::AllocateDmabuf { width: 16, .. }
    ));
}

fn first_error(mut session: CaptureSession, event: SessionEvent) -> String {
    assert_eq!(session.step(event, LITTLE), Request::Nothing);
    session.step(SessionEvent::ImportFailed, LITTLE);
    let message = match session.pump_step(0) {
        PumpStep::Failed(message) => message,
        other => panic!("unexpected step: {other:?}"),
    };
    assert!(matches!(session.pump_step(0), PumpStep::Continue));
    message
}

#[test]
fn capture_errors_are_reported_once() {
    assert_eq!(
        first_error(CaptureSession::new(CaptureMode::Shm, false), SessionEvent::Done),
        "compositor did not advertise an SHM format supported by streamd"
    );
    assert_eq!(
        first_error(CaptureSession::new(CaptureMode::DmaBuf, false), SessionEvent::Done),
        "linux-dmabuf global is unavailable for DMA-BUF capture"
    );
    assert_eq!(
        first_error(CaptureSession::new(CaptureMode::DmaBuf, true), SessionEvent::Done),
        "compositor did not advertise a DMA-BUF device"
    );
    let mut session = CaptureSession::new(CaptureMode::DmaBuf, true);
    session.step(SessionEvent::DmabufDevice(vec![5, 0, 0, 0]), LITTLE);
    assert_eq!(
        first_error(session, SessionEvent::Done),
        "compositor did not advertise a supported DMA-BUF format/modifier"
    );
    let mut session = configured(CaptureMode::Shm);
    session.step(SessionEvent::BufferSize { width: 0, height: 4 }, LITTLE);
    assert_eq!(
        first_error(session, SessionEvent::Done),
        "compositor reported an invalid capture size"
    );
    let mut session = configured(CaptureMode::Shm);
    session.step(SessionEvent::BufferSize { width: 1 << 31, height: 4 }, LITTLE);
    assert_eq!(
        first_error(session, SessionEvent::Done),
        "SHM stride overflow for capture buffer"
    );
    assert_eq!(
        first_error(configured(CaptureMode::Shm), SessionEvent::Ready),
        "frame became ready before a SHM buffer was available"
    );
    assert_eq!(
        first_error(configured(CaptureMode::DmaBuf), SessionEvent::Ready),
        "frame became ready before a DMA-BUF was available"
    );
    assert_eq!(
        first_error(
            configured(CaptureMode::Shm),
            SessionEvent::Sent(Err(CaptureError::Failed("receiver dropped".into())))
        ),
        "receiver dropped"
    );
    assert_eq!(
        first_error(configured(CaptureMode::Shm), SessionEvent::ImportFailed),
        "compositor rejected the client DMA-BUF buffer import"
    );
}

#[test]
fn presentation_times_are_capped() {
    assert_eq!(presentation_time_us(0, 1, 1_999), 1_000_001);
    assert_eq!(presentation_time_us(1, 0, 0), 4_294_967_296_000_000);
    assert_eq!(presentation_time_us(u32::MAX, u32::MAX, 999_999_999), u64::MAX);
}
