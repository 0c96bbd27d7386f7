use streamd::streamd_server::capture::formats::ShmPixelFormat;
use streamd::streamd_server::capture::pixels::{
    copy_mapped_frame, FrameCopyError, WindowsFrameFormat,
};
use streamd::streamd_server::capture::pointer::{
    build_remote_cursor_shape, cursor_position_relative_to_display, repack_color_cursor_rgba,
    CursorShapeError, CursorState, PointerPosition, PointerShape, PointerTracker,
};
use streamd::streamd_server::capture::windows::{
    display_height, display_width, enumerate_outputs, pixel_format_from_dxgi, select_output,
    source_transfer, take_frame, wide_string, windows_display_description, windows_display_id,
    AcquireStep, Acquired, AdapterDesc, Conversion, CursorEvent, DesktopCapture, DesktopRect,
    FrameError, FrameReport, OutputDesc, TextureDesc, DXGI_FORMAT_B8G8R8A8_UNORM,
    DXGI_FORMAT_R16G16B16A16_FLOAT, NVIDIA_VENDOR_ID,
};
use streamd::yin_yang_proto::packets::RemoteCursorShapeKind;

fn table() -> Vec<u8> {
    (0..0x1_0000u32).map(|i| (i % 251) as u8).collect()
}

#[test]
fn mapped_frames_are_copied_without_gaps() {
    let src: Vec<u8> = (0..24).collect();
    let (data, stride) =
        copy_mapped_frame(&src, 12, 2, 2, WindowsFrameFormat::Bgra8, &table()).expect("copied");
    assert_eq!(stride, 8);
    assert_eq!(data, vec![0, 1, 2, 3, 4, 5, 6, 7, 12, 13, 14, 15, 16, 17, 18, 19]);
    let (data, _) =
        copy_mapped_frame(&src[..20], 12, 2, 2, WindowsFrameFormat::Bgrx8, &table()).expect("copied");
    assert_eq!(data.len(), 16);
}

#[test]
fn half_precision_pixels_are_looked_up() {
    let src = [10, 0, 20, 0, 30, 0, 0, 0, 0, 1, 1, 1, 2, 1, 0xFF, 0xFF];
    let (data, stride) =
        copy_mapped_frame(&src, 16, 2, 1, WindowsFrameFormat::RgbaF16, &table()).expect("copied");
    assert_eq!(stride, 8);
    assert_eq!(data, vec![30, 20, 10, 255, 7, 6, 5, 255]);
}

#[test]
fn bad_mappings_are_refused() {
    let copy = |pitch: u32, width: u32, height: u32, format: WindowsFrameFormat| {
        copy_mapped_frame(&[], pitch, width, height, format, &table()).map(|(data, _)| data)
    };
    assert_eq!(
        copy(7, 2, 0, WindowsFrameFormat::Bgra8),
        Err(FrameCopyError::RowPitch)
    );
    assert_eq!(
        copy(15, 2, 0, WindowsFrameFormat::RgbaF16),
        Err(FrameCopyError::RowPitch)
    );
    assert_eq!(copy(8, 2, 0, WindowsFrameFormat::Bgra8), Ok(vec![]));
    assert_eq!(WindowsFrameFormat::RgbaF16.src_bytes_per_pixel(), 8);
    assert_eq!(WindowsFrameFormat::RgbaF16.shm_format(), ShmPixelFormat::Argb8888);
    assert_eq!(WindowsFrameFormat::Bgrx8.shm_format(), ShmPixelFormat::Xrgb8888);
}

fn cursor(shape_type: u32, width: u32, height: u32, pitch: u32, data: Vec<u8>) -> CursorState {
    CursorState {
        visible: true,
        x: 100,
        y: -50,
        hot_x: 3,
        hot_y: 4,
        width,
        height,
        pitch,
        shape_type,
        shape_generation: 5,
        shape_data: data,
    }
}

#[test]
fn colour_cursors_are_repacked() {
    let c = cursor(2, 1, 2, 6, vec![1, 2, 3, 4, 0, 0, 5, 6, 7, 8]);
    assert_eq!(
        repack_color_cursor_rgba(&c).expect("repacked"),
        vec![3, 2, 1, 4, 7, 6, 5, 8]
    );
    let shape = build_remote_cursor_shape(&c).expect("fits").expect("a shape");
    assert_eq!(shape.kind, RemoteCursorShapeKind::Color);
    assert_eq!((shape.generation, shape.width, shape.height, shape.pitch), (5, 1, 2, 4));
    let masked = build_remote_cursor_shape(&cursor(4, 1, 1, 4, vec![1, 2, 3])).expect("fits");
    let masked = masked.expect("a shape");
    assert_eq!(masked.kind, RemoteCursorShapeKind::MaskedColor);
    assert_eq!(masked.data, vec![0, 0, 0, 0]);
}

#[test]
fn monochrome_cursors_hold_two_masks() {
    let shape = build_remote_cursor_shape(&cursor(1, 33, 4, 99, vec![1; 40]))
        .expect("fits")
        .expect("a shape");
    assert_eq!(shape.kind, RemoteCursorShapeKind::Monochrome);
    assert_eq!((shape.width, shape.height, shape.pitch), (33, 2, 8));
    assert_eq!(shape.data, vec![1; 32]);
    let short = build_remote_cursor_shape(&cursor(1, 8, 2, 1, vec![7]))
        .expect("fits")
        .expect("a shape");
    assert_eq!(short.data, vec![7, 0, 0, 0, 0, 0, 0, 0]);
}

#[test]
fn empty_and_oversized_cursors_are_not_sent() {
    assert!(matches!(build_remote_cursor_shape(&cursor(2, 0, 1, 4, vec![1])), Ok(None)));
    assert!(matches!(build_remote_cursor_shape(&cursor(1, 1, 1, 4, vec![])), Ok(None)));
    assert!(matches!(build_remote_cursor_shape(&cursor(3, 1, 1, 4, vec![1])), Ok(None)));
    assert!(matches!(
        build_remote_cursor_shape(&cursor(2, u32::MAX, u32::MAX, 4, vec![1])),
        Err(CursorShapeError::BufferOverflow)
    ));
}

#[test]
fn cursors_are_placed_on_their_display() {
    let c = cursor(2, 1, 1, 4, vec![1]);
    assert_eq!(cursor_position_relative_to_display(&c, (10, -60)), (87, 6));
}

fn utf16(text: &str) -> Vec<u16> {
    text.encode_utf16().collect()
}

#[test]
fn wide_strings_end_at_zero() {
    let mut units = utf16("DISPLAYé😀");
    assert_eq!(wide_string(&units), "DISPLAYé😀");
    units.push(0);
    units.extend(utf16("rest"));
    assert_eq!(wide_string(&units), "DISPLAYé😀");
    assert_eq!(wide_string(&[]), "");
    assert_eq!(wide_string(&[0xD800, 65]), "\u{FFFD}A");
}

#[test]
fn displays_are_described() {
    assert_eq!(windows_display_id(1, 20), "windows:1:20");
    let name = "DISPLAY1".to_string();
    assert_eq!(
        windows_display_description(" RTX ", &name).as_deref(),
        Some("RTX / DISPLAY1")
    );
    assert_eq!(windows_display_description("  ", &name), None);
    assert_eq!(windows_display_description(" DISPLAY1", &name), None);
    let rect = DesktopRect {
        left: -100,
        top: 50,
        right: 1820,
        bottom: 20,
    };
    assert_eq!((display_width(&rect), display_height(&rect)), (1920, 0));
}

fn output(name: &str, attached: bool, left: i32) -> OutputDesc {
    OutputDesc {
        device_name: utf16(name),
        attached,
        desktop: DesktopRect {
            left,
            top: 0,
            right: left + 1920,
            bottom: 1080,
        },
    }
}

#[test]
fn attached_outputs_are_enumerated() {
    let adapters = vec![
        AdapterDesc {
            description: utf16("RTX"),
            vendor_id: NVIDIA_VENDOR_ID,
            outputs: vec![output("D1", true, 0), output("D2", false, 0), output("D3", true, 1920)],
        },
        AdapterDesc {
            description: utf16("UHD"),
            vendor_id: 0x8086,
            outputs: vec![output("D4", true, -1920)],
        },
    ];
    let outputs = enumerate_outputs(&adapters).expect("outputs");
    let ids: Vec<_> = outputs.iter().map(|o| o.info.id.as_str()).collect();
    assert_eq!(ids, vec!["windows:0:0", "windows:0:2", "windows:1:0"]);
    assert_eq!(outputs[2].info.index, 2);
    assert_eq!(outputs[1].origin, (1920, 0));
    assert_eq!(outputs[2].vendor_id, 0x8086);
    assert_eq!(outputs[1].info.description.as_deref(), Some("RTX / D3"));
    assert_eq!(select_output(&outputs, &None), Ok(0));
    assert_eq!(select_output(&outputs, &Some("windows:1:0".into())), Ok(2));
    assert_eq!(
        select_output(&outputs, &Some("windows:0:1".into())),
        Err("Windows display \"windows:0:1\" is not available".into())
    );
    assert_eq!(
        enumerate_outputs(&vec![]).expect_err("no outputs"),
        "no attached desktop output was found for capture"
    );
    assert_eq!(
        select_output(&vec![], &None),
        Err("no attached desktop output was found for capture".into())
    );
}

#[test]
fn frames_are_converted_on_the_gpu_while_it_works() {
    let frame = TextureDesc {
        width: 8,
        height: 4,
        format: DXGI_FORMAT_R16G16B16A16_FLOAT,
    };
    let mut capture = DesktopCapture::new(NVIDIA_VENDOR_ID);
    assert_eq!(
        capture.plan(frame),
        Conversion::NewGpu {
            resource_id: 1,
            width: 8,
            height: 4
        }
    );
    capture.renderer_created(8, 4, 1);
    assert_eq!(capture.plan(frame), Conversion::Gpu { resource_id: 1 });
    let mut renderer = capture.gpu_renderer.expect("a renderer");
    let format = pixel_format_from_dxgi(frame.format).expect("known");
    assert!(renderer.shader_input(format));
    assert!(!renderer.shader_input(format));
    assert_eq!(source_transfer(format), 1);
    assert_eq!(source_transfer(WindowsFrameFormat::Bgra8), 0);
    capture.recreate_duplication();
    assert!(matches!(capture.plan(frame), Conversion::NewGpu { resource_id: 2, .. }));
    capture.disable_gpu_fp16();
    assert_eq!(capture.plan(frame), Conversion::Cpu { new_staging: true });
    capture.staging_created(frame);
    assert_eq!(capture.plan(frame), Conversion::Cpu { new_staging: false });
    assert!(!DesktopCapture::new(0x8086).gpu_fp16_enabled);
    assert_eq!(DesktopCapture::acquired(Acquired::Timeout), AcquireStep::Again);
    assert_eq!(DesktopCapture::acquired(Acquired::AccessLost), AcquireStep::Recreate);
    assert_eq!(DesktopCapture::acquired(Acquired::Failed), AcquireStep::Fail);
    assert_eq!(DesktopCapture::acquired(Acquired::Frame), AcquireStep::Process);
}

fn report(position: Option<PointerPosition>, shape: bool, format: Option<u32>) -> FrameReport {
    FrameReport {
        position,
        shape: shape.then_some(PointerShape {
            width: 1,
            height: 1,
            pitch: 4,
            hot_x: 1,
            hot_y: 2,
            shape_type: 2,
            data: vec![1, 2, 3, 4],
        }),
        texture: format.map(|format| TextureDesc {
            width: 8,
            height: 4,
            format,
        }),
    }
}

#[test]
fn frames_bring_news_of_the_pointer() {
    let mut pointer = PointerTracker::new((10, 20));
    let mut capture = DesktopCapture::new(0);
    let moved = PointerPosition {
        visible: true,
        x: 15,
        y: 30,
    };
    let first = report(Some(moved), true, Some(DXGI_FORMAT_B8G8R8A8_UNORM));
    assert!(pointer.can_be_placed(&first.position, &first.shape));
    let result = take_frame(&mut pointer, &mut capture, first, 9);
    assert_eq!(result.events.len(), 2);
    assert!(matches!(&result.events[0], CursorEvent::Shape(s) if s.generation == 1));
    match &result.events[1] {
        CursorEvent::State(state) => {
            assert_eq!((state.x, state.y), (4, 8));
            assert_eq!((state.generation, state.timestamp_us), (1, 9));
            assert!(state.visible);
        }
        other => panic!("unexpected event: {other:?}"),
    }
    let task = result.frame.expect("a frame");
    assert_eq!(task.format, WindowsFrameFormat::Bgra8);
    assert_eq!(task.conversion, Conversion::Cpu { new_staging: true });

    let next = report(None, false, Some(DXGI_FORMAT_B8G8R8A8_UNORM));
    let result = take_frame(&mut pointer, &mut capture, next, 10);
    assert_eq!(result.events.len(), 1);

    let result = take_frame(&mut pointer, &mut capture, report(None, true, None), 11);
    assert_eq!(result.events.len(), 1);
    assert_eq!(result.frame, Err(FrameError::NoFrame));
    let result = take_frame(&mut pointer, &mut capture, report(None, false, Some(3)), 12);
    assert!(result.events.is_empty());
    assert_eq!(result.frame, Err(FrameError::UnsupportedFormat(3)));
}

#[test]
fn far_away_pointers_cannot_be_placed() {
    let pointer = PointerTracker::new((i32::MAX, 0));
    assert!(pointer.can_be_placed(&None, &None));
    let far = Some(PointerPosition {
        visible: true,
        x: -2,
        y: 0,
    });
    assert!(!pointer.can_be_placed(&far, &None));
}
