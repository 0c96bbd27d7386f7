use streamd::streamd_proto::packets::Codec;
use streamd::streamd_server::capture::formats::CaptureMode;
use streamd::streamd_server::pipeline::{
    encoder_config, first_frame_dimensions, pause_ns, CaptureFrame, EncoderConfig, EncoderPreset,
    FramePlan, Pipeline, PipelineEvent, Registration, Stats, Work,
};

fn dmabuf(buffer_id: u64, width: u32) -> CaptureFrame {
    CaptureFrame::DmaBuf {
        buffer_id,
        width,
        height: 1080,
        pitch: 7680,
        offset: 64,
        allocation_size: 8_294_464,
    }
}

fn captured(frame: CaptureFrame) -> PipelineEvent {
    PipelineEvent::Captured {
        frame: Some(frame),
        idr_requested: false,
    }
}

fn encoded(second_over: bool) -> PipelineEvent {
    PipelineEvent::Encoded {
        encode_us: 100,
        is_keyframe: true,
        second_over,
    }
}

fn plan(pipeline: &mut Pipeline, event: PipelineEvent) -> FramePlan {
    match pipeline.step(event).0 {
        Work::Encode(plan) => plan,
        other => panic!("unexpected work: {other:?}"),
    }
}

fn running(mode: CaptureMode) -> Pipeline {
    let (mut pipeline, work) = Pipeline::new(Codec::Hevc, 60, mode);
    assert!(matches!(work, Work::Open(m) if m == mode));
    let (work, _) = pipeline.step(PipelineEvent::Opened(true));
    assert!(matches!(work, Work::Receive));
    pipeline
}

#[test]
fn telemetry_averages_a_second() {
    let mut stats = Stats::new();
    stats.record(100, true);
    stats.record(201, false);
    let t = stats.drain();
    assert_eq!((t.avg_encode_us, t.idr_count, t.send_queue_frames), (150, 1, 0));
    let t = stats.drain();
    assert_eq!((t.avg_encode_us, t.idr_count), (0, 0));
    for _ in 0..300 {
        stats.record(u32::MAX, true);
    }
    let t = stats.drain();
    assert_eq!((t.avg_encode_us, t.idr_count), (u32::MAX, 255));
}

#[test]
fn encoder_presets_follow_the_codec() {
    let config = |preset: EncoderPreset| EncoderConfig {
        preset,
        width: 1,
        height: 2,
        fps: 3,
    };
    assert_eq!(encoder_config(Codec::H264, 1, 2, 3), config(EncoderPreset::LanH264));
    assert_eq!(encoder_config(Codec::Hevc, 1, 2, 3), config(EncoderPreset::WanHevc));
    assert_eq!(encoder_config(Codec::Av1, 1, 2, 3), config(EncoderPreset::LanH264));
    assert_eq!(first_frame_dimensions(&dmabuf(1, 1920)), (1920, 1080));
}

#[test]
fn the_stream_starts_with_a_keyframe() {
    let mut pipeline = running(CaptureMode::DmaBuf);
    let first = plan(&mut pipeline, captured(dmabuf(7, 1920)));
    assert!(first.force_idr);
    assert_eq!(
        first.new_encoder,
        Some(EncoderConfig {
            preset: EncoderPreset::WanHevc,
            width: 1920,
            height: 1080,
            fps: 60
        })
    );
    assert_eq!(
        first.register,
        Some(Registration {
            buffer_id: 7,
            allocation_size: 8_294_464,
            offset: 64,
            mapping_size: 8_294_400,
            pitch: 7680
        })
    );
    let (work, telemetry) = pipeline.step(encoded(false));
    assert!(matches!(work, Work::Receive) && telemetry.is_none());
    let second = plan(&mut pipeline, captured(dmabuf(7, 1920)));
    assert!(!second.force_idr && second.new_encoder.is_none() && second.register.is_none());
    let (_, telemetry) = pipeline.step(encoded(true));
    let telemetry = telemetry.expect("a second is over");
    assert_eq!((telemetry.avg_encode_us, telemetry.idr_count), (100, 2));
}

#[test]
fn requested_keyframes_and_new_sizes_are_honoured() {
    let mut pipeline = running(CaptureMode::DmaBuf);
    plan(&mut pipeline, captured(dmabuf(1, 1920)));
    pipeline.step(encoded(false));
    let asked = plan(
        &mut pipeline,
        PipelineEvent::Captured {
            frame: Some(dmabuf(2, 1920)),
            idr_requested: true,
        },
    );
    assert!(asked.force_idr && asked.new_encoder.is_none() && asked.register.is_some());
    pipeline.step(encoded(false));
    let resized = plan(&mut pipeline, captured(dmabuf(1, 1280)));
    assert!(resized.force_idr && resized.register.is_some());
    assert_eq!(resized.new_encoder.map(|c| c.width), Some(1280));
}

#[test]
fn dmabuf_capture_falls_back_once() {
    let mut pipeline = running(CaptureMode::DmaBuf);
    plan(&mut pipeline, captured(dmabuf(1, 1920)));
    pipeline.step(encoded(false));
    let lost = PipelineEvent::Captured {
        frame: None,
        idr_requested: false,
    };
    assert!(matches!(pipeline.step(lost).0, Work::Open(CaptureMode::Shm)));
    pipeline.step(PipelineEvent::Opened(true));
    let shm = CaptureFrame::Shm {
        width: 1920,
        height: 1080,
    };
    let after = plan(&mut pipeline, captured(shm));
    assert!(after.force_idr && after.new_encoder.is_none() && after.register.is_none());
    pipeline.step(encoded(false));
    assert!(matches!(pipeline.step(lost).0, Work::Fail));
    assert!(matches!(pipeline.step(lost).0, Work::Idle));
}

#[test]
fn capture_that_cannot_be_opened_ends_the_pipeline() {
    let (mut pipeline, _) = Pipeline::new(Codec::H264, 60, CaptureMode::DmaBuf);
    assert!(matches!(
        pipeline.step(PipelineEvent::Opened(false)).0,
        Work::Open(CaptureMode::Shm)
    ));
    assert!(matches!(pipeline.step(PipelineEvent::Opened(false)).0, Work::Fail));
}

#[test]
fn the_pipeline_can_be_stopped_and_can_fail() {
    let mut pipeline = running(CaptureMode::Shm);
    assert!(matches!(pipeline.step(PipelineEvent::Stop).0, Work::Finish));
    assert!(matches!(pipeline.step(PipelineEvent::Stop).0, Work::Idle));
    let mut pipeline = running(CaptureMode::Shm);
    plan(&mut pipeline, captured(CaptureFrame::Shm { width: 1, height: 1 }));
    assert!(matches!(pipeline.step(PipelineEvent::EncodeFailed).0, Work::Fail));
}

#[test]
fn frames_are_paced() {
    assert_eq!(pause_ns(60, 0), 16_666_666);
    assert_eq!(pause_ns(60, 10_000_000), 6_666_666);
    assert_eq!(pause_ns(60, 16_666_666), 0);
    assert_eq!(pause_ns(1, u64::MAX), 0);
}
