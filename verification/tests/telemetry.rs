use streamd::yang::telemetry::ClientTelemetryAccumulator;

#[test]
fn drains_aggregated_client_telemetry() {
    let mut telemetry = ClientTelemetryAccumulator::default();
    telemetry.record_reassembly(2, 3, true);
    telemetry.record_render(120, 80, 1);
    telemetry.record_render(60, 40, 0);

    let sample = telemetry.drain();
    assert_eq!(sample.unrecoverable_frames, 2);
    assert_eq!(sample.recovered_frames, 1);
    assert_eq!(sample.recovered_fragments, 3);
    assert_eq!(sample.presented_frames, 2);
    assert_eq!(sample.render_dropped_frames, 1);
    assert_eq!(sample.avg_decode_queue_us, 90);
    assert_eq!(sample.avg_render_queue_us, 60);

    let next = telemetry.drain();
    assert_eq!(next.presented_frames, 0);
    assert_eq!(next.avg_decode_queue_us, 0);
}
