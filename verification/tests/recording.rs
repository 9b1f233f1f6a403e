use ogma_core::recording::import::{
    check_import, declared_duration_ms, expected_duration_ms, import_planner, stream_rate, MAX_IMPORT_SAMPLES,
};
use ogma_core::recording::wav::{
    duration_ms, finalized_data_len, header, read_le32, repair_plan, sample_count_of_len,
    samples_to_bytes, HEADER_LEN, SAMPLE_RATE,
};
use ogma_core::recording::{
    list_segments, order_input_devices, parse_u32, pick_input_device, recover_segments, runtime_error,
    segment_file_name, startup_outcome, SegmentAction, SegmentPlanner, SEGMENT_SAMPLES,
    SEGMENT_SECONDS,
};
use ogma_core::recording::wake::{acquire, release, WakeGuard, ES_CONTINUOUS, HOLD_FLAGS, RELEASE_FLAGS};

#[test]
fn write_finalize_roundtrip() {
    let bytes = header(finalized_data_len(4));
    assert_eq!(bytes.len() as u64, HEADER_LEN);
    assert_eq!(&bytes[0..4], b"RIFF");
    assert_eq!(&bytes[8..16], b"WAVEfmt ");
    assert_eq!(&bytes[36..40], b"data");
    assert_eq!(u32::from_le_bytes(bytes[40..44].try_into().unwrap()), 8);
    assert_eq!(read_le32(&bytes, 40), 8);
    assert_eq!(read_le32(&bytes, 4), 44);
    assert_eq!(read_le32(&bytes, 24), SAMPLE_RATE);
    assert_eq!(samples_to_bytes(&[1i16, -2, 3, -4]), vec![1, 0, 254, 255, 3, 0, 252, 255]);
    assert_eq!(sample_count_of_len(HEADER_LEN + 8), 4);
}

#[test]
fn repair_fixes_crashed_segment() {
    // 1000 samples plus a stray half sample after a crash.
    let plan = repair_plan("seg.wav", HEADER_LEN + 2000 + 1).unwrap();
    assert_eq!(plan.samples, 1000);
    assert_eq!(plan.new_len, HEADER_LEN + 2000);
    assert_eq!(u32::from_le_bytes(plan.header[40..44].try_into().unwrap()), 2000);
    let err = repair_plan("seg.wav", 10).unwrap_err();
    assert_eq!(err.message(), "seg.wav is too short to be a WAV segment");
    assert_eq!(sample_count_of_len(10), 0);
    assert_eq!(duration_ms(HEADER_LEN + 32_000), 1000);
}

fn samples_per_segment(actions: &[SegmentAction]) -> Vec<u64> {
    let mut out = Vec::new();
    for a in actions {
        match a {
            SegmentAction::Open { .. } => out.push(0),
            SegmentAction::Write { count, .. } => *out.last_mut().unwrap() += *count as u64,
            _ => {}
        }
    }
    out
}

#[test]
fn rotates_segments_at_five_minutes() {
    let mut p = SegmentPlanner::new();
    let mut actions = Vec::new();
    let total = SEGMENT_SAMPLES + SAMPLE_RATE as u64;
    let mut written = 0u64;
    while written < total {
        let take = (total - written).min(7000) as usize;
        actions.extend(p.plan_block(take));
        written += take as u64;
    }
    actions.extend(p.finish());
    assert_eq!(samples_per_segment(&actions), vec![SEGMENT_SAMPLES, SAMPLE_RATE as u64]);
    assert_eq!(actions.iter().filter(|a| matches!(a, SegmentAction::Finalize)).count(), 2);
    assert_eq!(p.elapsed_ms(), (SEGMENT_SECONDS as i64 + 1) * 1000);
    assert!(matches!(actions[0], SegmentAction::Open { index: 0 }));
}

#[test]
fn writes_cover_the_block_in_order() {
    let mut p = SegmentPlanner::new();
    let first = p.plan_block(SEGMENT_SAMPLES as usize - 10);
    let second = p.plan_block(25);
    assert_eq!(
        second,
        vec![
            SegmentAction::Write { from: 0, count: 10 },
            SegmentAction::Finalize,
            SegmentAction::Open { index: 1 },
            SegmentAction::Write { from: 10, count: 15 },
        ]
    );
    assert!(matches!(first[0], SegmentAction::Open { index: 0 }));
    assert!(p.plan_block(0).is_empty());
    let flushes = first.iter().filter(|a| matches!(a, SegmentAction::Flush)).count();
    assert_eq!(flushes, 1);
}

#[test]
fn rejects_audio_longer_than_the_import_cap() {
    let mut p = SegmentPlanner::new().with_max_samples(1_000);
    p.write(800).unwrap();
    let err = p.write(300).unwrap_err();
    assert!(err.message().contains("maximum import length"), "unexpected error: {}", err.message());
    assert_eq!(p.written, 800);
    assert_eq!(import_planner().max_samples, Some(MAX_IMPORT_SAMPLES));
    assert_eq!(MAX_IMPORT_SAMPLES, 6 * 3600 * 16_000);
}

#[test]
fn rejects_zero_sample_audio() {
    let err = check_import(0, Some(0)).unwrap_err();
    assert!(err.message().contains("no audio"), "unexpected error: {}", err.message());
}

#[test]
fn rejects_heavily_truncated_file() {
    // Header declares 2 s but only 0.25 s decoded.
    let err = check_import(250, Some(expected_duration_ms(32_000, 16_000))).unwrap_err();
    assert!(err.message().contains("could be decoded"), "unexpected error: {}", err.message());
    assert_eq!(
        err.message(),
        "audio device error: only 0 s of the file's 2 s could be decoded \u{2014} the file appears corrupt or truncated"
    );
    assert!(check_import(1_900, Some(2_000)).is_ok());
    assert!(check_import(1_000, None).is_ok());
    assert!(check_import(1_000, Some(0)).is_ok());
}

#[test]
fn segment_files_are_listed_in_order() {
    assert_eq!(segment_file_name(7), "seg-007.wav");
    assert_eq!(segment_file_name(1234), "seg-1234.wav");
    let names = vec![
        "seg-002.wav".to_string(),
        "audio.wav".to_string(),
        "seg-000.wav".to_string(),
        "seg-001.wav.tmp".to_string(),
        "seg-001.wav".to_string(),
    ];
    assert_eq!(list_segments(names), vec!["seg-000.wav", "seg-001.wav", "seg-002.wav"]);
}

#[test]
fn recovery_keeps_repaired_audio() {
    let segs = vec!["a".to_string(), "b".to_string(), "c".to_string(), "d".to_string()];
    let r = recover_segments(segs, &[Some(16_000), None, Some(0), Some(8_000)]);
    assert_eq!(r.segments, vec!["a", "d"]);
    assert_eq!(r.duration_ms, 1500);
}

#[test]
fn devices_sorted_deduped_default_first() {
    let names = vec!["USB".to_string(), "Built-in".to_string(), "USB".to_string(), "Array".to_string()];
    assert_eq!(
        order_input_devices(names.clone(), Some("USB".into())),
        vec!["USB", "Array", "Built-in"]
    );
    assert_eq!(order_input_devices(names, None), vec!["Array", "Built-in", "USB"]);
}

#[test]
fn startup_reports() {
    assert_eq!(parse_u32("48000"), Some(48_000));
    assert_eq!(parse_u32("+7"), Some(7));
    assert_eq!(parse_u32("-7"), None);
    assert_eq!(parse_u32(""), None);
    assert_eq!(parse_u32("4294967296"), None);
    assert_eq!(parse_u32("4294967295"), Some(u32::MAX));
    assert_eq!(startup_outcome(Some(Some("ok:44100".into()))).unwrap(), 44_100);
    assert_eq!(startup_outcome(Some(Some("ok:x".into()))).unwrap(), 48_000);
    assert_eq!(
        startup_outcome(Some(Some("no input device found".into()))).unwrap_err().message(),
        "audio device error: no input device found"
    );
    assert_eq!(
        startup_outcome(None).unwrap_err().message(),
        "audio device error: audio thread died before reporting"
    );
    assert_eq!(runtime_error(Some(Some("stream error: gone".into()))).as_deref(), Some("stream error: gone"));
    assert!(runtime_error(Some(Some("ok:48000".into()))).is_none());
    assert!(runtime_error(None).is_none());
}

#[test]
fn wake_guard_is_harmless() {
    acquire();
    release();
    let _g = WakeGuard::new();
    let _d = WakeGuard::default();
}

#[test]
fn declared_length_needs_frames_and_rate() {
    assert_eq!(declared_duration_ms(Some(44_100), Some(44_100)), Some(1000));
    assert_eq!(declared_duration_ms(Some(8_000), Some(16_000)), Some(500));
    assert_eq!(declared_duration_ms(None, Some(16_000)), None);
    assert_eq!(declared_duration_ms(Some(16_000), None), None);
}

#[test]
fn stream_rate_is_fixed_by_the_first_block() {
    assert_eq!(stream_rate(None, 44_100).unwrap(), 44_100);
    assert_eq!(stream_rate(Some(44_100), 44_100).unwrap(), 44_100);
    let err = stream_rate(Some(44_100), 48_000).unwrap_err();
    assert_eq!(err.message(), "audio device error: audio files with a changing sample rate are not supported");
}

#[test]
fn saved_device_name_picks_the_first_match_or_the_default() {
    let names = vec!["USB Mic".to_string(), "Built-in".to_string(), "USB Mic".to_string()];
    assert_eq!(pick_input_device(&names, Some("USB Mic")), Some(0));
    assert_eq!(pick_input_device(&names, Some("Built-in")), Some(1));
    // Unplugged since it was saved: fall back to the default.
    assert_eq!(pick_input_device(&names, Some("Headset")), None);
    assert_eq!(pick_input_device(&names, Some("")), None);
    assert_eq!(pick_input_device(&names, None), None);
}

#[test]
fn wake_flags_hold_and_release() {
    assert_eq!(HOLD_FLAGS, 0x8000_0001);
    assert_eq!(RELEASE_FLAGS, ES_CONTINUOUS);
}
