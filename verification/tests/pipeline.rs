use ogma_core::config::Config;
use ogma_core::error::Error;
use ogma_core::models::{MeetingStatus, TranscriptSegment};
use ogma_core::pipeline::{
    aggregate_failures, check_has_audio, check_summary_key, check_transcription_key,
    chunk_offsets, failure_event, has_labeled_transcript, pending_destinations, progress_event,
    segments_from_utterances, should_adopt_title, should_summarize, should_transcribe,
    sync_detail, utterances_from_segments, UNLABELED_SPEAKER,
};
use ogma_core::providers::Utterance;
use ogma_core::recording::wav;
use ogma_core::sync::apple_notes::AppleNotesDestination;
use ogma_core::sync::markdown::MarkdownDestination;
use ogma_core::sync::{Destination, SyncDestination};
use ogma_core::notion::NotionClient;

#[test]
fn chunk_offsets_accumulate_actual_durations() {
    // seg 0: 1s (16000 samples), seg 1: a short 0.5s segment, seg 2: 1s.
    let lengths = [16_000u64, 8_000, 16_000];
    let paths: Vec<String> = (0..3).map(|i| format!("seg-{i:03}.wav")).collect();
    let durations: Vec<i64> = lengths
        .iter()
        .map(|&n| wav::duration_ms(wav::HEADER_LEN + 2 * n))
        .collect();
    let chunks = chunk_offsets(&paths, &durations);
    let offsets: Vec<i64> = chunks.iter().map(|c| c.offset_ms).collect();
    // 0, then 1000ms after seg0, then 1500ms after the short seg1.
    assert_eq!(offsets, vec![0, 1000, 1500]);
    assert_eq!(chunks[2].path, "seg-002.wav");
}

fn seg(speaker: &str) -> TranscriptSegment {
    TranscriptSegment { speaker: speaker.into(), start_ms: 0, end_ms: 1, text: "t".into() }
}

#[test]
fn resume_is_derived_from_stored_data() {
    assert!(should_transcribe(false));
    assert!(!should_transcribe(true));
    assert!(!has_labeled_transcript(&[]));
    assert!(!has_labeled_transcript(&[seg(UNLABELED_SPEAKER)]));
    assert!(has_labeled_transcript(&[seg(UNLABELED_SPEAKER), seg("Speaker A")]));
    assert!(should_summarize(false, &[seg("Speaker A")]));
    assert!(should_summarize(true, &[seg(UNLABELED_SPEAKER)]));
    assert!(!should_summarize(true, &[seg("Speaker A")]));
}

fn dests() -> Vec<Destination> {
    vec![
        Destination::Notion(NotionClient::new("k".into(), "db".into())),
        Destination::Markdown(MarkdownDestination::new("/vault")),
        Destination::AppleNotes(AppleNotesDestination),
    ]
}

#[test]
fn partial_failure_retry_redoes_only_the_failure() {
    // Round 1: nothing synced yet, everything pending.
    let pending = pending_destinations(dests(), &[]);
    assert_eq!(pending.iter().map(|d| d.id()).collect::<Vec<_>>(), vec!["notion", "markdown", "apple_notes"]);
    // Notion and Apple Notes succeeded and were recorded; the retry redoes
    // only Markdown.
    let synced = vec!["notion".to_string(), "apple_notes".to_string()];
    let pending = pending_destinations(dests(), &synced);
    assert_eq!(pending.iter().map(|d| d.id()).collect::<Vec<_>>(), vec!["markdown"]);
    // Everything recorded: nothing to do.
    let all = vec!["apple_notes".to_string(), "markdown".to_string(), "notion".to_string()];
    assert!(pending_destinations(dests(), &all).is_empty());
    assert!(pending_destinations(vec![], &[]).is_empty());
}

#[test]
fn failures_aggregate_into_one_error() {
    assert!(aggregate_failures(vec![]).is_ok());
    let one = aggregate_failures(vec![("bad".into(), Error::Other("bad boom".into()))]).unwrap_err();
    assert_eq!(one.message(), "bad boom");
    let err = aggregate_failures(vec![
        ("one".into(), Error::Other("one boom".into())),
        ("two".into(), Error::Config("missing".into())),
    ])
    .unwrap_err();
    let msg = err.message();
    assert_eq!(msg, "one: one boom; two: config error: missing");
}

#[test]
fn missing_keys_and_audio_are_reported() {
    let cfg = Config::default();
    assert_eq!(
        check_transcription_key(&cfg).unwrap_err().message(),
        "config error: OpenAI API key is not set (Settings \u{2192} OpenAI API key)"
    );
    assert_eq!(
        check_summary_key(&cfg).unwrap_err().message(),
        "config error: Anthropic API key is not set (Settings \u{2192} Anthropic API key)"
    );
    let cfg = Config { openai_api_key: "k".into(), anthropic_api_key: "k".into(), ..Config::default() };
    assert!(check_transcription_key(&cfg).is_ok());
    assert!(check_summary_key(&cfg).is_ok());
    assert_eq!(check_has_audio(0).unwrap_err().message(), "invalid state: no audio segments on disk");
    assert!(check_has_audio(2).is_ok());
}

#[test]
fn transcripts_move_between_steps() {
    assert_eq!(
        segments_from_utterances(&[]).unwrap_err().message(),
        "invalid state: transcription returned no speech (empty recording?)"
    );
    let utts = vec![Utterance { start_ms: 5, end_ms: 9, text: "hi".into() }];
    let segs = segments_from_utterances(&utts).unwrap();
    assert_eq!(segs[0].speaker, UNLABELED_SPEAKER);
    assert_eq!((segs[0].start_ms, segs[0].end_ms, segs[0].text.as_str()), (5, 9, "hi"));
    let back = utterances_from_segments(&segs);
    assert_eq!((back[0].start_ms, back[0].end_ms, back[0].text.as_str()), (5, 9, "hi"));
}

#[test]
fn titles_are_adopted_only_from_defaults() {
    assert!(should_adopt_title(""));
    assert!(should_adopt_title("   "));
    assert!(should_adopt_title("Meeting 2026-07-09 14:32"));
    assert!(!should_adopt_title("Meeting"));
    assert!(!should_adopt_title("Budget review"));
}

#[test]
fn progress_reports() {
    let e = progress_event("m1", MeetingStatus::Syncing, "syncing to Notion", None);
    assert_eq!(e.meeting_id, "m1");
    assert_eq!(e.status, MeetingStatus::Syncing);
    assert!(e.error.is_none());
    let f = failure_event("m1", &Error::NotFound("meeting m1".into()));
    assert_eq!(f.status, MeetingStatus::Error);
    assert_eq!(f.detail, "pipeline failed");
    assert_eq!(f.error.as_deref(), Some("not found: meeting m1"));
    assert_eq!(sync_detail("Notion"), "syncing to Notion");
}
