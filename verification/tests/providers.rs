use ogma_core::error::Error;
use ogma_core::providers::whisper::{chunk_utterances, merge_transcripts, ReplySegment};
use ogma_core::providers::{
    api_failure, first_field_of_kind, is_retryable, truncate, ReplyBlock, RetryState, RetryStep, Utterance,
    FIRST_RETRY_DELAY_SECS,
    MAX_ATTEMPTS,
};

fn api(status: u16) -> Error {
    Error::Api { provider: "openai".into(), status, message: "m".into() }
}

#[test]
fn retry_schedule_doubles_and_stops_after_four_attempts() {
    let mut state = RetryState::first();
    assert_eq!(state.attempt, 1);
    assert_eq!(state.delay_secs, FIRST_RETRY_DELAY_SECS);
    let mut sleeps = Vec::new();
    loop {
        match state.after_failure(&api(503)) {
            RetryStep::Retry { sleep_secs, next } => {
                sleeps.push(sleep_secs);
                state = next;
            }
            RetryStep::GiveUp => break,
        }
    }
    assert_eq!(sleeps, vec![2, 4, 8]);
    assert_eq!(state.attempt, MAX_ATTEMPTS);
}

#[test]
fn only_transient_failures_are_retried() {
    assert!(is_retryable(&api(429)));
    assert!(is_retryable(&api(500)));
    assert!(is_retryable(&api(599)));
    assert!(!is_retryable(&api(400)));
    assert!(!is_retryable(&api(404)));
    assert!(is_retryable(&Error::Http { message: "timeout".into(), transient: true }));
    assert!(!is_retryable(&Error::Http { message: "bad body".into(), transient: false }));
    assert!(!is_retryable(&Error::Other("x".into())));
    assert_eq!(RetryState::first().after_failure(&api(400)), RetryStep::GiveUp);
}

#[test]
fn error_bodies_are_truncated() {
    assert_eq!(truncate("short", 500), "short");
    assert_eq!(truncate("abcdef", 3), "abc\u{2026}");
    assert_eq!(truncate("abc", 3), "abc");
    let e = api_failure("anthropic", 529, &"x".repeat(600));
    match e {
        Error::Api { provider, status, message } => {
            assert_eq!(provider, "anthropic");
            assert_eq!(status, 529);
            assert_eq!(message.chars().count(), 501);
        }
        other => panic!("unexpected {other:?}"),
    }
}

#[test]
fn chunk_utterances_are_offset_trimmed_and_filtered() {
    let segs = vec![
        ReplySegment { start_ms: 0, end_ms: 1500, text: "  Hello ".into() },
        ReplySegment { start_ms: 1500, end_ms: 2000, text: "   ".into() },
        ReplySegment { start_ms: 2000, end_ms: 3000, text: "there".into() },
    ];
    let u = chunk_utterances(300_000, &segs, "ignored");
    assert_eq!(u.len(), 2);
    assert_eq!((u[0].start_ms, u[0].end_ms, u[0].text.as_str()), (300_000, 301_500, "Hello"));
    assert_eq!((u[1].start_ms, u[1].end_ms, u[1].text.as_str()), (302_000, 303_000, "there"));
    // No usable segments but some text: one utterance at the chunk's offset.
    let u = chunk_utterances(600_000, &[], "  whole text ");
    assert_eq!(u.len(), 1);
    assert_eq!((u[0].start_ms, u[0].end_ms, u[0].text.as_str()), (600_000, 600_000, "whole text"));
    assert!(chunk_utterances(0, &[], "   ").is_empty());
}

fn utt(start: i64, text: &str) -> Utterance {
    Utterance { start_ms: start, end_ms: start, text: text.into() }
}

#[test]
fn merged_transcript_is_ordered_and_stable() {
    let chunks = vec![
        vec![utt(300, "b"), utt(100, "a")],
        vec![utt(300, "c"), utt(0, "z")],
    ];
    let merged = merge_transcripts(&chunks);
    let texts: Vec<&str> = merged.iter().map(|u| u.text.as_str()).collect();
    assert_eq!(texts, vec!["z", "a", "b", "c"]);
    assert!(merge_transcripts(&vec![]).is_empty());
}

#[test]
fn first_block_of_a_kind_gives_its_field() {
    let block = |kind: Option<&str>, field: Option<&str>| ReplyBlock {
        kind: kind.map(String::from),
        field: field.map(String::from),
    };
    let blocks = vec![
        block(Some("thinking"), Some("hmm")),
        block(None, Some("stray")),
        block(Some("text"), Some("{\"title\":\"x\"}")),
        block(Some("text"), Some("second")),
    ];
    assert_eq!(first_field_of_kind(&blocks, "text").as_deref(), Some("{\"title\":\"x\"}"));
    assert_eq!(first_field_of_kind(&blocks, "toggle"), None);
    // The first block of the kind decides, even without the field.
    let blocks = vec![block(Some("toggle"), None), block(Some("toggle"), Some("id-2"))];
    assert_eq!(first_field_of_kind(&blocks, "toggle"), None);
    assert_eq!(first_field_of_kind(&[], "text"), None);
}
