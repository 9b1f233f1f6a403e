use ogma_core::error::Error;
use ogma_core::providers::claude::{
    assemble, build_prompt, check_transcript, reply_text, ClaudeActionItem, ClaudeHighlight,
    ClaudeNotes, SpeakerRange,
};
use ogma_core::providers::Utterance;

fn utt(start: i64, text: &str) -> Utterance {
    Utterance {
        start_ms: start,
        end_ms: start + 1000,
        text: text.into(),
    }
}

fn raw(ranges: Vec<SpeakerRange>, highlights: Vec<ClaudeHighlight>) -> ClaudeNotes {
    ClaudeNotes {
        speaker_assignments: ranges,
        title: "t".into(),
        tldr: "t".into(),
        summary: "s".into(),
        key_points: vec![],
        decisions: vec![],
        action_items: vec![],
        open_questions: vec![],
        highlights,
    }
}

#[test]
fn assemble_merges_ranges_and_collapses_runs() {
    let transcript = vec![
        utt(0, "Hi everyone."),
        utt(1000, "Let's get started."),
        utt(2000, "Sounds good."),
        utt(3000, "First item is billing."),
    ];
    let notes = raw(
        vec![
            SpeakerRange { start_index: 0, end_index: 1, speaker: "Speaker A".into() },
            SpeakerRange { start_index: 2, end_index: 2, speaker: "Speaker B".into() },
            SpeakerRange { start_index: 3, end_index: 3, speaker: "Speaker A".into() },
        ],
        vec![ClaudeHighlight {
            quote: "First item is billing.".into(),
            speaker: "Speaker A".into(),
            utterance_index: 3,
        }],
    );
    let result = assemble(&transcript, notes);
    assert_eq!(result.segments.len(), 3);
    assert_eq!(result.segments[0].speaker, "Speaker A");
    assert_eq!(result.segments[0].text, "Hi everyone. Let's get started.");
    assert_eq!(result.segments[1].speaker, "Speaker B");
    assert_eq!(result.notes.highlights[0].timestamp_ms, 3000);
}

#[test]
fn assemble_handles_gaps_and_overflow() {
    let transcript = vec![utt(0, "a"), utt(1000, "b")];
    let notes = raw(
        vec![SpeakerRange {
            start_index: 1,
            end_index: 99, // out of range — clamped
            speaker: "Speaker A".into(),
        }],
        vec![],
    );
    let result = assemble(&transcript, notes);
    assert_eq!(result.segments[0].speaker, "Speaker ?"); // index 0 unassigned
    assert_eq!(result.segments[1].speaker, "Speaker A");
}

#[test]
fn assemble_first_range_wins_and_keeps_times() {
    let transcript = vec![utt(0, "a"), utt(1000, "b"), utt(2000, "c")];
    let mut notes = raw(
        vec![
            SpeakerRange { start_index: 0, end_index: 1, speaker: "A".into() },
            SpeakerRange { start_index: 1, end_index: 2, speaker: "B".into() },
        ],
        vec![ClaudeHighlight { quote: "q".into(), speaker: "B".into(), utterance_index: 7 }],
    );
    notes.action_items = vec![ClaudeActionItem { task: "do".into(), owner: None, due: Some("Fri".into()) }];
    let result = assemble(&transcript, notes);
    assert_eq!(result.segments.len(), 2);
    assert_eq!(result.segments[0].speaker, "A");
    assert_eq!(result.segments[0].text, "a b");
    assert_eq!(result.segments[0].start_ms, 0);
    assert_eq!(result.segments[0].end_ms, 2000);
    assert_eq!(result.segments[1].speaker, "B");
    assert_eq!(result.segments[1].text, "c");
    // An out-of-range highlight index falls back to 0.
    assert_eq!(result.notes.highlights[0].timestamp_ms, 0);
    assert_eq!(result.notes.action_items[0].task, "do");
    assert_eq!(result.notes.action_items[0].due.as_deref(), Some("Fri"));
}

#[test]
fn prompt_numbers_each_utterance() {
    let transcript = vec![utt(0, "Hello"), utt(125_500, "Later")];
    let p = build_prompt("Sync", &transcript);
    assert!(p.starts_with(
        "Below is the timestamped transcript of an in-person meeting titled \"Sync\". It was produced by"
    ));
    assert!(p.contains("start time.\n\nYour tasks:\n1. SPEAKER ATTRIBUTION: infer"));
    assert!(p.ends_with("TRANSCRIPT:\n[0] (00:00) Hello\n[1] (02:05) Later\n"));
}

#[test]
fn empty_transcript_is_refused() {
    match check_transcript(&[]) {
        Err(Error::InvalidState(m)) => assert_eq!(m, "transcript is empty"),
        other => panic!("unexpected {other:?}"),
    }
    assert!(check_transcript(&[utt(0, "x")]).is_ok());
}

#[test]
fn reply_stop_reasons() {
    let refusal = reply_text(Some("refusal".into()), Some("x".into())).unwrap_err();
    assert_eq!(
        refusal.message(),
        "anthropic API error (200): model declined the request (stop_reason=refusal)"
    );
    let truncated = reply_text(Some("max_tokens".into()), None).unwrap_err();
    assert!(truncated.message().contains("stop_reason=max_tokens"));
    let missing = reply_text(None, None).unwrap_err();
    assert!(missing.message().contains("no text block in response"));
    assert_eq!(reply_text(Some("end_turn".into()), Some("{}".into())).unwrap(), "{}");
    assert_eq!(reply_text(None, Some("{}".into())).unwrap(), "{}");
}
