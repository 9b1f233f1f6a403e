use ogma_core::error::Error;
use ogma_core::models::{Highlight, Meeting, MeetingNotes, MeetingStatus, NoteActionItem, TranscriptSegment};
use ogma_core::notion::{
    clamp, created_id, distinct_speakers, notes_blocks, page_properties, request_outcome,
    retry_without_new_properties, split_text, transcript_batches, transcript_paragraphs_of,
    setup_parent, MAX_NOTES_BLOCKS, MAX_TEXT,
};
use ogma_core::pipeline::UNLABELED_SPEAKER;
use ogma_core::sync::render::Block;

fn seg(speaker: &str) -> TranscriptSegment {
    TranscriptSegment {
        speaker: speaker.to_string(),
        start_ms: 0,
        end_ms: 0,
        text: String::new(),
    }
}

#[test]
fn split_text_respects_char_boundaries() {
    let s = "é".repeat(4000);
    let pieces = split_text(&s, 1900);
    assert_eq!(pieces.len(), 3);
    assert!(pieces.iter().all(|p| p.chars().count() <= 1900));
}

#[test]
fn notion_distinct_speakers_dedupes_and_drops_unlabeled() {
    let segments = vec![seg("Maria"), seg(UNLABELED_SPEAKER), seg("Tom, Jr."), seg("Maria")];
    assert_eq!(
        distinct_speakers(&segments),
        vec!["Maria".to_string(), "Tom  Jr.".to_string()]
    );
}

#[test]
fn split_text_of_empty_is_one_empty_piece() {
    assert_eq!(split_text("", 10), vec![String::new()]);
    assert_eq!(split_text("abcdefghij", 10), vec!["abcdefghij".to_string()]);
    assert_eq!(
        split_text("abcdefghijk", 4),
        vec!["abcd".to_string(), "efgh".to_string(), "ijk".to_string()]
    );
    let joined: String = split_text(&"xy".repeat(2000), MAX_TEXT).concat();
    assert_eq!(joined, "xy".repeat(2000));
}

#[test]
fn clamp_keeps_the_first_piece() {
    assert_eq!(clamp("short"), "short");
    assert_eq!(clamp(&"a".repeat(2500)).chars().count(), 1900);
    assert_eq!(clamp(""), "");
}

fn notes() -> MeetingNotes {
    MeetingNotes {
        title: "Weekly planning".into(),
        tldr: "We agreed.".into(),
        summary: "One.\n\n  \n\nTwo.".into(),
        key_points: vec!["Point".into()],
        decisions: vec![],
        action_items: vec![NoteActionItem {
            task: "Write".into(),
            owner: Some("Maria".into()),
            due: None,
        }],
        open_questions: vec![],
        highlights: vec![Highlight {
            quote: "Yes".into(),
            speaker: "Tom".into(),
            timestamp_ms: 65_000,
        }],
    }
}

#[test]
fn notes_blocks_cover_the_sections() {
    let blocks = notes_blocks(&notes());
    assert_eq!(
        blocks,
        vec![
            Block::Callout("We agreed.".into()),
            Block::Heading("Summary".into()),
            Block::Paragraph("One.".into()),
            Block::Paragraph("Two.".into()),
            Block::Heading("Key points".into()),
            Block::Bullet("Point".into()),
            Block::Heading("Action items".into()),
            Block::Todo("Write \u{2014} Maria".into()),
            Block::Heading("Highlights".into()),
            Block::Quote("\u{201c}Yes\u{201d} \u{2014} Tom (1:05)".into()),
        ]
    );
}

#[test]
fn notes_blocks_are_capped() {
    let mut n = notes();
    n.key_points = (0..200).map(|i| format!("p{i}")).collect();
    let blocks = notes_blocks(&n);
    assert_eq!(blocks.len(), MAX_NOTES_BLOCKS);
    assert_eq!(MAX_NOTES_BLOCKS, 95);
}

#[test]
fn transcript_paragraphs_prefix_the_first_piece() {
    let segs = vec![
        TranscriptSegment {
            speaker: "Maria".into(),
            start_ms: 65_000,
            end_ms: 70_000,
            text: "a".repeat(2000),
        },
        TranscriptSegment {
            speaker: "Tom".into(),
            start_ms: 3_725_000,
            end_ms: 3_726_000,
            text: "ok".into(),
        },
    ];
    let paras = transcript_paragraphs_of(&segs);
    assert_eq!(paras.len(), 3);
    assert_eq!(paras[0], format!("Maria (1:05): {}", "a".repeat(1900)));
    assert_eq!(paras[1], "a".repeat(100));
    assert_eq!(paras[2], "Tom (1:02:05): ok");
}

#[test]
fn transcript_batches_hold_at_most_ninety() {
    let segs: Vec<TranscriptSegment> = (0..200)
        .map(|i| TranscriptSegment {
            speaker: "S".into(),
            start_ms: i * 1000,
            end_ms: i * 1000,
            text: format!("t{i}"),
        })
        .collect();
    let batches = transcript_batches(&segs);
    assert_eq!(batches.iter().map(|b| b.len()).collect::<Vec<_>>(), vec![90, 90, 20]);
    assert!(transcript_batches(&[]).is_empty());
}

#[test]
fn page_properties_follow_the_meeting() {
    let meeting = Meeting {
        id: "m1".into(),
        title: "Weekly".into(),
        created_at: "2026-07-09T14:32:00Z".into(),
        duration_ms: 3_720_000,
        status: MeetingStatus::Done,
        error: None,
        audio_dir: "/d".into(),
        notion_page_id: None,
    };
    let segs = vec![seg("Maria"), seg("A, B")];
    let p = page_properties(&meeting, &notes(), &segs);
    assert_eq!(p.title, "Weekly");
    assert_eq!(p.date, "2026-07-09T14:32:00Z");
    assert_eq!(p.duration_min, 62);
    assert_eq!(p.attendees, vec!["Maria".to_string(), "A  B".to_string()]);
    assert_eq!(p.action_items, 1);
}

#[test]
fn replies_and_errors() {
    assert!(request_outcome(200, None).is_ok());
    match request_outcome(404, None) {
        Err(Error::Api { provider, status, message }) => {
            assert_eq!(provider, "notion");
            assert_eq!(status, 404);
            assert_eq!(message, "unknown error");
        }
        other => panic!("unexpected {other:?}"),
    }
    match request_outcome(400, Some("bad".into())) {
        Err(e) => {
            assert!(retry_without_new_properties(&e));
            assert_eq!(e.message(), "notion API error (400): bad");
        }
        Ok(()) => panic!("expected an error"),
    }
    assert!(!retry_without_new_properties(&Error::Other("x".into())));
    assert_eq!(created_id(Some("abc".into()), "page").unwrap(), "abc");
    assert_eq!(
        created_id(None, "page").unwrap_err().message(),
        "notion: page response missing id"
    );
}

#[test]
fn setup_needs_a_key_and_trims_the_parent() {
    assert_eq!(setup_parent("", "abc").unwrap_err(), "Notion API key is not set");
    assert_eq!(setup_parent("secret", "  abc123 \n").unwrap(), "abc123");
}
