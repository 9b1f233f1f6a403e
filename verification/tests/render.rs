use ogma_core::models::{Highlight, MeetingNotes, NoteActionItem, TranscriptSegment};
use ogma_core::pipeline::UNLABELED_SPEAKER;
use ogma_core::sync::render::{
    blocks_to_html, blocks_to_markdown, collapse_list_gaps, distinct_speakers, format_ms,
    html_escape, note_blocks, Block,
};

fn sample_notes() -> MeetingNotes {
    MeetingNotes {
        title: "Weekly planning".into(),
        tldr: "We agreed to ship v1 this month.".into(),
        summary: "First paragraph.\n\nSecond paragraph.".into(),
        key_points: vec!["Point one".into()],
        decisions: vec!["Ship it".into()],
        action_items: vec![NoteActionItem {
            task: "Write the release notes".into(),
            owner: Some("Maria".into()),
            due: Some("2026-07-15".into()),
        }],
        open_questions: vec!["Budget?".into()],
        highlights: vec![Highlight {
            quote: "This is the one".into(),
            speaker: "Tom".into(),
            timestamp_ms: 65_000,
        }],
    }
}

fn sample_segments() -> Vec<TranscriptSegment> {
    vec![
        TranscriptSegment {
            speaker: "Maria".into(),
            start_ms: 0,
            end_ms: 4_000,
            text: "Let's get started.".into(),
        },
        TranscriptSegment {
            speaker: "Tom".into(),
            start_ms: 4_000,
            end_ms: 9_000,
            text: "Agenda first.".into(),
        },
    ]
}

#[test]
fn markdown_covers_all_sections() {
    let md = blocks_to_markdown(&note_blocks(&sample_notes(), &sample_segments()));
    assert!(md.contains("> [!summary] TL;DR\n> We agreed to ship v1 this month."));
    assert!(md.contains("## Summary\n"));
    assert!(md.contains("First paragraph.\n\nSecond paragraph."));
    assert!(md.contains("## Key points\n\n- Point one"));
    assert!(md.contains("- [ ] Write the release notes — Maria (due 2026-07-15)"));
    assert!(md.contains("> \u{201c}This is the one\u{201d} — Tom (1:05)"));
    assert!(md.contains("**Maria (0:00):** Let's get started."));
    assert!(md.contains("**Tom (0:04):** Agenda first."));
}

#[test]
fn empty_sections_are_omitted() {
    let notes = MeetingNotes {
        key_points: vec![],
        decisions: vec![],
        action_items: vec![],
        open_questions: vec![],
        highlights: vec![],
        ..sample_notes()
    };
    let md = blocks_to_markdown(&note_blocks(&notes, &[]));
    assert!(!md.contains("## Key points"));
    assert!(!md.contains("## Action items"));
    assert!(!md.contains("## Transcript"));
}

#[test]
fn consecutive_bullets_form_one_list() {
    let blocks = vec![
        Block::Bullet("one".into()),
        Block::Bullet("two".into()),
        Block::Heading("Next".into()),
    ];
    let md = blocks_to_markdown(&blocks);
    assert!(md.contains("- one\n- two\n\n## Next"));
}

#[test]
fn render_distinct_speakers_dedupes_and_drops_unlabeled() {
    let seg = |speaker: &str| TranscriptSegment {
        speaker: speaker.to_string(),
        start_ms: 0,
        end_ms: 0,
        text: String::new(),
    };
    let segments = vec![seg("Maria"), seg(UNLABELED_SPEAKER), seg("Tom"), seg("Maria")];
    assert_eq!(distinct_speakers(&segments), vec!["Maria", "Tom"]);
}

#[test]
fn format_ms_variants() {
    assert_eq!(format_ms(65_000), "1:05");
    assert_eq!(format_ms(3_725_000), "1:02:05");
}

#[test]
fn format_ms_edges() {
    assert_eq!(format_ms(0), "0:00");
    assert_eq!(format_ms(999), "0:00");
    assert_eq!(format_ms(3_600_000), "1:00:00");
    assert_eq!(format_ms(-61_000), "-1:-1");
}

#[test]
fn note_blocks_in_order() {
    let blocks = note_blocks(&sample_notes(), &sample_segments());
    assert_eq!(blocks[0], Block::Callout("We agreed to ship v1 this month.".into()));
    assert_eq!(blocks[1], Block::Heading("Summary".into()));
    assert_eq!(blocks[2], Block::Paragraph("First paragraph.".into()));
    assert_eq!(
        blocks.last().unwrap(),
        &Block::Utterance { speaker: "Tom".into(), stamp: "0:04".into(), text: "Agenda first.".into() }
    );
}

#[test]
fn list_gaps_collapse_only_between_items() {
    assert_eq!(collapse_list_gaps("- a\n\n- b\n\ntext\n\n- c\n"), "- a\n- b\n\ntext\n\n- c\n");
    assert_eq!(collapse_list_gaps(""), "\n");
    assert_eq!(collapse_list_gaps("a\r\nb"), "a\nb\n");
}

#[test]
fn quote_lines_each_get_a_marker() {
    let md = blocks_to_markdown(&[Block::Quote("one\ntwo".into()), Block::Todo("t".into())]);
    assert_eq!(md, "> one\n> two\n\n- [ ] t\n\n");
}

#[test]
fn html_escapes_and_renders() {
    assert_eq!(html_escape("a<b>&\"c\""), "a&lt;b&gt;&amp;&quot;c&quot;");
    let html = blocks_to_html(&[Block::Heading("H & I".into()), Block::Bullet("x".into())]);
    assert_eq!(html, "<h2>H &amp; I</h2>\n<ul><li>x</li></ul>\n");
}
