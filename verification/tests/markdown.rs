use ogma_core::models::{Highlight, Meeting, MeetingNotes, MeetingStatus, NoteActionItem, TranscriptSegment};
use ogma_core::sync::markdown::{file_name, render_markdown, sanitize_title, yaml_quote, MarkdownDestination};

fn meeting() -> Meeting {
    Meeting {
        id: "abcdef12-3456-7890-abcd-ef1234567890".into(),
        title: "Weekly planning".into(),
        created_at: "2026-07-09T14:32:00+02:00".into(),
        duration_ms: 3_720_000,
        status: MeetingStatus::Done,
        error: None,
        audio_dir: "/data/m1".into(),
        notion_page_id: None,
    }
}

fn sample_notes() -> MeetingNotes {
    MeetingNotes {
        title: "Weekly planning".into(),
        tldr: "We agreed to ship v1 this month.".into(),
        summary: "First paragraph.\n\nSecond paragraph.".into(),
        key_points: vec!["Point one".into()],
        decisions: vec!["Ship it".into()],
        action_items: vec![NoteActionItem {
            task: "Write the release notes".into(),
            owner: Some("Maria".into()),
            due: Some("2026-07-15".into()),
        }],
        open_questions: vec!["Budget?".into()],
        highlights: vec![Highlight {
            quote: "This is the one".into(),
            speaker: "Tom".into(),
            timestamp_ms: 65_000,
        }],
    }
}

fn sample_segments() -> Vec<TranscriptSegment> {
    vec![
        TranscriptSegment {
            speaker: "Maria".into(),
            start_ms: 0,
            end_ms: 4_000,
            text: "Let's get started.".into(),
        },
        TranscriptSegment {
            speaker: "Tom".into(),
            start_ms: 4_000,
            end_ms: 9_000,
            text: "Agenda first.".into(),
        },
    ]
}

#[test]
fn file_name_is_stamped_and_sanitized() {
    let mut m = meeting();
    m.title = "Q3: budget / planning?".into();
    assert_eq!(file_name(&m), "2026-07-09 14.32 Q3 budget planning.md");
}

#[test]
fn file_name_falls_back_to_id_on_bad_date() {
    let mut m = meeting();
    m.created_at = "not a date".into();
    assert_eq!(file_name(&m), "abcdef12 Weekly planning.md");
}

#[test]
fn sanitize_title_never_returns_empty() {
    assert_eq!(sanitize_title("///"), "Meeting");
    assert_eq!(sanitize_title("  ..  "), "Meeting");
    assert_eq!(sanitize_title("ok"), "ok");
    assert!(sanitize_title(&"x".repeat(200)).chars().count() <= 80);
}

#[test]
fn frontmatter_lists_attendees_and_meta() {
    let md = render_markdown(&meeting(), &sample_notes(), &sample_segments());
    assert!(md.starts_with("---\ntitle: \"Weekly planning\"\n"));
    assert!(md.contains("date: 2026-07-09T14:32:00+02:00\n"));
    assert!(md.contains("duration_minutes: 62\n"));
    assert!(md.contains("attendees:\n  - \"Maria\"\n  - \"Tom\"\n"));
    assert!(md.contains("## Transcript"));
}

#[test]
fn yaml_quote_escapes() {
    assert_eq!(yaml_quote(r#"a "b" \c"#), r#""a \"b\" \\c""#);
}

#[test]
fn frontmatter_without_duration_or_attendees() {
    let mut m = meeting();
    m.duration_ms = 0;
    let md = render_markdown(&m, &sample_notes(), &[]);
    assert!(md.starts_with(
        "---\ntitle: \"Weekly planning\"\ndate: 2026-07-09T14:32:00+02:00\ntags:\n  - meeting\nsource: ogma\n---\n\n"
    ));
    assert!(!md.contains("attendees:"));
    assert!(!md.contains("duration_minutes"));
}

#[test]
fn sanitize_title_collapses_and_trims() {
    assert_eq!(sanitize_title("  a\t\tb  c.. "), "a b c");
    assert_eq!(sanitize_title("x|y*z"), "x y z");
    assert_eq!(sanitize_title("line\nbreak"), "line break");
    let long = format!("{}.yy", "w".repeat(79));
    assert_eq!(sanitize_title(&long), "w".repeat(79));
}

#[test]
fn destination_keeps_its_dir() {
    assert_eq!(MarkdownDestination::new("/vault").dir, "/vault");
}

#[test]
fn sanitized_titles_are_tidy_and_stable() {
    let long = "x ".repeat(100);
    for t in ["  Q3:  planning / review..  ", "...", "a\tb\n\nc", "Weekly sync", long.as_str()] {
        let once = sanitize_title(t);
        assert_eq!(sanitize_title(&once), once);
        assert!(!once.contains("  "));
        assert!(!once.starts_with(' ') && !once.ends_with(' '));
        assert!(!once.starts_with('.') && !once.ends_with('.'));
    }
    assert_eq!(sanitize_title("  Q3:  planning / review..  "), "Q3 planning review");
}
