use ogma_core::models::{Highlight, Meeting, MeetingNotes, MeetingStatus, NoteActionItem, TranscriptSegment};
use ogma_core::sync::apple_notes::{friendly_date, interpret, note_html};

fn meeting() -> Meeting {
    Meeting {
        id: "m1".into(),
        title: "Q3 <planning> & review".into(),
        created_at: "2026-07-09T14:32:00+02:00".into(),
        duration_ms: 3_720_000,
        status: MeetingStatus::Done,
        error: None,
        audio_dir: "/data/m1".into(),
        notion_page_id: None,
    }
}

fn sample_notes() -> MeetingNotes {
    MeetingNotes {
        title: "Weekly planning".into(),
        tldr: "We agreed to ship v1 this month.".into(),
        summary: "First paragraph.\n\nSecond paragraph.".into(),
        key_points: vec!["Point one".into()],
        decisions: vec!["Ship it".into()],
        action_items: vec![NoteActionItem {
            task: "Write the release notes".into(),
            owner: Some("Maria".into()),
            due: Some("2026-07-15".into()),
        }],
        open_questions: vec!["Budget?".into()],
        highlights: vec![Highlight {
            quote: "This is the one".into(),
            speaker: "Tom".into(),
            timestamp_ms: 65_000,
        }],
    }
}

fn sample_segments() -> Vec<TranscriptSegment> {
    vec![
        TranscriptSegment {
            speaker: "Maria".into(),
            start_ms: 0,
            end_ms: 4_000,
            text: "Let's get started.".into(),
        },
        TranscriptSegment {
            speaker: "Tom".into(),
            start_ms: 4_000,
            end_ms: 9_000,
            text: "Agenda first.".into(),
        },
    ]
}

#[test]
fn note_html_has_title_meta_and_body() {
    let html = note_html(&meeting(), &sample_notes(), &sample_segments());
    assert!(html.starts_with("<h1>Q3 &lt;planning&gt; &amp; review</h1>"));
    assert!(html.contains("<div><i>2026-07-09 14:32 · 62 min · Maria, Tom</i></div>"));
    assert!(html.contains("<h2>Transcript</h2>"));
}

#[test]
fn friendly_date_falls_back_to_raw() {
    assert_eq!(friendly_date("2026-07-09T14:32:00+02:00"), "2026-07-09 14:32");
    assert_eq!(friendly_date("garbage"), "garbage");
}

#[test]
fn interpret_returns_trimmed_note_id_on_success() {
    assert_eq!(
        interpret(true, b"x-coredata://note/42\n", b"").unwrap(),
        "x-coredata://note/42"
    );
}

#[test]
fn interpret_empty_stdout_on_success_is_an_error() {
    let err = interpret(true, b"  \n", b"").unwrap_err().message();
    assert!(err.contains("no note id"), "{err}");
}

#[test]
fn interpret_permission_denial_adds_the_automation_hint() {
    let err = interpret(
        false,
        b"",
        b"execution error: Not authorized to send Apple events to Notes. (-1743)",
    )
    .unwrap_err()
    .message();
    assert!(err.contains("-1743"), "{err}");
    assert!(err.contains("Automation"), "{err}");
}

#[test]
fn interpret_other_failure_has_no_hint() {
    let err = interpret(false, b"", b"execution error: Notes got an error (-2700)")
        .unwrap_err()
        .message();
    assert!(err.contains("-2700"), "{err}");
    assert!(!err.contains("Automation"), "{err}");
}

#[test]
fn note_html_without_duration_or_attendees() {
    let mut m = meeting();
    m.duration_ms = 0;
    m.created_at = "not a date".into();
    let html = note_html(&m, &sample_notes(), &[]);
    assert!(html.contains("<div><i>not a date</i></div>\n"));
    assert!(!html.contains("<h2>Transcript</h2>"));
    assert!(html.contains("<ul><li>\u{2610} Write the release notes"));
}
