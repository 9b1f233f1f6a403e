use ogma_core::audio_recorder::{mobile_only, PluginError, MOBILE_ONLY};
use ogma_core::datetime::{minute_stamp, DateStamp};
use ogma_core::error::Error;
use ogma_core::mcp::{filter_meetings, SearchTranscriptParams, DEFAULT_SEARCH_LIMIT};
use ogma_core::models::{Highlight, Meeting, MeetingNotes, MeetingStatus, NoteActionItem};
use ogma_core::storage::{fts_query, rename_in_notes};

fn meeting(title: &str) -> Meeting {
    Meeting {
        id: title.to_lowercase(),
        title: title.into(),
        created_at: "2026-07-09T14:32:00Z".into(),
        duration_ms: 0,
        status: MeetingStatus::Done,
        error: None,
        audio_dir: "/d".into(),
        notion_page_id: None,
    }
}

#[test]
fn status_names_round_trip() {
    for s in [
        MeetingStatus::Recording,
        MeetingStatus::Recorded,
        MeetingStatus::Transcribing,
        MeetingStatus::Summarizing,
        MeetingStatus::Syncing,
        MeetingStatus::Done,
        MeetingStatus::Error,
    ] {
        assert_eq!(MeetingStatus::parse(s.as_str()), s);
    }
    assert_eq!(MeetingStatus::Summarizing.as_str(), "summarizing");
    assert_eq!(MeetingStatus::parse("bogus"), MeetingStatus::Error);
}

#[test]
fn error_messages() {
    assert_eq!(Error::Audio("x".into()).message(), "audio device error: x");
    assert_eq!(Error::Storage("x".into()).message(), "storage error: x");
    assert_eq!(Error::Io("x".into()).message(), "io error: x");
    assert_eq!(Error::Http { message: "x".into(), transient: true }.message(), "http error: x");
    assert_eq!(
        Error::Api { provider: "notion".into(), status: 404, message: "gone".into() }.message(),
        "notion API error (404): gone"
    );
    assert_eq!(Error::Config("x".into()).message(), "config error: x");
    assert_eq!(Error::InvalidState("x".into()).message(), "invalid state: x");
    assert_eq!(Error::NotFound("x".into()).message(), "not found: x");
    assert_eq!(Error::Other("x".into()).message(), "x");
}

#[test]
fn fts_queries_quote_each_word() {
    assert_eq!(fts_query("budget  review"), "\"budget\" \"review\"");
    assert_eq!(fts_query("say \"hi\""), "\"say\" \"\"\"hi\"\"\"");
    assert_eq!(fts_query("   "), "");
}

#[test]
fn meeting_titles_filter_case_insensitively() {
    let all = vec![meeting("Budget Review"), meeting("Standup"), meeting("budget sync")];
    let hits = filter_meetings(all.clone(), Some("BUDGET".into()));
    assert_eq!(hits.iter().map(|m| m.title.as_str()).collect::<Vec<_>>(), vec!["Budget Review", "budget sync"]);
    assert_eq!(filter_meetings(all.clone(), Some(String::new())).len(), 3);
    assert_eq!(filter_meetings(all, None).len(), 3);
}

#[test]
fn search_limit_defaults_to_twenty() {
    let p = SearchTranscriptParams { query: "x".into(), limit: None };
    assert_eq!(p.limit_or_default(), DEFAULT_SEARCH_LIMIT);
    assert_eq!(DEFAULT_SEARCH_LIMIT, 20);
    let p = SearchTranscriptParams { query: "x".into(), limit: Some(5) };
    assert_eq!(p.limit_or_default(), 5);
}

#[test]
fn recorder_plugin_is_mobile_only() {
    match mobile_only::<()>() {
        Err(PluginError::Recording(m)) => assert_eq!(m, MOBILE_ONLY),
        Ok(()) => panic!("expected an error"),
    }
}

#[test]
fn minute_stamps_are_zero_padded() {
    let d = DateStamp { year: 987, month: 1, day: 2, hour: 3, minute: 4 };
    assert_eq!(minute_stamp(&d, '.'), "0987-01-02 03.04");
    assert_eq!(minute_stamp(&d, ':'), "0987-01-02 03:04");
}

#[test]
fn renaming_a_speaker_reaches_the_notes() {
    let notes = MeetingNotes {
        title: "Billing".into(),
        tldr: "t".into(),
        summary: "s".into(),
        key_points: vec!["Speaker A".into(), "billing".into()],
        decisions: vec![],
        action_items: vec![NoteActionItem {
            task: "fix billing".into(),
            owner: Some("Speaker A".into()),
            due: None,
        }],
        open_questions: vec![],
        highlights: vec![Highlight {
            quote: "billing is fragile".into(),
            speaker: "Speaker B".into(),
            timestamp_ms: 1000,
        }],
    };
    let renamed = rename_in_notes(&notes, "Speaker A", "Maria");
    assert_eq!(renamed.action_items[0].owner.as_deref(), Some("Maria"));
    assert_eq!(renamed.action_items[0].task, "fix billing");
    assert!(renamed.action_items[0].due.is_none());
    assert_eq!(renamed.key_points, vec!["Maria".to_string(), "billing".to_string()]);
    assert_eq!(renamed.highlights[0].speaker, "Speaker B");
    assert_eq!(renamed.highlights[0].timestamp_ms, 1000);
    assert_eq!(renamed.title, "Billing");
    // Only whole texts are renamed, never parts of one.
    let again = rename_in_notes(&notes, "billing", "invoicing");
    assert_eq!(again.key_points[1], "invoicing");
    assert_eq!(again.action_items[0].task, "fix billing");
}
