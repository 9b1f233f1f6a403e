use ogma_core::datetime::DateStamp;
use ogma_core::desktop::{
    import_label, import_title, interrupted_status, is_supported_audio, recording_title,
    items_of_meeting, portable_path, recovered_recording_status, unsupported_type_error, ImportSummary,
};
use ogma_core::models::{ActionItem, MeetingStatus};

#[test]
fn supported_audio_accepts_known_exts_case_insensitively() {
    assert!(is_supported_audio("a.wav"));
    assert!(is_supported_audio("a.M4A"));
    assert!(is_supported_audio("a.Mp3"));
    assert!(!is_supported_audio("notes.txt"));
    assert!(!is_supported_audio("no_extension"));
    // A directory dropped alongside audio has no audio extension.
    assert!(!is_supported_audio("some_dir"));
    // Not fooled by an extension-looking name in a parent component.
    assert!(!is_supported_audio("wav/readme.md"));
}

#[test]
fn supported_audio_edge_paths() {
    assert!(is_supported_audio("/music/take.one.FLAC"));
    assert!(is_supported_audio("dir/a.ogg/"));
    assert!(!is_supported_audio(".wav"));
    assert!(!is_supported_audio("dir/.."));
    assert!(!is_supported_audio(""));
    assert!(is_supported_audio("call.m4a/."));
}

#[test]
fn import_label_is_the_file_name() {
    assert_eq!(import_label("/tmp/deep/nested/take one.mp3"), "take one.mp3");
    assert_eq!(import_label("bad.wav"), "bad.wav");
    assert_eq!(import_label("/"), "/");
    assert_eq!(import_label("a/.."), "a/..");
}

#[test]
fn import_summary_counts_each_file() {
    let mut summary = ImportSummary::new();
    summary.record("good1.wav", Ok("id".into()));
    summary.record("bad.wav", Err("decode failed".into()));
    summary.record("/tmp/deep/nested/take one.mp3", Err("unsupported".into()));
    summary.record("good2.wav", Ok("id".into()));
    assert_eq!(summary.imported, 2);
    assert_eq!(
        summary.errors,
        vec!["bad.wav: decode failed".to_string(), "take one.mp3: unsupported".to_string()]
    );
}

#[test]
fn titles_default_sensibly() {
    let now = DateStamp { year: 2026, month: 7, day: 9, hour: 9, minute: 5 };
    assert_eq!(recording_title(None, &now), "Meeting 2026-07-09 09:05");
    assert_eq!(recording_title(Some("  ".into()), &now), "Meeting 2026-07-09 09:05");
    assert_eq!(recording_title(Some("Standup".into()), &now), "Standup");
    assert_eq!(import_title(None, "/x/Voice Memo.m4a", &now), "Voice Memo");
    assert_eq!(import_title(Some("Kickoff".into()), "/x/a.m4a", &now), "Kickoff");
    assert_eq!(import_title(None, "/", &now), "Imported 2026-07-09 09:05");
}

#[test]
fn unsupported_type_lists_the_extensions() {
    assert_eq!(
        unsupported_type_error(),
        "unsupported file type \u{2014} expected one of: wav, m4a, mp3, flac, ogg, mp4, aac"
    );
}

#[test]
fn restart_recovery_statuses() {
    let (s, m) = recovered_recording_status(true);
    assert_eq!(s, MeetingStatus::Recorded);
    assert!(m.is_none());
    let (s, m) = recovered_recording_status(false);
    assert_eq!(s, MeetingStatus::Error);
    assert_eq!(m.unwrap(), "recording was interrupted and no audio could be recovered");
    for st in [MeetingStatus::Recorded, MeetingStatus::Transcribing, MeetingStatus::Summarizing, MeetingStatus::Syncing] {
        let (s, m) = interrupted_status(st).unwrap();
        assert_eq!(s, MeetingStatus::Error);
        assert_eq!(m, "processing was interrupted \u{2014} press Retry");
    }
    assert!(interrupted_status(MeetingStatus::Done).is_none());
    assert!(interrupted_status(MeetingStatus::Recording).is_none());
}

/// Feed each path's outcome to a fresh summary, in order.
fn summarize(outcomes: Vec<(&str, Result<String, String>)>) -> ImportSummary {
    let mut summary = ImportSummary::new();
    for (path, outcome) in outcomes {
        summary.record(path, outcome);
    }
    summary
}

#[test]
fn import_many_counts_every_success() {
    let summary = summarize(vec![("a.wav", Ok("id".into())), ("b.wav", Ok("id".into()))]);
    assert_eq!(summary.imported, 2);
    assert!(summary.errors.is_empty());
}

#[test]
fn import_many_reports_every_failure_and_imports_nothing() {
    let summary = summarize(vec![("a.wav", Err("boom".into())), ("b.wav", Err("boom".into()))]);
    assert_eq!(summary.imported, 0);
    assert_eq!(summary.errors.len(), 2);
    assert!(summary.errors.iter().all(|e| e.contains("boom")));
}

#[test]
fn import_many_keeps_going_past_a_bad_file() {
    let files = ["good1.wav", "bad.wav", "good2.wav"];
    let mut attempted = Vec::new();
    let mut summary = ImportSummary::new();
    for f in files {
        attempted.push(f);
        let outcome = if f == "bad.wav" { Err("decode failed".to_string()) } else { Ok("id".to_string()) };
        summary.record(f, outcome);
    }
    assert_eq!(summary.imported, 2);
    assert_eq!(attempted.len(), 3);
    assert_eq!(summary.errors, vec!["bad.wav: decode failed".to_string()]);
}

#[test]
fn import_many_labels_errors_by_file_name_not_full_path() {
    let summary = summarize(vec![("/tmp/deep/nested/take one.mp3", Err("unsupported".into()))]);
    assert_eq!(summary.errors, vec!["take one.mp3: unsupported".to_string()]);
}

#[test]
fn import_many_on_empty_input_is_a_silent_no_op() {
    let summary = summarize(vec![]);
    assert_eq!(summary.imported, 0);
    assert!(summary.errors.is_empty());
}

#[test]
fn dropped_filter_passes_only_audio_to_the_importer() {
    let dropped = ["talk.wav", "notes.txt", "cover.png", "call.m4a"];
    let audio: Vec<&str> = dropped.into_iter().filter(|p| is_supported_audio(p)).collect();
    assert_eq!(audio, vec!["talk.wav", "call.m4a"]);
    let mut imported = Vec::new();
    let mut summary = ImportSummary::new();
    for p in &audio {
        imported.push(*p);
        summary.record(p, Ok("id".into()));
    }
    assert_eq!(summary.imported, 2);
    assert!(summary.errors.is_empty());
    assert_eq!(imported, vec!["talk.wav", "call.m4a"]);
}

#[test]
fn meeting_detail_keeps_only_its_action_items() {
    let item = |id: i64, meeting: &str| ActionItem {
        id,
        meeting_id: meeting.to_string(),
        task: format!("task {id}"),
        owner: None,
        due: None,
        status: "open".to_string(),
    };
    let items = vec![item(1, "m1"), item(2, "m2"), item(3, "m1")];
    let mine = items_of_meeting(items, "m1");
    assert_eq!(mine.iter().map(|i| i.id).collect::<Vec<_>>(), vec![1, 3]);
    assert!(items_of_meeting(vec![item(4, "m2")], "m1").is_empty());
}

#[test]
fn windows_paths_split_on_backslashes_too() {
    let p = portable_path("C:\\Users\\me\\Voice Memo.M4A", true);
    assert_eq!(p, "C:/Users/me/Voice Memo.M4A");
    assert_eq!(import_label(&p), "Voice Memo.M4A");
    assert!(is_supported_audio(&p));
    let now = DateStamp { year: 2026, month: 7, day: 9, hour: 9, minute: 5 };
    assert_eq!(import_title(None, &p, &now), "Voice Memo");
    // Elsewhere a backslash is an ordinary character of a file name.
    assert_eq!(portable_path("dir/a\\b.wav", false), "dir/a\\b.wav");
    assert_eq!(import_label(&portable_path("dir/a\\b.wav", false)), "a\\b.wav");
}
