//! The meeting library's records.

use vstd::prelude::*;

use crate::text::str_eq;

verus! {

/// Lifecycle of a meeting through the pipeline. Stored as lowercase names.
#[derive(Debug, Clone, Copy, PartialEq, Eq, Structural)]
pub enum MeetingStatus {
    Recording,
    /// Audio safely on disk, pipeline not yet finished with transcription.
    Recorded,
    Transcribing,
    /// Speaker attribution and notes generation.
    Summarizing,
    /// Notes done locally, pushing to the destinations.
    Syncing,
    Done,
    Error,
}

impl MeetingStatus {
    /// The stored name of a status.
    pub open spec fn spec_name(self) -> Seq<char> {
        match self {
            MeetingStatus::Recording => "recording"@,
            MeetingStatus::Recorded => "recorded"@,
            MeetingStatus::Transcribing => "transcribing"@,
            MeetingStatus::Summarizing => "summarizing"@,
            MeetingStatus::Syncing => "syncing"@,
            MeetingStatus::Done => "done"@,
            MeetingStatus::Error => "error"@,
        }
    }

    /// The status a stored name denotes; any unknown name reads as `Error`.
    pub open spec fn spec_parse(s: Seq<char>) -> MeetingStatus {
        if s == "recording"@ {
            MeetingStatus::Recording
        } else if s == "recorded"@ {
            MeetingStatus::Recorded
        } else if s == "transcribing"@ {
            MeetingStatus::Transcribing
        } else if s == "summarizing"@ {
            MeetingStatus::Summarizing
        } else if s == "syncing"@ {
            MeetingStatus::Syncing
        } else if s == "done"@ {
            MeetingStatus::Done
        } else {
            MeetingStatus::Error
        }
    }

    pub fn as_str(&self) -> (s: &'static str)
        ensures
            s@ == self.spec_name(),
    {
        match self {
            MeetingStatus::Recording => "recording",
            MeetingStatus::Recorded => "recorded",
            MeetingStatus::Transcribing => "transcribing",
            MeetingStatus::Summarizing => "summarizing",
            MeetingStatus::Syncing => "syncing",
            MeetingStatus::Done => "done",
            MeetingStatus::Error => "error",
        }
    }

    pub fn parse(s: &str) -> (st: MeetingStatus)
        ensures
            st == MeetingStatus::spec_parse(s@),
    {
        if str_eq(s, "recording") {
            MeetingStatus::Recording
        } else if str_eq(s, "recorded") {
            MeetingStatus::Recorded
        } else if str_eq(s, "transcribing") {
            MeetingStatus::Transcribing
        } else if str_eq(s, "summarizing") {
            MeetingStatus::Summarizing
        } else if str_eq(s, "syncing") {
            MeetingStatus::Syncing
        } else if str_eq(s, "done") {
            MeetingStatus::Done
        } else {
            MeetingStatus::Error
        }
    }
}

/// Reading back a stored status name gives the status that was stored.
pub proof fn lemma_status_name_round_trip(st: MeetingStatus)
    ensures
        MeetingStatus::spec_parse(st.spec_name()) == st,
{
    reveal_strlit("recording");
    reveal_strlit("recorded");
    reveal_strlit("transcribing");
    reveal_strlit("summarizing");
    reveal_strlit("syncing");
    reveal_strlit("done");
    reveal_strlit("error");
    assert("recording"@.len() == 9);
    assert("recorded"@.len() == 8);
    assert("transcribing"@.len() == 12);
    assert("summarizing"@.len() == 11);
    assert("syncing"@.len() == 7);
    assert("done"@.len() == 4);
    assert("error"@.len() == 5);
}

/// Distinct statuses are stored under distinct names.
pub proof fn lemma_status_names_distinct(a: MeetingStatus, b: MeetingStatus)
    ensures
        a.spec_name() == b.spec_name() ==> a == b,
{
    lemma_status_name_round_trip(a);
    lemma_status_name_round_trip(b);
}

#[derive(Debug, Clone)]
pub struct Meeting {
    pub id: String,
    pub title: String,
    /// RFC3339 timestamp of when recording started.
    pub created_at: String,
    pub duration_ms: i64,
    pub status: MeetingStatus,
    /// Human-readable error of the last failed pipeline step, if status == Error.
    pub error: Option<String>,
    /// Directory holding seg-*.wav chunks and the concatenated audio.wav.
    pub audio_dir: String,
    pub notion_page_id: Option<String>,
}

/// One diarized utterance of the transcript.
#[derive(Debug, Clone)]
pub struct TranscriptSegment {
    pub speaker: String,
    pub start_ms: i64,
    pub end_ms: i64,
    pub text: String,
}

#[derive(Debug, Clone)]
pub struct ActionItem {
    pub id: i64,
    pub meeting_id: String,
    pub task: String,
    pub owner: Option<String>,
    pub due: Option<String>,
    /// "open" | "done"
    pub status: String,
}

/// Structured notes produced by the notes provider.
#[derive(Debug, Clone)]
pub struct MeetingNotes {
    pub title: String,
    pub tldr: String,
    pub summary: String,
    pub key_points: Vec<String>,
    pub decisions: Vec<String>,
    pub action_items: Vec<NoteActionItem>,
    pub open_questions: Vec<String>,
    pub highlights: Vec<Highlight>,
}

#[derive(Debug, Clone)]
pub struct NoteActionItem {
    pub task: String,
    pub owner: Option<String>,
    pub due: Option<String>,
}

#[derive(Debug, Clone)]
pub struct Highlight {
    pub quote: String,
    pub speaker: String,
    pub timestamp_ms: i64,
}

} // verus!
