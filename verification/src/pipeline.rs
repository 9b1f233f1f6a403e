//! The pipeline's decisions: recorded audio → transcript → notes →
//! destinations.
//!
//! Every step is idempotent and the restart point is derived from stored
//! data, not from a remembered stage, so a retry after any failure (or a
//! crash) resumes exactly where work is missing:
//!   no transcript            → transcribe
//!   transcript, no notes     → summarize (speaker labels + notes)
//!   notes                    → for each enabled sync destination with no
//!                              sync record, sync it (one failing destination
//!                              doesn't block the others)
//! The awaiting and the storage access stand around these functions; each
//! decision is a function of what was read.

use vstd::prelude::*;

use crate::config::Config;
use crate::error::{Error, Result};
use crate::models::{MeetingStatus, TranscriptSegment};
use crate::providers::{AudioChunk, Utterance, UtteranceView};
use crate::sync::{Destination, SyncDestination};
use crate::text::{
    chars_of, chars_eq, join, join_exec, push_str, spec_trim, starts_with, starts_with_exec,
    str_eq, string_of, trim_str, views,
};

verus! {

/// The speaker label of an utterance no one has been attributed to yet.
pub const UNLABELED_SPEAKER: &'static str = "Speaker ?";

/// A progress report for the UI.
#[derive(Debug, Clone)]
pub struct ProgressEvent {
    pub meeting_id: String,
    pub status: MeetingStatus,
    pub detail: String,
    pub error: Option<String>,
}

/// A progress report with the given parts.
pub fn progress_event(
    meeting_id: &str,
    status: MeetingStatus,
    detail: &str,
    error: Option<&str>,
) -> (r: ProgressEvent)
    ensures
        r.meeting_id@ == meeting_id@,
        r.status == status,
        r.detail@ == detail@,
        r.error is Some == error is Some,
        r.error matches Some(e) ==> e@ == error->Some_0@,
{
    ProgressEvent {
        meeting_id: string_of(chars_of(meeting_id).as_slice()),
        status,
        detail: string_of(chars_of(detail).as_slice()),
        error: match error {
            Some(e) => Some(string_of(chars_of(e).as_slice())),
            None => None,
        },
    }
}

/// The report of a failed run: status `Error`, "pipeline failed", and the
/// failure's message (which is also what the meeting's status records).
pub fn failure_event(meeting_id: &str, e: &Error) -> (r: ProgressEvent)
    ensures
        r.meeting_id@ == meeting_id@,
        r.status == MeetingStatus::Error,
        r.detail@ == "pipeline failed"@,
        r.error matches Some(m) && m@ == e.spec_message(),
{
    let msg = e.message();
    progress_event(meeting_id, MeetingStatus::Error, "pipeline failed", Some(msg.as_str()))
}

// ── where a run resumes ─────────────────────────────────────────────────────

/// Transcription runs exactly when no transcript is stored.
pub fn should_transcribe(has_transcript: bool) -> (b: bool)
    ensures
        b == !has_transcript,
{
    !has_transcript
}

/// Some segment carries a real speaker label.
pub open spec fn spec_has_labeled(segs: Seq<TranscriptSegment>) -> bool {
    segs.len() > 0 && exists|i: int|
        0 <= i < segs.len() && #[trigger] segs[i].speaker@ != UNLABELED_SPEAKER@
}

/// Whether a stored transcript has been through speaker attribution: it is
/// non-empty and some segment has a label other than the sentinel.
pub fn has_labeled_transcript(segments: &[TranscriptSegment]) -> (b: bool)
    ensures
        b == spec_has_labeled(segments@),
{
    let sentinel = chars_of(UNLABELED_SPEAKER);
    let mut i: usize = 0;
    while i < segments.len()
        invariant
            i <= segments@.len(),
            sentinel@ == UNLABELED_SPEAKER@,
            forall|k: int| 0 <= k < i ==> #[trigger] segments@[k].speaker@ == UNLABELED_SPEAKER@,
        decreases segments.len() - i,
    {
        let sp = chars_of(segments[i].speaker.as_str());
        if !chars_eq(sp.as_slice(), sentinel.as_slice()) {
            return true;
        }
        i = i + 1;
    }
    false
}

/// Summarizing runs when no notes are stored or the stored transcript has
/// not been through speaker attribution.
pub fn should_summarize(has_notes: bool, segments: &[TranscriptSegment]) -> (b: bool)
    ensures
        b == (!has_notes || !spec_has_labeled(segments@)),
{
    !has_notes || !has_labeled_transcript(segments)
}

// ── transcription ───────────────────────────────────────────────────────────

/// Transcription needs the OpenAI key.
pub fn check_transcription_key(config: &Config) -> (r: Result<()>)
    ensures
        config.openai_api_key@.len() > 0 ==> r is Ok,
        config.openai_api_key@.len() == 0 ==> (r matches Err(Error::Config(m)) && m@
            == "OpenAI API key is not set (Settings \u{2192} OpenAI API key)"@),
{
    if config.openai_api_key.as_str().is_empty() {
        return Err(
            Error::Config(
                string_of(
                    chars_of("OpenAI API key is not set (Settings \u{2192} OpenAI API key)").as_slice(),
                ),
            ),
        );
    }
    Ok(())
}

/// Summarizing needs the Anthropic key.
pub fn check_summary_key(config: &Config) -> (r: Result<()>)
    ensures
        config.anthropic_api_key@.len() > 0 ==> r is Ok,
        config.anthropic_api_key@.len() == 0 ==> (r matches Err(Error::Config(m)) && m@
            == "Anthropic API key is not set (Settings \u{2192} Anthropic API key)"@),
{
    if config.anthropic_api_key.as_str().is_empty() {
        return Err(
            Error::Config(
                string_of(
                    chars_of(
                        "Anthropic API key is not set (Settings \u{2192} Anthropic API key)",
                    ).as_slice(),
                ),
            ),
        );
    }
    Ok(())
}

/// A meeting with no audio segment on disk cannot be transcribed.
pub fn check_has_audio(segment_count: usize) -> (r: Result<()>)
    ensures
        segment_count > 0 ==> r is Ok,
        segment_count == 0 ==> (r matches Err(Error::InvalidState(m)) && m@
            == "no audio segments on disk"@),
{
    if segment_count == 0 {
        return Err(Error::InvalidState(string_of(chars_of("no audio segments on disk").as_slice())));
    }
    Ok(())
}

/// The sum of the first `n` durations.
pub open spec fn prefix_sum(durations: Seq<i64>, n: int) -> int
    decreases n,
{
    if n <= 0 {
        0
    } else {
        prefix_sum(durations, n - 1) + durations[n - 1]
    }
}

proof fn lemma_prefix_sum_mono(durations: Seq<i64>, a: int, b: int)
    requires
        0 <= a <= b <= durations.len(),
        forall|i: int| 0 <= i < durations.len() ==> durations[i] >= 0,
    ensures
        prefix_sum(durations, a) <= prefix_sum(durations, b),
    decreases b - a,
{
    if a < b {
        lemma_prefix_sum_mono(durations, a, b - 1);
    }
}

/// Pair each segment with the running sum of the real durations of the
/// segments before it, so per-chunk timestamps stitch into one timeline
/// even when a segment is shorter than the nominal 5 minutes.
pub fn chunk_offsets(paths: &[String], durations_ms: &[i64]) -> (r: Vec<AudioChunk>)
    requires
        paths@.len() == durations_ms@.len(),
        forall|i: int| 0 <= i < durations_ms@.len() ==> durations_ms@[i] >= 0,
        prefix_sum(durations_ms@, durations_ms@.len() as int) <= i64::MAX,
    ensures
        r@.len() == paths@.len(),
        forall|i: int|
            0 <= i < r@.len() ==> (#[trigger] r@[i]).path == paths@[i] && r@[i].offset_ms
                == prefix_sum(durations_ms@, i),
{
    let mut chunks: Vec<AudioChunk> = Vec::new();
    let mut offset_ms: i64 = 0;
    let mut i: usize = 0;
    while i < paths.len()
        invariant
            i <= paths@.len(),
            paths@.len() == durations_ms@.len(),
            forall|k: int| 0 <= k < durations_ms@.len() ==> durations_ms@[k] >= 0,
            prefix_sum(durations_ms@, durations_ms@.len() as int) <= i64::MAX,
            offset_ms == prefix_sum(durations_ms@, i as int),
            chunks@.len() == i,
            forall|k: int|
                0 <= k < i ==> (#[trigger] chunks@[k]).path == paths@[k] && chunks@[k].offset_ms
                    == prefix_sum(durations_ms@, k),
        decreases paths.len() - i,
    {
        chunks.push(AudioChunk { path: paths[i].clone(), offset_ms });
        proof {
            lemma_prefix_sum_mono(durations_ms@, i + 1, durations_ms@.len() as int);
        }
        offset_ms = offset_ms + durations_ms[i];
        i = i + 1;
    }
    chunks
}

/// The stored transcript of fresh utterances: every one labelled with the
/// sentinel, times and text kept.
pub open spec fn unlabeled_segment(u: UtteranceView, s: TranscriptSegment) -> bool {
    &&& s.speaker@ == UNLABELED_SPEAKER@
    &&& s.start_ms == u.start_ms
    &&& s.end_ms == u.end_ms
    &&& s.text@ == u.text
}

/// The transcript to store after speech-to-text, or an error when it heard
/// nothing.
pub fn segments_from_utterances(utterances: &[Utterance]) -> (r: Result<Vec<TranscriptSegment>>)
    ensures
        utterances@.len() == 0 ==> (r matches Err(Error::InvalidState(m)) && m@
            == "transcription returned no speech (empty recording?)"@),
        utterances@.len() > 0 ==> (r matches Ok(segs) && segs@.len() == utterances@.len() && (
        forall|i: int|
            0 <= i < segs@.len() ==> unlabeled_segment(utterances@[i]@, #[trigger] segs@[i]))),
{
    if utterances.len() == 0 {
        return Err(
            Error::InvalidState(
                string_of(chars_of("transcription returned no speech (empty recording?)").as_slice()),
            ),
        );
    }
    let mut out: Vec<TranscriptSegment> = Vec::new();
    let mut i: usize = 0;
    while i < utterances.len()
        invariant
            i <= utterances@.len(),
            out@.len() == i,
            forall|k: int| 0 <= k < i ==> unlabeled_segment(utterances@[k]@, #[trigger] out@[k]),
        decreases utterances.len() - i,
    {
        let u = &utterances[i];
        out.push(
            TranscriptSegment {
                speaker: string_of(chars_of(UNLABELED_SPEAKER).as_slice()),
                start_ms: u.start_ms,
                end_ms: u.end_ms,
                text: u.text.clone(),
            },
        );
        i = i + 1;
    }
    Ok(out)
}

/// The utterances handed to the notes model: each stored segment's times
/// and text, without its speaker.
pub fn utterances_from_segments(segments: &[TranscriptSegment]) -> (r: Vec<Utterance>)
    ensures
        r@.len() == segments@.len(),
        forall|i: int|
            0 <= i < r@.len() ==> (#[trigger] r@[i]).start_ms == segments@[i].start_ms
                && r@[i].end_ms == segments@[i].end_ms && r@[i].text@ == segments@[i].text@,
{
    let mut out: Vec<Utterance> = Vec::new();
    let mut i: usize = 0;
    while i < segments.len()
        invariant
            i <= segments@.len(),
            out@.len() == i,
            forall|k: int|
                0 <= k < i ==> (#[trigger] out@[k]).start_ms == segments@[k].start_ms
                    && out@[k].end_ms == segments@[k].end_ms && out@[k].text@ == segments@[k].text@,
        decreases segments.len() - i,
    {
        let s = &segments[i];
        out.push(Utterance { start_ms: s.start_ms, end_ms: s.end_ms, text: s.text.clone() });
        i = i + 1;
    }
    out
}

/// The notes model's title replaces the meeting's when the user left the
/// default: a blank title or one starting with "Meeting ".
pub fn should_adopt_title(title: &str) -> (b: bool)
    ensures
        b == (spec_trim(title@).len() == 0 || starts_with(title@, "Meeting "@)),
{
    let t = trim_str(title);
    if t.len() == 0 {
        return true;
    }
    let v = chars_of(title);
    let p = chars_of("Meeting ");
    starts_with_exec(v.as_slice(), p.as_slice())
}

// ── the sync fan-out ────────────────────────────────────────────────────────

/// The id a destination is recorded under.
pub open spec fn dest_id(d: Destination) -> Seq<char> {
    match d {
        Destination::Notion(_) => "notion"@,
        Destination::Markdown(_) => "markdown"@,
        Destination::AppleNotes(_) => "apple_notes"@,
    }
}

/// The destinations among `ds` whose id has no sync record, in order.
pub open spec fn spec_pending(ds: Seq<Destination>, synced: Seq<Seq<char>>) -> Seq<Destination>
    decreases ds.len(),
{
    if ds.len() == 0 {
        Seq::empty()
    } else {
        spec_pending(ds.drop_last(), synced) + if synced.contains(dest_id(ds.last())) {
            Seq::empty()
        } else {
            seq![ds.last()]
        }
    }
}

fn id_recorded(synced: &[String], id: &str) -> (b: bool)
    ensures
        b == synced@.map_values(|s: String| s@).contains(id@),
{
    let ghost sv = synced@.map_values(|s: String| s@);
    let mut i: usize = 0;
    while i < synced.len()
        invariant
            i <= synced@.len(),
            sv == synced@.map_values(|s: String| s@),
            forall|k: int| 0 <= k < i ==> synced@[k]@ != id@,
        decreases synced.len() - i,
    {
        if str_eq(synced[i].as_str(), id) {
            assert(sv[i as int] == id@);
            return true;
        }
        i = i + 1;
    }
    assert forall|k: int| 0 <= k < sv.len() implies sv[k] != id@ by {
        assert(sv[k] == synced@[k]@);
    }
    false
}

/// The enabled destinations that still need syncing: those with no sync
/// record, in their order.
pub fn pending_destinations(destinations: Vec<Destination>, synced: &[String]) -> (r: Vec<
    Destination,
>)
    ensures
        r@ == spec_pending(destinations@, synced@.map_values(|s: String| s@)),
{
    let ghost all = destinations@;
    let ghost sv = synced@.map_values(|s: String| s@);
    let mut rest = destinations;
    let mut out: Vec<Destination> = Vec::new();
    let n = rest.len();
    let mut i: usize = 0;
    while rest.len() > 0
        invariant
            all.len() == n,
            i <= all.len(),
            rest@ == all.subrange(i as int, all.len() as int),
            out@ == spec_pending(all.subrange(0, i as int), sv),
            sv == synced@.map_values(|s: String| s@),
        decreases rest.len(),
    {
        let d = rest.remove(0);
        assert(all.subrange(0, i + 1).drop_last() =~= all.subrange(0, i as int));
        assert(d == all[i as int]);
        assert(rest@ =~= all.subrange(i + 1, all.len() as int));
        if !id_recorded(synced, d.id()) {
            out.push(d);
        }
        i = i + 1;
    }
    assert(all.subrange(0, i as int) =~= all);
    out
}

/// What the fan-out leaves to do: exactly the destinations, in order,
/// whose id has no sync record; and once more records are added (the
/// successes of a run), a retry redoes only the destinations still missing.
pub proof fn lemma_pending(ds: Seq<Destination>, synced: Seq<Seq<char>>, more: Seq<Seq<char>>)
    ensures
        forall|i: int|
            0 <= i < spec_pending(ds, synced).len() ==> !synced.contains(
                dest_id(#[trigger] spec_pending(ds, synced)[i]),
            ) && ds.contains(spec_pending(ds, synced)[i]),
        forall|i: int|
            0 <= i < ds.len() && !synced.contains(dest_id(#[trigger] ds[i])) ==> spec_pending(
                ds,
                synced,
            ).contains(ds[i]),
        spec_pending(spec_pending(ds, synced), more) == spec_pending(ds, synced + more),
    decreases ds.len(),
{
    if ds.len() > 0 {
        let p = ds.drop_last();
        lemma_pending(p, synced, more);
        let d = ds.last();
        let pp = spec_pending(p, synced);
        let cur = spec_pending(ds, synced);
        assert forall|i: int| 0 <= i < cur.len() implies !synced.contains(
            dest_id(#[trigger] cur[i]),
        ) && ds.contains(cur[i]) by {
            if i < pp.len() {
                assert(cur[i] == pp[i]);
                assert(!synced.contains(dest_id(pp[i])) && p.contains(pp[i]));
                let j = choose|j: int| 0 <= j < p.len() && p[j] == pp[i];
                assert(ds[j] == p[j]);
            } else {
                assert(cur[i] == d);
                assert(ds[ds.len() - 1] == d);
            }
        }
        assert forall|i: int| 0 <= i < ds.len() && !synced.contains(
            dest_id(#[trigger] ds[i]),
        ) implies cur.contains(ds[i]) by {
            if i < p.len() {
                assert(p[i] == ds[i]);
                assert(pp.contains(p[i]));
                let j = choose|j: int| 0 <= j < pp.len() && pp[j] == p[i];
                assert(cur[j] == pp[j]);
            } else {
                assert(ds[i] == d);
                assert(cur[pp.len() as int] == d);
            }
        }
        let both = synced + more;
        let id = dest_id(d);
        if synced.contains(id) {
            assert(both.contains(id)) by {
                let j = choose|j: int| 0 <= j < synced.len() && synced[j] == id;
                assert(both[j] == synced[j]);
            }
            assert(cur =~= pp);
        } else {
            assert(cur =~= pp.push(d));
            assert(cur.drop_last() =~= pp);
            assert(both.contains(id) == more.contains(id)) by {
                if both.contains(id) {
                    let j = choose|j: int| 0 <= j < both.len() && both[j] == id;
                    if j < synced.len() {
                        assert(synced[j] == both[j]);
                    } else {
                        assert(more[j - synced.len()] == both[j]);
                    }
                }
                if more.contains(id) {
                    let j = choose|j: int| 0 <= j < more.len() && more[j] == id;
                    assert(both[synced.len() + j] == more[j]);
                }
            }
        }
    }
}

/// One failure as reported: the destination id, a colon, the message.
pub open spec fn failure_line(f: (String, Error)) -> Seq<char> {
    f.0@ + ": "@ + f.1.spec_message()
}

/// The outcome of a fan-out: success with no failure, the one failure as
/// it was, or all failures named in one error, separated by "; ".
pub fn aggregate_failures(failures: Vec<(String, Error)>) -> (r: Result<()>)
    ensures
        failures@.len() == 0 ==> r is Ok,
        failures@.len() == 1 ==> (r matches Err(e) && e == failures@[0].1),
        failures@.len() >= 2 ==> (r matches Err(Error::Other(m)) && m@ == join(
            failures@.map_values(|f: (String, Error)| failure_line(f)),
            "; "@,
        )),
{
    let mut failures = failures;
    if failures.len() == 0 {
        return Ok(());
    }
    if failures.len() == 1 {
        let f = failures.pop();
        match f {
            Some(p) => {
                return Err(p.1);
            },
            None => {
                return Ok(());
            },
        }
    }
    let ghost lines = failures@.map_values(|f: (String, Error)| failure_line(f));
    let mut parts: Vec<Vec<char>> = Vec::new();
    let mut i: usize = 0;
    while i < failures.len()
        invariant
            i <= failures@.len(),
            lines == failures@.map_values(|f: (String, Error)| failure_line(f)),
            views(parts@) == lines.subrange(0, i as int),
        decreases failures.len() - i,
    {
        let mut line = chars_of(failures[i].0.as_str());
        push_str(&mut line, ": ");
        let m = failures[i].1.message();
        push_str(&mut line, m.as_str());
        let ghost before = views(parts@);
        assert(line@ == lines[i as int]);
        parts.push(line);
        assert(views(parts@) =~= before.push(lines[i as int]));
        assert(lines.subrange(0, i + 1) =~= lines.subrange(0, i as int).push(lines[i as int]));
        i = i + 1;
    }
    assert(lines.subrange(0, i as int) =~= lines);
    let sep = chars_of("; ");
    let joined = join_exec(&parts, sep.as_slice());
    Err(Error::Other(string_of(joined.as_slice())))
}

/// The progress detail while syncing one destination.
pub fn sync_detail(display_name: &str) -> (r: String)
    ensures
        r@ == "syncing to "@ + display_name@,
{
    let mut v = chars_of("syncing to ");
    push_str(&mut v, display_name);
    string_of(v.as_slice())
}

} // verus!
