//! Speaker attribution and notes from the notes model.
//!
//! The model does not re-emit the transcript: it assigns speakers to
//! inclusive index ranges of the numbered utterances, and names the utterance
//! each highlight quotes. `assemble` merges those back onto the stored
//! utterances.

use vstd::prelude::*;

use crate::error::Error;
use crate::models::{Highlight, MeetingNotes, NoteActionItem, TranscriptSegment};
use crate::pipeline::UNLABELED_SPEAKER;
use crate::providers::{NotesResult, Utterance, UtteranceView};
use crate::text::{
    chars_of, decimal_u64, div_rem_i64, join, pad2, push_all, push_str, spec_decimal, spec_pad2,
    str_eq, string_of, tdiv, trem,
};
use crate::error::Result;

verus! {

/// The model's answer (schema-enforced).
#[derive(Debug, Clone)]
pub struct ClaudeNotes {
    pub speaker_assignments: Vec<SpeakerRange>,
    pub title: String,
    pub tldr: String,
    pub summary: String,
    pub key_points: Vec<String>,
    pub decisions: Vec<String>,
    pub action_items: Vec<ClaudeActionItem>,
    pub open_questions: Vec<String>,
    pub highlights: Vec<ClaudeHighlight>,
}

/// Utterances `start_index..=end_index` are spoken by `speaker`.
#[derive(Debug, Clone)]
pub struct SpeakerRange {
    pub start_index: usize,
    pub end_index: usize,
    pub speaker: String,
}

#[derive(Debug, Clone)]
pub struct ClaudeActionItem {
    pub task: String,
    pub owner: Option<String>,
    pub due: Option<String>,
}

#[derive(Debug, Clone)]
pub struct ClaudeHighlight {
    pub quote: String,
    pub speaker: String,
    /// Index of the utterance the quote comes from.
    pub utterance_index: usize,
}

pub ghost struct SegmentView {
    pub speaker: Seq<char>,
    pub start_ms: i64,
    pub end_ms: i64,
    pub text: Seq<char>,
}

impl View for TranscriptSegment {
    type V = SegmentView;

    open spec fn view(&self) -> SegmentView {
        SegmentView {
            speaker: self.speaker@,
            start_ms: self.start_ms,
            end_ms: self.end_ms,
            text: self.text@,
        }
    }
}

pub open spec fn utterance_views(u: Seq<Utterance>) -> Seq<UtteranceView> {
    u.map_values(|x: Utterance| x@)
}

pub open spec fn segment_views(s: Seq<TranscriptSegment>) -> Seq<SegmentView> {
    s.map_values(|x: TranscriptSegment| x@)
}

// ── speaker assignment ─────────────────────────────────────────────────────

pub open spec fn covers(r: SpeakerRange, i: int) -> bool {
    r.start_index <= i && i <= r.end_index
}

/// Index of the first of the ranges `0..k` that covers utterance `i`.
pub open spec fn first_cover(ranges: Seq<SpeakerRange>, k: int, i: int) -> Option<int>
    decreases k,
{
    if k <= 0 {
        None
    } else {
        match first_cover(ranges, k - 1, i) {
            Some(j) => Some(j),
            None => if covers(ranges[k - 1], i) {
                Some(k - 1)
            } else {
                None
            },
        }
    }
}

/// The speaker of utterance `i`: that of the first range covering it, or the
/// unlabeled sentinel when none does.
pub open spec fn speaker_label(ranges: Seq<SpeakerRange>, i: int) -> Seq<char> {
    match first_cover(ranges, ranges.len() as int, i) {
        Some(j) => ranges[j].speaker@,
        None => UNLABELED_SPEAKER@,
    }
}

/// The segments of the first `k` utterances: a run of consecutive
/// utterances with one speaker becomes one segment spanning the run, its
/// texts joined by single spaces.
pub open spec fn collapse(utts: Seq<UtteranceView>, ranges: Seq<SpeakerRange>, k: int) -> Seq<
    SegmentView,
>
    decreases k,
{
    if k <= 0 {
        Seq::empty()
    } else {
        let prev = collapse(utts, ranges, k - 1);
        let u = utts[k - 1];
        let who = speaker_label(ranges, k - 1);
        if prev.len() > 0 && prev.last().speaker == who {
            prev.update(
                prev.len() - 1,
                SegmentView {
                    speaker: who,
                    start_ms: prev.last().start_ms,
                    end_ms: u.end_ms,
                    text: prev.last().text + seq![' '] + u.text,
                },
            )
        } else {
            prev.push(SegmentView { speaker: who, start_ms: u.start_ms, end_ms: u.end_ms, text: u.text })
        }
    }
}

/// The speaker-labeled transcript `assemble` produces.
pub open spec fn assembled_segments(utts: Seq<UtteranceView>, ranges: Seq<SpeakerRange>) -> Seq<
    SegmentView,
> {
    collapse(utts, ranges, utts.len() as int)
}

/// A highlight's timestamp: the start of the utterance it quotes, or 0 when
/// the index is out of range.
pub open spec fn highlight_timestamp(utts: Seq<UtteranceView>, idx: usize) -> i64 {
    if idx < utts.len() {
        utts[idx as int].start_ms
    } else {
        0
    }
}

pub open spec fn highlight_matches(h: Highlight, c: ClaudeHighlight, utts: Seq<UtteranceView>) -> bool {
    &&& h.quote == c.quote
    &&& h.speaker == c.speaker
    &&& h.timestamp_ms == highlight_timestamp(utts, c.utterance_index)
}

pub open spec fn action_item_matches(a: NoteActionItem, c: ClaudeActionItem) -> bool {
    a.task == c.task && a.owner == c.owner && a.due == c.due
}

/// Slots `0..n` after the ranges `0..k` claimed the utterances they cover,
/// first claim winning.
spec fn slots_ok(slots: Seq<Option<usize>>, ranges: Seq<SpeakerRange>, k: int, n: int) -> bool {
    &&& slots.len() == n
    &&& forall|i: int|
        0 <= i < n ==> (#[trigger] slots[i] matches Some(j) ==> first_cover(ranges, k, i) == Some(
            j as int,
        )) && (slots[i] is None ==> first_cover(ranges, k, i) is None)
}

proof fn lemma_first_cover_bound(ranges: Seq<SpeakerRange>, k: int, i: int)
    ensures
        first_cover(ranges, k, i) matches Some(j) ==> 0 <= j < k && covers(ranges[j], i),
    decreases k,
{
    if k > 0 {
        lemma_first_cover_bound(ranges, k - 1, i);
    }
}

/// For each utterance, the index of the range that labels it.
fn claim_slots(ranges: &Vec<SpeakerRange>, n: usize) -> (slots: Vec<Option<usize>>)
    ensures
        slots_ok(slots@, ranges@, ranges@.len() as int, n as int),
{
    let mut slots: Vec<Option<usize>> = Vec::new();
    let mut i: usize = 0;
    while i < n
        invariant
            i <= n,
            slots@.len() == i,
            forall|m: int| 0 <= m < i ==> slots@[m] is None,
        decreases n - i,
    {
        slots.push(None);
        i = i + 1;
    }
    let mut k: usize = 0;
    while k < ranges.len()
        invariant
            k <= ranges@.len(),
            slots_ok(slots@, ranges@, k as int, n as int),
        decreases ranges.len() - k,
    {
        let start = ranges[k].start_index;
        let end_index = ranges[k].end_index;
        if n > 0 {
            let end = if end_index < n - 1 {
                end_index
            } else {
                n - 1
            };
            let mut j: usize = start;
            while j <= end
                invariant
                    n > 0,
                    end < n,
                    end == (if end_index < n - 1 { end_index } else { (n - 1) as usize }),
                    start == ranges@[k as int].start_index,
                    end_index == ranges@[k as int].end_index,
                    k < ranges@.len(),
                    start <= j,
                    j <= end + 1 || j == start,
                    slots@.len() == n,
                    forall|i: int|
                        0 <= i < n ==> {
                            let want = if start <= i < j && first_cover(ranges@, k as int, i) is None {
                                Some(k as int)
                            } else {
                                first_cover(ranges@, k as int, i)
                            };
                            (#[trigger] slots@[i] matches Some(x) ==> want == Some(x as int)) && (
                            slots@[i] is None ==> want is None)
                        },
                decreases end + 1 - j,
            {
                if slots[j].is_none() {
                    slots.set(j, Some(k));
                }
                j = j + 1;
            }
            proof {
                assert forall|i: int| 0 <= i < n implies (#[trigger] slots@[i] matches Some(x)
                    ==> first_cover(ranges@, k + 1, i) == Some(x as int)) && (slots@[i] is None
                    ==> first_cover(ranges@, k + 1, i) is None) by {
                    assert(covers(ranges@[k as int], i) == (start <= i < j));
                }
            }
        } else {
        }
        k = k + 1;
    }
    slots
}

// ── assembly ───────────────────────────────────────────────────────────────

/// Merge the model's range assignments back onto the utterances, collapse
/// runs of one speaker into one segment, resolve highlight indices to
/// timestamps, and carry the notes over. Defensive against gaps and
/// out-of-range indices: an unassigned utterance gets `UNLABELED_SPEAKER`,
/// an out-of-range highlight gets timestamp 0.
pub fn assemble(transcript: &[Utterance], raw: ClaudeNotes) -> (res: NotesResult)
    ensures
        segment_views(res.segments@) == assembled_segments(
            utterance_views(transcript@),
            raw.speaker_assignments@,
        ),
        res.notes.title == raw.title,
        res.notes.tldr == raw.tldr,
        res.notes.summary == raw.summary,
        res.notes.key_points == raw.key_points,
        res.notes.decisions == raw.decisions,
        res.notes.open_questions == raw.open_questions,
        res.notes.action_items@.len() == raw.action_items@.len(),
        forall|i: int|
            0 <= i < raw.action_items@.len() ==> action_item_matches(
                #[trigger] res.notes.action_items@[i],
                raw.action_items@[i],
            ),
        res.notes.highlights@.len() == raw.highlights@.len(),
        forall|i: int|
            0 <= i < raw.highlights@.len() ==> highlight_matches(
                #[trigger] res.notes.highlights@[i],
                raw.highlights@[i],
                utterance_views(transcript@),
            ),
        forall|i: int|
            0 <= i < raw.action_items@.len() ==> (#[trigger] res.notes.action_items@[i]).task
                == raw.action_items@[i].task && res.notes.action_items@[i].owner
                == raw.action_items@[i].owner && res.notes.action_items@[i].due
                == raw.action_items@[i].due,
        forall|i: int|
            0 <= i < raw.highlights@.len() ==> (#[trigger] res.notes.highlights@[i]).quote
                == raw.highlights@[i].quote && res.notes.highlights@[i].speaker
                == raw.highlights@[i].speaker,
{
    let n = transcript.len();
    let ghost utts = utterance_views(transcript@);
    let ranges = &raw.speaker_assignments;
    let slots = claim_slots(ranges, n);

    let mut segments: Vec<TranscriptSegment> = Vec::new();
    let mut i: usize = 0;
    while i < n
        invariant
            n == transcript@.len(),
            utts == utterance_views(transcript@),
            slots_ok(slots@, ranges@, ranges@.len() as int, n as int),
            i <= n,
            segment_views(segments@) == collapse(utts, ranges@, i as int),
        decreases n - i,
    {
        let speaker: String = match slots[i] {
            Some(j) => {
                proof {
                    lemma_first_cover_bound(ranges@, ranges@.len() as int, i as int);
                }
                ranges[j].speaker.clone()
            },
            None => string_of(chars_of(UNLABELED_SPEAKER).as_slice()),
        };
        assert(speaker@ == speaker_label(ranges@, i as int));
        let u = &transcript[i];
        assert(utts[i as int] == u@);
        let ghost prev = segment_views(segments@);
        let len = segments.len();
        if len > 0 && segments[len - 1].speaker == speaker {
            let ghost before = segments@;
            let last = segments.pop().unwrap();
            assert(last == before.last());
            assert(segments@ == before.drop_last());
            assert(last@ == prev.last());
            let mut text = chars_of(last.text.as_str());
            text.push(' ');
            push_str(&mut text, u.text.as_str());
            let merged = TranscriptSegment {
                speaker: speaker,
                start_ms: last.start_ms,
                end_ms: u.end_ms,
                text: string_of(text.as_slice()),
            };
            let ghost want = SegmentView {
                speaker: speaker_label(ranges@, i as int),
                start_ms: prev.last().start_ms,
                end_ms: u.end_ms,
                text: prev.last().text + seq![' '] + u.text@,
            };
            assert(text@ =~= prev.last().text + seq![' '] + u.text@);
            assert(merged@ == want);
            segments.push(merged);
            proof {
                assert(segment_views(segments@) =~= segment_views(before).drop_last().push(want));
                assert(segment_views(segments@) =~= prev.update(
                    prev.len() - 1,
                    SegmentView {
                        speaker: speaker_label(ranges@, i as int),
                        start_ms: prev.last().start_ms,
                        end_ms: u.end_ms,
                        text: prev.last().text + seq![' '] + u.text@,
                    },
                ));
            }
        } else {
            let seg = TranscriptSegment {
                speaker: speaker,
                start_ms: u.start_ms,
                end_ms: u.end_ms,
                text: u.text.clone(),
            };
            segments.push(seg);
            assert(segment_views(segments@) =~= prev.push(seg@));
        }
        i = i + 1;
    }

    let ClaudeNotes {
        speaker_assignments: _,
        title,
        tldr,
        summary,
        key_points,
        decisions,
        action_items: raw_items,
        open_questions,
        highlights: raw_highlights,
    } = raw;

    let mut highlights: Vec<Highlight> = Vec::new();
    let mut h: usize = 0;
    while h < raw_highlights.len()
        invariant
            n == transcript@.len(),
            utts == utterance_views(transcript@),
            h <= raw_highlights@.len(),
            highlights@.len() == h,
            forall|m: int|
                0 <= m < h ==> highlight_matches(
                    #[trigger] highlights@[m],
                    raw_highlights@[m],
                    utts,
                ),
        decreases raw_highlights.len() - h,
    {
        let c = &raw_highlights[h];
        let timestamp_ms = if c.utterance_index < n {
            transcript[c.utterance_index].start_ms
        } else {
            0
        };
        highlights.push(
            Highlight { quote: c.quote.clone(), speaker: c.speaker.clone(), timestamp_ms },
        );
        h = h + 1;
    }

    let mut action_items: Vec<NoteActionItem> = Vec::new();
    let mut a: usize = 0;
    while a < raw_items.len()
        invariant
            a <= raw_items@.len(),
            action_items@.len() == a,
            forall|m: int|
                0 <= m < a ==> action_item_matches(#[trigger] action_items@[m], raw_items@[m]),
        decreases raw_items.len() - a,
    {
        let c = &raw_items[a];
        action_items.push(
            NoteActionItem { task: c.task.clone(), owner: c.owner.clone(), due: c.due.clone() },
        );
        a = a + 1;
    }

    NotesResult {
        segments,
        notes: MeetingNotes {
            title,
            tldr,
            summary,
            key_points,
            decisions,
            action_items,
            open_questions,
            highlights,
        },
    }
}

// ── laws of assembly ───────────────────────────────────────────────────────

pub open spec fn segment_texts(c: Seq<SegmentView>) -> Seq<Seq<char>> {
    c.map_values(|x: SegmentView| x.text)
}

pub open spec fn utterance_texts(u: Seq<UtteranceView>) -> Seq<Seq<char>> {
    u.map_values(|x: UtteranceView| x.text)
}

/// A label the model gave, or the unlabeled sentinel.
pub open spec fn is_known_label(ranges: Seq<SpeakerRange>, who: Seq<char>) -> bool {
    who == UNLABELED_SPEAKER@ || exists|r: int| 0 <= r < ranges.len() && who == ranges[r].speaker@
}

proof fn lemma_join_push(parts: Seq<Seq<char>>, last: Seq<char>, sep: Seq<char>)
    requires
        parts.len() > 0,
    ensures
        join(parts.push(last), sep) == join(parts, sep) + sep + last,
{
    assert(parts.push(last).drop_last() =~= parts);
}

proof fn lemma_join_update_last(parts: Seq<Seq<char>>, extra: Seq<char>, sep: Seq<char>)
    requires
        parts.len() > 0,
    ensures
        join(parts.update(parts.len() - 1, parts.last() + extra), sep) == join(parts, sep) + extra,
{
    let upd = parts.update(parts.len() - 1, parts.last() + extra);
    if parts.len() == 1 {
    } else {
        assert(upd.drop_last() =~= parts.drop_last());
    }
}

proof fn lemma_collapse(utts: Seq<UtteranceView>, ranges: Seq<SpeakerRange>, k: int)
    requires
        0 <= k <= utts.len(),
    ensures
        collapse(utts, ranges, k).len() <= k,
        k > 0 ==> collapse(utts, ranges, k).len() > 0,
        k > 0 ==> collapse(utts, ranges, k)[0].start_ms == utts[0].start_ms,
        k > 0 ==> collapse(utts, ranges, k).last().end_ms == utts[k - 1].end_ms,
        k > 0 ==> collapse(utts, ranges, k).last().speaker == speaker_label(ranges, k - 1),
        forall|j: int|
            0 <= j < collapse(utts, ranges, k).len() - 1 ==> (#[trigger] collapse(
                utts,
                ranges,
                k,
            )[j]).speaker != collapse(utts, ranges, k)[j + 1].speaker,
        forall|j: int|
            0 <= j < collapse(utts, ranges, k).len() ==> is_known_label(
                ranges,
                (#[trigger] collapse(utts, ranges, k)[j]).speaker,
            ),
        join(segment_texts(collapse(utts, ranges, k)), seq![' ']) == join(
            utterance_texts(utts.subrange(0, k)),
            seq![' '],
        ),
    decreases k,
{
    if k > 0 {
        lemma_collapse(utts, ranges, k - 1);
        let prev = collapse(utts, ranges, k - 1);
        let u = utts[k - 1];
        let who = speaker_label(ranges, k - 1);
        lemma_first_cover_bound(ranges, ranges.len() as int, k - 1);
        assert(is_known_label(ranges, who));
        let ut_prev = utterance_texts(utts.subrange(0, k - 1));
        let ut = utterance_texts(utts.subrange(0, k));
        assert(ut =~= ut_prev.push(u.text));
        if k - 1 > 0 {
            lemma_join_push(ut_prev, u.text, seq![' ']);
        } else {
            assert(ut =~= seq![u.text]);
        }
        let c = collapse(utts, ranges, k);
        if prev.len() > 0 && prev.last().speaker == who {
            let st = segment_texts(prev);
            assert(prev.last().text + seq![' '] + u.text =~= st.last() + (seq![' '] + u.text));
            assert(segment_texts(c) =~= st.update(st.len() - 1, st.last() + (seq![' '] + u.text)));
            lemma_join_update_last(st, seq![' '] + u.text, seq![' ']);
            assert(join(segment_texts(c), seq![' ']) =~= join(st, seq![' ']) + seq![' '] + u.text);
            assert forall|j: int| 0 <= j < c.len() - 1 implies (#[trigger] c[j]).speaker != c[j
                + 1].speaker by {
                assert(c[j] == prev[j]);
            }
            assert forall|j: int| 0 <= j < c.len() implies is_known_label(
                ranges,
                (#[trigger] c[j]).speaker,
            ) by {
                if j < c.len() - 1 {
                    assert(c[j] == prev[j]);
                }
            }
        } else {
            let st = segment_texts(prev);
            assert(segment_texts(c) =~= st.push(u.text));
            if prev.len() > 0 {
                lemma_join_push(st, u.text, seq![' ']);
            } else {
                assert(segment_texts(c) =~= seq![u.text]);
            }
            assert forall|j: int| 0 <= j < c.len() - 1 implies (#[trigger] c[j]).speaker != c[j
                + 1].speaker by {
                assert(c[j] == prev[j]);
            }
            assert forall|j: int| 0 <= j < c.len() implies is_known_label(
                ranges,
                (#[trigger] c[j]).speaker,
            ) by {
                if j < c.len() - 1 {
                    assert(c[j] == prev[j]);
                }
            }
        }
    }
}

/// Laws of speaker merging: no utterance text is lost or reordered (the
/// segment texts joined by spaces are the utterance texts joined by spaces),
/// adjacent segments always have different speakers, every speaker is one
/// the model named or the unlabeled sentinel, there are never more segments
/// than utterances, and the segments span from the first utterance's start
/// to the last one's end.
pub proof fn lemma_assemble_laws(utts: Seq<UtteranceView>, ranges: Seq<SpeakerRange>)
    ensures
        ({
            let segs = assembled_segments(utts, ranges);
            &&& join(segment_texts(segs), seq![' ']) == join(utterance_texts(utts), seq![' '])
            &&& forall|j: int|
                0 <= j < segs.len() - 1 ==> (#[trigger] segs[j]).speaker != segs[j + 1].speaker
            &&& forall|j: int| 0 <= j < segs.len() ==> is_known_label(ranges, (#[trigger] segs[j]).speaker)
            &&& segs.len() <= utts.len()
            &&& (utts.len() > 0 <==> segs.len() > 0)
            &&& utts.len() > 0 ==> segs[0].start_ms == utts[0].start_ms && segs.last().end_ms
                == utts.last().end_ms
        }),
{
    lemma_collapse(utts, ranges, utts.len() as int);
    assert(utts.subrange(0, utts.len() as int) =~= utts);
}

/// The notes carry the model's action items and highlights over unchanged:
/// an assembled action item has the model's task, owner and due date, and
/// an assembled highlight the model's quote and speaker.
pub proof fn lemma_notes_carried_over(
    a: NoteActionItem,
    c: ClaudeActionItem,
    h: Highlight,
    m: ClaudeHighlight,
    utts: Seq<UtteranceView>,
)
    requires
        action_item_matches(a, c),
        highlight_matches(h, m, utts),
    ensures
        a.task == c.task,
        a.owner == c.owner,
        a.due == c.due,
        h.quote == m.quote,
        h.speaker == m.speaker,
        0 <= m.utterance_index < utts.len() ==> h.timestamp_ms == utts[m.utterance_index as int].start_ms,
        m.utterance_index >= utts.len() ==> h.timestamp_ms == 0,
{
}

/// An utterance that no range covers is labeled with the sentinel; one that
/// some range covers takes the speaker of the first such range.
pub proof fn lemma_label_first_range_wins(ranges: Seq<SpeakerRange>, i: int)
    ensures
        (forall|r: int| 0 <= r < ranges.len() ==> !covers(#[trigger] ranges[r], i))
            ==> speaker_label(ranges, i) == UNLABELED_SPEAKER@,
        forall|r: int|
            0 <= r < ranges.len() && covers(#[trigger] ranges[r], i) && (forall|q: int|
                0 <= q < r ==> !covers(#[trigger] ranges[q], i)) ==> speaker_label(ranges, i)
                == ranges[r].speaker@,
{
    lemma_first_cover_exact(ranges, ranges.len() as int, i);
}

proof fn lemma_first_cover_exact(ranges: Seq<SpeakerRange>, k: int, i: int)
    requires
        0 <= k <= ranges.len(),
    ensures
        (forall|r: int| 0 <= r < k ==> !covers(#[trigger] ranges[r], i)) ==> first_cover(
            ranges,
            k,
            i,
        ) is None,
        forall|r: int|
            0 <= r < k && covers(#[trigger] ranges[r], i) && (forall|q: int|
                0 <= q < r ==> !covers(#[trigger] ranges[q], i)) ==> first_cover(ranges, k, i)
                == Some(r),
    decreases k,
{
    if k > 0 {
        lemma_first_cover_exact(ranges, k - 1, i);
        lemma_first_cover_bound(ranges, k - 1, i);
    }
}

// ── the request ────────────────────────────────────────────────────────────

/// The Messages API endpoint.
pub const API_URL: &'static str = "https://api.anthropic.com/v1/messages";

/// The API version the requests declare.
pub const ANTHROPIC_VERSION: &'static str = "2023-06-01";

/// The output budget of one notes request.
pub const MAX_TOKENS: u32 = 16_000;

/// The prompt's opening, up to the meeting title.
pub const PROMPT_HEAD: &'static str =
    "Below is the timestamped transcript of an in-person meeting titled \"";

/// The prompt's instructions, from after the meeting title to the transcript.
pub const PROMPT_BODY: &'static str = "\". \
     It was produced by speech-to-text with NO speaker labels. Each utterance is \
     numbered [n] with its (mm:ss) start time.\n\
     \n\
     Your tasks:\n\
     1. SPEAKER ATTRIBUTION: infer the distinct speakers from turn-taking, direct \
        address, self-references, and context. Label them \"Speaker A\", \"Speaker B\", \
        etc. (use a real name only when the transcript makes it certain, e.g. someone is \
        addressed by name right before responding). Cover EVERY utterance index exactly \
        once using contiguous ranges in `speaker_assignments` (start_index and end_index \
        are inclusive).\n\
     2. MEETING NOTES: a short specific `title`, a 1-2 sentence `tldr`, a `summary` \
        (2-4 paragraphs), `key_points`, `decisions` (only decisions actually made), \
        `action_items` (task + owner if identifiable + due if mentioned), \
        `open_questions`, and 3-8 `highlights` (verbatim short quotes worth revisiting, \
        each with its speaker label and the `utterance_index` it comes from).\n\
     \n\
     Attribution is best-effort: prefer fewer, consistent speakers over fragmenting; \
     if a stretch is genuinely unattributable, keep it with the likeliest speaker.\n\
     \n\
     TRANSCRIPT:\n";

/// `[i] (mm:ss) text` and a newline: the utterance's index, its start as
/// whole minutes and the seconds within the minute, each zero-padded to two
/// digits, and its text.
pub open spec fn prompt_line(i: nat, u: UtteranceView) -> Seq<char> {
    "["@ + spec_decimal(i) + "] ("@ + spec_pad2(tdiv(u.start_ms as int, 60000)) + ":"@ + spec_pad2(
        tdiv(trem(u.start_ms as int, 60000), 1000),
    ) + ") "@ + u.text + "\n"@
}

/// The numbered lines of the first `n` utterances.
pub open spec fn prompt_lines(utts: Seq<UtteranceView>, n: int) -> Seq<char>
    decreases n,
{
    if n <= 0 {
        Seq::empty()
    } else {
        prompt_lines(utts, n - 1) + prompt_line((n - 1) as nat, utts[n - 1])
    }
}

/// The whole prompt: the instructions around the title, then the numbered
/// transcript.
pub open spec fn spec_build_prompt(title: Seq<char>, utts: Seq<UtteranceView>) -> Seq<char> {
    PROMPT_HEAD@ + title + PROMPT_BODY@ + prompt_lines(utts, utts.len() as int)
}

/// The notes prompt for a titled transcript.
pub fn build_prompt(title: &str, transcript: &[Utterance]) -> (r: String)
    ensures
        r@ == spec_build_prompt(title@, utterance_views(transcript@)),
{
    let ghost utts = utterance_views(transcript@);
    let mut lines: Vec<char> = Vec::new();
    let mut i: usize = 0;
    while i < transcript.len()
        invariant
            i <= transcript@.len(),
            utts == utterance_views(transcript@),
            lines@ == prompt_lines(utts, i as int),
        decreases transcript.len() - i,
    {
        let u = &transcript[i];
        assert(utts[i as int] == u@);
        let (mins, rem) = div_rem_i64(u.start_ms, 60_000);
        let (secs, _) = div_rem_i64(rem, 1000);
        push_str(&mut lines, "[");
        let idx = decimal_u64(i as u64);
        push_all(&mut lines, idx.as_slice());
        push_str(&mut lines, "] (");
        let m = pad2(mins);
        push_all(&mut lines, m.as_slice());
        push_str(&mut lines, ":");
        let sec = pad2(secs);
        push_all(&mut lines, sec.as_slice());
        push_str(&mut lines, ") ");
        push_str(&mut lines, u.text.as_str());
        push_str(&mut lines, "\n");
        assert(lines@ =~= prompt_lines(utts, i + 1));
        i = i + 1;
    }
    let mut out = chars_of(PROMPT_HEAD);
    push_str(&mut out, title);
    push_str(&mut out, PROMPT_BODY);
    push_all(&mut out, lines.as_slice());
    assert(out@ =~= spec_build_prompt(title@, utts));
    string_of(out.as_slice())
}

/// Notes are asked for only about a non-empty transcript.
pub fn check_transcript(transcript: &[Utterance]) -> (r: Result<()>)
    ensures
        transcript@.len() > 0 ==> r is Ok,
        transcript@.len() == 0 ==> (r matches Err(Error::InvalidState(m)) && m@
            == "transcript is empty"@),
{
    if transcript.len() == 0 {
        return Err(Error::InvalidState(string_of(chars_of("transcript is empty").as_slice())));
    }
    Ok(())
}

/// An error the notes model's reply stands for, reported with status 200.
pub open spec fn reply_error(e: Error, message: Seq<char>) -> bool {
    e matches Error::Api { provider, status, message: m } && provider@ == "anthropic"@ && status
        == 200 && m@ == message
}

fn anthropic_error(message: &str) -> (e: Error)
    ensures
        reply_error(e, message@),
{
    Error::Api {
        provider: string_of(chars_of("anthropic").as_slice()),
        status: 200,
        message: string_of(chars_of(message).as_slice()),
    }
}

/// What a successful reply carries: an error when the model refused or ran
/// out of output tokens, else the text of its first text block, or an error
/// when it has none. A missing stop reason reads as empty.
pub fn reply_text(stop_reason: Option<String>, text: Option<String>) -> (r: Result<String>)
    ensures
        ({
            let sr = match stop_reason {
                Some(s) => s@,
                None => Seq::empty(),
            };
            &&& sr == "refusal"@ ==> (r matches Err(e) && reply_error(
                e,
                "model declined the request (stop_reason=refusal)"@,
            ))
            &&& sr == "max_tokens"@ ==> (r matches Err(e) && reply_error(
                e,
                "output truncated (stop_reason=max_tokens)"@,
            ))
            &&& sr != "refusal"@ && sr != "max_tokens"@ && text is None ==> (r matches Err(e)
                && reply_error(e, "no text block in response"@))
            &&& sr != "refusal"@ && sr != "max_tokens"@ && text is Some ==> (r matches Ok(t) && t
                == text->Some_0)
        }),
{
    proof {
        reveal_strlit("refusal");
        reveal_strlit("max_tokens");
        assert("refusal"@ != "max_tokens"@) by {
            assert("refusal"@.len() != "max_tokens"@.len());
        }
    }
    let sr = match &stop_reason {
        Some(s) => string_of(chars_of(s.as_str()).as_slice()),
        None => String::new(),
    };
    if str_eq(sr.as_str(), "refusal") {
        return Err(anthropic_error("model declined the request (stop_reason=refusal)"));
    }
    if str_eq(sr.as_str(), "max_tokens") {
        return Err(anthropic_error("output truncated (stop_reason=max_tokens)"));
    }
    match text {
        Some(t) => Ok(t),
        None => Err(anthropic_error("no text block in response")),
    }
}

} // verus!
