//! Speech-to-text result shaping: per-chunk utterances placed on the
//! recording's timeline, and the chunks merged into one transcript ordered
//! by start time.

use vstd::prelude::*;

use crate::providers::{Utterance, UtteranceView};
use crate::text::{chars_of, spec_trim, string_of, trim_chars, trim_str};

verus! {

/// The transcription endpoint.
pub const API_URL: &'static str = "https://api.openai.com/v1/audio/transcriptions";

/// One segment of a speech-to-text reply, its times already in whole
/// milliseconds from the start of the uploaded chunk.
#[derive(Debug, Clone)]
pub struct ReplySegment {
    pub start_ms: i64,
    pub end_ms: i64,
    pub text: String,
}

/// The utterances a reply's segments give: each shifted by the chunk's
/// offset, its text trimmed, blank ones dropped.
pub open spec fn shifted_utterances(offset_ms: i64, segs: Seq<ReplySegment>) -> Seq<UtteranceView>
    decreases segs.len(),
{
    if segs.len() == 0 {
        Seq::empty()
    } else {
        let s = segs.last();
        shifted_utterances(offset_ms, segs.drop_last()) + if spec_trim(s.text@).len() > 0 {
            seq![
                UtteranceView {
                    start_ms: (offset_ms + s.start_ms) as i64,
                    end_ms: (offset_ms + s.end_ms) as i64,
                    text: spec_trim(s.text@),
                },
            ]
        } else {
            Seq::empty()
        }
    }
}

/// A chunk's utterances: those of its segments, or, when none is left and
/// the reply's whole text is not blank, that text as one utterance at the
/// chunk's offset.
pub open spec fn spec_chunk_utterances(
    offset_ms: i64,
    segs: Seq<ReplySegment>,
    full_text: Seq<char>,
) -> Seq<UtteranceView> {
    let kept = shifted_utterances(offset_ms, segs);
    if kept.len() == 0 && spec_trim(full_text).len() > 0 {
        seq![UtteranceView { start_ms: offset_ms, end_ms: offset_ms, text: spec_trim(full_text) }]
    } else {
        kept
    }
}

pub open spec fn views_of(u: Seq<Utterance>) -> Seq<UtteranceView> {
    u.map_values(|x: Utterance| x@)
}

/// A reply for one chunk turned into utterances on the recording's timeline.
pub fn chunk_utterances(offset_ms: i64, segments: &[ReplySegment], full_text: &str) -> (r: Vec<
    Utterance,
>)
    requires
        forall|i: int|
            0 <= i < segments@.len() ==> i64::MIN <= offset_ms + (#[trigger] segments@[i]).start_ms
                <= i64::MAX && i64::MIN <= offset_ms + segments@[i].end_ms <= i64::MAX,
    ensures
        views_of(r@) == spec_chunk_utterances(offset_ms, segments@, full_text@),
{
    let mut out: Vec<Utterance> = Vec::new();
    let mut i: usize = 0;
    while i < segments.len()
        invariant
            i <= segments@.len(),
            forall|k: int|
                0 <= k < segments@.len() ==> i64::MIN <= offset_ms + (
                #[trigger] segments@[k]).start_ms <= i64::MAX && i64::MIN <= offset_ms
                    + segments@[k].end_ms <= i64::MAX,
            views_of(out@) == shifted_utterances(offset_ms, segments@.subrange(0, i as int)),
        decreases segments.len() - i,
    {
        let s = &segments[i];
        assert(segments@.subrange(0, i + 1).drop_last() =~= segments@.subrange(0, i as int));
        assert(segments@.subrange(0, i + 1).last() == segments@[i as int]);
        let text = trim_chars(chars_of(s.text.as_str()).as_slice(), false);
        let ghost before = views_of(out@);
        if text.len() > 0 {
            let u = Utterance {
                start_ms: offset_ms + s.start_ms,
                end_ms: offset_ms + s.end_ms,
                text: string_of(text.as_slice()),
            };
            out.push(u);
            assert(views_of(out@) =~= before.push(u@));
        }
        assert(views_of(out@) =~= shifted_utterances(offset_ms, segments@.subrange(0, i + 1)));
        i = i + 1;
    }
    assert(segments@.subrange(0, i as int) =~= segments@);
    if out.len() == 0 {
        let whole = trim_str(full_text);
        if whole.len() > 0 {
            let u = Utterance {
                start_ms: offset_ms,
                end_ms: offset_ms,
                text: string_of(whole.as_slice()),
            };
            out.push(u);
            assert(views_of(out@) =~= seq![u@]);
        }
    }
    out
}

// ── merging the chunks ─────────────────────────────────────────────────────

/// How many utterances start no later than `k`.
pub open spec fn count_le(s: Seq<UtteranceView>, k: i64) -> int
    decreases s.len(),
{
    if s.len() == 0 {
        0
    } else {
        count_le(s.drop_last(), k) + if s.last().start_ms <= k {
            1int
        } else {
            0
        }
    }
}

/// `x` placed after every utterance starting no later than it.
pub open spec fn insert_by_start(s: Seq<UtteranceView>, x: UtteranceView) -> Seq<UtteranceView> {
    s.insert(count_le(s, x.start_ms), x)
}

/// The stable sort by start time (`sort_by_key`): utterances in order of
/// start, those starting together in their original order.
pub open spec fn sort_by_start(s: Seq<UtteranceView>) -> Seq<UtteranceView>
    decreases s.len(),
{
    if s.len() == 0 {
        Seq::empty()
    } else {
        insert_by_start(sort_by_start(s.drop_last()), s.last())
    }
}

/// Start times never decrease.
pub open spec fn sorted_by_start(s: Seq<UtteranceView>) -> bool {
    forall|i: int, j: int| 0 <= i <= j < s.len() ==> s[i].start_ms <= s[j].start_ms
}

proof fn lemma_count_le(s: Seq<UtteranceView>, k: i64)
    requires
        sorted_by_start(s),
    ensures
        0 <= count_le(s, k) <= s.len(),
        forall|i: int| 0 <= i < count_le(s, k) ==> s[i].start_ms <= k,
        forall|i: int| count_le(s, k) <= i < s.len() ==> s[i].start_ms > k,
    decreases s.len(),
{
    if s.len() > 0 {
        let p = s.drop_last();
        assert(sorted_by_start(p));
        lemma_count_le(p, k);
        let c = count_le(p, k);
        if s.last().start_ms <= k {
            if c < p.len() {
                assert(s[c].start_ms <= s[s.len() - 1].start_ms);
                assert(p[c] == s[c]);
            }
            assert forall|i: int| 0 <= i < s.len() implies s[i].start_ms <= k by {
                if i < p.len() {
                    assert(s[i] == p[i]);
                }
            }
        } else {
            assert forall|i: int| 0 <= i < c implies s[i].start_ms <= k by {
                assert(s[i] == p[i]);
            }
            assert forall|i: int| c <= i < s.len() implies s[i].start_ms > k by {
                if i < p.len() {
                    assert(s[i] == p[i]);
                }
            }
        }
    }
}

proof fn lemma_insert_by_start(s: Seq<UtteranceView>, x: UtteranceView)
    requires
        sorted_by_start(s),
    ensures
        sorted_by_start(insert_by_start(s, x)),
        insert_by_start(s, x).to_multiset() == s.to_multiset().insert(x),
{
    lemma_count_le(s, x.start_ms);
    let c = count_le(s, x.start_ms);
    let t = insert_by_start(s, x);
    s.insert_ensures(c, x);
    assert forall|i: int, j: int| 0 <= i <= j < t.len() implies t[i].start_ms <= t[j].start_ms by {
        if i < c && j < c {
        } else if i < c && j == c {
        } else if i < c {
            assert(t[j] == s[j - 1]);
        } else if i == c && j == c {
        } else if i == c {
            assert(t[j] == s[j - 1]);
        } else {
            assert(t[i] == s[i - 1]);
            assert(t[j] == s[j - 1]);
        }
    }
    vstd::seq_lib::to_multiset_insert(s, c, x);
}

/// The merged transcript is ordered by start time and holds exactly the
/// utterances it was given.
pub proof fn lemma_sort_by_start(s: Seq<UtteranceView>)
    ensures
        sorted_by_start(sort_by_start(s)),
        sort_by_start(s).to_multiset() == s.to_multiset(),
    decreases s.len(),
{
    broadcast use vstd::seq_lib::group_to_multiset_ensures;

    if s.len() > 0 {
        lemma_sort_by_start(s.drop_last());
        lemma_insert_by_start(sort_by_start(s.drop_last()), s.last());
        assert(s.drop_last().push(s.last()) =~= s);
    }
}

/// Every chunk's utterances together, ordered by start time (stably).
pub open spec fn spec_merge(chunks: Seq<Seq<UtteranceView>>) -> Seq<UtteranceView> {
    sort_by_start(chunks.flatten_alt())
}

fn count_le_exec(v: &Vec<Utterance>, k: i64) -> (c: usize)
    ensures
        c == count_le(views_of(v@), k),
        c <= v@.len(),
{
    let mut c: usize = 0;
    let mut i: usize = 0;
    while i < v.len()
        invariant
            i <= v@.len(),
            c <= i,
            c == count_le(views_of(v@).subrange(0, i as int), k),
        decreases v.len() - i,
    {
        assert(views_of(v@).subrange(0, i + 1).drop_last() =~= views_of(v@).subrange(0, i as int));
        if v[i].start_ms <= k {
            c = c + 1;
        }
        i = i + 1;
    }
    assert(views_of(v@).subrange(0, i as int) =~= views_of(v@));
    c
}

fn copy_utterance(u: &Utterance) -> (r: Utterance)
    ensures
        r@ == u@,
{
    Utterance { start_ms: u.start_ms, end_ms: u.end_ms, text: u.text.clone() }
}

/// All chunks' utterances in one transcript ordered by start time;
/// utterances starting together keep their chunk order.
pub fn merge_transcripts(chunks: &Vec<Vec<Utterance>>) -> (r: Vec<Utterance>)
    ensures
        views_of(r@) == spec_merge(chunks@.map_values(|c: Vec<Utterance>| views_of(c@))),
{
    let ghost cv = chunks@.map_values(|c: Vec<Utterance>| views_of(c@));
    let ghost flat = cv.flatten_alt();
    let mut sorted: Vec<Utterance> = Vec::new();
    let ghost mut done: Seq<UtteranceView> = Seq::empty();
    let mut i: usize = 0;
    while i < chunks.len()
        invariant
            i <= chunks@.len(),
            cv == chunks@.map_values(|c: Vec<Utterance>| views_of(c@)),
            done == cv.subrange(0, i as int).flatten_alt(),
            views_of(sorted@) == sort_by_start(done),
        decreases chunks.len() - i,
    {
        let chunk = &chunks[i];
        assert(cv[i as int] == views_of(chunk@));
        let ghost base = done;
        let mut j: usize = 0;
        while j < chunk.len()
            invariant
                j <= chunk@.len(),
                done == base + views_of(chunk@).subrange(0, j as int),
                views_of(sorted@) == sort_by_start(done),
            decreases chunk@.len() - j,
        {
            let u = copy_utterance(&chunk[j]);
            let ghost uv = u@;
            assert(uv == views_of(chunk@)[j as int]);
            let pos = count_le_exec(&sorted, u.start_ms);
            let ghost prev = done;
            let ghost prev_sorted = views_of(sorted@);
            let ghost old_vec = sorted@;
            sorted.insert(pos, u);
            proof {
                old_vec.insert_ensures(pos as int, u);
                prev_sorted.insert_ensures(pos as int, uv);
                assert(views_of(sorted@) =~= prev_sorted.insert(pos as int, uv));
                done = prev.push(uv);
                assert(done.drop_last() =~= prev);
                assert(done.last() == uv);
                assert(views_of(chunk@).subrange(0, j + 1) =~= views_of(chunk@).subrange(
                    0,
                    j as int,
                ).push(uv));
                assert(done =~= base + views_of(chunk@).subrange(0, j + 1));
            }
            j = j + 1;
        }
        proof {
            assert(views_of(chunk@).subrange(0, j as int) =~= views_of(chunk@));
            assert(cv.subrange(0, i + 1).drop_last() =~= cv.subrange(0, i as int));
        }
        i = i + 1;
    }
    proof {
        assert(cv.subrange(0, i as int) =~= cv);
    }
    sorted
}

} // verus!
