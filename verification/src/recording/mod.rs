//! Recording: WAV framing, the rotation of captured audio into 5-minute
//! segments, crash recovery, and the checks an imported file must pass.
//! Capture, resampling and the files themselves are left to the caller;
//! every decision about them is made here.

pub mod import;
pub mod wake;
pub mod wav;

use vstd::prelude::*;

use crate::error::{Error, Result};
use crate::datetime::{ascii_digits, digits_value};
use crate::text::{
    chars_eq, chars_of, ends_with, ends_with_exec, pad_nat, push_all, push_str, sort_strings,
    sort_strings_exec, spec_pad_nat, starts_with, starts_with_exec, str_eq, string_of,
    lemma_sort_strings, strings_sorted,
};

verus! {

/// Length of one recording segment, in seconds: a 5-minute rotation.
pub const SEGMENT_SECONDS: u64 = 300;

/// Samples in one full segment.
pub const SEGMENT_SAMPLES: u64 = SEGMENT_SECONDS * 16_000;

/// Flush cadence: at most about a second of audio is buffered.
pub const FLUSH_EVERY_SAMPLES: u64 = 16_000;

/// A finished recording, ready for the pipeline.
#[derive(Debug, Clone)]
pub struct RecordingResult {
    pub segments: Vec<String>,
    pub duration_ms: i64,
}

/// What to do with the segment files while audio comes in.
#[derive(Debug, Clone, Copy, PartialEq, Eq, Structural)]
pub enum SegmentAction {
    /// Create segment file `index` (named by `segment_file_name`).
    Open { index: usize },
    /// Append `count` samples of the block, starting at `from`, to the open
    /// segment.
    Write { from: usize, count: usize },
    /// Patch the open segment's header and close it.
    Finalize,
    /// Push buffered samples of the open segment to the OS.
    Flush,
}

/// Where the rotation stands.
#[derive(Debug, Clone, Copy, PartialEq, Eq, Structural)]
pub struct SegmentPlanner {
    /// Segments created so far.
    pub segments: usize,
    /// Whether a segment is open for writing.
    pub open: bool,
    /// Samples in the open segment.
    pub seg_samples: u64,
    /// Samples written since the last flush.
    pub since_flush: u64,
    /// Samples written in all.
    pub written: u64,
    /// The most samples an import may hold, if capped.
    pub max_samples: Option<u64>,
}

impl SegmentPlanner {
    /// The open segment is not full, and what is counted adds up.
    pub open spec fn wf(self) -> bool {
        &&& self.seg_samples <= SEGMENT_SAMPLES
        &&& self.open ==> self.seg_samples < SEGMENT_SAMPLES
        &&& self.since_flush <= self.written
        &&& self.written <= i64::MAX
    }

    /// Nothing written yet, no segment open, no cap.
    pub fn new() -> (r: SegmentPlanner)
        ensures
            r.wf(),
            r.segments == 0 && !r.open && r.seg_samples == 0 && r.since_flush == 0 && r.written
                == 0 && r.max_samples is None,
    {
        SegmentPlanner {
            segments: 0,
            open: false,
            seg_samples: 0,
            since_flush: 0,
            written: 0,
            max_samples: None,
        }
    }

    /// The same planner, refusing audio past `max` samples in all.
    pub fn with_max_samples(self, max: u64) -> (r: SegmentPlanner)
        ensures
            r == (SegmentPlanner { max_samples: Some(max), ..self }),
    {
        SegmentPlanner { max_samples: Some(max), ..self }
    }
}

/// Open a segment when none is.
pub open spec fn open_step(st: SegmentPlanner) -> (Seq<SegmentAction>, SegmentPlanner) {
    if st.open {
        (Seq::empty(), st)
    } else {
        (
            seq![SegmentAction::Open { index: st.segments }],
            SegmentPlanner {
                segments: (st.segments + 1) as usize,
                open: true,
                seg_samples: 0,
                ..st
            },
        )
    }
}

/// After a write: close a full segment, else flush when a second has
/// gathered.
pub open spec fn after_write(st: SegmentPlanner) -> (Seq<SegmentAction>, SegmentPlanner) {
    if st.seg_samples >= SEGMENT_SAMPLES {
        (seq![SegmentAction::Finalize], SegmentPlanner { open: false, ..st })
    } else if st.since_flush >= FLUSH_EVERY_SAMPLES {
        (seq![SegmentAction::Flush], SegmentPlanner { since_flush: 0, ..st })
    } else {
        (Seq::empty(), st)
    }
}

/// The samples taken from the block at once: as many as the open segment
/// has room for, or what is left of the block.
pub open spec fn take_now(st: SegmentPlanner, len: nat, offset: nat) -> nat {
    let room = (SEGMENT_SAMPLES - st.seg_samples) as nat;
    if room < len - offset {
        room
    } else {
        (len - offset) as nat
    }
}

/// One step over a block at `offset`: open a segment when none is, write as
/// much as it has room for, then close it when full (else flush each
/// second). The actions, the state after them, and the samples taken.
pub open spec fn step_spec(st: SegmentPlanner, len: nat, offset: nat) -> (
    Seq<SegmentAction>,
    SegmentPlanner,
    nat,
) {
    let (a1, s1) = open_step(st);
    let take = take_now(s1, len, offset);
    let s2 = SegmentPlanner {
        seg_samples: (s1.seg_samples + take) as u64,
        since_flush: (s1.since_flush + take) as u64,
        written: (s1.written + take) as u64,
        ..s1
    };
    let (a3, s3) = after_write(s2);
    (a1 + seq![SegmentAction::Write { from: offset as usize, count: take as usize }] + a3, s3, take)
}

/// The actions for samples `[offset, len)` of a block and the state after
/// them: steps until the block is used up.
pub open spec fn plan_from(st: SegmentPlanner, len: nat, offset: nat) -> (
    Seq<SegmentAction>,
    SegmentPlanner,
)
    decreases len - offset,
{
    if offset >= len || !st.wf() {
        (Seq::empty(), st)
    } else {
        let (a, s3, take) = step_spec(st, len, offset);
        let (rest, fin) = plan_from(s3, len, offset + take);
        (a + rest, fin)
    }
}

/// The samples the `Write` actions carry, which must follow one another
/// from `from` on.
pub open spec fn written_by(actions: Seq<SegmentAction>, from: int) -> Option<int>
    decreases actions.len(),
{
    if actions.len() == 0 {
        Some(0)
    } else {
        match actions[0] {
            SegmentAction::Write { from: f, count } => if f == from && count > 0 {
                match written_by(actions.drop_first(), from + count) {
                    Some(n) => Some(n + count),
                    None => None,
                }
            } else {
                None
            },
            _ => written_by(actions.drop_first(), from),
        }
    }
}

proof fn lemma_written_by_append(a: Seq<SegmentAction>, b: Seq<SegmentAction>, from: int, n: int)
    requires
        written_by(a, from) == Some(n),
    ensures
        written_by(a + b, from) == match written_by(b, from + n) {
            Some(m) => Some(n + m),
            None => None::<int>,
        },
    decreases a.len(),
{
    if a.len() == 0 {
        assert(a + b =~= b);
    } else {
        assert((a + b).drop_first() =~= a.drop_first() + b);
        match a[0] {
            SegmentAction::Write { from: f, count } => {
                let k = written_by(a.drop_first(), from + count)->Some_0;
                lemma_written_by_append(a.drop_first(), b, from + count, k);
            },
            _ => {
                lemma_written_by_append(a.drop_first(), b, from, n);
            },
        }
    }
}

proof fn lemma_step(st: SegmentPlanner, len: nat, offset: nat)
    requires
        st.wf(),
        offset < len <= usize::MAX,
        st.written + (len - offset) <= i64::MAX,
    ensures
        ({
            let (a, s3, take) = step_spec(st, len, offset);
            &&& 0 < take <= len - offset
            &&& s3.wf()
            &&& s3.written == st.written + take
            &&& s3.max_samples == st.max_samples
            &&& s3.segments <= st.segments + 1
            &&& written_by(a, offset as int) == Some(take as int)
        }),
{
    let (a1, s1) = open_step(st);
    let take = take_now(s1, len, offset);
    let s2 = SegmentPlanner {
        seg_samples: (s1.seg_samples + take) as u64,
        since_flush: (s1.since_flush + take) as u64,
        written: (s1.written + take) as u64,
        ..s1
    };
    let (a3, s3) = after_write(s2);
    let w = seq![SegmentAction::Write { from: offset as usize, count: take as usize }];
    assert(written_by(a1, offset as int) == Some(0int)) by {
        if !st.open {
            assert(a1.drop_first() =~= Seq::<SegmentAction>::empty());
            assert(written_by(a1.drop_first(), offset as int) == Some(0int));
        } else {
            assert(a1.len() == 0);
        }
    }
    assert(written_by(w, offset as int) == Some(take as int)) by {
        assert(w.drop_first() =~= Seq::<SegmentAction>::empty());
        assert(written_by(w.drop_first(), (offset + take) as int) == Some(0int));
    }
    assert(written_by(a3, (offset + take) as int) == Some(0int)) by {
        if a3.len() > 0 {
            assert(a3.drop_first() =~= Seq::<SegmentAction>::empty());
            assert(written_by(a3.drop_first(), (offset + take) as int) == Some(0int));
        }
    }
    lemma_written_by_append(a1, w, offset as int, 0);
    lemma_written_by_append(a1 + w, a3, offset as int, take as int);
}

/// The rotation loses and repeats nothing: the writes for a block cover its
/// samples in order, the count of written samples grows by exactly the
/// block, and no segment ever holds more than 5 minutes.
pub proof fn lemma_plan_from(st: SegmentPlanner, len: nat, offset: nat)
    requires
        st.wf(),
        offset <= len <= usize::MAX,
        st.written + (len - offset) <= i64::MAX,
    ensures
        written_by(plan_from(st, len, offset).0, offset as int) == Some(len - offset),
        plan_from(st, len, offset).1.wf(),
        plan_from(st, len, offset).1.written == st.written + (len - offset),
        plan_from(st, len, offset).1.max_samples == st.max_samples,
    decreases len - offset,
{
    if offset < len {
        lemma_step(st, len, offset);
        let (a, s3, take) = step_spec(st, len, offset);
        lemma_plan_from(s3, len, offset + take);
        let (rest, fin) = plan_from(s3, len, offset + take);
        lemma_written_by_append(a, rest, offset as int, take as int);
    } else {
        assert(written_by(Seq::<SegmentAction>::empty(), offset as int) == Some(0int));
    }
}

impl SegmentPlanner {
    /// One step of `plan_block` at `offset`.
    fn step(&mut self, len: usize, offset: usize) -> (r: (Vec<SegmentAction>, usize))
        requires
            old(self).wf(),
            offset < len,
            old(self).written + (len - offset) <= i64::MAX,
            old(self).segments < usize::MAX,
        ensures
            ({
                let (a, s3, take) = step_spec(*old(self), len as nat, offset as nat);
                &&& r.0@ == a
                &&& *final(self) == s3
                &&& r.1 == take
            }),
    {
        proof {
            lemma_step(*self, len as nat, offset as nat);
        }
        let mut actions: Vec<SegmentAction> = Vec::new();
        if !self.open {
            actions.push(SegmentAction::Open { index: self.segments });
            self.segments = self.segments + 1;
            self.open = true;
            self.seg_samples = 0;
        }
        let room = SEGMENT_SAMPLES - self.seg_samples;
        let left = (len - offset) as u64;
        let take: u64 = if room < left {
            room
        } else {
            left
        };
        actions.push(SegmentAction::Write { from: offset, count: take as usize });
        self.seg_samples = self.seg_samples + take;
        self.since_flush = self.since_flush + take;
        self.written = self.written + take;
        if self.seg_samples >= SEGMENT_SAMPLES {
            actions.push(SegmentAction::Finalize);
            self.open = false;
        } else if self.since_flush >= FLUSH_EVERY_SAMPLES {
            actions.push(SegmentAction::Flush);
            self.since_flush = 0;
        }
        assert(actions@ =~= step_spec(*old(self), len as nat, offset as nat).0);
        (actions, take as usize)
    }
}

impl SegmentPlanner {
    /// The actions for a block of `len` resampled samples.
    pub fn plan_block(&mut self, len: usize) -> (actions: Vec<SegmentAction>)
        requires
            old(self).wf(),
            old(self).written + len <= i64::MAX,
            old(self).segments + len <= usize::MAX,
        ensures
            (actions@, *final(self)) == plan_from(*old(self), len as nat, 0),
            final(self).wf(),
            final(self).written == old(self).written + len,
    {
        proof {
            lemma_plan_from(*self, len as nat, 0);
        }
        let ghost start = *self;
        let mut actions: Vec<SegmentAction> = Vec::new();
        let mut offset: usize = 0;
        while offset < len
            invariant
                offset <= len,
                self.wf(),
                self.written == start.written + offset,
                self.segments <= start.segments + offset,
                start.written + len <= i64::MAX,
                start.segments + len <= usize::MAX,
                ({
                    let (rest, fin) = plan_from(*self, len as nat, offset as nat);
                    (actions@ + rest, fin) == plan_from(start, len as nat, 0)
                }),
            decreases len - offset,
        {
            let ghost before = *self;
            let ghost pre = actions@;
            proof {
                lemma_step(before, len as nat, offset as nat);
            }
            let (mut acts, take) = self.step(len, offset);
            let ghost a = acts@;
            actions.append(&mut acts);
            offset = offset + take;
            proof {
                let (rest, fin) = plan_from(*self, len as nat, offset as nat);
                assert(actions@ == pre + a);
                assert(plan_from(before, len as nat, (offset - take) as nat) == (a + rest, fin));
                assert(actions@ + rest =~= pre + (a + rest));
            }
        }
        proof {
            assert(actions@ + Seq::<SegmentAction>::empty() =~= actions@);
        }
        actions
    }

    /// The actions for a block, or an error leaving the planner as it was
    /// when the block would take an import past its cap.
    pub fn write(&mut self, len: usize) -> (r: Result<Vec<SegmentAction>>)
        requires
            old(self).wf(),
            old(self).written + len <= i64::MAX,
            old(self).segments + len <= usize::MAX,
        ensures
            (old(self).max_samples matches Some(m) && old(self).written + len > m) ==> (r matches Err(
                Error::Audio(msg),
            ) && msg@ == EXCEEDS_IMPORT_CAP@ && *final(self) == *old(self)),
            !(old(self).max_samples matches Some(m) && old(self).written + len > m) ==> (r matches Ok(
                actions,
            ) && (actions@, *final(self)) == plan_from(*old(self), len as nat, 0)),
            final(self).wf(),
    {
        match self.max_samples {
            Some(m) => {
                if self.written + len as u64 > m {
                    return Err(Error::Audio(string_of(chars_of(EXCEEDS_IMPORT_CAP).as_slice())));
                }
            },
            None => {},
        }
        Ok(self.plan_block(len))
    }

    /// The action that ends a recording: close the open segment, if any.
    pub fn finish(&mut self) -> (actions: Vec<SegmentAction>)
        requires
            old(self).wf(),
        ensures
            old(self).open ==> actions@ == seq![SegmentAction::Finalize],
            !old(self).open ==> actions@.len() == 0,
            *final(self) == (SegmentPlanner { open: false, ..*old(self) }),
            final(self).wf(),
    {
        let mut actions: Vec<SegmentAction> = Vec::new();
        if self.open {
            actions.push(SegmentAction::Finalize);
            self.open = false;
        }
        actions
    }

    /// Milliseconds of audio written so far.
    pub fn elapsed_ms(&self) -> (r: i64)
        requires
            self.written * 1000 <= i64::MAX,
        ensures
            r == self.written * 1000 / 16000,
    {
        (self.written * 1000 / 16000) as i64
    }
}

/// The error an import past its cap reports.
pub const EXCEEDS_IMPORT_CAP: &'static str = "the audio exceeds the maximum import length";

// ── segment files ──────────────────────────────────────────────────────────

/// `seg-NNN.wav`: the index zero-padded to three digits.
pub open spec fn spec_segment_file_name(index: nat) -> Seq<char> {
    "seg-"@ + spec_pad_nat(index, 3) + ".wav"@
}

/// The file name of segment `index`.
pub fn segment_file_name(index: usize) -> (r: String)
    ensures
        r@ == spec_segment_file_name(index as nat),
{
    let mut v = chars_of("seg-");
    let d = pad_nat(index as u64, 3);
    push_all(&mut v, d.as_slice());
    push_str(&mut v, ".wav");
    string_of(v.as_slice())
}

/// A segment file: `seg-*.wav`.
pub open spec fn is_segment_name(name: Seq<char>) -> bool {
    starts_with(name, "seg-"@) && ends_with(name, ".wav"@)
}

pub fn is_segment_name_exec(name: &str) -> (b: bool)
    ensures
        b == is_segment_name(name@),
{
    let v = chars_of(name);
    let p = chars_of("seg-");
    let q = chars_of(".wav");
    starts_with_exec(v.as_slice(), p.as_slice()) && ends_with_exec(v.as_slice(), q.as_slice())
}

/// The segment files among `names`, in order.
pub open spec fn segment_names(names: Seq<Seq<char>>) -> Seq<Seq<char>>
    decreases names.len(),
{
    if names.len() == 0 {
        Seq::empty()
    } else {
        segment_names(names.drop_last()) + if is_segment_name(names.last()) {
            seq![names.last()]
        } else {
            Seq::empty()
        }
    }
}

pub open spec fn name_views(v: Seq<String>) -> Seq<Seq<char>> {
    v.map_values(|s: String| s@)
}

/// The `seg-*.wav` files of a meeting directory listing, in recording order
/// (sorted by name; the zero-padded index makes that the order they were
/// recorded in).
pub fn list_segments(names: Vec<String>) -> (r: Vec<String>)
    ensures
        name_views(r@) == sort_strings(segment_names(name_views(names@))),
{
    let ghost all = name_views(names@);
    let mut kept: Vec<String> = Vec::new();
    let mut rest = names;
    let n = rest.len();
    let mut i: usize = 0;
    while rest.len() > 0
        invariant
            all.len() == n,
            i + rest@.len() == n,
            name_views(rest@) == all.subrange(i as int, n as int),
            name_views(kept@) == segment_names(all.subrange(0, i as int)),
        decreases rest.len(),
    {
        let ghost old_rest = rest@;
        let x = rest.remove(0);
        assert(all[i as int] == x@) by {
            assert(name_views(old_rest)[0] == all.subrange(i as int, n as int)[0]);
        }
        assert forall|k: int| 0 <= k < rest@.len() implies rest@[k]@ == all[i + 1 + k] by {
            assert(rest@[k] == old_rest[k + 1]);
            assert(name_views(old_rest)[k + 1] == all.subrange(i as int, n as int)[k + 1]);
        }
        assert(name_views(rest@) =~= all.subrange(i + 1, n as int));
        assert(all.subrange(0, i + 1).drop_last() =~= all.subrange(0, i as int));
        let ghost before = name_views(kept@);
        if is_segment_name_exec(x.as_str()) {
            kept.push(x);
            assert(name_views(kept@) =~= before.push(all[i as int]));
        }
        i = i + 1;
    }
    assert(all.subrange(0, i as int) =~= all);
    sort_strings_exec(kept)
}

// ── recovery after a crash ─────────────────────────────────────────────────

/// The segments a repair kept: those it could repair and that hold audio.
pub open spec fn kept_segments(segs: Seq<Seq<char>>, repaired: Seq<Option<u64>>) -> Seq<Seq<char>>
    decreases segs.len(),
{
    if segs.len() == 0 || repaired.len() == 0 {
        Seq::empty()
    } else {
        kept_segments(segs.drop_last(), repaired.drop_last()) + match repaired.last() {
            Some(n) => if n > 0 {
                seq![segs.last()]
            } else {
                Seq::empty()
            },
            None => Seq::empty(),
        }
    }
}

/// The samples the kept segments hold in all.
pub open spec fn kept_samples(repaired: Seq<Option<u64>>) -> int
    decreases repaired.len(),
{
    if repaired.len() == 0 {
        0
    } else {
        kept_samples(repaired.drop_last()) + match repaired.last() {
            Some(n) => n as int,
            None => 0,
        }
    }
}

proof fn lemma_kept_samples_mono(r: Seq<Option<u64>>, k: int)
    requires
        0 <= k <= r.len(),
    ensures
        kept_samples(r.subrange(0, k)) <= kept_samples(r),
    decreases r.len() - k,
{
    if k < r.len() {
        lemma_kept_samples_mono(r, k + 1);
        assert(r.subrange(0, k + 1).drop_last() =~= r.subrange(0, k));
    } else {
        assert(r.subrange(0, k) =~= r);
    }
}

/// The recording a crashed meeting's segments make after repair: the
/// segments whose repair succeeded with some audio, in order, and their
/// total duration (`repaired[i]` is what repairing segment `i` reported:
/// its sample count, or nothing when it could not be read).
pub fn recover_segments(segments: Vec<String>, repaired: &[Option<u64>]) -> (r: RecordingResult)
    requires
        segments@.len() == repaired@.len(),
        kept_samples(repaired@) * 1000 <= u64::MAX,
    ensures
        name_views(r.segments@) == kept_segments(name_views(segments@), repaired@),
        r.duration_ms == kept_samples(repaired@) * 1000 / 16000,
{
    let ghost all = name_views(segments@);
    let mut kept: Vec<String> = Vec::new();
    let mut rest = segments;
    let n = rest.len();
    let mut total: u64 = 0;
    let mut i: usize = 0;
    while rest.len() > 0
        invariant
            all.len() == n,
            repaired@.len() == n,
            i + rest@.len() == n,
            kept_samples(repaired@) * 1000 <= u64::MAX,
            name_views(rest@) == all.subrange(i as int, n as int),
            name_views(kept@) == kept_segments(all.subrange(0, i as int), repaired@.subrange(0, i as int)),
            total == kept_samples(repaired@.subrange(0, i as int)),
        decreases rest.len(),
    {
        let ghost old_rest = rest@;
        let x = rest.remove(0);
        assert(all[i as int] == x@) by {
            assert(name_views(old_rest)[0] == all.subrange(i as int, n as int)[0]);
        }
        assert forall|k: int| 0 <= k < rest@.len() implies rest@[k]@ == all[i + 1 + k] by {
            assert(rest@[k] == old_rest[k + 1]);
            assert(name_views(old_rest)[k + 1] == all.subrange(i as int, n as int)[k + 1]);
        }
        assert(name_views(rest@) =~= all.subrange(i + 1, n as int));
        assert(all.subrange(0, i + 1).drop_last() =~= all.subrange(0, i as int));
        assert(repaired@.subrange(0, i + 1).drop_last() =~= repaired@.subrange(0, i as int));
        proof {
            lemma_kept_samples_mono(repaired@, i + 1);
        }
        let ghost before = name_views(kept@);
        match repaired[i] {
            Some(count) => {
                if count > 0 {
                    kept.push(x);
                    assert(name_views(kept@) =~= before.push(all[i as int]));
                }
                total = total + count;
            },
            None => {},
        }
        i = i + 1;
    }
    assert(all.subrange(0, i as int) =~= all);
    assert(repaired@.subrange(0, i as int) =~= repaired@);
    RecordingResult { segments: kept, duration_ms: (total * 1000 / 16000) as i64 }
}

// ── input devices ──────────────────────────────────────────────────────────

/// Consecutive repeats dropped (`Vec::dedup`).
pub open spec fn dedup(s: Seq<Seq<char>>) -> Seq<Seq<char>>
    decreases s.len(),
{
    if s.len() == 0 {
        Seq::empty()
    } else {
        let p = dedup(s.drop_last());
        if p.len() > 0 && p.last() == s.last() {
            p
        } else {
            p.push(s.last())
        }
    }
}

/// Every occurrence of `x` dropped.
pub open spec fn without(s: Seq<Seq<char>>, x: Seq<char>) -> Seq<Seq<char>>
    decreases s.len(),
{
    if s.len() == 0 {
        Seq::empty()
    } else {
        without(s.drop_last(), x) + if s.last() == x {
            Seq::empty()
        } else {
            seq![s.last()]
        }
    }
}

/// Which of the connected input devices a saved name selects: the first one
/// of that name. `None` (use the host default) when no name is saved, the
/// name is empty, or no connected device has it any more, so an unplugged
/// device never blocks recording.
pub fn pick_input_device(names: &[String], wanted: Option<&str>) -> (r: Option<usize>)
    ensures
        match wanted {
            Some(w) => if w@.len() > 0 {
                match r {
                    Some(i) => i < names@.len() && names@[i as int]@ == w@ && forall|k: int|
                        0 <= k < i ==> (#[trigger] names@[k])@ != w@,
                    None => forall|k: int| 0 <= k < names@.len() ==> (#[trigger] names@[k])@ != w@,
                }
            } else {
                r is None
            },
            None => r is None,
        },
{
    let w = match wanted {
        Some(w) => w,
        None => {
            return None;
        },
    };
    if w.is_empty() {
        return None;
    }
    let mut i: usize = 0;
    while i < names.len()
        invariant
            i <= names@.len(),
            wanted == Some(w),
            w@.len() > 0,
            forall|k: int| 0 <= k < i ==> (#[trigger] names@[k])@ != w@,
        decreases names.len() - i,
    {
        if str_eq(names[i].as_str(), w) {
            return Some(i);
        }
        i = i + 1;
    }
    None
}

/// The device names for the settings picker: sorted, without repeats, the
/// host default (when known) first.
pub open spec fn spec_device_order(names: Seq<Seq<char>>, default: Option<Seq<char>>) -> Seq<
    Seq<char>,
> {
    let base = dedup(sort_strings(names));
    match default {
        Some(d) => seq![d] + without(base, d),
        None => base,
    }
}

/// Order input device names for the picker.
pub fn order_input_devices(names: Vec<String>, default: Option<String>) -> (r: Vec<String>)
    ensures
        name_views(r@) == spec_device_order(
            name_views(names@),
            match default {
                Some(d) => Some(d@),
                None => None,
            },
        ),
{
    let sorted = sort_strings_exec(names);
    let ghost sv = name_views(sorted@);
    let mut uniq: Vec<String> = Vec::new();
    let mut i: usize = 0;
    while i < sorted.len()
        invariant
            i <= sorted@.len(),
            sv == name_views(sorted@),
            name_views(uniq@) == dedup(sv.subrange(0, i as int)),
        decreases sorted.len() - i,
    {
        assert(sv.subrange(0, i + 1).drop_last() =~= sv.subrange(0, i as int));
        assert(sv[i as int] == sorted@[i as int]@);
        let ghost before = name_views(uniq@);
        let last_same = uniq.len() > 0 && str_eq(uniq[uniq.len() - 1].as_str(), sorted[i].as_str());
        if !last_same {
            uniq.push(sorted[i].clone());
            assert(name_views(uniq@) =~= before.push(sv[i as int]));
        }
        i = i + 1;
    }
    assert(sv.subrange(0, i as int) =~= sv);
    match default {
        None => uniq,
        Some(d) => {
            let ghost u = name_views(uniq@);
            let mut out: Vec<String> = Vec::new();
            out.push(d.clone());
            let mut k: usize = 0;
            while k < uniq.len()
                invariant
                    k <= uniq@.len(),
                    u == name_views(uniq@),
                    name_views(out@) == seq![d@] + without(u.subrange(0, k as int), d@),
                decreases uniq.len() - k,
            {
                assert(u.subrange(0, k + 1).drop_last() =~= u.subrange(0, k as int));
                assert(u[k as int] == uniq@[k as int]@);
                let ghost before = name_views(out@);
                if !str_eq(uniq[k].as_str(), d.as_str()) {
                    out.push(uniq[k].clone());
                    assert(name_views(out@) =~= before.push(u[k as int]));
                }
                assert(name_views(out@) =~= seq![d@] + without(u.subrange(0, k + 1), d@));
                k = k + 1;
            }
            assert(u.subrange(0, k as int) =~= u);
            out
        },
    }
}

// ── the capture thread's startup report ────────────────────────────────────

/// `str::parse::<u32>`: an optional `+`, then one or more ASCII digits whose
/// value fits.
pub open spec fn spec_parse_u32(s: Seq<char>) -> Option<u32> {
    let d = if s.len() > 0 && s[0] == '+' {
        s.drop_first()
    } else {
        s
    };
    if d.len() == 0 || !ascii_digits(d, 0, d.len() as int) || digits_value(d, 0, d.len() as int)
        > u32::MAX {
        None
    } else {
        Some(digits_value(d, 0, d.len() as int) as u32)
    }
}

proof fn lemma_digits_value_mono(s: Seq<char>, k: int, n: int)
    requires
        0 <= k <= n <= s.len(),
        ascii_digits(s, 0, n),
    ensures
        digits_value(s, 0, k) <= digits_value(s, 0, n),
        digits_value(s, 0, k) >= 0,
    decreases n - k,
{
    if k < n {
        lemma_digits_value_mono(s, k, n - 1);
        assert('0' <= s[n - 1] <= '9');
    } else {
        lemma_digits_value_nonneg(s, n);
    }
}

proof fn lemma_digits_value_nonneg(s: Seq<char>, n: int)
    requires
        0 <= n <= s.len(),
        ascii_digits(s, 0, n),
    ensures
        digits_value(s, 0, n) >= 0,
    decreases n,
{
    if n > 0 {
        lemma_digits_value_nonneg(s, n - 1);
        assert('0' <= s[n - 1] <= '9');
    }
}

/// Parse a decimal `u32` as `str::parse` does.
pub fn parse_u32(s: &str) -> (r: Option<u32>)
    ensures
        r == spec_parse_u32(s@),
{
    let v = chars_of(s);
    let start: usize = if v.len() > 0 && v[0] == '+' {
        1
    } else {
        0
    };
    let ghost d = if s@.len() > 0 && s@[0] == '+' {
        s@.drop_first()
    } else {
        s@
    };
    assert(d =~= v@.skip(start as int));
    if v.len() == start {
        return None;
    }
    let mut value: u64 = 0;
    let mut i: usize = start;
    while i < v.len()
        invariant
            start <= i <= v@.len(),
            v@ == s@,
            d == v@.skip(start as int),
            d == (if s@.len() > 0 && s@[0] == '+' {
                s@.drop_first()
            } else {
                s@
            }),
            d.len() > 0,
            ascii_digits(d, 0, i - start),
            value == digits_value(d, 0, i - start),
            value <= u32::MAX,
        decreases v.len() - i,
    {
        let c = v[i];
        assert(d[i - start] == c);
        if !('0' <= c && c <= '9') {
            assert(!('0' <= d[i - start] <= '9'));
            assert(!ascii_digits(d, 0, d.len() as int));
            return None;
        }
        let digit = (c as u32 - '0' as u32) as u64;
        value = value * 10 + digit;
        i = i + 1;
        assert(ascii_digits(d, 0, i - start)) by {
            assert forall|k: int| 0 <= k < i - start implies '0' <= #[trigger] d[k] <= '9' by {
                if k < i - start - 1 {
                    assert(ascii_digits(d, 0, i - start - 1));
                }
            }
        }
        assert(value == digits_value(d, 0, i - start));
        if value > 0xffff_ffff {
            proof {
                if ascii_digits(d, 0, d.len() as int) {
                    lemma_digits_value_mono(d, i - start, d.len() as int);
                }
            }
            return None;
        }
    }
    Some(value as u32)
}

/// What the capture thread reported at startup (`None` when it ended
/// without a word): the device's sample rate after `ok:` (48 kHz when it
/// does not parse), else the failure it reported.
pub fn startup_outcome(report: Option<Option<String>>) -> (r: Result<u32>)
    ensures
        match report {
            None | Some(None) => r matches Err(Error::Audio(m)) && m@
                == "audio thread died before reporting"@,
            Some(Some(msg)) => if starts_with(msg@, "ok:"@) {
                r matches Ok(rate) && rate == match spec_parse_u32(msg@.skip(3)) {
                    Some(v) => v,
                    None => 48_000,
                }
            } else {
                r matches Err(Error::Audio(m)) && m@ == msg@
            },
        },
{
    match report {
        Some(Some(msg)) => {
            let v = chars_of(msg.as_str());
            let p = chars_of("ok:");
            proof {
                reveal_strlit("ok:");
            }
            if starts_with_exec(v.as_slice(), p.as_slice()) {
                let rest = string_of(crate::text::sub_vec(v.as_slice(), 3, v.len()).as_slice());
                assert(rest@ =~= msg@.skip(3));
                match parse_u32(rest.as_str()) {
                    Some(rate) => Ok(rate),
                    None => Ok(48_000),
                }
            } else {
                Err(Error::Audio(msg))
            }
        },
        _ => Err(
            Error::Audio(string_of(chars_of("audio thread died before reporting").as_slice())),
        ),
    }
}

/// A failure the capture thread reported while running (an unplugged
/// microphone), if the latest report is one: any report but `ok:...`.
pub fn runtime_error(report: Option<Option<String>>) -> (r: Option<String>)
    ensures
        match report {
            Some(Some(msg)) => if starts_with(msg@, "ok:"@) {
                r is None
            } else {
                r matches Some(m) && m == msg
            },
            _ => r is None,
        },
{
    match report {
        Some(Some(msg)) => {
            let v = chars_of(msg.as_str());
            let p = chars_of("ok:");
            if starts_with_exec(v.as_slice(), p.as_slice()) {
                None
            } else {
                Some(msg)
            }
        },
        _ => None,
    }
}

} // verus!
