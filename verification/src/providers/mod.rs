//! What the transcription and notes providers hand the pipeline, and the
//! retry policy shared by their HTTP calls.

pub mod claude;
pub mod whisper;

use vstd::prelude::*;

use crate::error::Error;
use crate::models::{MeetingNotes, TranscriptSegment};
use crate::text::{chars_of, push_str, str_eq, string_of, take_chars, take_chars_exec};

verus! {

/// One uploadable audio chunk plus its offset into the full recording.
#[derive(Debug, Clone)]
pub struct AudioChunk {
    pub path: String,
    pub offset_ms: i64,
}

/// Raw (speaker-less) transcript utterance from speech-to-text.
#[derive(Debug, Clone)]
pub struct Utterance {
    pub start_ms: i64,
    pub end_ms: i64,
    pub text: String,
}

pub ghost struct UtteranceView {
    pub start_ms: i64,
    pub end_ms: i64,
    pub text: Seq<char>,
}

impl View for Utterance {
    type V = UtteranceView;

    open spec fn view(&self) -> UtteranceView {
        UtteranceView { start_ms: self.start_ms, end_ms: self.end_ms, text: self.text@ }
    }
}

/// Output of the notes provider: speaker attribution + structured notes.
#[derive(Debug, Clone)]
pub struct NotesResult {
    /// Speaker-labeled transcript (utterances merged with attribution).
    pub segments: Vec<TranscriptSegment>,
    pub notes: MeetingNotes,
}

// ── retry policy ───────────────────────────────────────────────────────────

/// Attempts a provider call gets in all.
pub const MAX_ATTEMPTS: u32 = 4;

/// Seconds to wait before the first retry; each later wait doubles.
pub const FIRST_RETRY_DELAY_SECS: u64 = 2;

/// Rate limiting (429), server errors (5xx) and transient transport
/// failures are worth retrying; everything else fails at once.
pub open spec fn spec_retryable(e: Error) -> bool {
    match e {
        Error::Api { status, .. } => status == 429 || (500 <= status && status <= 599),
        Error::Http { transient, .. } => transient,
        _ => false,
    }
}

pub fn is_retryable(e: &Error) -> (b: bool)
    ensures
        b == spec_retryable(*e),
{
    match e {
        Error::Api { status, .. } => *status == 429 || (500 <= *status && *status <= 599),
        Error::Http { transient, .. } => *transient,
        _ => false,
    }
}

/// Where a retried call stands: which attempt just ran, and how long to
/// wait before the next one.
#[derive(Debug, Clone, Copy, PartialEq, Eq, Structural)]
pub struct RetryState {
    pub attempt: u32,
    pub delay_secs: u64,
}

/// What to do after a failed attempt.
#[derive(Debug, Clone, Copy, PartialEq, Eq, Structural)]
pub enum RetryStep {
    /// Report the error.
    GiveUp,
    /// Sleep `sleep_secs`, then run the attempt `next`.
    Retry { sleep_secs: u64, next: RetryState },
}

impl RetryState {
    /// The state before the first attempt runs.
    pub open spec fn spec_first() -> RetryState {
        RetryState { attempt: 1, delay_secs: FIRST_RETRY_DELAY_SECS }
    }

    pub fn first() -> (s: RetryState)
        ensures
            s == RetryState::spec_first(),
    {
        RetryState { attempt: 1, delay_secs: FIRST_RETRY_DELAY_SECS }
    }

    /// The decision after attempt `self.attempt` failed with `e`.
    pub open spec fn spec_after_failure(self, e: Error) -> RetryStep {
        if !spec_retryable(e) || self.attempt >= MAX_ATTEMPTS {
            RetryStep::GiveUp
        } else {
            RetryStep::Retry {
                sleep_secs: self.delay_secs,
                next: RetryState {
                    attempt: (self.attempt + 1) as u32,
                    delay_secs: (self.delay_secs * 2) as u64,
                },
            }
        }
    }

    pub fn after_failure(&self, e: &Error) -> (step: RetryStep)
        requires
            self.delay_secs <= u64::MAX / 2,
        ensures
            step == self.spec_after_failure(*e),
    {
        if !is_retryable(e) || self.attempt >= MAX_ATTEMPTS {
            RetryStep::GiveUp
        } else {
            RetryStep::Retry {
                sleep_secs: self.delay_secs,
                next: RetryState { attempt: self.attempt + 1, delay_secs: self.delay_secs * 2 },
            }
        }
    }
}

/// The state a call reaches after `k` retries.
pub open spec fn state_after_retries(k: nat) -> RetryState
    decreases k,
{
    if k == 0 {
        RetryState::spec_first()
    } else {
        let prev = state_after_retries((k - 1) as nat);
        RetryState { attempt: (prev.attempt + 1) as u32, delay_secs: (prev.delay_secs * 2) as u64 }
    }
}

/// Backoff law: starting from the first attempt, the k-th retry waits
/// 2^(k+1) seconds (2, 4, 8), and no call runs more than `MAX_ATTEMPTS`
/// times — once attempt 4 fails, the error is reported whatever it is.
pub proof fn lemma_retry_schedule(k: nat, e: Error)
    requires
        k < MAX_ATTEMPTS,
    ensures
        state_after_retries(k).attempt == k + 1,
        state_after_retries(k).delay_secs == FIRST_RETRY_DELAY_SECS * vstd::arithmetic::power2::pow2(k),
        k + 1 == MAX_ATTEMPTS ==> state_after_retries(k).spec_after_failure(e) == RetryStep::GiveUp,
        !spec_retryable(e) ==> state_after_retries(k).spec_after_failure(e) == RetryStep::GiveUp,
        spec_retryable(e) && k + 1 < MAX_ATTEMPTS ==> state_after_retries(k).spec_after_failure(e)
            == (RetryStep::Retry {
                sleep_secs: state_after_retries(k).delay_secs,
                next: state_after_retries(k + 1),
            }),
    decreases k,
{
    vstd::arithmetic::power2::lemma2_to64();
    if k > 0 {
        lemma_retry_schedule((k - 1) as nat, e);
        vstd::arithmetic::power2::lemma_pow2_unfold(k);
    }
}

/// A client error such as 400 or 404 is never retried.
pub proof fn lemma_client_errors_fail_fast(provider: String, status: u16, message: String, s: RetryState)
    requires
        400 <= status < 500,
        status != 429,
    ensures
        s.spec_after_failure(Error::Api { provider, status, message }) == RetryStep::GiveUp,
{
}

// ── error bodies ───────────────────────────────────────────────────────────

/// The longest error body an API error carries, in characters.
pub const MAX_ERROR_BODY: usize = 500;

/// `s` itself when it has at most `max` characters, else its first `max`
/// characters followed by an ellipsis.
pub open spec fn spec_truncate(s: Seq<char>, max: nat) -> Seq<char> {
    if s.len() <= max {
        s
    } else {
        take_chars(s, max) + "\u{2026}"@
    }
}

/// `s` cut to `max` characters, with an ellipsis when something was cut.
pub fn truncate(s: &str, max: usize) -> (r: String)
    ensures
        r@ == spec_truncate(s@, max as nat),
{
    let v = chars_of(s);
    if v.len() <= max {
        return string_of(v.as_slice());
    }
    let mut cut = take_chars_exec(v.as_slice(), max);
    push_str(&mut cut, "\u{2026}");
    string_of(cut.as_slice())
}

/// The error for a provider reply with a non-success status: the status and
/// the reply body, cut to 500 characters.
pub fn api_failure(provider: &str, status: u16, body: &str) -> (e: Error)
    ensures
        e matches Error::Api { provider: p, status: s, message: m } && p@ == provider@ && s
            == status && m@ == spec_truncate(body@, MAX_ERROR_BODY as nat),
{
    Error::Api {
        provider: string_of(chars_of(provider).as_slice()),
        status,
        message: truncate(body, MAX_ERROR_BODY),
    }
}

// ── reading reply blocks ───────────────────────────────────────────────────

/// One block of an API reply's block list, as far as a caller reads it: its
/// `type` and one text field of it (absent where the reply has none or a
/// non-string there).
#[derive(Debug, Clone)]
pub struct ReplyBlock {
    pub kind: Option<String>,
    pub field: Option<String>,
}

/// The block is of the given type.
pub open spec fn is_kind(b: ReplyBlock, kind: Seq<char>) -> bool {
    b.kind matches Some(k) && k@ == kind
}

/// The field of the first block of the given type: absent when no block is
/// of that type, or when the first one has no such field (later blocks of
/// the type are not consulted).
pub open spec fn spec_first_field(blocks: Seq<ReplyBlock>, kind: Seq<char>) -> Option<String>
    decreases blocks.len(),
{
    if blocks.len() == 0 {
        None
    } else if is_kind(blocks[0], kind) {
        blocks[0].field
    } else {
        spec_first_field(blocks.drop_first(), kind)
    }
}

/// The field of the first block of the given type, if it has one.
pub fn first_field_of_kind(blocks: &[ReplyBlock], kind: &str) -> (r: Option<String>)
    ensures
        r == spec_first_field(blocks@, kind@),
{
    let mut i: usize = 0;
    assert(blocks@.skip(0) =~= blocks@);
    while i < blocks.len()
        invariant
            i <= blocks@.len(),
            spec_first_field(blocks@, kind@) == spec_first_field(blocks@.skip(i as int), kind@),
        decreases blocks.len() - i,
    {
        let ghost rest = blocks@.skip(i as int);
        assert(rest.drop_first() =~= blocks@.skip(i + 1));
        assert(rest[0] == blocks@[i as int]);
        let hit = match &blocks[i].kind {
            Some(k) => str_eq(k.as_str(), kind),
            None => false,
        };
        if hit {
            return blocks[i].field.clone();
        }
        i = i + 1;
    }
    None
}

} // verus!
