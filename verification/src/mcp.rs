//! The meeting library's tools for AI clients: their parameters and the
//! rules they apply. The protocol server itself is left to the caller.

use vstd::prelude::*;

use crate::models::Meeting;
use crate::text::{chars_of, contains_exec, contains_seq, matches_at, to_lowercase, unicode_lowercase};

verus! {

/// Parameters of `list_meetings`.
#[derive(Debug, Clone)]
pub struct ListMeetingsParams {
    /// Optional case-insensitive filter on the meeting title.
    pub query: Option<String>,
}

/// Parameters of `search_transcript`.
#[derive(Debug, Clone)]
pub struct SearchTranscriptParams {
    /// Full-text query over all meeting transcripts.
    pub query: String,
    /// Maximum hits to return (default 20).
    pub limit: Option<u32>,
}

/// Parameters of the per-meeting tools.
#[derive(Debug, Clone)]
pub struct MeetingIdParams {
    /// Meeting id (from list_meetings or search_transcript).
    pub meeting_id: String,
}

/// Parameters of `get_action_items`.
#[derive(Debug, Clone)]
pub struct ActionItemsParams {
    /// Filter by status: "open" or "done". Omit for all.
    pub status: Option<String>,
}

/// Hits `search_transcript` returns when no limit is given.
pub const DEFAULT_SEARCH_LIMIT: u32 = 20;

impl SearchTranscriptParams {
    /// The number of hits asked for, 20 by default.
    pub fn limit_or_default(&self) -> (r: u32)
        ensures
            r == match self.limit {
                Some(l) => l,
                None => DEFAULT_SEARCH_LIMIT,
            },
    {
        match self.limit {
            Some(l) => l,
            None => DEFAULT_SEARCH_LIMIT,
        }
    }
}

/// The instructions the server gives its clients.
pub const SERVER_INSTRUCTIONS: &'static str =
    "Ogma meeting library: recorded in-person meetings with transcripts and \
     AI notes. Use search_transcript for content questions, get_action_items \
     for todos, get_meeting_notes for summaries.";

/// A meeting's title holds the query, both lowercased.
pub open spec fn title_matches(m: Meeting, q: Seq<char>) -> bool {
    contains_seq(unicode_lowercase(m.title@), unicode_lowercase(q))
}

/// The meetings whose title holds the query, in order.
pub open spec fn spec_title_filter(ms: Seq<Meeting>, q: Seq<char>) -> Seq<Meeting>
    decreases ms.len(),
{
    if ms.len() == 0 {
        Seq::empty()
    } else {
        spec_title_filter(ms.drop_last(), q) + if title_matches(ms.last(), q) {
            seq![ms.last()]
        } else {
            Seq::empty()
        }
    }
}

/// `list_meetings`' filter: with a non-empty query, the meetings whose title
/// holds it case-insensitively, in order; all of them otherwise.
pub fn filter_meetings(meetings: Vec<Meeting>, query: Option<String>) -> (r: Vec<Meeting>)
    ensures
        match query {
            Some(q) => if q@.len() > 0 {
                r@ == spec_title_filter(meetings@, q@)
            } else {
                r@ == meetings@
            },
            None => r@ == meetings@,
        },
{
    let q = match query {
        Some(q) => q,
        None => {
            return meetings;
        },
    };
    if q.as_str().is_empty() {
        return meetings;
    }
    let ql = to_lowercase(q.as_str());
    let qv = chars_of(ql.as_str());
    let ghost all = meetings@;
    let mut out: Vec<Meeting> = Vec::new();
    let mut rest = meetings;
    let n = rest.len();
    let mut i: usize = 0;
    while rest.len() > 0
        invariant
            all.len() == n,
            i + rest@.len() == n,
            rest@ == all.subrange(i as int, n as int),
            out@ == spec_title_filter(all.subrange(0, i as int), q@),
            qv@ == unicode_lowercase(q@),
        decreases rest.len(),
    {
        let m = rest.remove(0);
        assert(m == all[i as int]);
        assert(rest@ =~= all.subrange(i + 1, n as int));
        assert(all.subrange(0, i + 1).drop_last() =~= all.subrange(0, i as int));
        let tl = to_lowercase(m.title.as_str());
        let tv = chars_of(tl.as_str());
        let hit = if qv.len() == 0 {
            assert(tv@.subrange(0, 0) =~= qv@);
            assert(matches_at(tv@, qv@, 0));
            true
        } else {
            contains_exec(tv.as_slice(), qv.as_slice())
        };
        if hit {
            out.push(m);
        }
        i = i + 1;
    }
    assert(all.subrange(0, i as int) =~= all);
    out
}

} // verus!
