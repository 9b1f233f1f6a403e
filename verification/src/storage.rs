//! The meeting database's query rules. The database itself is left to the
//! caller.

use vstd::prelude::*;

use crate::models::{Highlight, MeetingNotes, NoteActionItem};
use crate::text::{
    chars_of, collapse_whitespace, join, join_exec, push_all, replace_char, replace_char_exec,
    str_eq, string_of, views, words, unicode_whitespace, is_whitespace,
};

verus! {

/// A transcript search hit.
#[derive(Debug, Clone)]
pub struct SearchHit {
    pub meeting_id: String,
    pub meeting_title: String,
    pub speaker: String,
    pub start_ms: i64,
    pub snippet: String,
}

/// One query word as an FTS5 string: in double quotes, inner quotes doubled.
pub open spec fn quote_token(t: Seq<char>) -> Seq<char> {
    "\""@ + replace_char(t, '"', "\"\""@) + "\""@
}

/// The full-text query for what a user typed: each whitespace-separated
/// word quoted, so user input can't hit FTS5 syntax errors; several words
/// make an implicit AND.
pub open spec fn spec_fts_query(query: Seq<char>) -> Seq<char> {
    join(words(query).map_values(|t: Seq<char>| quote_token(t)), " "@)
}

fn words_exec(s: &[char]) -> (r: Vec<Vec<char>>)
    ensures
        views(r@) == words(s@),
{
    let mut out: Vec<Vec<char>> = Vec::new();
    let mut i: usize = 0;
    while i < s.len()
        invariant
            i <= s@.len(),
            views(out@) == words(s@.subrange(0, i as int)),
        decreases s.len() - i,
    {
        let c = s[i];
        let ghost pre = s@.subrange(0, i as int);
        let ghost cur = s@.subrange(0, i + 1);
        assert(cur.drop_last() =~= pre);
        assert(cur.last() == c);
        let ghost w = views(out@);
        if is_whitespace(c) {
        } else if i > 0 && !is_whitespace(s[i - 1]) {
            assert(cur[cur.len() - 2] == s@[i - 1]);
            proof {
                assert(pre.last() == s@[i - 1]);
                crate::text::lemma_words_nonempty(pre);
            }
            let k = out.len() - 1;
            let mut last = out.pop().unwrap();
            last.push(c);
            out.push(last);
            assert(views(out@) =~= w.update(w.len() - 1, w.last().push(c)));
        } else {
            if i > 0 {
                assert(cur[cur.len() - 2] == s@[i - 1]);
            }
            let mut nw: Vec<char> = Vec::new();
            nw.push(c);
            out.push(nw);
            assert(views(out@) =~= w.push(seq![c]));
        }
        i = i + 1;
    }
    assert(s@.subrange(0, i as int) =~= s@);
    out
}

/// The sanitized full-text query; empty when the input has no words.
pub fn fts_query(query: &str) -> (r: String)
    ensures
        r@ == spec_fts_query(query@),
{
    let v = chars_of(query);
    let ws = words_exec(v.as_slice());
    let ghost wv = views(ws@);
    let mut quoted: Vec<Vec<char>> = Vec::new();
    let dq = chars_of("\"\"");
    let mut i: usize = 0;
    while i < ws.len()
        invariant
            i <= ws@.len(),
            wv == views(ws@),
            dq@ == "\"\""@,
            views(quoted@) == wv.subrange(0, i as int).map_values(|t: Seq<char>| quote_token(t)),
        decreases ws.len() - i,
    {
        proof {
            reveal_strlit("\"");
        }
        assert(wv[i as int] == ws@[i as int]@);
        let mut q = chars_of("\"");
        let inner = replace_char_exec(ws[i].as_slice(), '"', dq.as_slice());
        push_all(&mut q, inner.as_slice());
        q.push('"');
        assert(inner@ == replace_char(wv[i as int], '"', "\"\""@));
        assert("\""@ == seq!['"']);
        assert(q@ =~= quote_token(wv[i as int]));
        let ghost before = views(quoted@);
        quoted.push(q);
        assert(views(quoted@) =~= before.push(quote_token(wv[i as int])));
        assert(views(quoted@) =~= wv.subrange(0, i + 1).map_values(|t: Seq<char>| quote_token(t)));
        i = i + 1;
    }
    assert(wv.subrange(0, i as int) =~= wv);
    let sep = chars_of(" ");
    let j = join_exec(&quoted, sep.as_slice());
    string_of(j.as_slice())
}

// ── renaming a speaker in the stored notes ─────────────────────────────────

/// A text after renaming: `to` where it was exactly `from`, else unchanged.
pub open spec fn renamed(s: Seq<char>, from: Seq<char>, to: Seq<char>) -> Seq<char> {
    if s == from {
        to
    } else {
        s
    }
}

/// Every text of the notes renamed: each text field, each list entry, each
/// action item's task, owner and due date, and each highlight's quote and
/// speaker; absent owners and due dates and the highlights' timestamps stay.
pub open spec fn notes_renamed(
    r: MeetingNotes,
    n: MeetingNotes,
    from: Seq<char>,
    to: Seq<char>,
) -> bool {
    &&& r.title@ == renamed(n.title@, from, to)
    &&& r.tldr@ == renamed(n.tldr@, from, to)
    &&& r.summary@ == renamed(n.summary@, from, to)
    &&& list_renamed(r.key_points@, n.key_points@, from, to)
    &&& list_renamed(r.decisions@, n.decisions@, from, to)
    &&& list_renamed(r.open_questions@, n.open_questions@, from, to)
    &&& r.action_items@.len() == n.action_items@.len()
    &&& forall|i: int|
        0 <= i < n.action_items@.len() ==> item_renamed(
            #[trigger] r.action_items@[i],
            n.action_items@[i],
            from,
            to,
        )
    &&& r.highlights@.len() == n.highlights@.len()
    &&& forall|i: int|
        0 <= i < n.highlights@.len() ==> highlight_renamed(
            #[trigger] r.highlights@[i],
            n.highlights@[i],
            from,
            to,
        )
}

pub open spec fn list_renamed(r: Seq<String>, n: Seq<String>, from: Seq<char>, to: Seq<char>) -> bool {
    &&& r.len() == n.len()
    &&& forall|i: int| 0 <= i < n.len() ==> (#[trigger] r[i])@ == renamed(n[i]@, from, to)
}

pub open spec fn opt_renamed(r: Option<String>, n: Option<String>, from: Seq<char>, to: Seq<char>) -> bool {
    match n {
        Some(s) => r matches Some(t) && t@ == renamed(s@, from, to),
        None => r is None,
    }
}

pub open spec fn item_renamed(r: NoteActionItem, n: NoteActionItem, from: Seq<char>, to: Seq<char>) -> bool {
    &&& r.task@ == renamed(n.task@, from, to)
    &&& opt_renamed(r.owner, n.owner, from, to)
    &&& opt_renamed(r.due, n.due, from, to)
}

pub open spec fn highlight_renamed(r: Highlight, n: Highlight, from: Seq<char>, to: Seq<char>) -> bool {
    &&& r.quote@ == renamed(n.quote@, from, to)
    &&& r.speaker@ == renamed(n.speaker@, from, to)
    &&& r.timestamp_ms == n.timestamp_ms
}

fn rename_str(s: &str, from: &str, to: &str) -> (r: String)
    ensures
        r@ == renamed(s@, from@, to@),
{
    if str_eq(s, from) {
        string_of(chars_of(to).as_slice())
    } else {
        string_of(chars_of(s).as_slice())
    }
}

fn rename_opt(o: &Option<String>, from: &str, to: &str) -> (r: Option<String>)
    ensures
        opt_renamed(r, *o, from@, to@),
{
    match o {
        Some(s) => Some(rename_str(s.as_str(), from, to)),
        None => None,
    }
}

fn rename_list(v: &Vec<String>, from: &str, to: &str) -> (r: Vec<String>)
    ensures
        list_renamed(r@, v@, from@, to@),
{
    let mut out: Vec<String> = Vec::new();
    let mut i: usize = 0;
    while i < v.len()
        invariant
            i <= v@.len(),
            out@.len() == i,
            forall|k: int| 0 <= k < i ==> (#[trigger] out@[k])@ == renamed(v@[k]@, from@, to@),
        decreases v.len() - i,
    {
        out.push(rename_str(v[i].as_str(), from, to));
        i = i + 1;
    }
    out
}

/// The notes with every text exactly equal to `from` replaced by `to`: how
/// renaming a speaker reaches the stored notes (their owners, highlights and
/// any other field that held the label).
pub fn rename_in_notes(notes: &MeetingNotes, from: &str, to: &str) -> (r: MeetingNotes)
    ensures
        notes_renamed(r, *notes, from@, to@),
        r.highlights@.len() == notes.highlights@.len(),
        forall|i: int|
            0 <= i < notes.highlights@.len() ==> (#[trigger] r.highlights@[i]).speaker@ == (if notes.highlights@[i].speaker@
                == from@ {
                to@
            } else {
                notes.highlights@[i].speaker@
            }) && r.highlights@[i].quote@ == (if notes.highlights@[i].quote@ == from@ {
                to@
            } else {
                notes.highlights@[i].quote@
            }) && r.highlights@[i].timestamp_ms == notes.highlights@[i].timestamp_ms,
        r.action_items@.len() == notes.action_items@.len(),
        forall|i: int|
            0 <= i < notes.action_items@.len() ==> (#[trigger] r.action_items@[i]).task@ == (if notes.action_items@[i].task@
                == from@ {
                to@
            } else {
                notes.action_items@[i].task@
            }) && (match notes.action_items@[i].owner {
                Some(o) => r.action_items@[i].owner matches Some(t) && t@ == (if o@ == from@ {
                    to@
                } else {
                    o@
                }),
                None => r.action_items@[i].owner is None,
            }),
        r.title@ == (if notes.title@ == from@ {
            to@
        } else {
            notes.title@
        }),
{

    let mut items: Vec<NoteActionItem> = Vec::new();
    let mut i: usize = 0;
    while i < notes.action_items.len()
        invariant
            i <= notes.action_items@.len(),
            items@.len() == i,
            forall|k: int|
                0 <= k < i ==> item_renamed(
                    #[trigger] items@[k],
                    notes.action_items@[k],
                    from@,
                    to@,
                ),
        decreases notes.action_items.len() - i,
    {
        let a = &notes.action_items[i];
        items.push(
            NoteActionItem {
                task: rename_str(a.task.as_str(), from, to),
                owner: rename_opt(&a.owner, from, to),
                due: rename_opt(&a.due, from, to),
            },
        );
        i = i + 1;
    }
    let mut highlights: Vec<Highlight> = Vec::new();
    let mut j: usize = 0;
    while j < notes.highlights.len()
        invariant
            j <= notes.highlights@.len(),
            highlights@.len() == j,
            forall|k: int|
                0 <= k < j ==> highlight_renamed(
                    #[trigger] highlights@[k],
                    notes.highlights@[k],
                    from@,
                    to@,
                ),
        decreases notes.highlights.len() - j,
    {
        let h = &notes.highlights[j];
        highlights.push(
            Highlight {
                quote: rename_str(h.quote.as_str(), from, to),
                speaker: rename_str(h.speaker.as_str(), from, to),
                timestamp_ms: h.timestamp_ms,
            },
        );
        j = j + 1;
    }
    MeetingNotes {
        title: rename_str(notes.title.as_str(), from, to),
        tldr: rename_str(notes.tldr.as_str(), from, to),
        summary: rename_str(notes.summary.as_str(), from, to),
        key_points: rename_list(&notes.key_points, from, to),
        decisions: rename_list(&notes.decisions, from, to),
        action_items: items,
        open_questions: rename_list(&notes.open_questions, from, to),
        highlights,
    }
}

/// Renaming replaces exactly the texts equal to the old label: a renamed
/// highlight names the new speaker where it named the old one and keeps its
/// speaker otherwise, its quote likewise and its timestamp unchanged; a
/// renamed action item's task and owner likewise; and an absent owner stays
/// absent.
pub proof fn lemma_rename_replaces_exactly(
    rh: Highlight,
    nh: Highlight,
    ra: NoteActionItem,
    na: NoteActionItem,
    from: Seq<char>,
    to: Seq<char>,
)
    requires
        highlight_renamed(rh, nh, from, to),
        item_renamed(ra, na, from, to),
    ensures
        nh.speaker@ == from ==> rh.speaker@ == to,
        nh.speaker@ != from ==> rh.speaker@ == nh.speaker@,
        nh.quote@ == from ==> rh.quote@ == to,
        nh.quote@ != from ==> rh.quote@ == nh.quote@,
        rh.timestamp_ms == nh.timestamp_ms,
        na.task@ == from ==> ra.task@ == to,
        na.task@ != from ==> ra.task@ == na.task@,
        na.owner matches Some(o) ==> (ra.owner matches Some(t) && t@ == (if o@ == from {
            to
        } else {
            o@
        })),
        na.owner is None ==> ra.owner is None,
{
}

/// Renaming reaches every text field and list of the notes: each text
/// equal to the old label becomes the new one, every other text stays, and
/// every list keeps its length.
pub proof fn lemma_rename_reaches_every_text(r: MeetingNotes, n: MeetingNotes, from: Seq<char>, to: Seq<char>)
    requires
        notes_renamed(r, n, from, to),
    ensures
        r.title@ == (if n.title@ == from { to } else { n.title@ }),
        r.tldr@ == (if n.tldr@ == from { to } else { n.tldr@ }),
        r.summary@ == (if n.summary@ == from { to } else { n.summary@ }),
        r.key_points@.len() == n.key_points@.len(),
        forall|i: int|
            0 <= i < n.key_points@.len() ==> (#[trigger] r.key_points@[i])@ == (if n.key_points@[i]@
                == from {
                to
            } else {
                n.key_points@[i]@
            }),
        r.decisions@.len() == n.decisions@.len(),
        forall|i: int|
            0 <= i < n.decisions@.len() ==> (#[trigger] r.decisions@[i])@ == (if n.decisions@[i]@
                == from {
                to
            } else {
                n.decisions@[i]@
            }),
        r.open_questions@.len() == n.open_questions@.len(),
        forall|i: int|
            0 <= i < n.open_questions@.len() ==> (#[trigger] r.open_questions@[i])@ == (
            if n.open_questions@[i]@ == from {
                to
            } else {
                n.open_questions@[i]@
            }),
        r.action_items@.len() == n.action_items@.len(),
        r.highlights@.len() == n.highlights@.len(),
        forall|i: int|
            0 <= i < n.highlights@.len() ==> (#[trigger] r.highlights@[i]).speaker@ == (
            if n.highlights@[i].speaker@ == from {
                to
            } else {
                n.highlights@[i].speaker@
            }),
{
}

} // verus!
