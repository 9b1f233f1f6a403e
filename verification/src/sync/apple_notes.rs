//! Apple Notes destination (macOS only).
//!
//! Notes has no public API; `osascript` can create a note with an HTML body.
//! This module renders that body and reads back what `osascript` reported;
//! running it is left to the caller.

use vstd::prelude::*;

use crate::datetime::{minute_stamp_chars, parse_rfc3339, rfc3339_accepts, spec_minute_stamp};
use crate::error::{Error, Result};
use crate::models::{Meeting, MeetingNotes, TranscriptSegment};
use crate::sync::markdown::written_stamp;
use crate::sync::render::{
    block_views, blocks_to_html, distinct_names, distinct_speakers, html_escape, note_blocks,
    speaker_views, spec_blocks_to_html, spec_html_escape, spec_note_blocks, string_views,
};
use crate::text::{
    chars_of, contains_exec, contains_seq, decimal_u64, join, join_exec, push_all, push_str,
    spec_decimal, spec_trim, string_of, trim_chars, utf8_lossy, utf8_lossy_decode,
};

verus! {

/// Creates one note per meeting in an "Ogma" folder of Apple Notes.
#[derive(Debug, Clone, Copy)]
pub struct AppleNotesDestination;

/// The AppleScript run with the note body as its only argument: title and
/// body arrive via `argv`, never spliced into the script source.
pub const SCRIPT: &'static str = "
on run argv
    set noteBody to item 1 of argv
    tell application \"Notes\"
        if not (exists folder \"Ogma\") then
            make new folder with properties {name:\"Ogma\"}
        end if
        set theNote to make new note at folder \"Ogma\" with properties {body:noteBody}
        return id of theNote
    end tell
end run
";

/// The code macOS reports when the user declined (or revoked) the
/// Automation permission: errAEEventNotPermitted.
pub const NOT_PERMITTED_CODE: &'static str = "-1743";

/// Appended to the failure message when the Automation permission is missing.
pub const AUTOMATION_HINT: &'static str =
    " \u{2014} allow Ogma to control Notes in System Settings \u{2192} Privacy & Security \u{2192} Automation";

/// The failure message for an unsuccessful run with the given stderr.
pub open spec fn failure_message(stderr: Seq<u8>) -> Seq<char> {
    let err = spec_trim(utf8_lossy_decode(stderr));
    "Apple Notes sync failed: "@ + err + if contains_seq(err, NOT_PERMITTED_CODE@) {
        AUTOMATION_HINT@
    } else {
        Seq::empty()
    }
}

/// Map an `osascript` invocation's outcome to the created note's id, or a
/// descriptive error, with an Automation-permission hint when macOS reports
/// the Apple event was blocked.
pub fn interpret(success: bool, stdout: &[u8], stderr: &[u8]) -> (r: Result<String>)
    ensures
        !success ==> (r matches Err(Error::Other(m)) && m@ == failure_message(stderr@)),
        success && spec_trim(utf8_lossy_decode(stdout@)).len() == 0 ==> (r matches Err(
            Error::Other(m),
        ) && m@ == "Apple Notes sync returned no note id"@),
        success && spec_trim(utf8_lossy_decode(stdout@)).len() > 0 ==> (r matches Ok(id) && id@
            == spec_trim(utf8_lossy_decode(stdout@))),
{
    if !success {
        let raw = utf8_lossy(stderr);
        let err = trim_chars(chars_of(raw.as_str()).as_slice(), false);
        let code = chars_of(NOT_PERMITTED_CODE);
        proof {
            reveal_strlit("-1743");
        }
        let mut msg = chars_of("Apple Notes sync failed: ");
        push_all(&mut msg, err.as_slice());
        if contains_exec(err.as_slice(), code.as_slice()) {
            push_str(&mut msg, AUTOMATION_HINT);
        }
        assert(msg@ =~= failure_message(stderr@));
        return Err(Error::Other(string_of(msg.as_slice())));
    }
    let raw = utf8_lossy(stdout);
    let id = trim_chars(chars_of(raw.as_str()).as_slice(), false);
    if id.len() == 0 {
        return Err(Error::Other(string_of(chars_of("Apple Notes sync returned no note id").as_slice())));
    }
    Ok(string_of(id.as_slice()))
}

/// `2026-07-09 14:32` from the stored RFC 3339 stamp; the raw stamp if it
/// doesn't parse (never fails the sync over cosmetics).
pub open spec fn spec_friendly_date(created_at: Seq<char>) -> Seq<char> {
    if rfc3339_accepts(created_at) {
        spec_minute_stamp(written_stamp(created_at), ':')
    } else {
        created_at
    }
}

fn friendly_date_chars(created_at: &str) -> (r: Vec<char>)
    ensures
        r@ == spec_friendly_date(created_at@),
{
    match parse_rfc3339(created_at) {
        Some(d) => minute_stamp_chars(&d, ':'),
        None => chars_of(created_at),
    }
}

/// `2026-07-09 14:32` from the stored RFC 3339 stamp; the raw stamp if it
/// doesn't parse.
pub fn friendly_date(created_at: &str) -> (r: String)
    ensures
        r@ == spec_friendly_date(created_at@),
{
    let v = friendly_date_chars(created_at);
    string_of(v.as_slice())
}

/// The meta line's parts: the date, the whole minutes when the meeting has
/// a duration, and the attendees when there are any.
pub open spec fn meta_parts(meeting: Meeting, attendees: Seq<Seq<char>>) -> Seq<Seq<char>> {
    seq![spec_friendly_date(meeting.created_at@)] + (if meeting.duration_ms > 0 {
        seq![spec_decimal((meeting.duration_ms / 60000) as nat) + " min"@]
    } else {
        Seq::empty()
    }) + (if attendees.len() > 0 {
        seq![join(attendees, ", "@)]
    } else {
        Seq::empty()
    })
}

/// The note's HTML body: an `<h1>` of the title (Notes takes the first line
/// as the note title), the meta line in italics, then the note's blocks.
pub open spec fn spec_note_html(
    meeting: Meeting,
    notes: MeetingNotes,
    segments: Seq<TranscriptSegment>,
) -> Seq<char> {
    "<h1>"@ + spec_html_escape(meeting.title@) + "</h1>\n"@ + "<div><i>"@ + spec_html_escape(
        join(
            meta_parts(meeting, distinct_names(speaker_views(segments), false)),
            " \u{b7} "@,
        ),
    ) + "</i></div>\n"@ + spec_blocks_to_html(spec_note_blocks(notes, segments))
}

/// The note's HTML body.
pub fn note_html(meeting: &Meeting, notes: &MeetingNotes, segments: &[TranscriptSegment]) -> (r:
    String)
    ensures
        r@ == spec_note_html(*meeting, *notes, segments@),
{
    let mut out = chars_of("<h1>");
    let t = html_escape(meeting.title.as_str());
    push_str(&mut out, t.as_str());
    push_str(&mut out, "</h1>\n");
    let mut meta: Vec<Vec<char>> = Vec::new();
    meta.push(friendly_date_chars(meeting.created_at.as_str()));
    if meeting.duration_ms > 0 {
        let mins = meeting.duration_ms / 60_000;
        let mut d = decimal_u64(mins as u64);
        push_str(&mut d, " min");
        meta.push(d);
    }
    let attendees = distinct_speakers(segments);
    if attendees.len() > 0 {
        let mut names: Vec<Vec<char>> = Vec::new();
        let mut i: usize = 0;
        while i < attendees.len()
            invariant
                i <= attendees@.len(),
                crate::text::views(names@) == string_views(attendees@).subrange(0, i as int),
            decreases attendees.len() - i,
        {
            let ghost before = crate::text::views(names@);
            let v = chars_of(attendees[i].as_str());
            names.push(v);
            assert(crate::text::views(names@) =~= before.push(attendees@[i as int]@));
            assert(crate::text::views(names@) =~= string_views(attendees@).subrange(0, i + 1));
            i = i + 1;
        }
        assert(string_views(attendees@).subrange(0, i as int) =~= string_views(attendees@));
        let sep = chars_of(", ");
        meta.push(join_exec(&names, sep.as_slice()));
    }
    let ghost names_spec = distinct_names(speaker_views(segments@), false);
    assert(crate::text::views(meta@) =~= meta_parts(*meeting, names_spec));
    let dot = chars_of(" \u{b7} ");
    let line = join_exec(&meta, dot.as_slice());
    push_str(&mut out, "<div><i>");
    let esc = html_escape(string_of(line.as_slice()).as_str());
    push_str(&mut out, esc.as_str());
    push_str(&mut out, "</i></div>\n");
    let blocks = note_blocks(notes, segments);
    let body = blocks_to_html(blocks.as_slice());
    push_str(&mut out, body.as_str());
    assert(out@ =~= spec_note_html(*meeting, *notes, segments@));
    string_of(out.as_slice())
}

} // verus!
