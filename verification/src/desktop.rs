//! The desktop app's rules: which dropped or picked files are audio, how an
//! import is titled and reported, and what a restart does to meetings a
//! crash left unfinished. The windows, dialogs and commands are left to the
//! caller.

use vstd::prelude::*;

use crate::datetime::{minute_stamp_chars, spec_minute_stamp, DateStamp};
use crate::models::{ActionItem, MeetingStatus};
use crate::text::{
    ascii_lower, chars_eq, chars_of, join, push_all, push_str, spec_ascii_lower, spec_trim,
    split, split_exec, str_eq, string_of, sub_vec, trim_str, views,
};

verus! {

/// Extensions offered by the import picker and accepted by the importer.
pub const IMPORT_AUDIO_EXTS: [&'static str; 7] = ["wav", "m4a", "mp3", "flac", "ogg", "mp4", "aac"];

/// The accepted extensions, as character sequences.
pub open spec fn audio_exts() -> Seq<Seq<char>> {
    seq!["wav"@, "m4a"@, "mp3"@, "flac"@, "ogg"@, "mp4"@, "aac"@]
}

// ── paths ──────────────────────────────────────────────────────────────────

/// The pieces of a path between slashes, without empty and `.` pieces (as
/// `Path::components` normalizes them).
pub open spec fn path_pieces(p: Seq<char>) -> Seq<Seq<char>>
    decreases split(p, "/"@).len(),
{
    drop_trivial(split(p, "/"@))
}

pub open spec fn drop_trivial(parts: Seq<Seq<char>>) -> Seq<Seq<char>>
    decreases parts.len(),
{
    if parts.len() == 0 {
        Seq::empty()
    } else {
        drop_trivial(parts.drop_last()) + if parts.last().len() == 0 || parts.last() == "."@ {
            Seq::empty()
        } else {
            seq![parts.last()]
        }
    }
}

/// `Path::file_name`: the last piece, unless there is none or it is `..`.
pub open spec fn path_file_name(p: Seq<char>) -> Option<Seq<char>> {
    let pieces = path_pieces(p);
    if pieces.len() == 0 || pieces.last() == ".."@ {
        None
    } else {
        Some(pieces.last())
    }
}

/// A path as the functions here read it: on Windows, where a backslash
/// separates components as well as `/`, every backslash made a `/`;
/// elsewhere unchanged.
pub open spec fn spec_portable_path(p: Seq<char>, windows: bool) -> Seq<char> {
    if windows {
        p.map_values(|c: char| if c == '\\' { '/' } else { c })
    } else {
        p
    }
}

/// The path in the form the functions here take (they split on `/`).
pub fn portable_path(path: &str, windows: bool) -> (r: String)
    ensures
        r@ == spec_portable_path(path@, windows),
{
    let v = chars_of(path);
    if !windows {
        return string_of(v.as_slice());
    }
    let mut out: Vec<char> = Vec::new();
    let mut i: usize = 0;
    while i < v.len()
        invariant
            i <= v@.len(),
            v@ == path@,
            out@ == v@.subrange(0, i as int).map_values(|c: char| if c == '\\' { '/' } else { c }),
        decreases v.len() - i,
    {
        let c = v[i];
        if c == '\\' {
            out.push('/');
        } else {
            out.push(c);
        }
        assert(out@ =~= v@.subrange(0, i + 1).map_values(|c: char| if c == '\\' { '/' } else { c }));
        i = i + 1;
    }
    assert(v@.subrange(0, i as int) =~= v@);
    string_of(out.as_slice())
}

/// The position of the last `.` in `s`, if any.
pub open spec fn last_dot(s: Seq<char>) -> Option<int>
    decreases s.len(),
{
    if s.len() == 0 {
        None
    } else if s.last() == '.' {
        Some(s.len() - 1)
    } else {
        last_dot(s.drop_last())
    }
}

/// `Path::extension` of a file name: what follows its last `.`, unless the
/// name has no `.` but a leading one.
pub open spec fn name_extension(name: Seq<char>) -> Option<Seq<char>> {
    match last_dot(name) {
        Some(k) => if k == 0 {
            None
        } else {
            Some(name.subrange(k + 1, name.len() as int))
        },
        None => None,
    }
}

/// `Path::file_stem` of a file name: what precedes its last `.`, or the
/// whole name.
pub open spec fn name_stem(name: Seq<char>) -> Seq<char> {
    match last_dot(name) {
        Some(k) => if k == 0 {
            name
        } else {
            name.subrange(0, k)
        },
        None => name,
    }
}

proof fn lemma_last_dot_bound(s: Seq<char>)
    ensures
        last_dot(s) matches Some(k) ==> 0 <= k < s.len() && s[k] == '.',
    decreases s.len(),
{
    if s.len() > 0 && s.last() != '.' {
        lemma_last_dot_bound(s.drop_last());
    }
}

fn last_dot_exec(s: &[char]) -> (r: Option<usize>)
    ensures
        r is Some <==> last_dot(s@) is Some,
        r matches Some(k) ==> last_dot(s@) == Some(k as int) && k < s@.len(),
{
    proof {
        lemma_last_dot_bound(s@);
    }
    let mut i: usize = s.len();
    assert(s@.subrange(0, i as int) =~= s@);
    while i > 0
        invariant
            i <= s@.len(),
            last_dot(s@) == last_dot(s@.subrange(0, i as int)),
        decreases i,
    {
        let ghost pre = s@.subrange(0, i as int);
        assert(pre.last() == s@[i - 1]);
        assert(pre.drop_last() =~= s@.subrange(0, i - 1));
        if s[i - 1] == '.' {
            return Some(i - 1);
        }
        i = i - 1;
    }
    assert(s@.subrange(0, 0) =~= Seq::<char>::empty());
    None
}

/// `Path::file_name` of a path.
pub fn file_name_of(path: &str) -> (r: Option<String>)
    ensures
        match path_file_name(path@) {
            Some(n) => r matches Some(s) && s@ == n,
            None => r is None,
        },
{
    let v = chars_of(path);
    let slash = chars_of("/");
    proof {
        reveal_strlit("/");
    }
    let parts = split_exec(v.as_slice(), slash.as_slice());
    let ghost pv = views(parts@);
    let dot = chars_of(".");
    let dots = chars_of("..");
    let mut last: Option<usize> = None;
    let ghost mut kept: Seq<Seq<char>> = Seq::empty();
    let mut i: usize = 0;
    while i < parts.len()
        invariant
            i <= parts@.len(),
            pv == views(parts@),
            pv == split(path@, "/"@),
            dot@ == "."@,
            kept == drop_trivial(pv.subrange(0, i as int)),
            match last {
                Some(j) => j < i && kept.len() > 0 && kept.last() == pv[j as int],
                None => kept.len() == 0,
            },
        decreases parts.len() - i,
    {
        assert(pv.subrange(0, i + 1).drop_last() =~= pv.subrange(0, i as int));
        assert(pv[i as int] == parts@[i as int]@);
        if parts[i].len() > 0 && !chars_eq(parts[i].as_slice(), dot.as_slice()) {
            last = Some(i);
            proof {
                kept = kept.push(pv[i as int]);
            }
        }
        i = i + 1;
    }
    assert(pv.subrange(0, i as int) =~= pv);
    match last {
        None => None,
        Some(j) => {
            if chars_eq(parts[j].as_slice(), dots.as_slice()) {
                None
            } else {
                Some(string_of(parts[j].as_slice()))
            }
        },
    }
}

/// `src`'s file name for error messages, falling back to the full path.
pub fn import_label(path: &str) -> (r: String)
    ensures
        r@ == match path_file_name(path@) {
            Some(n) => n,
            None => path@,
        },
{
    match file_name_of(path) {
        Some(n) => n,
        None => string_of(chars_of(path).as_slice()),
    }
}

/// Whether the file's extension, ASCII-lowercased, is an accepted one.
pub open spec fn spec_is_supported_audio(path: Seq<char>) -> bool {
    match path_file_name(path) {
        Some(n) => match name_extension(n) {
            Some(e) => audio_exts().contains(e.map_values(|c: char| spec_ascii_lower(c))),
            None => false,
        },
        None => false,
    }
}

fn ascii_lower_all(s: &[char]) -> (r: Vec<char>)
    ensures
        r@ == s@.map_values(|c: char| spec_ascii_lower(c)),
{
    let mut out: Vec<char> = Vec::new();
    let mut i: usize = 0;
    while i < s.len()
        invariant
            i <= s@.len(),
            out@ == s@.subrange(0, i as int).map_values(|c: char| spec_ascii_lower(c)),
        decreases s.len() - i,
    {
        out.push(ascii_lower(s[i]));
        assert(out@ =~= s@.subrange(0, i + 1).map_values(|c: char| spec_ascii_lower(c)));
        i = i + 1;
    }
    assert(s@.subrange(0, i as int) =~= s@);
    out
}

/// The `i`-th accepted extension.
fn audio_ext(i: usize) -> (r: &'static str)
    requires
        i < 7,
    ensures
        r@ == audio_exts()[i as int],
{
    if i == 0 {
        "wav"
    } else if i == 1 {
        "m4a"
    } else if i == 2 {
        "mp3"
    } else if i == 3 {
        "flac"
    } else if i == 4 {
        "ogg"
    } else if i == 5 {
        "mp4"
    } else {
        "aac"
    }
}

/// True if `path` has an extension the importer accepts, in any case.
/// Extension-only by design: the decoder is the real arbiter of whether the
/// bytes are audio; this just keeps obvious non-audio out of the pipeline.
pub fn is_supported_audio(path: &str) -> (b: bool)
    ensures
        b == spec_is_supported_audio(path@),
{
    let name = match file_name_of(path) {
        Some(n) => n,
        None => {
            return false;
        },
    };
    let nv = chars_of(name.as_str());
    let ext = match last_dot_exec(nv.as_slice()) {
        Some(k) => {
            if k == 0 {
                return false;
            }
            assert(k < nv.len());
            sub_vec(nv.as_slice(), k + 1, nv.len())
        },
        None => {
            return false;
        },
    };
    let lower = ascii_lower_all(ext.as_slice());
    let mut i: usize = 0;
    proof {
        reveal_strlit("wav");
        reveal_strlit("m4a");
        reveal_strlit("mp3");
        reveal_strlit("flac");
        reveal_strlit("ogg");
        reveal_strlit("mp4");
        reveal_strlit("aac");
    }
    assert(spec_is_supported_audio(path@) == audio_exts().contains(lower@));
    while i < 7
        invariant
            i <= 7,
            spec_is_supported_audio(path@) == audio_exts().contains(lower@),
            forall|k: int| 0 <= k < i ==> audio_exts()[k] != lower@,
        decreases 7 - i,
    {
        let e = chars_of(audio_ext(i));
        if chars_eq(e.as_slice(), lower.as_slice()) {
            assert(audio_exts()[i as int] == lower@);
            assert(audio_exts().contains(lower@));
            return true;
        }
        i = i + 1;
    }
    false
}

/// The file-stem of `path`'s name, when it has one.
pub open spec fn path_stem(path: Seq<char>) -> Option<Seq<char>> {
    match path_file_name(path) {
        Some(n) => Some(name_stem(n)),
        None => None,
    }
}

// ── imports ────────────────────────────────────────────────────────────────

/// The message for a file whose extension is not accepted.
pub open spec fn unsupported_type_message() -> Seq<char> {
    "unsupported file type \u{2014} expected one of: "@ + join(audio_exts(), ", "@)
}

pub fn unsupported_type_error() -> (r: String)
    ensures
        r@ == unsupported_type_message(),
{
    let mut v = chars_of("unsupported file type \u{2014} expected one of: ");
    let mut parts: Vec<Vec<char>> = Vec::new();
    let mut i: usize = 0;
    proof {
        reveal_strlit("wav");
        reveal_strlit("m4a");
        reveal_strlit("mp3");
        reveal_strlit("flac");
        reveal_strlit("ogg");
        reveal_strlit("mp4");
        reveal_strlit("aac");
    }
    while i < 7
        invariant
            i <= 7,
            views(parts@) == audio_exts().subrange(0, i as int),
        decreases 7 - i,
    {
        let e = chars_of(audio_ext(i));
        let ghost before = views(parts@);
        parts.push(e);
        assert(views(parts@) =~= before.push(audio_exts()[i as int]));
        assert(views(parts@) =~= audio_exts().subrange(0, i + 1));
        i = i + 1;
    }
    assert(audio_exts().subrange(0, 7) =~= audio_exts());
    let sep = chars_of(", ");
    let j = crate::text::join_exec(&parts, sep.as_slice());
    push_all(&mut v, j.as_slice());
    string_of(v.as_slice())
}

/// An import's title: the given one when not blank, else the file's stem,
/// else `Imported <date time>`.
pub open spec fn spec_import_title(title: Option<Seq<char>>, path: Seq<char>, now: DateStamp) -> Seq<
    char,
> {
    match title {
        Some(t) if spec_trim(t).len() > 0 => t,
        _ => match path_stem(path) {
            Some(s) => s,
            None => "Imported "@ + spec_minute_stamp(now, ':'),
        },
    }
}

pub fn import_title(title: Option<String>, path: &str, now: &DateStamp) -> (r: String)
    requires
        now.wf(),
    ensures
        r@ == spec_import_title(
            match title {
                Some(t) => Some(t@),
                None => None,
            },
            path@,
            *now,
        ),
{
    match title {
        Some(t) => {
            if trim_str(t.as_str()).len() > 0 {
                return t;
            }
        },
        None => {},
    }
    match file_name_of(path) {
        Some(n) => {
            let nv = chars_of(n.as_str());
            match last_dot_exec(nv.as_slice()) {
                Some(k) => {
                    if k == 0 {
                        n
                    } else {
                        string_of(sub_vec(nv.as_slice(), 0, k).as_slice())
                    }
                },
                None => n,
            }
        },
        None => {
            let mut v = chars_of("Imported ");
            let s = minute_stamp_chars(now, ':');
            push_all(&mut v, s.as_slice());
            string_of(v.as_slice())
        },
    }
}

/// A new recording's title: the given one when not blank, else
/// `Meeting <date time>`.
pub open spec fn spec_recording_title(title: Option<Seq<char>>, now: DateStamp) -> Seq<char> {
    match title {
        Some(t) if spec_trim(t).len() > 0 => t,
        _ => "Meeting "@ + spec_minute_stamp(now, ':'),
    }
}

pub fn recording_title(title: Option<String>, now: &DateStamp) -> (r: String)
    requires
        now.wf(),
    ensures
        r@ == spec_recording_title(
            match title {
                Some(t) => Some(t@),
                None => None,
            },
            *now,
        ),
{
    match title {
        Some(t) => {
            if trim_str(t.as_str()).len() > 0 {
                return t;
            }
        },
        None => {},
    }
    let mut v = chars_of("Meeting ");
    let s = minute_stamp_chars(now, ':');
    push_all(&mut v, s.as_slice());
    string_of(v.as_slice())
}

/// Outcome of a (possibly multi-file) import: how many meetings were
/// created and a line per file that failed.
#[derive(Debug, Clone)]
pub struct ImportSummary {
    pub imported: usize,
    pub errors: Vec<String>,
}

impl ImportSummary {
    pub fn new() -> (r: ImportSummary)
        ensures
            r.imported == 0,
            r.errors@.len() == 0,
    {
        ImportSummary { imported: 0, errors: Vec::new() }
    }

    /// Count one file's outcome: a success adds to the imports; a failure
    /// adds exactly one error line, labeled with the file's name.
    pub fn record(&mut self, path: &str, outcome: Result<String, String>)
        requires
            outcome is Ok ==> old(self).imported < usize::MAX,
        ensures
            outcome is Ok ==> final(self).imported == old(self).imported + 1,
            outcome is Ok ==> final(self).errors@ == old(self).errors@,
            outcome is Err ==> final(self).imported == old(self).imported,
            outcome matches Err(e) ==> final(self).errors@ == old(self).errors@.push(
                final(self).errors@.last(),
            ),
            outcome matches Err(e) ==> final(self).errors@.last()@ == (match path_file_name(path@) {
                Some(n) => n,
                None => path@,
            }) + ": "@ + e@,
    {
        match outcome {
            Ok(_) => {
                self.imported = self.imported + 1;
            },
            Err(e) => {
                let label = import_label(path);
                let mut v = chars_of(label.as_str());
                push_str(&mut v, ": ");
                push_str(&mut v, e.as_str());
                self.errors.push(string_of(v.as_slice()));
            },
        }
    }
}

// ── restart after a crash ──────────────────────────────────────────────────

/// What a restart makes of a meeting a crash left recording: `Recorded` when
/// audio was recovered, else an error saying none could be.
pub fn recovered_recording_status(recovered_any: bool) -> (r: (MeetingStatus, Option<String>))
    ensures
        recovered_any ==> r.0 == MeetingStatus::Recorded && r.1 is None,
        !recovered_any ==> r.0 == MeetingStatus::Error && (r.1 matches Some(m) && m@
            == "recording was interrupted and no audio could be recovered"@),
{
    if recovered_any {
        (MeetingStatus::Recorded, None)
    } else {
        (
            MeetingStatus::Error,
            Some(
                string_of(
                    chars_of("recording was interrupted and no audio could be recovered").as_slice(),
                ),
            ),
        )
    }
}

/// Whether a restart finds a meeting's processing interrupted: recorded but
/// not yet through the pipeline, or stopped mid-step.
pub open spec fn spec_interrupted(s: MeetingStatus) -> bool {
    s == MeetingStatus::Recorded || s == MeetingStatus::Transcribing || s
        == MeetingStatus::Summarizing || s == MeetingStatus::Syncing
}

/// The status a restart gives a meeting whose processing was interrupted,
/// so it can be retried; none for any other meeting.
pub fn interrupted_status(s: MeetingStatus) -> (r: Option<(MeetingStatus, String)>)
    ensures
        spec_interrupted(s) ==> (r matches Some(p) && p.0 == MeetingStatus::Error && p.1@
            == "processing was interrupted \u{2014} press Retry"@),
        !spec_interrupted(s) ==> r is None,
{
    match s {
        MeetingStatus::Recorded | MeetingStatus::Transcribing | MeetingStatus::Summarizing
        | MeetingStatus::Syncing => Some(
            (
                MeetingStatus::Error,
                string_of(chars_of("processing was interrupted \u{2014} press Retry").as_slice()),
            ),
        ),
        _ => None,
    }
}

// ── meeting detail ─────────────────────────────────────────────────────────

/// The action items that belong to one meeting, in order.
pub open spec fn spec_items_of(items: Seq<ActionItem>, meeting_id: Seq<char>) -> Seq<ActionItem>
    decreases items.len(),
{
    if items.len() == 0 {
        Seq::empty()
    } else {
        spec_items_of(items.drop_last(), meeting_id) + if items.last().meeting_id@ == meeting_id {
            seq![items.last()]
        } else {
            Seq::empty()
        }
    }
}

/// The meeting detail view's action items: those of `meeting_id`, in order.
pub fn items_of_meeting(items: Vec<ActionItem>, meeting_id: &str) -> (r: Vec<ActionItem>)
    ensures
        r@ == spec_items_of(items@, meeting_id@),
{
    let ghost all = items@;
    let n = items.len();
    let mut rest = items;
    let mut out: Vec<ActionItem> = Vec::new();
    let mut i: usize = 0;
    while rest.len() > 0
        invariant
            all.len() == n,
            i + rest@.len() == n,
            rest@ == all.subrange(i as int, n as int),
            out@ == spec_items_of(all.subrange(0, i as int), meeting_id@),
        decreases rest.len(),
    {
        let it = rest.remove(0);
        assert(it == all[i as int]);
        assert(rest@ =~= all.subrange(i + 1, n as int));
        assert(all.subrange(0, i + 1).drop_last() =~= all.subrange(0, i as int));
        if str_eq(it.meeting_id.as_str(), meeting_id) {
            out.push(it);
        }
        i = i + 1;
    }
    assert(all.subrange(0, i as int) =~= all);
    out
}

} // verus!
