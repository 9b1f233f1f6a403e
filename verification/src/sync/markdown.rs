//! Markdown file destination: an Obsidian vault is just a folder, so this
//! covers Obsidian, Logseq and "give me my notes as files" in one go. The
//! note is rendered to a string with YAML frontmatter (title, date,
//! attendees) so Obsidian's properties/Dataview pick it up; writing the file
//! is left to the caller.

use vstd::prelude::*;

use crate::datetime::{
    ascii_digits, digits_value, minute_stamp_chars, parse_rfc3339, rfc3339_accepts,
    spec_minute_stamp, DateStamp,
};
use crate::models::{Meeting, MeetingNotes, TranscriptSegment};
use crate::sync::render::{
    blocks_to_markdown, block_views, distinct_names, distinct_speakers, note_blocks, speaker_views,
    spec_blocks_to_markdown, spec_note_blocks, string_views,
};
use crate::text::{
    chars_of, collapse_whitespace, decimal_u64, is_control, join, push_all, push_str,
    replace_char, replace_char_exec, spec_decimal, spec_is_control, string_of, take_chars,
    take_chars_exec, trim_by, trim_chars, trim_end_by, trim_start_by, trims, unicode_whitespace, words,
    lemma_join_extend_last, lemma_words_nonempty,
};

verus! {

/// Writes one `.md` file per meeting into `dir`.
#[derive(Debug, Clone)]
pub struct MarkdownDestination {
    pub dir: String,
}

impl MarkdownDestination {
    pub fn new(dir: &str) -> (r: MarkdownDestination)
        ensures
            r.dir@ == dir@,
    {
        MarkdownDestination { dir: string_of(chars_of(dir).as_slice()) }
    }
}

// ── file names ─────────────────────────────────────────────────────────────

/// Characters a file name must not hold: path separators, the characters
/// Windows reserves, and control characters.
pub open spec fn is_hostile(c: char) -> bool {
    c == '/' || c == '\\' || c == ':' || c == '*' || c == '?' || c == '"' || c == '<' || c == '>'
        || c == '|' || spec_is_control(c)
}

pub open spec fn clean_char(c: char) -> char {
    if is_hostile(c) {
        ' '
    } else {
        c
    }
}

/// The longest title a file name carries, in characters.
pub const MAX_TITLE_CHARS: usize = 80;

/// Hostile characters turned into spaces, whitespace runs collapsed to one
/// space, cut to 80 characters, then dots and whitespace trimmed from both
/// ends; `Meeting` when nothing is left.
pub open spec fn spec_sanitize_title(title: Seq<char>) -> Seq<char> {
    let cleaned = title.map_values(|c: char| clean_char(c));
    let collapsed = join(words(cleaned), " "@);
    let trimmed = trim_by(take_chars(collapsed, MAX_TITLE_CHARS as nat), true);
    if trimmed.len() == 0 {
        "Meeting"@
    } else {
        trimmed
    }
}

/// No character of `s` is hostile.
pub open spec fn all_friendly(s: Seq<char>) -> bool {
    forall|k: int| 0 <= k < s.len() ==> !is_hostile(#[trigger] s[k])
}

proof fn lemma_words_friendly(s: Seq<char>)
    requires
        all_friendly(s),
    ensures
        forall|i: int| 0 <= i < words(s).len() ==> all_friendly(#[trigger] words(s)[i]),
    decreases s.len(),
{
    if s.len() > 0 {
        let p = s.drop_last();
        assert(all_friendly(p)) by {
            assert forall|k: int| 0 <= k < p.len() implies !is_hostile(#[trigger] p[k]) by {
                assert(p[k] == s[k]);
            }
        }
        lemma_words_friendly(p);
        let w = words(p);
        let c = s.last();
        assert(!is_hostile(s[s.len() - 1]));
        if !unicode_whitespace(c) && s.len() >= 2 && !unicode_whitespace(s[s.len() - 2]) {
            assert(p.last() == s[s.len() - 2]);
            lemma_words_nonempty_here(p);
            assert forall|i: int| 0 <= i < words(s).len() implies all_friendly(
                #[trigger] words(s)[i],
            ) by {
                if i == w.len() - 1 {
                    let lw = w.last().push(c);
                    assert(all_friendly(w[i]));
                    assert forall|k: int| 0 <= k < lw.len() implies !is_hostile(#[trigger] lw[k]) by {
                        if k < w.last().len() {
                            assert(lw[k] == w[i][k]);
                        }
                    }
                    assert(words(s)[i] == lw);
                } else {
                    assert(words(s)[i] == w[i]);
                }
            }
        } else if !unicode_whitespace(c) {
            assert forall|i: int| 0 <= i < words(s).len() implies all_friendly(
                #[trigger] words(s)[i],
            ) by {
                if i == w.len() {
                    assert(words(s)[i] == seq![c]);
                    assert(all_friendly(seq![c]));
                } else {
                    assert(words(s)[i] == w[i]);
                }
            }
        }
    }
}

proof fn lemma_words_nonempty_here(p: Seq<char>)
    requires
        p.len() > 0,
        !unicode_whitespace(p.last()),
    ensures
        words(p).len() > 0,
{
    crate::text::lemma_words_nonempty(p);
}

proof fn lemma_join_friendly(parts: Seq<Seq<char>>, sep: Seq<char>)
    requires
        all_friendly(sep),
        forall|i: int| 0 <= i < parts.len() ==> all_friendly(#[trigger] parts[i]),
    ensures
        all_friendly(join(parts, sep)),
    decreases parts.len(),
{
    if parts.len() == 1 {
        assert(all_friendly(parts[0]));
    } else if parts.len() >= 2 {
        let d = parts.drop_last();
        assert forall|i: int| 0 <= i < d.len() implies all_friendly(#[trigger] d[i]) by {
            assert(d[i] == parts[i]);
        }
        lemma_join_friendly(d, sep);
        assert(all_friendly(parts[parts.len() - 1]));
        let j = join(d, sep) + sep + parts.last();
        assert forall|k: int| 0 <= k < j.len() implies !is_hostile(#[trigger] j[k]) by {
            if k < join(d, sep).len() {
                assert(j[k] == join(d, sep)[k]);
            } else if k < join(d, sep).len() + sep.len() {
                assert(j[k] == sep[k - join(d, sep).len()]);
            } else {
                assert(j[k] == parts.last()[k - join(d, sep).len() - sep.len()]);
            }
        }
    }
}

proof fn lemma_trim_start_friendly(s: Seq<char>, dots: bool)
    requires
        all_friendly(s),
    ensures
        all_friendly(trim_start_by(s, dots)),
        trim_start_by(s, dots).len() <= s.len(),
    decreases s.len(),
{
    if s.len() > 0 && crate::text::trims(s[0], dots) {
        let t = s.drop_first();
        assert forall|k: int| 0 <= k < t.len() implies !is_hostile(#[trigger] t[k]) by {
            assert(t[k] == s[k + 1]);
        }
        lemma_trim_start_friendly(t, dots);
    }
}

proof fn lemma_trim_end_friendly(s: Seq<char>, dots: bool)
    requires
        all_friendly(s),
    ensures
        all_friendly(trim_end_by(s, dots)),
        trim_end_by(s, dots).len() <= s.len(),
    decreases s.len(),
{
    if s.len() > 0 && crate::text::trims(s.last(), dots) {
        let t = s.drop_last();
        assert forall|k: int| 0 <= k < t.len() implies !is_hostile(#[trigger] t[k]) by {
            assert(t[k] == s[k]);
        }
        lemma_trim_end_friendly(t, dots);
    }
}

/// Two spaces in a row at `k`.
pub open spec fn double_space_at(s: Seq<char>, k: int) -> bool {
    s[k] == ' ' && s[k + 1] == ' '
}

/// The only whitespace of `s` is the plain space, never two in a row.
pub open spec fn single_spaced(s: Seq<char>) -> bool {
    &&& forall|k: int| 0 <= k < s.len() && unicode_whitespace(#[trigger] s[k]) ==> s[k] == ' '
    &&& forall|k: int| 0 <= k < s.len() - 1 ==> !#[trigger] double_space_at(s, k)
}

/// Single spacing, and no whitespace at either end.
pub open spec fn tidy_spaces(s: Seq<char>) -> bool {
    &&& single_spaced(s)
    &&& s.len() > 0 ==> !unicode_whitespace(s[0]) && !unicode_whitespace(s.last())
}

proof fn lemma_single_spaced_subrange(s: Seq<char>, a: int, b: int)
    requires
        single_spaced(s),
        0 <= a <= b <= s.len(),
    ensures
        single_spaced(s.subrange(a, b)),
{
    let t = s.subrange(a, b);
    assert forall|k: int| 0 <= k < t.len() && unicode_whitespace(#[trigger] t[k]) implies t[k]
        == ' ' by {
        assert(t[k] == s[a + k]);
    }
    assert forall|k: int| 0 <= k < t.len() - 1 implies !#[trigger] double_space_at(t, k) by {
        assert(t[k] == s[a + k]);
        assert(t[k + 1] == s[a + k + 1]);
        assert(!double_space_at(s, a + k));
    }
}

/// Pushing a non-whitespace character keeps single spacing.
proof fn lemma_push_word_char(s: Seq<char>, c: char)
    requires
        single_spaced(s),
        !unicode_whitespace(c),
    ensures
        single_spaced(s.push(c)),
{
    let t = s.push(c);
    assert forall|k: int| 0 <= k < t.len() && unicode_whitespace(#[trigger] t[k]) implies t[k]
        == ' ' by {
        if k < s.len() {
            assert(t[k] == s[k]);
        }
    }
    assert forall|k: int| 0 <= k < t.len() - 1 implies !#[trigger] double_space_at(t, k) by {
        assert(t[k] == s[k]);
        if k + 1 < s.len() {
            assert(t[k + 1] == s[k + 1]);
            assert(!double_space_at(s, k));
        } else {
            assert(t[k + 1] == c);
        }
    }
}

/// Words joined by single spaces are single spaced and have no whitespace
/// at either end.
proof fn lemma_collapsed_tidy(x: Seq<char>)
    ensures
        tidy_spaces(join(words(x), " "@)),
    decreases x.len(),
{
    reveal_strlit(" ");
    if x.len() > 0 {
        let p = x.drop_last();
        let c = x.last();
        lemma_collapsed_tidy(p);
        let w = words(p);
        let j = join(w, " "@);
        if unicode_whitespace(c) {
        } else if x.len() >= 2 && !unicode_whitespace(x[x.len() - 2]) {
            assert(p.last() == x[x.len() - 2]);
            lemma_words_nonempty(p);
            lemma_join_extend_last(w, " "@, c);
            lemma_push_word_char(j, c);
            assert(join(words(x), " "@) == j.push(c));
            if j.len() > 0 {
                assert(j.push(c)[0] == j[0]);
            }
        } else {
            let w2 = w.push(seq![c]);
            assert(w2.drop_last() =~= w);
            if w.len() == 0 {
                assert(join(w2, " "@) == seq![c]);
                assert(single_spaced(seq![c])) by {
                    assert forall|k: int| 0 <= k < 0 implies !#[trigger] double_space_at(
                        seq![c],
                        k,
                    ) by {}
                }
            } else {
                assert(join(w2, " "@) == j + " "@ + seq![c]);
                // a non-empty join of words ends and starts with a word char
                assert(j.len() > 0) by {
                    if j.len() == 0 {
                        assert(w.len() >= 1);
                        lemma_join_nonempty(w, p);
                    }
                }
                lemma_push_space(j);
                lemma_push_word_char(j.push(' '), c);
                assert(j + " "@ + seq![c] =~= j.push(' ').push(c));
                assert(j.push(' ').push(c)[0] == j[0]);
            }
        }
    }
}

/// Every word is non-empty, so a join of at least one word is non-empty.
proof fn lemma_join_nonempty(w: Seq<Seq<char>>, p: Seq<char>)
    requires
        w == words(p),
        w.len() > 0,
    ensures
        join(w, " "@).len() > 0,
    decreases p.len(),
{
    reveal_strlit(" ");
    lemma_words_last_nonempty(p);
    if w.len() >= 2 {
        assert(join(w, " "@) == join(w.drop_last(), " "@) + " "@ + w.last());
    }
}

/// The last word is never empty.
proof fn lemma_words_last_nonempty(p: Seq<char>)
    requires
        words(p).len() > 0,
    ensures
        words(p).last().len() > 0,
    decreases p.len(),
{
    if p.len() > 0 {
        let q = p.drop_last();
        let c = p.last();
        if unicode_whitespace(c) {
            lemma_words_last_nonempty(q);
        } else if p.len() >= 2 && !unicode_whitespace(p[p.len() - 2]) {
            assert(q.last() == p[p.len() - 2]);
            lemma_words_nonempty(q);
            let w = words(q);
            assert(words(p).last() == w.last().push(c));
        } else {
            assert(words(p).last() == seq![c]);
        }
    }
}

/// Appending a space after a non-whitespace end keeps single spacing.
proof fn lemma_push_space(s: Seq<char>)
    requires
        single_spaced(s),
        s.len() > 0,
        !unicode_whitespace(s.last()),
    ensures
        single_spaced(s.push(' ')),
        s.push(' ').last() == ' ',
{
    let t = s.push(' ');
    assert forall|k: int| 0 <= k < t.len() && unicode_whitespace(#[trigger] t[k]) implies t[k]
        == ' ' by {
        if k < s.len() {
            assert(t[k] == s[k]);
        }
    }
    assert forall|k: int| 0 <= k < t.len() - 1 implies !#[trigger] double_space_at(t, k) by {
        assert(t[k] == s[k]);
        if k + 1 < s.len() {
            assert(t[k + 1] == s[k + 1]);
            assert(!double_space_at(s, k));
        } else {
            assert(s[k] == s.last());
        }
    }
}

/// Where a start trim cuts: from index `i` on, with a kept first character.
proof fn lemma_trim_start_cut(s: Seq<char>, dots: bool) -> (i: int)
    ensures
        0 <= i <= s.len(),
        trim_start_by(s, dots) == s.subrange(i, s.len() as int),
        i < s.len() ==> !trims(s[i], dots),
    decreases s.len(),
{
    if s.len() > 0 && trims(s[0], dots) {
        let i = lemma_trim_start_cut(s.drop_first(), dots);
        assert(s.drop_first().subrange(i, s.len() - 1) =~= s.subrange(i + 1, s.len() as int));
        if i < s.len() - 1 {
            assert(s.drop_first()[i] == s[i + 1]);
        }
        i + 1
    } else {
        assert(s.subrange(0, s.len() as int) =~= s);
        0
    }
}

/// Where an end trim cuts: before index `j`, with a kept last character.
proof fn lemma_trim_end_cut(s: Seq<char>, dots: bool) -> (j: int)
    ensures
        0 <= j <= s.len(),
        trim_end_by(s, dots) == s.subrange(0, j),
        j > 0 ==> !trims(s[j - 1], dots),
    decreases s.len(),
{
    if s.len() > 0 && trims(s.last(), dots) {
        let j = lemma_trim_end_cut(s.drop_last(), dots);
        assert(s.drop_last().subrange(0, j) =~= s.subrange(0, j));
        if j > 0 {
            assert(s.drop_last()[j - 1] == s[j - 1]);
        }
        j
    } else {
        assert(s.subrange(0, s.len() as int) =~= s);
        s.len() as int
    }
}

/// Joining the words of a tidily spaced string gives it back.
proof fn lemma_join_words_identity(s: Seq<char>)
    requires
        tidy_spaces(s),
    ensures
        join(words(s), " "@) == s,
    decreases s.len(),
{
    reveal_strlit(" ");
    if s.len() > 0 {
        let p = s.drop_last();
        let c = s.last();
        if p.len() == 0 {
            assert(words(p).len() == 0);
            assert(words(s) == seq![seq![c]]);
            assert(seq![c] =~= s);
        } else if !unicode_whitespace(p.last()) {
            assert(p =~= s.subrange(0, s.len() - 1));
            lemma_single_spaced_subrange(s, 0, s.len() - 1);
            assert(p[0] == s[0]);
            assert(p.last() == s[s.len() - 2]);
            lemma_join_words_identity(p);
            lemma_words_nonempty(p);
            lemma_join_extend_last(words(p), " "@, c);
            assert(p.push(c) =~= s);
        } else {
            assert(p.last() == s[s.len() - 2]);
            assert(s[s.len() - 2] == ' ');
            let q = p.drop_last();
            assert(q.len() > 0) by {
                if q.len() == 0 {
                    assert(s[0] == s[s.len() - 2]);
                }
            }
            assert(q =~= s.subrange(0, s.len() - 2));
            assert(q.last() == s[s.len() - 3]);
            assert(!unicode_whitespace(q.last())) by {
                if unicode_whitespace(s[s.len() - 3]) {
                    assert(s[s.len() - 3] == ' ');
                    assert(double_space_at(s, s.len() - 3));
                }
            }
            lemma_single_spaced_subrange(s, 0, s.len() - 2);
            assert(q[0] == s[0]);
            lemma_join_words_identity(q);
            lemma_words_nonempty(q);
            assert(words(p) == words(q));
            let w2 = words(q).push(seq![c]);
            assert(words(s) == w2);
            assert(w2.drop_last() =~= words(q));
            assert(join(w2, " "@) == q + " "@ + seq![c]);
            assert(q + " "@ + seq![c] =~= s);
        }
    }
}

/// A sanitized title is tidy: single spaced, with neither whitespace nor a
/// dot at either end; and sanitizing it again changes nothing.
pub proof fn lemma_sanitize_title_tidy(title: Seq<char>)
    ensures
        single_spaced(spec_sanitize_title(title)),
        !trims(spec_sanitize_title(title)[0], true),
        !trims(spec_sanitize_title(title).last(), true),
        spec_sanitize_title(spec_sanitize_title(title)) == spec_sanitize_title(title),
{
    lemma_sanitize_title(title);
    let cleaned = title.map_values(|c: char| clean_char(c));
    let collapsed = join(words(cleaned), " "@);
    lemma_collapsed_tidy(cleaned);
    let cut = take_chars(collapsed, MAX_TITLE_CHARS as nat);
    if collapsed.len() > MAX_TITLE_CHARS {
        lemma_single_spaced_subrange(collapsed, 0, MAX_TITLE_CHARS as int);
    }
    assert(single_spaced(cut));
    let i = lemma_trim_start_cut(cut, true);
    let t1 = trim_start_by(cut, true);
    lemma_single_spaced_subrange(cut, i, cut.len() as int);
    let j = lemma_trim_end_cut(t1, true);
    let t2 = trim_end_by(t1, true);
    lemma_single_spaced_subrange(t1, 0, j);
    let r = spec_sanitize_title(title);
    if t2.len() > 0 {
        assert(r == t2);
        assert(t2[0] == t1[0]);
        assert(t1[0] == cut[i]);
        assert(t2.last() == t1[j - 1]);
    } else {
        reveal_strlit("Meeting");
        assert(r == "Meeting"@);
        assert(single_spaced(r)) by {
            assert forall|k: int| 0 <= k < r.len() - 1 implies !#[trigger] double_space_at(r, k) by {}
        }
    }
    // sanitizing again
    let cleaned2 = r.map_values(|c: char| clean_char(c));
    assert(cleaned2 =~= r) by {
        assert forall|k: int| 0 <= k < r.len() implies cleaned2[k] == r[k] by {
            assert(!is_hostile(r[k]));
        }
    }
    lemma_join_words_identity(r);
    assert(take_chars(r, MAX_TITLE_CHARS as nat) == r);
    assert(trim_start_by(r, true) == r);
    assert(trim_end_by(r, true) == r);
}

/// A sanitized title is never empty, is at most 80 characters long, and
/// holds no filesystem-hostile character.
pub proof fn lemma_sanitize_title(title: Seq<char>)
    ensures
        spec_sanitize_title(title).len() > 0,
        spec_sanitize_title(title).len() <= MAX_TITLE_CHARS,
        all_friendly(spec_sanitize_title(title)),
{
    let cleaned = title.map_values(|c: char| clean_char(c));
    assert forall|k: int| 0 <= k < cleaned.len() implies !is_hostile(#[trigger] cleaned[k]) by {
        assert(cleaned[k] == clean_char(title[k]));
    }
    reveal_strlit(" ");
    assert(all_friendly(" "@));
    lemma_words_friendly(cleaned);
    lemma_join_friendly(words(cleaned), " "@);
    let collapsed = join(words(cleaned), " "@);
    let cut = take_chars(collapsed, MAX_TITLE_CHARS as nat);
    assert forall|k: int| 0 <= k < cut.len() implies !is_hostile(#[trigger] cut[k]) by {
        assert(cut[k] == collapsed[k]);
    }
    lemma_trim_start_friendly(cut, true);
    lemma_trim_end_friendly(trim_start_by(cut, true), true);
    reveal_strlit("Meeting");
    assert(all_friendly("Meeting"@));
}

/// Strip filesystem-hostile characters, collapse whitespace to single
/// spaces, cap the length and trim dots and whitespace from the ends; never
/// empty.
pub fn sanitize_title(title: &str) -> (r: String)
    ensures
        r@ == spec_sanitize_title(title@),
        r@.len() > 0,
        r@.len() <= MAX_TITLE_CHARS,
        all_friendly(r@),
        single_spaced(r@),
        !trims(r@[0], true),
        !trims(r@.last(), true),
{
    let src = chars_of(title);
    let mut cleaned: Vec<char> = Vec::new();
    let mut i: usize = 0;
    while i < src.len()
        invariant
            i <= src@.len(),
            src@ == title@,
            cleaned@ == title@.subrange(0, i as int).map_values(|c: char| clean_char(c)),
        decreases src.len() - i,
    {
        let c = src[i];
        let hostile = c == '/' || c == '\\' || c == ':' || c == '*' || c == '?' || c == '"' || c
            == '<' || c == '>' || c == '|' || is_control(c);
        if hostile {
            cleaned.push(' ');
        } else {
            cleaned.push(c);
        }
        assert(cleaned@ =~= title@.subrange(0, i + 1).map_values(|c: char| clean_char(c)));
        i = i + 1;
    }
    assert(title@.subrange(0, i as int) =~= title@);
    let collapsed = collapse_whitespace(cleaned.as_slice());
    let cut = take_chars_exec(collapsed.as_slice(), MAX_TITLE_CHARS);
    let trimmed = trim_chars(cut.as_slice(), true);
    proof {
        lemma_sanitize_title(title@);
        lemma_sanitize_title_tidy(title@);
    }
    if trimmed.len() == 0 {
        string_of(chars_of("Meeting").as_slice())
    } else {
        string_of(trimmed.as_slice())
    }
}

/// The stamp a parsed RFC 3339 string carries: its date and minute digits.
pub open spec fn written_stamp(s: Seq<char>) -> DateStamp {
    DateStamp {
        year: digits_value(s, 0, 4) as i32,
        month: digits_value(s, 5, 7) as u32,
        day: digits_value(s, 8, 10) as u32,
        hour: digits_value(s, 11, 13) as u32,
        minute: digits_value(s, 14, 16) as u32,
    }
}

/// `YYYY-MM-DD HH.MM <title>.md` from the parsed start time, or the first
/// eight characters of the id in its place when the time did not parse.
pub open spec fn spec_file_name(id: Seq<char>, title: Seq<char>, stamp: Option<DateStamp>) -> Seq<
    char,
> {
    (match stamp {
        Some(d) => spec_minute_stamp(d, '.'),
        None => take_chars(id, 8),
    }) + " "@ + spec_sanitize_title(title) + ".md"@
}

/// The file name for a meeting given how its start time parsed.
pub fn file_name_with(meeting: &Meeting, stamp: Option<DateStamp>) -> (r: String)
    requires
        stamp matches Some(d) ==> d.wf(),
    ensures
        r@ == spec_file_name(meeting.id@, meeting.title@, stamp),
{
    let mut out = match stamp {
        Some(d) => minute_stamp_chars(&d, '.'),
        None => {
            let id = chars_of(meeting.id.as_str());
            take_chars_exec(id.as_slice(), 8)
        },
    };
    push_str(&mut out, " ");
    let t = sanitize_title(meeting.title.as_str());
    push_str(&mut out, t.as_str());
    push_str(&mut out, ".md");
    assert(out@ =~= spec_file_name(meeting.id@, meeting.title@, stamp));
    string_of(out.as_slice())
}

/// `YYYY-MM-DD HH.MM <title>.md`: sortable, readable in a vault, and
/// collision-free across meetings (two meetings can't share a start minute).
pub fn file_name(meeting: &Meeting) -> (r: String)
    ensures
        r@ == spec_file_name(
            meeting.id@,
            meeting.title@,
            if rfc3339_accepts(meeting.created_at@) {
                Some(written_stamp(meeting.created_at@))
            } else {
                None
            },
        ),
{
    let stamp = parse_rfc3339(meeting.created_at.as_str());
    file_name_with(meeting, stamp)
}

// ── the file's content ─────────────────────────────────────────────────────

/// Double-quoted YAML scalar: backslashes and double quotes escaped.
pub open spec fn spec_yaml_quote(s: Seq<char>) -> Seq<char> {
    "\""@ + replace_char(replace_char(s, '\\', "\\\\"@), '"', "\\\""@) + "\""@
}

/// Double-quoted YAML scalar: the only escapes needed are `\` and `"`.
pub fn yaml_quote(s: &str) -> (r: String)
    ensures
        r@ == spec_yaml_quote(s@),
{
    let src = chars_of(s);
    let bs = chars_of("\\\\");
    let step1 = replace_char_exec(src.as_slice(), '\\', bs.as_slice());
    let qs = chars_of("\\\"");
    let step2 = replace_char_exec(step1.as_slice(), '"', qs.as_slice());
    let mut out = chars_of("\"");
    push_all(&mut out, step2.as_slice());
    push_str(&mut out, "\"");
    string_of(out.as_slice())
}

/// One `  - "name"` line per attendee.
pub open spec fn attendee_lines(names: Seq<Seq<char>>) -> Seq<char>
    decreases names.len(),
{
    if names.len() == 0 {
        Seq::empty()
    } else {
        attendee_lines(names.drop_last()) + "  - "@ + spec_yaml_quote(names.last()) + "\n"@
    }
}

/// YAML frontmatter: title, date, whole minutes when the meeting has a
/// duration, the attendees when there are any, a tag and the source.
pub open spec fn spec_frontmatter(meeting: Meeting, attendees: Seq<Seq<char>>) -> Seq<char> {
    "---\n"@ + "title: "@ + spec_yaml_quote(meeting.title@) + "\n"@ + "date: "@
        + meeting.created_at@ + "\n"@ + (if meeting.duration_ms > 0 {
        "duration_minutes: "@ + spec_decimal((meeting.duration_ms / 60000) as nat) + "\n"@
    } else {
        Seq::empty()
    }) + (if attendees.len() > 0 {
        "attendees:\n"@ + attendee_lines(attendees)
    } else {
        Seq::empty()
    }) + "tags:\n  - meeting\nsource: ogma\n---\n\n"@
}

pub open spec fn spec_render_markdown(
    meeting: Meeting,
    notes: MeetingNotes,
    segments: Seq<TranscriptSegment>,
) -> Seq<char> {
    spec_frontmatter(meeting, distinct_names(speaker_views(segments), false))
        + spec_blocks_to_markdown(spec_note_blocks(notes, segments))
}

/// The whole file: frontmatter, then the note as Markdown.
pub fn render_markdown(
    meeting: &Meeting,
    notes: &MeetingNotes,
    segments: &[TranscriptSegment],
) -> (r: String)
    ensures
        r@ == spec_render_markdown(*meeting, *notes, segments@),
{
    let mut out = chars_of("---\n");
    push_str(&mut out, "title: ");
    let t = yaml_quote(meeting.title.as_str());
    push_str(&mut out, t.as_str());
    push_str(&mut out, "\n");
    push_str(&mut out, "date: ");
    push_str(&mut out, meeting.created_at.as_str());
    push_str(&mut out, "\n");
    let ghost head = out@;
    if meeting.duration_ms > 0 {
        push_str(&mut out, "duration_minutes: ");
        let mins = meeting.duration_ms / 60_000;
        let d = decimal_u64(mins as u64);
        push_all(&mut out, d.as_slice());
        push_str(&mut out, "\n");
    }
    let ghost with_dur = out@;
    let attendees = distinct_speakers(segments);
    let ghost names = string_views(attendees@);
    if attendees.len() > 0 {
        push_str(&mut out, "attendees:\n");
        let ghost base = out@;
        let mut i: usize = 0;
        while i < attendees.len()
            invariant
                i <= attendees@.len(),
                names == string_views(attendees@),
                out@ == base + attendee_lines(names.subrange(0, i as int)),
            decreases attendees.len() - i,
        {
            let ghost pre = names.subrange(0, i as int);
            let ghost cur = names.subrange(0, i + 1);
            assert(cur.drop_last() =~= pre);
            assert(cur.last() == attendees@[i as int]@);
            push_str(&mut out, "  - ");
            let q = yaml_quote(attendees[i].as_str());
            push_str(&mut out, q.as_str());
            push_str(&mut out, "\n");
            assert(out@ =~= base + attendee_lines(cur));
            i = i + 1;
        }
        assert(names.subrange(0, i as int) =~= names);
    }
    push_str(&mut out, "tags:\n  - meeting\nsource: ogma\n---\n\n");
    let ghost front = out@;
    assert(front =~= spec_frontmatter(*meeting, names));
    let blocks = note_blocks(notes, segments);
    let md = blocks_to_markdown(blocks.as_slice());
    push_str(&mut out, md.as_str());
    assert(out@ =~= spec_render_markdown(*meeting, *notes, segments@));
    string_of(out.as_slice())
}

} // verus!
