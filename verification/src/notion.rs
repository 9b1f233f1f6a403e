//! Notion destination: what goes into a meeting's page.
//!
//! Per meeting a page is created in the configured database with the notes
//! sections plus a toggle holding the full speaker-labeled transcript.
//! Notion caps a request at 100 blocks and a rich-text item at 2000
//! characters, so texts are cut into pieces and the transcript is appended
//! to the toggle in batches. The HTTP exchange is left to the caller.

use vstd::prelude::*;

use crate::error::{Error, Result};
use crate::models::{Highlight, Meeting, MeetingNotes, NoteActionItem, TranscriptSegment};
use crate::sync::render::{
    block_views, distinct_names, distinct_names_of, format_ms, format_ms_chars, highlight_text,
    highlight_text_exec, lemma_prefix_at, push_block, push_heading, section_len, speaker_views,
    spec_format_ms, string_views, todo_text, todo_text_exec, Block, BlockView,
};
use crate::text::{
    chars_of, chunks, lemma_chunks, push_all, push_str, spec_trim, split, split_exec,
    string_of, sub_vec, take_chars, take_chars_exec, tdiv, trim_chars, trim_str, views, div_rem_i64,
};

verus! {

/// The Notion API base URL.
pub const API: &'static str = "https://api.notion.com/v1";

/// The Notion API version the requests declare.
pub const NOTION_VERSION: &'static str = "2022-06-28";

/// Longest rich-text piece sent, in characters: a margin under the
/// 2000-character cap.
pub const MAX_TEXT: usize = 1900;

/// Blocks appended per request: a margin under the 100-block cap.
pub const BATCH: usize = 90;

/// Notes blocks a new page carries at most: page creation allows 100
/// children and the transcript toggle is added after them.
pub const MAX_NOTES_BLOCKS: usize = 95;

/// A Notion integration token and the database meeting pages go into.
#[derive(Debug, Clone)]
pub struct NotionClient {
    pub token: String,
    pub database_id: String,
}

impl NotionClient {
    pub fn new(token: String, database_id: String) -> (r: NotionClient)
        ensures
            r.token == token,
            r.database_id == database_id,
    {
        NotionClient { token, database_id }
    }
}

// ── cutting text ───────────────────────────────────────────────────────────

/// Pieces of at most `max` characters that put back together give `s`; one
/// empty piece for an empty string.
pub open spec fn spec_split_text(s: Seq<char>, max: nat) -> Seq<Seq<char>> {
    if s.len() == 0 {
        seq![Seq::empty()]
    } else {
        chunks(s, max)
    }
}

/// `s` cut into pieces of at most `max_chars` characters (never splitting a
/// character), or one empty piece for an empty string.
pub fn split_text(s: &str, max_chars: usize) -> (r: Vec<String>)
    requires
        max_chars > 0,
    ensures
        string_views(r@) == spec_split_text(s@, max_chars as nat),
{
    let cs = chars_of(s);
    let mut out: Vec<String> = Vec::new();
    if cs.len() == 0 {
        out.push(String::new());
        assert(string_views(out@) =~= spec_split_text(s@, max_chars as nat));
        return out;
    }
    let n = max_chars;
    let mut start: usize = 0;
    assert(cs@.skip(0) =~= cs@);
    assert(string_views(out@) =~= Seq::<Seq<char>>::empty());
    assert(string_views(out@) + chunks(cs@.skip(0), n as nat) =~= chunks(cs@, n as nat));
    while start < cs.len()
        invariant
            n > 0,
            cs@ == s@,
            s@.len() > 0,
            start <= cs@.len(),
            string_views(out@) + chunks(cs@.skip(start as int), n as nat) == chunks(
                cs@,
                n as nat,
            ),
        decreases cs.len() - start,
    {
        let ghost rest = cs@.skip(start as int);
        let end = if cs.len() - start <= n {
            cs.len()
        } else {
            start + n
        };
        let piece = sub_vec(cs.as_slice(), start, end);
        let ghost before = string_views(out@);
        out.push(string_of(piece.as_slice()));
        assert(string_views(out@) =~= before.push(piece@));
        if end == cs.len() {
            assert(piece@ =~= rest);
            assert(cs@.skip(end as int) =~= Seq::<char>::empty());
            assert(chunks(rest, n as nat) =~= seq![rest]);
        } else {
            assert(piece@ =~= rest.take(n as int));
            assert(rest.skip(n as int) =~= cs@.skip(end as int));
        }
        assert(before.push(piece@) + chunks(cs@.skip(end as int), n as nat) =~= before
            + chunks(rest, n as nat));
        start = end;
    }
    assert(cs@.skip(start as int) =~= Seq::<char>::empty());
    assert(string_views(out@) =~= string_views(out@) + chunks(
        cs@.skip(start as int),
        n as nat,
    ));
    out
}

/// The pieces of a text put back together give the text; each holds at
/// most `max` characters; there is at least one, and it is empty only when
/// the text is.
pub proof fn lemma_split_text(s: Seq<char>, max: nat)
    requires
        max > 0,
    ensures
        spec_split_text(s, max).flatten() == s,
        spec_split_text(s, max).len() > 0,
        forall|i: int|
            0 <= i < spec_split_text(s, max).len() ==> #[trigger] spec_split_text(
                s,
                max,
            )[i].len() <= max,
        s.len() > 0 ==> forall|i: int|
            0 <= i < spec_split_text(s, max).len() ==> #[trigger] spec_split_text(
                s,
                max,
            )[i].len() > 0,
{
    if s.len() == 0 {
        let p = spec_split_text(s, max);
        assert(p.drop_first() =~= Seq::<Seq<char>>::empty());
        assert(p.drop_first().flatten() =~= Seq::<char>::empty());
        assert(p.flatten() =~= s);
    } else {
        lemma_chunks(s, max);
    }
}

/// The first piece of a text cut for Notion: its first 1900 characters.
pub open spec fn spec_clamp(s: Seq<char>) -> Seq<char> {
    take_chars(s, MAX_TEXT as nat)
}

/// The first piece of `s` cut at the rich-text limit.
pub fn clamp(s: &str) -> (r: String)
    ensures
        r@ == spec_clamp(s@),
{
    let pieces = split_text(s, MAX_TEXT);
    proof {
        lemma_split_text(s@, MAX_TEXT as nat);
        if s@.len() > 0 {
            lemma_chunks(s@, MAX_TEXT as nat);
            if s@.len() > MAX_TEXT {
                assert(spec_split_text(s@, MAX_TEXT as nat)[0] == s@.take(MAX_TEXT as int));
            }
        }
    }
    let first = pieces[0].clone();
    assert(first@ == string_views(pieces@)[0]);
    first
}

// ── attendees ──────────────────────────────────────────────────────────────

/// Distinct speaker labels in first-seen order, dropping the unlabeled
/// sentinel. Notion multi_select option names can't contain commas, so those
/// are swapped for spaces.
pub fn distinct_speakers(segments: &[TranscriptSegment]) -> (r: Vec<String>)
    ensures
        string_views(r@) == distinct_names(speaker_views(segments@), true),
{
    distinct_names_of(segments, true)
}

// ── the page's notes blocks ────────────────────────────────────────────────

/// Paragraph blocks for the non-blank parts, each trimmed and cut into
/// rich-text-sized pieces.
pub open spec fn notion_paragraphs(parts: Seq<Seq<char>>) -> Seq<BlockView>
    decreases parts.len(),
{
    if parts.len() == 0 {
        Seq::empty()
    } else {
        notion_paragraphs(parts.drop_last()) + if spec_trim(parts.last()).len() > 0 {
            spec_split_text(spec_trim(parts.last()), MAX_TEXT as nat).map_values(
                |p: Seq<char>| BlockView::Paragraph(p),
            )
        } else {
            Seq::empty()
        }
    }
}

/// A heading and one clamped bullet per item; nothing for no items.
pub open spec fn notion_bullets(title: Seq<char>, items: Seq<Seq<char>>) -> Seq<BlockView> {
    if items.len() == 0 {
        Seq::empty()
    } else {
        seq![BlockView::Heading(title)] + items.map_values(
            |t: Seq<char>| BlockView::Bullet(spec_clamp(t)),
        )
    }
}

pub open spec fn notion_todos(items: Seq<NoteActionItem>) -> Seq<BlockView> {
    if items.len() == 0 {
        Seq::empty()
    } else {
        seq![BlockView::Heading("Action items"@)] + items.map_values(
            |i: NoteActionItem| BlockView::Todo(spec_clamp(todo_text(i))),
        )
    }
}

pub open spec fn notion_quotes(items: Seq<Highlight>) -> Seq<BlockView> {
    if items.len() == 0 {
        Seq::empty()
    } else {
        seq![BlockView::Heading("Highlights"@)] + items.map_values(
            |h: Highlight| BlockView::Quote(spec_clamp(highlight_text(h))),
        )
    }
}

/// Every notes block, before the cap on their number.
pub open spec fn notion_blocks_uncapped(notes: MeetingNotes) -> Seq<BlockView> {
    seq![BlockView::Callout(spec_clamp(notes.tldr@)), BlockView::Heading("Summary"@)]
        + notion_paragraphs(split(notes.summary@, "\n\n"@)) + notion_bullets(
        "Key points"@,
        string_views(notes.key_points@),
    ) + notion_bullets("Decisions"@, string_views(notes.decisions@)) + notion_todos(
        notes.action_items@,
    ) + notion_bullets("Open questions"@, string_views(notes.open_questions@)) + notion_quotes(
        notes.highlights@,
    )
}

/// The page's notes blocks: the TL;DR callout, the summary's paragraphs, then
/// the key points, decisions, action items, open questions and highlights
/// (each section only when non-empty, each text cut to the rich-text
/// limit), at most 95 of them.
pub open spec fn spec_notes_blocks(notes: MeetingNotes) -> Seq<BlockView> {
    let all = notion_blocks_uncapped(notes);
    if all.len() <= MAX_NOTES_BLOCKS {
        all
    } else {
        all.take(MAX_NOTES_BLOCKS as int)
    }
}

/// The page's notes blocks hold every section, in order, each entry of each
/// non-empty list as its own block right after the section's heading, each
/// text cut to the rich-text limit: the TL;DR callout and the "Summary"
/// heading, the summary's paragraphs, the key points and decisions as
/// bullets, the action items as to-dos, the open questions as bullets and
/// the highlights as quotes. There are 2 + paragraphs + the sections' blocks
/// of them, at most 95; past the cap the rest is cut.
pub proof fn lemma_notes_blocks_sections(notes: MeetingNotes)
    ensures
        ({
            let b = spec_notes_blocks(notes);
            let hk: int = 2 + notion_paragraphs(split(notes.summary@, "\n\n"@)).len() as int;
            let hd: int = hk + section_len(notes.key_points@.len());
            let ha: int = hd + section_len(notes.decisions@.len());
            let ho: int = ha + section_len(notes.action_items@.len());
            let hh: int = ho + section_len(notes.open_questions@.len());
            let n: int = hh + section_len(notes.highlights@.len());
            &&& b.len() == (if n <= MAX_NOTES_BLOCKS { n } else { MAX_NOTES_BLOCKS as int })
            &&& b[0] == BlockView::Callout(spec_clamp(notes.tldr@))
            &&& b[1] == BlockView::Heading("Summary"@)
            &&& notes.key_points@.len() > 0 && hk < b.len() ==> b[hk] == BlockView::Heading(
                "Key points"@,
            )
            &&& forall|i: int|
                0 <= i < notes.key_points@.len() && hk + 1 + i < b.len() ==> b[hk + 1 + i]
                    == BlockView::Bullet(spec_clamp((#[trigger] notes.key_points@[i])@))
            &&& notes.decisions@.len() > 0 && hd < b.len() ==> b[hd] == BlockView::Heading(
                "Decisions"@,
            )
            &&& forall|i: int|
                0 <= i < notes.decisions@.len() && hd + 1 + i < b.len() ==> b[hd + 1 + i]
                    == BlockView::Bullet(spec_clamp((#[trigger] notes.decisions@[i])@))
            &&& notes.action_items@.len() > 0 && ha < b.len() ==> b[ha] == BlockView::Heading(
                "Action items"@,
            )
            &&& forall|i: int|
                0 <= i < notes.action_items@.len() && ha + 1 + i < b.len() ==> b[ha + 1 + i]
                    == BlockView::Todo(spec_clamp(todo_text(#[trigger] notes.action_items@[i])))
            &&& notes.open_questions@.len() > 0 && ho < b.len() ==> b[ho] == BlockView::Heading(
                "Open questions"@,
            )
            &&& forall|i: int|
                0 <= i < notes.open_questions@.len() && ho + 1 + i < b.len() ==> b[ho + 1 + i]
                    == BlockView::Bullet(spec_clamp((#[trigger] notes.open_questions@[i])@))
            &&& notes.highlights@.len() > 0 && hh < b.len() ==> b[hh] == BlockView::Heading(
                "Highlights"@,
            )
            &&& forall|i: int|
                0 <= i < notes.highlights@.len() && hh + 1 + i < b.len() ==> b[hh + 1 + i]
                    == BlockView::Quote(spec_clamp(highlight_text(#[trigger] notes.highlights@[i])))
        }),
{
    let a0 = seq![BlockView::Callout(spec_clamp(notes.tldr@)), BlockView::Heading("Summary"@)];
    let p = notion_paragraphs(split(notes.summary@, "\n\n"@));
    let k = notion_bullets("Key points"@, string_views(notes.key_points@));
    let d = notion_bullets("Decisions"@, string_views(notes.decisions@));
    let t = notion_todos(notes.action_items@);
    let o = notion_bullets("Open questions"@, string_views(notes.open_questions@));
    let q = notion_quotes(notes.highlights@);
    let s1 = a0 + p;
    let s2 = s1 + k;
    let s3 = s2 + d;
    let s4 = s3 + t;
    let s5 = s4 + o;
    let u = s5 + q;
    assert(u == notion_blocks_uncapped(notes));
    let b = spec_notes_blocks(notes);
    assert(forall|x: int| 0 <= x < b.len() ==> #[trigger] b[x] == u[x]);
    assert(k.len() == section_len(notes.key_points@.len()));
    assert(d.len() == section_len(notes.decisions@.len()));
    assert(t.len() == section_len(notes.action_items@.len()));
    assert(o.len() == section_len(notes.open_questions@.len()));
    assert(q.len() == section_len(notes.highlights@.len()));
    assert(u[0] == a0[0] && u[1] == a0[1]) by {
        lemma_prefix_at(a0, p, 0);
        lemma_prefix_at(a0, p, 1);
        lemma_prefix_at(s1, k, 0);
        lemma_prefix_at(s1, k, 1);
        lemma_prefix_at(s2, d, 0);
        lemma_prefix_at(s2, d, 1);
        lemma_prefix_at(s3, t, 0);
        lemma_prefix_at(s3, t, 1);
        lemma_prefix_at(s4, o, 0);
        lemma_prefix_at(s4, o, 1);
        lemma_prefix_at(s5, q, 0);
        lemma_prefix_at(s5, q, 1);
    }
    assert forall|i: int| 0 <= i < k.len() implies u[s1.len() + i] == k[i] by {
        lemma_prefix_at(s2, d, s1.len() + i);
        lemma_prefix_at(s3, t, s1.len() + i);
        lemma_prefix_at(s4, o, s1.len() + i);
        lemma_prefix_at(s5, q, s1.len() + i);
    }
    assert forall|i: int| 0 <= i < d.len() implies u[s2.len() + i] == d[i] by {
        lemma_prefix_at(s3, t, s2.len() + i);
        lemma_prefix_at(s4, o, s2.len() + i);
        lemma_prefix_at(s5, q, s2.len() + i);
    }
    assert forall|i: int| 0 <= i < t.len() implies u[s3.len() + i] == t[i] by {
        lemma_prefix_at(s4, o, s3.len() + i);
        lemma_prefix_at(s5, q, s3.len() + i);
    }
    assert forall|i: int| 0 <= i < o.len() implies u[s4.len() + i] == o[i] by {
        lemma_prefix_at(s5, q, s4.len() + i);
    }
    let hk: int = 2 + p.len() as int;
    let hd: int = hk + k.len();
    let ha: int = hd + d.len();
    let ho: int = ha + t.len();
    let hh: int = ho + o.len();
    assert(s1.len() == hk && s2.len() == hd && s3.len() == ha && s4.len() == ho && s5.len() == hh);
    assert forall|i: int| 0 <= i < notes.key_points@.len() && hk + 1 + i < b.len() implies b[hk
        + 1 + i] == BlockView::Bullet(spec_clamp((#[trigger] notes.key_points@[i])@)) by {
        assert(u[s1.len() + (1 + i)] == k[1 + i]);
    }
    assert forall|i: int| 0 <= i < notes.decisions@.len() && hd + 1 + i < b.len() implies b[hd
        + 1 + i] == BlockView::Bullet(spec_clamp((#[trigger] notes.decisions@[i])@)) by {
        assert(u[s2.len() + (1 + i)] == d[1 + i]);
    }
    assert forall|i: int| 0 <= i < notes.action_items@.len() && ha + 1 + i < b.len() implies b[ha
        + 1 + i] == BlockView::Todo(spec_clamp(todo_text(#[trigger] notes.action_items@[i]))) by {
        assert(u[s3.len() + (1 + i)] == t[1 + i]);
    }
    assert forall|i: int| 0 <= i < notes.open_questions@.len() && ho + 1 + i < b.len() implies b[ho
        + 1 + i] == BlockView::Bullet(spec_clamp((#[trigger] notes.open_questions@[i])@)) by {
        assert(u[s4.len() + (1 + i)] == o[1 + i]);
    }
    assert forall|i: int| 0 <= i < notes.highlights@.len() && hh + 1 + i < b.len() implies b[hh
        + 1 + i] == BlockView::Quote(spec_clamp(highlight_text(#[trigger] notes.highlights@[i])))
        by {
        assert(u[hh + 1 + i] == q[1 + i]);
    }
    if notes.key_points@.len() > 0 && hk < b.len() {
        assert(u[s1.len() as int] == k[0]);
    }
    if notes.decisions@.len() > 0 && hd < b.len() {
        assert(u[s2.len() as int] == d[0]);
    }
    if notes.action_items@.len() > 0 && ha < b.len() {
        assert(u[s3.len() as int] == t[0]);
    }
    if notes.open_questions@.len() > 0 && ho < b.len() {
        assert(u[s4.len() as int] == o[0]);
    }
    if notes.highlights@.len() > 0 && hh < b.len() {
        assert(u[hh] == q[0]);
    }
}

fn push_clamped_bullets(out: &mut Vec<Block>, title: &str, items: &Vec<String>)
    ensures
        block_views(final(out)@) == block_views(old(out)@) + notion_bullets(
            title@,
            string_views(items@),
        ),
{
    if items.len() == 0 {
        assert(block_views(out@) =~= block_views(old(out)@) + Seq::<BlockView>::empty());
        return ;
    }
    push_heading(out, title);
    let ghost base = block_views(out@);
    let mut i: usize = 0;
    while i < items.len()
        invariant
            i <= items@.len(),
            block_views(out@) == base + string_views(items@).subrange(0, i as int).map_values(
                |t: Seq<char>| BlockView::Bullet(spec_clamp(t)),
            ),
        decreases items.len() - i,
    {
        let c = clamp(items[i].as_str());
        push_block(out, Block::Bullet(c));
        assert(string_views(items@).subrange(0, i + 1).map_values(
            |t: Seq<char>| BlockView::Bullet(spec_clamp(t)),
        ) =~= string_views(items@).subrange(0, i as int).map_values(
            |t: Seq<char>| BlockView::Bullet(spec_clamp(t)),
        ).push(BlockView::Bullet(spec_clamp(items@[i as int]@))));
        i = i + 1;
    }
    assert(string_views(items@).subrange(0, i as int) =~= string_views(items@));
    assert(block_views(out@) =~= block_views(old(out)@) + notion_bullets(
        title@,
        string_views(items@),
    ));
}

fn push_pieces(out: &mut Vec<Block>, text: &[char])
    ensures
        block_views(final(out)@) == block_views(old(out)@) + spec_split_text(
            text@,
            MAX_TEXT as nat,
        ).map_values(|p: Seq<char>| BlockView::Paragraph(p)),
{
    let pieces = split_text(string_of(text).as_str(), MAX_TEXT);
    let ghost ps = string_views(pieces@);
    let ghost base = block_views(out@);
    let mut k: usize = 0;
    while k < pieces.len()
        invariant
            k <= pieces@.len(),
            ps == string_views(pieces@),
            ps == spec_split_text(text@, MAX_TEXT as nat),
            block_views(out@) == base + ps.subrange(0, k as int).map_values(
                |p: Seq<char>| BlockView::Paragraph(p),
            ),
        decreases pieces.len() - k,
    {
        push_block(out, Block::Paragraph(pieces[k].clone()));
        assert(ps.subrange(0, k + 1).map_values(|p: Seq<char>| BlockView::Paragraph(p))
            =~= ps.subrange(0, k as int).map_values(|p: Seq<char>| BlockView::Paragraph(p)).push(
            BlockView::Paragraph(ps[k as int]),
        ));
        k = k + 1;
    }
    assert(ps.subrange(0, k as int) =~= ps);
}

/// The page's notes blocks (the transcript toggle is added after them).
pub fn notes_blocks(notes: &MeetingNotes) -> (r: Vec<Block>)
    ensures
        block_views(r@) == spec_notes_blocks(*notes),
{
    let mut blocks: Vec<Block> = Vec::new();
    push_block(&mut blocks, Block::Callout(clamp(notes.tldr.as_str())));
    push_heading(&mut blocks, "Summary");
    let summary = chars_of(notes.summary.as_str());
    let pat = chars_of("\n\n");
    proof {
        reveal_strlit("\n\n");
    }
    let parts = split_exec(summary.as_slice(), pat.as_slice());
    let ghost base = block_views(blocks@);
    assert(base =~= seq![
        BlockView::Callout(spec_clamp(notes.tldr@)),
        BlockView::Heading("Summary"@),
    ]);
    let mut i: usize = 0;
    while i < parts.len()
        invariant
            i <= parts@.len(),
            block_views(blocks@) == base + notion_paragraphs(views(parts@).subrange(0, i as int)),
        decreases parts.len() - i,
    {
        let ghost pre = views(parts@).subrange(0, i as int);
        let ghost cur = views(parts@).subrange(0, i + 1);
        assert(cur.drop_last() =~= pre);
        assert(cur.last() == parts@[i as int]@);
        let trimmed = trim_chars(parts[i].as_slice(), false);
        if trimmed.len() > 0 {
            push_pieces(&mut blocks, trimmed.as_slice());
            assert(block_views(blocks@) =~= base + notion_paragraphs(cur));
        } else {
            assert(notion_paragraphs(cur) =~= notion_paragraphs(pre));
        }
        i = i + 1;
    }
    assert(views(parts@).subrange(0, i as int) =~= views(parts@));
    push_clamped_bullets(&mut blocks, "Key points", &notes.key_points);
    push_clamped_bullets(&mut blocks, "Decisions", &notes.decisions);

    let ghost before_todo = block_views(blocks@);
    if notes.action_items.len() > 0 {
        push_heading(&mut blocks, "Action items");
        let ghost base2 = block_views(blocks@);
        let mut k: usize = 0;
        while k < notes.action_items.len()
            invariant
                k <= notes.action_items@.len(),
                block_views(blocks@) == base2 + notes.action_items@.subrange(0, k as int).map_values(
                    |i: NoteActionItem| BlockView::Todo(spec_clamp(todo_text(i))),
                ),
            decreases notes.action_items.len() - k,
        {
            let t = todo_text_exec(&notes.action_items[k]);
            push_block(&mut blocks, Block::Todo(clamp(t.as_str())));
            assert(notes.action_items@.subrange(0, k + 1).map_values(
                |i: NoteActionItem| BlockView::Todo(spec_clamp(todo_text(i))),
            ) =~= notes.action_items@.subrange(0, k as int).map_values(
                |i: NoteActionItem| BlockView::Todo(spec_clamp(todo_text(i))),
            ).push(BlockView::Todo(spec_clamp(todo_text(notes.action_items@[k as int])))));
            k = k + 1;
        }
        assert(notes.action_items@.subrange(0, k as int) =~= notes.action_items@);
    }
    assert(block_views(blocks@) =~= before_todo + notion_todos(notes.action_items@));

    push_clamped_bullets(&mut blocks, "Open questions", &notes.open_questions);

    let ghost before_hl = block_views(blocks@);
    if notes.highlights.len() > 0 {
        push_heading(&mut blocks, "Highlights");
        let ghost base3 = block_views(blocks@);
        let mut k: usize = 0;
        while k < notes.highlights.len()
            invariant
                k <= notes.highlights@.len(),
                block_views(blocks@) == base3 + notes.highlights@.subrange(0, k as int).map_values(
                    |h: Highlight| BlockView::Quote(spec_clamp(highlight_text(h))),
                ),
            decreases notes.highlights.len() - k,
        {
            let t = highlight_text_exec(&notes.highlights[k]);
            push_block(&mut blocks, Block::Quote(clamp(t.as_str())));
            assert(notes.highlights@.subrange(0, k + 1).map_values(
                |h: Highlight| BlockView::Quote(spec_clamp(highlight_text(h))),
            ) =~= notes.highlights@.subrange(0, k as int).map_values(
                |h: Highlight| BlockView::Quote(spec_clamp(highlight_text(h))),
            ).push(BlockView::Quote(spec_clamp(highlight_text(notes.highlights@[k as int])))));
            k = k + 1;
        }
        assert(notes.highlights@.subrange(0, k as int) =~= notes.highlights@);
    }
    assert(block_views(blocks@) =~= before_hl + notion_quotes(notes.highlights@));
    assert(block_views(blocks@) =~= notion_blocks_uncapped(*notes));
    let ghost all = blocks@;
    blocks.truncate(MAX_NOTES_BLOCKS);
    assert(block_views(blocks@) =~= spec_notes_blocks(*notes));
    blocks
}

// ── the transcript ─────────────────────────────────────────────────────────

/// `speaker (m:ss): ` before a segment's first paragraph.
pub open spec fn segment_prefix(seg: TranscriptSegment) -> Seq<char> {
    seg.speaker@ + " ("@ + spec_format_ms(seg.start_ms as int) + "): "@
}

/// One segment's paragraphs: its text cut into pieces, the first prefixed
/// with the speaker and start time.
pub open spec fn segment_paragraphs(seg: TranscriptSegment) -> Seq<Seq<char>> {
    let pieces = spec_split_text(seg.text@, MAX_TEXT as nat);
    Seq::new(
        pieces.len(),
        |i: int|
            if i == 0 {
                segment_prefix(seg) + pieces[i]
            } else {
                pieces[i]
            },
    )
}

/// Every segment's paragraphs, in order.
pub open spec fn transcript_paragraphs(segs: Seq<TranscriptSegment>) -> Seq<Seq<char>>
    decreases segs.len(),
{
    if segs.len() == 0 {
        Seq::empty()
    } else {
        transcript_paragraphs(segs.drop_last()) + segment_paragraphs(segs.last())
    }
}

/// The transcript's paragraphs in batches of at most 90, one batch per
/// append request.
pub open spec fn spec_transcript_batches(segs: Seq<TranscriptSegment>) -> Seq<Seq<Seq<char>>> {
    chunks(transcript_paragraphs(segs), BATCH as nat)
}

fn push_segment_paragraphs(out: &mut Vec<String>, seg: &TranscriptSegment)
    ensures
        string_views(final(out)@) == string_views(old(out)@) + segment_paragraphs(*seg),
{
    let pieces = split_text(seg.text.as_str(), MAX_TEXT);
    proof {
        lemma_split_text(seg.text@, MAX_TEXT as nat);
    }
    let ghost ps = string_views(pieces@);
    let ghost base = string_views(out@);
    let mut prefix = chars_of(seg.speaker.as_str());
    push_str(&mut prefix, " (");
    let stamp = format_ms_chars(seg.start_ms);
    push_all(&mut prefix, stamp.as_slice());
    push_str(&mut prefix, "): ");
    assert(prefix@ =~= segment_prefix(*seg));
    let mut k: usize = 0;
    while k < pieces.len()
        invariant
            k <= pieces@.len(),
            ps == string_views(pieces@),
            ps == spec_split_text(seg.text@, MAX_TEXT as nat),
            prefix@ == segment_prefix(*seg),
            string_views(out@) == base + segment_paragraphs(*seg).subrange(0, k as int),
        decreases pieces.len() - k,
    {
        let ghost before = string_views(out@);
        assert(ps[k as int] == pieces@[k as int]@);
        let ghost want = segment_paragraphs(*seg)[k as int];
        if k == 0 {
            let mut p = sub_vec(prefix.as_slice(), 0, prefix.len());
            assert(p@ =~= prefix@);
            push_str(&mut p, pieces[k].as_str());
            assert(p@ == segment_prefix(*seg) + ps[0]);
            assert(want == segment_prefix(*seg) + ps[0]);
            let ps0 = string_of(p.as_slice());
            out.push(ps0);
            assert(string_views(out@) =~= before.push(want));
        } else {
            let pk = pieces[k].clone();
            assert(pk@ == want);
            out.push(pk);
            assert(string_views(out@) =~= before.push(want));
        }
        assert(segment_paragraphs(*seg).subrange(0, k + 1) =~= segment_paragraphs(*seg).subrange(
            0,
            k as int,
        ).push(segment_paragraphs(*seg)[k as int]));
        k = k + 1;
    }
    assert(segment_paragraphs(*seg).subrange(0, k as int) =~= segment_paragraphs(*seg));
}

/// The transcript's paragraphs, in order.
pub fn transcript_paragraphs_of(segments: &[TranscriptSegment]) -> (r: Vec<String>)
    ensures
        string_views(r@) == transcript_paragraphs(segments@),
{
    let mut out: Vec<String> = Vec::new();
    let mut i: usize = 0;
    while i < segments.len()
        invariant
            i <= segments@.len(),
            string_views(out@) == transcript_paragraphs(segments@.subrange(0, i as int)),
        decreases segments.len() - i,
    {
        assert(segments@.subrange(0, i + 1).drop_last() =~= segments@.subrange(0, i as int));
        push_segment_paragraphs(&mut out, &segments[i]);
        i = i + 1;
    }
    assert(segments@.subrange(0, i as int) =~= segments@);
    out
}

pub open spec fn batch_views(b: Seq<Vec<String>>) -> Seq<Seq<Seq<char>>> {
    b.map_values(|v: Vec<String>| string_views(v@))
}

/// The transcript's paragraphs in batches of at most 90, one batch per
/// append request; none for an empty transcript.
pub fn transcript_batches(segments: &[TranscriptSegment]) -> (r: Vec<Vec<String>>)
    ensures
        batch_views(r@) == spec_transcript_batches(segments@),
{
    let paras = transcript_paragraphs_of(segments);
    let ghost all = string_views(paras@);
    let mut out: Vec<Vec<String>> = Vec::new();
    let mut start: usize = 0;
    assert(all.skip(0) =~= all);
    assert(batch_views(out@) + chunks(all.skip(0), BATCH as nat) =~= chunks(all, BATCH as nat));
    while start < paras.len()
        invariant
            all == string_views(paras@),
            all == transcript_paragraphs(segments@),
            start <= paras@.len(),
            batch_views(out@) + chunks(all.skip(start as int), BATCH as nat) == chunks(
                all,
                BATCH as nat,
            ),
        decreases paras.len() - start,
    {
        let ghost rest = all.skip(start as int);
        let end = if paras.len() - start <= BATCH {
            paras.len()
        } else {
            start + BATCH
        };
        let mut batch: Vec<String> = Vec::new();
        let mut k = start;
        while k < end
            invariant
                start <= k <= end <= paras@.len(),
                all == string_views(paras@),
                string_views(batch@) == all.subrange(start as int, k as int),
            decreases end - k,
        {
            let ghost before = string_views(batch@);
            batch.push(paras[k].clone());
            assert(all[k as int] == paras@[k as int]@);
            assert(string_views(batch@) =~= before.push(all[k as int]));
            assert(string_views(batch@) =~= all.subrange(start as int, k + 1));
            k = k + 1;
        }
        let ghost before = batch_views(out@);
        let ghost piece = string_views(batch@);
        out.push(batch);
        assert(batch_views(out@) =~= before.push(piece));
        if end == paras.len() {
            assert(piece =~= rest);
            assert(all.skip(end as int) =~= Seq::<Seq<char>>::empty());
            assert(chunks(rest, BATCH as nat) =~= seq![rest]);
        } else {
            assert(piece =~= rest.take(BATCH as int));
            assert(rest.skip(BATCH as int) =~= all.skip(end as int));
        }
        assert(before.push(piece) + chunks(all.skip(end as int), BATCH as nat) =~= before + chunks(
            rest,
            BATCH as nat,
        ));
        start = end;
    }
    assert(all.skip(start as int) =~= Seq::<Seq<char>>::empty());
    assert(batch_views(out@) =~= batch_views(out@) + chunks(
        all.skip(start as int),
        BATCH as nat,
    ));
    out
}

/// The transcript goes out whole: the batches put back together give every
/// segment's paragraphs in order, each batch holds between 1 and 90 of
/// them, and there is a batch exactly when there is a segment.
pub proof fn lemma_transcript_batches(segs: Seq<TranscriptSegment>)
    ensures
        spec_transcript_batches(segs).flatten() == transcript_paragraphs(segs),
        forall|i: int|
            0 <= i < spec_transcript_batches(segs).len() ==> 0 < #[trigger] spec_transcript_batches(
                segs,
            )[i].len() <= BATCH,
        (spec_transcript_batches(segs).len() > 0) == (segs.len() > 0),
{
    lemma_chunks(transcript_paragraphs(segs), BATCH as nat);
    lemma_paragraphs_nonempty(segs);
}

proof fn lemma_paragraphs_nonempty(segs: Seq<TranscriptSegment>)
    ensures
        (transcript_paragraphs(segs).len() > 0) == (segs.len() > 0),
    decreases segs.len(),
{
    if segs.len() > 0 {
        lemma_paragraphs_nonempty(segs.drop_last());
        lemma_split_text(segs.last().text@, MAX_TEXT as nat);
    }
}

// ── page properties and replies ────────────────────────────────────────────

/// The database properties a meeting page is created with.
#[derive(Debug, Clone)]
pub struct PageProperties {
    pub title: String,
    /// The meeting's RFC 3339 start.
    pub date: String,
    /// Whole minutes of recorded audio.
    pub duration_min: i64,
    /// Distinct attendee names (commas turned into spaces).
    pub attendees: Vec<String>,
    /// The number of action items.
    pub action_items: usize,
}

/// The properties of a meeting's page.
pub fn page_properties(
    meeting: &Meeting,
    notes: &MeetingNotes,
    segments: &[TranscriptSegment],
) -> (r: PageProperties)
    ensures
        r.title == meeting.title,
        r.date == meeting.created_at,
        r.duration_min == tdiv(meeting.duration_ms as int, 60000),
        string_views(r.attendees@) == distinct_names(speaker_views(segments@), true),
        r.action_items == notes.action_items@.len(),
{
    let (mins, _) = div_rem_i64(meeting.duration_ms, 60_000);
    PageProperties {
        title: meeting.title.clone(),
        date: meeting.created_at.clone(),
        duration_min: mins,
        attendees: distinct_speakers(segments),
        action_items: notes.action_items.len(),
    }
}

/// A create that Notion rejected with 400 is retried once without the
/// newer attendees/action-items properties (an older database may lack
/// them), keeping the core properties and the transcript toggle.
pub fn retry_without_new_properties(e: &Error) -> (b: bool)
    ensures
        b == (e matches Error::Api { status, .. } && status == 400),
{
    match e {
        Error::Api { status, .. } => *status == 400,
        _ => false,
    }
}

/// What a Notion reply amounts to: success for a 2xx status, else an API
/// error carrying Notion's message (or "unknown error" without one).
pub fn request_outcome(status: u16, message: Option<String>) -> (r: Result<()>)
    ensures
        200 <= status <= 299 ==> r is Ok,
        !(200 <= status <= 299) ==> (r matches Err(Error::Api { provider, status: s, message: m })
            && provider@ == "notion"@ && s == status && m@ == (match message {
            Some(t) => t@,
            None => "unknown error"@,
        })),
{
    if 200 <= status && status <= 299 {
        return Ok(());
    }
    let m = match message {
        Some(t) => t,
        None => string_of(chars_of("unknown error").as_slice()),
    };
    Err(Error::Api { provider: string_of(chars_of("notion").as_slice()), status, message: m })
}

/// The id a create reply carries, or an error naming what was created
/// (`database` or `page`) when it carries none.
pub fn created_id(id: Option<String>, what: &str) -> (r: Result<String>)
    ensures
        id is Some ==> (r matches Ok(v) && v == id->Some_0),
        id is None ==> (r matches Err(Error::Other(m)) && m@ == "notion: "@ + what@
            + " response missing id"@),
{
    match id {
        Some(v) => Ok(v),
        None => {
            let mut m = chars_of("notion: ");
            push_str(&mut m, what);
            push_str(&mut m, " response missing id");
            Err(Error::Other(string_of(m.as_slice())))
        },
    }
}

/// What the one-time database setup sends: the trimmed parent page id, or
/// an error when no API key is set.
pub fn setup_parent(token: &str, parent_page_id: &str) -> (r: core::result::Result<String, String>)
    ensures
        token@.len() == 0 ==> (r matches Err(m) && m@ == "Notion API key is not set"@),
        token@.len() > 0 ==> (r matches Ok(p) && p@ == spec_trim(parent_page_id@)),
{
    if token.is_empty() {
        return Err(string_of(chars_of("Notion API key is not set").as_slice()));
    }
    let t = trim_str(parent_page_id);
    Ok(string_of(t.as_slice()))
}

} // verus!
