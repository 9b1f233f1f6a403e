//! Shared document renderer for file-ish destinations: one block model
//! rendered to Markdown (file/Obsidian) and HTML (Apple Notes).

use vstd::prelude::*;

use crate::models::{Highlight, MeetingNotes, NoteActionItem, TranscriptSegment};
use crate::pipeline::UNLABELED_SPEAKER;
use crate::text::{
    chars_of, div_rem_i64, int_str, pad2, push_all, push_str, spec_int_str, spec_pad2, spec_trim,
    split, split_exec, string_of, tdiv, trem, trim_chars, views, lines, lines_exec, join, join_exec,
    starts_with, starts_with_exec, sub_vec, replace_char, replace_char_exec, chars_eq,
};

verus! {

/// One rendered element of a meeting note, format-agnostic.
#[derive(Debug, Clone, PartialEq)]
pub enum Block {
    /// The TL;DR line, rendered with emphasis (Obsidian callout / HTML box).
    Callout(String),
    Heading(String),
    Paragraph(String),
    Bullet(String),
    /// Unchecked task item.
    Todo(String),
    Quote(String),
    /// One transcript utterance with a bolded speaker/timestamp prefix.
    Utterance { speaker: String, stamp: String, text: String },
}

pub ghost enum BlockView {
    Callout(Seq<char>),
    Heading(Seq<char>),
    Paragraph(Seq<char>),
    Bullet(Seq<char>),
    Todo(Seq<char>),
    Quote(Seq<char>),
    Utterance { speaker: Seq<char>, stamp: Seq<char>, text: Seq<char> },
}

impl View for Block {
    type V = BlockView;

    open spec fn view(&self) -> BlockView {
        match self {
            Block::Callout(t) => BlockView::Callout(t@),
            Block::Heading(t) => BlockView::Heading(t@),
            Block::Paragraph(t) => BlockView::Paragraph(t@),
            Block::Bullet(t) => BlockView::Bullet(t@),
            Block::Todo(t) => BlockView::Todo(t@),
            Block::Quote(t) => BlockView::Quote(t@),
            Block::Utterance { speaker, stamp, text } => BlockView::Utterance {
                speaker: speaker@,
                stamp: stamp@,
                text: text@,
            },
        }
    }
}

pub open spec fn block_views(b: Seq<Block>) -> Seq<BlockView> {
    b.map_values(|x: Block| x@)
}

pub open spec fn string_views(v: Seq<String>) -> Seq<Seq<char>> {
    v.map_values(|x: String| x@)
}

// ── timestamps ─────────────────────────────────────────────────────────────

/// `h:mm:ss` above an hour, `m:ss` below, from whole seconds of `ms`
/// (Rust's truncating `/` and `%`).
pub open spec fn spec_format_ms(ms: int) -> Seq<char> {
    let t = tdiv(ms, 1000);
    let h = tdiv(t, 3600);
    let m = tdiv(trem(t, 3600), 60);
    let s = trem(t, 60);
    if h > 0 {
        spec_int_str(h) + seq![':'] + spec_pad2(m) + seq![':'] + spec_pad2(s)
    } else {
        spec_int_str(m) + seq![':'] + spec_pad2(s)
    }
}

pub fn format_ms_chars(ms: i64) -> (r: Vec<char>)
    ensures
        r@ == spec_format_ms(ms as int),
{
    let (t, _) = div_rem_i64(ms, 1000);
    let (h, r3600) = div_rem_i64(t, 3600);
    let (m, _) = div_rem_i64(r3600, 60);
    let (_, s) = div_rem_i64(t, 60);
    let mut out: Vec<char> = Vec::new();
    if h > 0 {
        let hs = int_str(h);
        push_all(&mut out, hs.as_slice());
        out.push(':');
        let ms2 = pad2(m);
        push_all(&mut out, ms2.as_slice());
        out.push(':');
        let ss = pad2(s);
        push_all(&mut out, ss.as_slice());
    } else {
        let mstr = int_str(m);
        push_all(&mut out, mstr.as_slice());
        out.push(':');
        let ss = pad2(s);
        push_all(&mut out, ss.as_slice());
    }
    out
}

/// `h:mm:ss` above an hour, `m:ss` below.
pub fn format_ms(ms: i64) -> (r: String)
    ensures
        r@ == spec_format_ms(ms as int),
{
    let v = format_ms_chars(ms);
    string_of(v.as_slice())
}

// ── the block model ────────────────────────────────────────────────────────

/// Paragraph blocks of the non-blank pieces, each trimmed.
pub open spec fn paragraph_blocks(parts: Seq<Seq<char>>) -> Seq<BlockView>
    decreases parts.len(),
{
    if parts.len() == 0 {
        Seq::empty()
    } else {
        paragraph_blocks(parts.drop_last()) + if spec_trim(parts.last()).len() > 0 {
            seq![BlockView::Paragraph(spec_trim(parts.last()))]
        } else {
            Seq::empty()
        }
    }
}

/// A heading followed by one bullet per item; nothing for no items.
pub open spec fn bullet_section(title: Seq<char>, items: Seq<Seq<char>>) -> Seq<BlockView> {
    if items.len() == 0 {
        Seq::empty()
    } else {
        seq![BlockView::Heading(title)] + items.map_values(|t: Seq<char>| BlockView::Bullet(t))
    }
}

/// `task — owner (due date)`, each suffix only when present.
pub open spec fn todo_text(item: NoteActionItem) -> Seq<char> {
    item.task@ + (match item.owner {
        Some(o) => " \u{2014} "@ + o@,
        None => Seq::empty(),
    }) + (match item.due {
        Some(d) => " (due "@ + d@ + ")"@,
        None => Seq::empty(),
    })
}

/// `“quote” — speaker (m:ss)`.
pub open spec fn highlight_text(h: Highlight) -> Seq<char> {
    "\u{201c}"@ + h.quote@ + "\u{201d} \u{2014} "@ + h.speaker@ + " ("@ + spec_format_ms(
        h.timestamp_ms as int,
    ) + ")"@
}

pub open spec fn todo_section(items: Seq<NoteActionItem>) -> Seq<BlockView> {
    if items.len() == 0 {
        Seq::empty()
    } else {
        seq![BlockView::Heading("Action items"@)] + items.map_values(
            |i: NoteActionItem| BlockView::Todo(todo_text(i)),
        )
    }
}

pub open spec fn highlight_section(items: Seq<Highlight>) -> Seq<BlockView> {
    if items.len() == 0 {
        Seq::empty()
    } else {
        seq![BlockView::Heading("Highlights"@)] + items.map_values(
            |h: Highlight| BlockView::Quote(highlight_text(h)),
        )
    }
}

pub open spec fn utterance_block(s: TranscriptSegment) -> BlockView {
    BlockView::Utterance {
        speaker: s.speaker@,
        stamp: spec_format_ms(s.start_ms as int),
        text: s.text@,
    }
}

pub open spec fn transcript_section(segs: Seq<TranscriptSegment>) -> Seq<BlockView> {
    if segs.len() == 0 {
        Seq::empty()
    } else {
        seq![BlockView::Heading("Transcript"@)] + segs.map_values(
            |s: TranscriptSegment| utterance_block(s),
        )
    }
}

/// The full note body: the TL;DR callout, the summary's paragraphs (split
/// on blank lines), the key points, decisions, action items, open
/// questions and highlights — each section only when non-empty — then the
/// transcript.
pub open spec fn spec_note_blocks(notes: MeetingNotes, segs: Seq<TranscriptSegment>) -> Seq<
    BlockView,
> {
    seq![BlockView::Callout(notes.tldr@), BlockView::Heading("Summary"@)] + paragraph_blocks(
        split(notes.summary@, "\n\n"@),
    ) + bullet_section("Key points"@, string_views(notes.key_points@)) + bullet_section(
        "Decisions"@,
        string_views(notes.decisions@),
    ) + todo_section(notes.action_items@) + bullet_section(
        "Open questions"@,
        string_views(notes.open_questions@),
    ) + highlight_section(notes.highlights@) + transcript_section(segs)
}

pub(crate) fn push_block(out: &mut Vec<Block>, b: Block)
    ensures
        block_views(final(out)@) == block_views(old(out)@).push(b@),
{
    out.push(b);
    assert(block_views(out@) =~= block_views(old(out)@).push(b@));
}

pub(crate) fn push_heading(out: &mut Vec<Block>, title: &str)
    ensures
        block_views(final(out)@) == block_views(old(out)@).push(BlockView::Heading(title@)),
{
    let t = string_of(chars_of(title).as_slice());
    push_block(out, Block::Heading(t));
}

fn push_bullet_section(out: &mut Vec<Block>, title: &str, items: &Vec<String>)
    ensures
        block_views(final(out)@) == block_views(old(out)@) + bullet_section(
            title@,
            string_views(items@),
        ),
{
    if items.len() == 0 {
        assert(block_views(out@) =~= block_views(old(out)@) + Seq::<BlockView>::empty());
        return ;
    }
    push_heading(out, title);
    let ghost base = block_views(out@);
    let mut i: usize = 0;
    while i < items.len()
        invariant
            i <= items@.len(),
            block_views(out@) == base + string_views(items@).subrange(0, i as int).map_values(
                |t: Seq<char>| BlockView::Bullet(t),
            ),
        decreases items.len() - i,
    {
        let ghost before = block_views(out@);
        push_block(out, Block::Bullet(items[i].clone()));
        assert(string_views(items@).subrange(0, i + 1).map_values(
            |t: Seq<char>| BlockView::Bullet(t),
        ) =~= string_views(items@).subrange(0, i as int).map_values(
            |t: Seq<char>| BlockView::Bullet(t),
        ).push(BlockView::Bullet(items@[i as int]@)));
        i = i + 1;
    }
    assert(string_views(items@).subrange(0, i as int) =~= string_views(items@));
    assert(block_views(out@) =~= block_views(old(out)@) + bullet_section(
        title@,
        string_views(items@),
    ));
}

pub(crate) fn todo_text_exec(item: &NoteActionItem) -> (r: String)
    ensures
        r@ == todo_text(*item),
{
    let mut t = chars_of(item.task.as_str());
    match &item.owner {
        Some(o) => {
            push_str(&mut t, " \u{2014} ");
            push_str(&mut t, o.as_str());
        },
        None => {},
    }
    match &item.due {
        Some(d) => {
            push_str(&mut t, " (due ");
            push_str(&mut t, d.as_str());
            push_str(&mut t, ")");
        },
        None => {},
    }
    assert(t@ =~= todo_text(*item));
    string_of(t.as_slice())
}

pub(crate) fn highlight_text_exec(h: &Highlight) -> (r: String)
    ensures
        r@ == highlight_text(*h),
{
    let mut t: Vec<char> = Vec::new();
    push_str(&mut t, "\u{201c}");
    push_str(&mut t, h.quote.as_str());
    push_str(&mut t, "\u{201d} \u{2014} ");
    push_str(&mut t, h.speaker.as_str());
    push_str(&mut t, " (");
    let f = format_ms_chars(h.timestamp_ms);
    push_all(&mut t, f.as_slice());
    push_str(&mut t, ")");
    assert(t@ =~= highlight_text(*h));
    string_of(t.as_slice())
}

/// The blocks a section of `n` items takes: none for no items, else a
/// heading and one block per item.
pub open spec fn section_len(n: nat) -> int {
    if n == 0 {
        0
    } else {
        n + 1int
    }
}

/// An element of the first part of a concatenation.
pub proof fn lemma_prefix_at<A>(x: Seq<A>, y: Seq<A>, i: int)
    requires
        0 <= i < x.len(),
    ensures
        (x + y)[i] == x[i],
{
}

/// Every section of the notes is rendered, in order, each entry of each
/// non-empty list as its own block right after the section's heading: the
/// TL;DR callout and the "Summary" heading, the summary's paragraphs, then
/// the key points and decisions as bullets, the action items as to-dos,
/// the open questions as bullets, the highlights as quotes, and the
/// transcript's utterances with their speaker and text. An empty list adds
/// nothing, so the note has exactly 2 + paragraphs + the sections' blocks.
pub proof fn lemma_note_blocks_sections(notes: MeetingNotes, segs: Seq<TranscriptSegment>)
    ensures
        ({
            let b = spec_note_blocks(notes, segs);
            let hk: int = 2 + paragraph_blocks(split(notes.summary@, "\n\n"@)).len() as int;
            let hd: int = hk + section_len(notes.key_points@.len());
            let ha: int = hd + section_len(notes.decisions@.len());
            let ho: int = ha + section_len(notes.action_items@.len());
            let hh: int = ho + section_len(notes.open_questions@.len());
            let ht: int = hh + section_len(notes.highlights@.len());
            &&& b.len() == ht + section_len(segs.len())
            &&& b[0] == BlockView::Callout(notes.tldr@)
            &&& b[1] == BlockView::Heading("Summary"@)
            &&& notes.key_points@.len() > 0 ==> b[hk] == BlockView::Heading("Key points"@)
            &&& forall|i: int|
                0 <= i < notes.key_points@.len() ==> b[hk + 1 + i] == BlockView::Bullet(
                    (#[trigger] notes.key_points@[i])@,
                )
            &&& notes.decisions@.len() > 0 ==> b[hd] == BlockView::Heading("Decisions"@)
            &&& forall|i: int|
                0 <= i < notes.decisions@.len() ==> b[hd + 1 + i] == BlockView::Bullet(
                    (#[trigger] notes.decisions@[i])@,
                )
            &&& notes.action_items@.len() > 0 ==> b[ha] == BlockView::Heading("Action items"@)
            &&& forall|i: int|
                0 <= i < notes.action_items@.len() ==> b[ha + 1 + i] == BlockView::Todo(
                    todo_text(#[trigger] notes.action_items@[i]),
                )
            &&& notes.open_questions@.len() > 0 ==> b[ho] == BlockView::Heading(
                "Open questions"@,
            )
            &&& forall|i: int|
                0 <= i < notes.open_questions@.len() ==> b[ho + 1 + i] == BlockView::Bullet(
                    (#[trigger] notes.open_questions@[i])@,
                )
            &&& notes.highlights@.len() > 0 ==> b[hh] == BlockView::Heading("Highlights"@)
            &&& forall|i: int|
                0 <= i < notes.highlights@.len() ==> b[hh + 1 + i] == BlockView::Quote(
                    highlight_text(#[trigger] notes.highlights@[i]),
                )
            &&& segs.len() > 0 ==> b[ht] == BlockView::Heading("Transcript"@)
            &&& forall|i: int|
                0 <= i < segs.len() ==> (b[ht + 1 + i] matches BlockView::Utterance {
                    speaker,
                    text,
                    ..
                } && speaker == (#[trigger] segs[i]).speaker@ && text == segs[i].text@)
        }),
{
    let a0 = seq![BlockView::Callout(notes.tldr@), BlockView::Heading("Summary"@)];
    let p = paragraph_blocks(split(notes.summary@, "\n\n"@));
    let k = bullet_section("Key points"@, string_views(notes.key_points@));
    let d = bullet_section("Decisions"@, string_views(notes.decisions@));
    let t = todo_section(notes.action_items@);
    let o = bullet_section("Open questions"@, string_views(notes.open_questions@));
    let h = highlight_section(notes.highlights@);
    let r = transcript_section(segs);
    let s1 = a0 + p;
    let s2 = s1 + k;
    let s3 = s2 + d;
    let s4 = s3 + t;
    let s5 = s4 + o;
    let s6 = s5 + h;
    let b = s6 + r;
    assert(b == spec_note_blocks(notes, segs));
    assert(k.len() == section_len(notes.key_points@.len()));
    assert(d.len() == section_len(notes.decisions@.len()));
    assert(t.len() == section_len(notes.action_items@.len()));
    assert(o.len() == section_len(notes.open_questions@.len()));
    assert(h.len() == section_len(notes.highlights@.len()));
    assert(r.len() == section_len(segs.len()));
    assert(b[0] == s1[0] && s1[0] == a0[0]) by {
        lemma_prefix_at(s1, k, 0);
        lemma_prefix_at(s2, d, 0);
        lemma_prefix_at(s3, t, 0);
        lemma_prefix_at(s4, o, 0);
        lemma_prefix_at(s5, h, 0);
        lemma_prefix_at(s6, r, 0);
        lemma_prefix_at(a0, p, 0);
    }
    assert(b[1] == a0[1]) by {
        lemma_prefix_at(s1, k, 1);
        lemma_prefix_at(s2, d, 1);
        lemma_prefix_at(s3, t, 1);
        lemma_prefix_at(s4, o, 1);
        lemma_prefix_at(s5, h, 1);
        lemma_prefix_at(s6, r, 1);
        lemma_prefix_at(a0, p, 1);
    }
    assert forall|i: int| 0 <= i < k.len() implies b[s1.len() + i] == k[i] by {
        lemma_prefix_at(s2, d, s1.len() + i);
        lemma_prefix_at(s3, t, s1.len() + i);
        lemma_prefix_at(s4, o, s1.len() + i);
        lemma_prefix_at(s5, h, s1.len() + i);
        lemma_prefix_at(s6, r, s1.len() + i);
    }
    assert forall|i: int| 0 <= i < d.len() implies b[s2.len() + i] == d[i] by {
        lemma_prefix_at(s3, t, s2.len() + i);
        lemma_prefix_at(s4, o, s2.len() + i);
        lemma_prefix_at(s5, h, s2.len() + i);
        lemma_prefix_at(s6, r, s2.len() + i);
    }
    assert forall|i: int| 0 <= i < t.len() implies b[s3.len() + i] == t[i] by {
        lemma_prefix_at(s4, o, s3.len() + i);
        lemma_prefix_at(s5, h, s3.len() + i);
        lemma_prefix_at(s6, r, s3.len() + i);
    }
    assert forall|i: int| 0 <= i < o.len() implies b[s4.len() + i] == o[i] by {
        lemma_prefix_at(s5, h, s4.len() + i);
        lemma_prefix_at(s6, r, s4.len() + i);
    }
    assert forall|i: int| 0 <= i < h.len() implies b[s5.len() + i] == h[i] by {
        lemma_prefix_at(s6, r, s5.len() + i);
    }
    let hk: int = 2 + p.len() as int;
    let hd: int = hk + k.len();
    let ha: int = hd + d.len();
    let ho: int = ha + t.len();
    let hh: int = ho + o.len();
    let ht: int = hh + h.len();
    assert(s1.len() == hk && s2.len() == hd && s3.len() == ha && s4.len() == ho && s5.len() == hh
        && s6.len() == ht);
    assert forall|i: int| 0 <= i < notes.key_points@.len() implies b[hk + 1 + i]
        == BlockView::Bullet((#[trigger] notes.key_points@[i])@) by {
        assert(b[s1.len() + (1 + i)] == k[1 + i]);
    }
    assert forall|i: int| 0 <= i < notes.decisions@.len() implies b[hd + 1 + i]
        == BlockView::Bullet((#[trigger] notes.decisions@[i])@) by {
        assert(b[s2.len() + (1 + i)] == d[1 + i]);
    }
    assert forall|i: int| 0 <= i < notes.action_items@.len() implies b[ha + 1 + i]
        == BlockView::Todo(todo_text(#[trigger] notes.action_items@[i])) by {
        assert(b[s3.len() + (1 + i)] == t[1 + i]);
    }
    assert forall|i: int| 0 <= i < notes.open_questions@.len() implies b[ho + 1 + i]
        == BlockView::Bullet((#[trigger] notes.open_questions@[i])@) by {
        assert(b[s4.len() + (1 + i)] == o[1 + i]);
    }
    assert forall|i: int| 0 <= i < notes.highlights@.len() implies b[hh + 1 + i]
        == BlockView::Quote(highlight_text(#[trigger] notes.highlights@[i])) by {
        assert(b[s5.len() + (1 + i)] == h[1 + i]);
    }
    assert forall|i: int| 0 <= i < segs.len() implies (b[ht + 1 + i] matches BlockView::Utterance {
        speaker,
        text,
        ..
    } && speaker == (#[trigger] segs[i]).speaker@ && text == segs[i].text@) by {
        assert(b[ht + 1 + i] == r[1 + i]);
    }
    if notes.key_points@.len() > 0 {
        assert(b[s1.len() as int] == k[0]);
    }
    if notes.decisions@.len() > 0 {
        assert(b[s2.len() as int] == d[0]);
    }
    if notes.action_items@.len() > 0 {
        assert(b[s3.len() as int] == t[0]);
    }
    if notes.open_questions@.len() > 0 {
        assert(b[s4.len() as int] == o[0]);
    }
    if notes.highlights@.len() > 0 {
        assert(b[s5.len() as int] == h[0]);
    }
    if segs.len() > 0 {
        assert(b[ht] == r[0]);
    }
}

/// The full note body: notes sections followed by the transcript.
pub fn note_blocks(notes: &MeetingNotes, segments: &[TranscriptSegment]) -> (r: Vec<Block>)
    ensures
        block_views(r@) == spec_note_blocks(*notes, segments@),
{
    let mut blocks: Vec<Block> = Vec::new();
    push_block(&mut blocks, Block::Callout(notes.tldr.clone()));
    push_heading(&mut blocks, "Summary");
    assert(block_views(blocks@) =~= seq![
        BlockView::Callout(notes.tldr@),
        BlockView::Heading("Summary"@),
    ]);

    // Summary paragraphs.
    let summary = chars_of(notes.summary.as_str());
    let pat = chars_of("\n\n");
    proof {
        reveal_strlit("\n\n");
    }
    let parts = split_exec(summary.as_slice(), pat.as_slice());
    let ghost base = block_views(blocks@);
    let mut i: usize = 0;
    while i < parts.len()
        invariant
            i <= parts@.len(),
            block_views(blocks@) == base + paragraph_blocks(views(parts@).subrange(0, i as int)),
        decreases parts.len() - i,
    {
        let ghost before = block_views(blocks@);
        let ghost pre = views(parts@).subrange(0, i as int);
        let ghost cur = views(parts@).subrange(0, i + 1);
        assert(cur.drop_last() =~= pre);
        assert(cur.last() == parts@[i as int]@);
        let trimmed = trim_chars(parts[i].as_slice(), false);
        if trimmed.len() > 0 {
            push_block(&mut blocks, Block::Paragraph(string_of(trimmed.as_slice())));
            assert(block_views(blocks@) =~= base + paragraph_blocks(cur));
        } else {
            assert(paragraph_blocks(cur) =~= paragraph_blocks(pre));
        }
        i = i + 1;
    }
    assert(views(parts@).subrange(0, i as int) =~= views(parts@));

    push_bullet_section(&mut blocks, "Key points", &notes.key_points);
    push_bullet_section(&mut blocks, "Decisions", &notes.decisions);

    // Action items.
    let ghost before_todo = block_views(blocks@);
    if notes.action_items.len() > 0 {
        push_heading(&mut blocks, "Action items");
        let ghost base2 = block_views(blocks@);
        let mut k: usize = 0;
        while k < notes.action_items.len()
            invariant
                k <= notes.action_items@.len(),
                block_views(blocks@) == base2 + notes.action_items@.subrange(0, k as int).map_values(
                    |i: NoteActionItem| BlockView::Todo(todo_text(i)),
                ),
            decreases notes.action_items.len() - k,
        {
            let t = todo_text_exec(&notes.action_items[k]);
            push_block(&mut blocks, Block::Todo(t));
            assert(notes.action_items@.subrange(0, k + 1).map_values(
                |i: NoteActionItem| BlockView::Todo(todo_text(i)),
            ) =~= notes.action_items@.subrange(0, k as int).map_values(
                |i: NoteActionItem| BlockView::Todo(todo_text(i)),
            ).push(BlockView::Todo(todo_text(notes.action_items@[k as int]))));
            k = k + 1;
        }
        assert(notes.action_items@.subrange(0, k as int) =~= notes.action_items@);
    }
    assert(block_views(blocks@) =~= before_todo + todo_section(notes.action_items@));

    push_bullet_section(&mut blocks, "Open questions", &notes.open_questions);

    // Highlights.
    let ghost before_hl = block_views(blocks@);
    if notes.highlights.len() > 0 {
        push_heading(&mut blocks, "Highlights");
        let ghost base3 = block_views(blocks@);
        let mut k: usize = 0;
        while k < notes.highlights.len()
            invariant
                k <= notes.highlights@.len(),
                block_views(blocks@) == base3 + notes.highlights@.subrange(0, k as int).map_values(
                    |h: Highlight| BlockView::Quote(highlight_text(h)),
                ),
            decreases notes.highlights.len() - k,
        {
            let t = highlight_text_exec(&notes.highlights[k]);
            push_block(&mut blocks, Block::Quote(t));
            assert(notes.highlights@.subrange(0, k + 1).map_values(
                |h: Highlight| BlockView::Quote(highlight_text(h)),
            ) =~= notes.highlights@.subrange(0, k as int).map_values(
                |h: Highlight| BlockView::Quote(highlight_text(h)),
            ).push(BlockView::Quote(highlight_text(notes.highlights@[k as int]))));
            k = k + 1;
        }
        assert(notes.highlights@.subrange(0, k as int) =~= notes.highlights@);
    }
    assert(block_views(blocks@) =~= before_hl + highlight_section(notes.highlights@));

    // Transcript.
    let ghost before_tr = block_views(blocks@);
    if segments.len() > 0 {
        push_heading(&mut blocks, "Transcript");
        let ghost base4 = block_views(blocks@);
        let mut k: usize = 0;
        while k < segments.len()
            invariant
                k <= segments@.len(),
                block_views(blocks@) == base4 + segments@.subrange(0, k as int).map_values(
                    |s: TranscriptSegment| utterance_block(s),
                ),
            decreases segments.len() - k,
        {
            let seg = &segments[k];
            push_block(
                &mut blocks,
                Block::Utterance {
                    speaker: seg.speaker.clone(),
                    stamp: format_ms(seg.start_ms),
                    text: seg.text.clone(),
                },
            );
            assert(segments@.subrange(0, k + 1).map_values(
                |s: TranscriptSegment| utterance_block(s),
            ) =~= segments@.subrange(0, k as int).map_values(
                |s: TranscriptSegment| utterance_block(s),
            ).push(utterance_block(segments@[k as int])));
            k = k + 1;
        }
        assert(segments@.subrange(0, k as int) =~= segments@);
    }
    assert(block_views(blocks@) =~= before_tr + transcript_section(segments@));
    blocks
}

// ── Markdown ───────────────────────────────────────────────────────────────

/// Each line prefixed with `> ` and ended with a newline.
pub open spec fn quoted_lines(ls: Seq<Seq<char>>) -> Seq<char>
    decreases ls.len(),
{
    if ls.len() == 0 {
        Seq::empty()
    } else {
        quoted_lines(ls.drop_last()) + "> "@ + ls.last() + "\n"@
    }
}

/// The Markdown of one block, before the blank line that follows it.
pub open spec fn block_md(b: BlockView) -> Seq<char> {
    match b {
        BlockView::Callout(t) => "> [!summary] TL;DR\n"@ + quoted_lines(lines(t)),
        BlockView::Heading(t) => "## "@ + t + "\n"@,
        BlockView::Paragraph(t) => t + "\n"@,
        BlockView::Bullet(t) => "- "@ + t + "\n"@,
        BlockView::Todo(t) => "- [ ] "@ + t + "\n"@,
        BlockView::Quote(t) => quoted_lines(lines(t)),
        BlockView::Utterance { speaker, stamp, text } => "**"@ + speaker + " ("@ + stamp
            + "):** "@ + text + "\n"@,
    }
}

/// Every block's Markdown followed by a blank line.
pub open spec fn raw_markdown(bs: Seq<BlockView>) -> Seq<char>
    decreases bs.len(),
{
    if bs.len() == 0 {
        Seq::empty()
    } else {
        raw_markdown(bs.drop_last()) + block_md(bs.last()) + "\n"@
    }
}

/// A Markdown list item line.
pub open spec fn is_list_item(l: Seq<char>) -> bool {
    starts_with(l, "- "@)
}

/// Line `i` is an empty line between two list items.
pub open spec fn is_list_gap(ls: Seq<Seq<char>>, i: int) -> bool {
    &&& 0 < i
    &&& i + 1 < ls.len()
    &&& ls[i].len() == 0
    &&& is_list_item(ls[i - 1])
    &&& is_list_item(ls[i + 1])
}

/// The first `n` lines without the gaps between list items.
pub open spec fn kept_lines(ls: Seq<Seq<char>>, n: int) -> Seq<Seq<char>>
    decreases n,
{
    if n <= 0 {
        Seq::empty()
    } else {
        kept_lines(ls, n - 1) + if is_list_gap(ls, n - 1) {
            Seq::empty()
        } else {
            seq![ls[n - 1]]
        }
    }
}

/// The lines of `md` without the blank lines between list items, joined
/// with newlines and ended with one.
pub open spec fn spec_collapse_list_gaps(md: Seq<char>) -> Seq<char> {
    join(kept_lines(lines(md), lines(md).len() as int), "\n"@) + "\n"@
}

pub open spec fn spec_blocks_to_markdown(bs: Seq<BlockView>) -> Seq<char> {
    spec_collapse_list_gaps(raw_markdown(bs))
}

fn push_quoted_lines(out: &mut Vec<char>, text: &str)
    ensures
        final(out)@ == old(out)@ + quoted_lines(lines(text@)),
{
    proof {
        reveal_strlit("\n");
    }
    let tv = chars_of(text);
    let ls = lines_exec(tv.as_slice());
    let mut i: usize = 0;
    while i < ls.len()
        invariant
            i <= ls@.len(),
            views(ls@) == lines(text@),
            out@ == old(out)@ + quoted_lines(views(ls@).subrange(0, i as int)),
        decreases ls.len() - i,
    {
        let ghost pre = views(ls@).subrange(0, i as int);
        let ghost cur = views(ls@).subrange(0, i + 1);
        assert(cur.drop_last() =~= pre);
        assert(cur.last() == ls@[i as int]@);
        proof {
            reveal_strlit("\n");
        }
        push_str(out, "> ");
        push_all(out, ls[i].as_slice());
        out.push('\n');
        assert(out@ =~= old(out)@ + quoted_lines(cur));
        i = i + 1;
    }
    assert(views(ls@).subrange(0, i as int) =~= views(ls@));
}

fn push_block_md(out: &mut Vec<char>, block: &Block)
    ensures
        final(out)@ == old(out)@ + block_md(block@),
{
    proof {
        reveal_strlit("\n");
    }
    match block {
        Block::Callout(text) => {
            push_str(out, "> [!summary] TL;DR\n");
            push_quoted_lines(out, text.as_str());
        },
        Block::Heading(text) => {
            push_str(out, "## ");
            push_str(out, text.as_str());
            out.push('\n');
        },
        Block::Paragraph(text) => {
            push_str(out, text.as_str());
            out.push('\n');
        },
        Block::Bullet(text) => {
            push_str(out, "- ");
            push_str(out, text.as_str());
            out.push('\n');
        },
        Block::Todo(text) => {
            push_str(out, "- [ ] ");
            push_str(out, text.as_str());
            out.push('\n');
        },
        Block::Quote(text) => {
            push_quoted_lines(out, text.as_str());
        },
        Block::Utterance { speaker, stamp, text } => {
            push_str(out, "**");
            push_str(out, speaker.as_str());
            push_str(out, " (");
            push_str(out, stamp.as_str());
            push_str(out, "):** ");
            push_str(out, text.as_str());
            out.push('\n');
        },
    }
    assert(out@ =~= old(out)@ + block_md(block@));
}

fn is_list_item_exec(l: &[char]) -> (b: bool)
    ensures
        b == is_list_item(l@),
{
    let p = ['-', ' '];
    proof {
        reveal_strlit("- ");
    }
    assert(p@ =~= "- "@);
    starts_with_exec(l, &p)
}

fn collapse_chars(md: &[char]) -> (r: Vec<char>)
    ensures
        r@ == spec_collapse_list_gaps(md@),
{
    let ls = lines_exec(md);
    let ghost lv = views(ls@);
    let mut kept: Vec<Vec<char>> = Vec::new();
    let mut i: usize = 0;
    while i < ls.len()
        invariant
            i <= ls@.len(),
            lv == views(ls@),
            lv == lines(md@),
            views(kept@) == kept_lines(lv, i as int),
        decreases ls.len() - i,
    {
        let gap = ls[i].len() == 0 && i > 0 && i + 1 < ls.len() && is_list_item_exec(
            ls[i - 1].as_slice(),
        ) && is_list_item_exec(ls[i + 1].as_slice());
        assert(gap == is_list_gap(lv, i as int));
        if !gap {
            let line = sub_vec(ls[i].as_slice(), 0, ls[i].len());
            assert(line@ =~= lv[i as int]);
            let ghost before = views(kept@);
            kept.push(line);
            assert(views(kept@) =~= before.push(line@));
        }
        assert(views(kept@) =~= kept_lines(lv, i + 1));
        i = i + 1;
    }
    let nl = ['\n'];
    proof {
        reveal_strlit("\n");
    }
    assert(nl@ =~= "\n"@);
    let mut s = join_exec(&kept, &nl);
    s.push('\n');
    assert(s@ =~= spec_collapse_list_gaps(md@));
    s
}

/// Remove the blank line between consecutive list items so they render as
/// one list; everything else keeps its paragraph spacing.
pub fn collapse_list_gaps(md: &str) -> (r: String)
    ensures
        r@ == spec_collapse_list_gaps(md@),
{
    let v = chars_of(md);
    let c = collapse_chars(v.as_slice());
    string_of(c.as_slice())
}

/// Render blocks as Markdown (no frontmatter: the Markdown destination
/// prepends that; Apple Notes converts these same blocks to HTML instead).
pub fn blocks_to_markdown(blocks: &[Block]) -> (r: String)
    ensures
        r@ == spec_blocks_to_markdown(block_views(blocks@)),
{
    proof {
        reveal_strlit("\n");
    }
    let mut out: Vec<char> = Vec::new();
    let mut i: usize = 0;
    while i < blocks.len()
        invariant
            i <= blocks@.len(),
            out@ == raw_markdown(block_views(blocks@).subrange(0, i as int)),
        decreases blocks.len() - i,
    {
        let ghost pre = block_views(blocks@).subrange(0, i as int);
        let ghost cur = block_views(blocks@).subrange(0, i + 1);
        assert(cur.drop_last() =~= pre);
        push_block_md(&mut out, &blocks[i]);
        out.push('\n');
        proof {
            reveal_strlit("\n");
        }
        assert(out@ =~= raw_markdown(cur));
        i = i + 1;
    }
    assert(block_views(blocks@).subrange(0, i as int) =~= block_views(blocks@));
    let c = collapse_chars(out.as_slice());
    string_of(c.as_slice())
}

// ── attendees ──────────────────────────────────────────────────────────────

/// The attendee name a speaker label stands for: trimmed, with each comma
/// first turned into a space where `commas_to_spaces`.
pub open spec fn attendee_name(speaker: Seq<char>, commas_to_spaces: bool) -> Seq<char> {
    spec_trim(
        if commas_to_spaces {
            replace_char(speaker, ',', " "@)
        } else {
            speaker
        },
    )
}

/// `seen` with `name` appended when it is non-empty and not yet in it.
pub open spec fn add_distinct(seen: Seq<Seq<char>>, name: Seq<char>) -> Seq<Seq<char>> {
    if name.len() > 0 && !seen.contains(name) {
        seen.push(name)
    } else {
        seen
    }
}

/// The distinct attendee names of the labelled speakers, in first-seen
/// order; the unlabeled sentinel contributes nothing.
pub open spec fn distinct_names(speakers: Seq<Seq<char>>, commas_to_spaces: bool) -> Seq<
    Seq<char>,
>
    decreases speakers.len(),
{
    if speakers.len() == 0 {
        Seq::empty()
    } else {
        let prev = distinct_names(speakers.drop_last(), commas_to_spaces);
        if speakers.last() == UNLABELED_SPEAKER@ {
            prev
        } else {
            add_distinct(prev, attendee_name(speakers.last(), commas_to_spaces))
        }
    }
}

pub open spec fn speaker_views(segs: Seq<TranscriptSegment>) -> Seq<Seq<char>> {
    segs.map_values(|s: TranscriptSegment| s.speaker@)
}

fn contains_name(seen: &Vec<String>, name: &[char]) -> (b: bool)
    ensures
        b == string_views(seen@).contains(name@),
{
    let mut i: usize = 0;
    while i < seen.len()
        invariant
            i <= seen@.len(),
            forall|k: int| 0 <= k < i ==> seen@[k]@ != name@,
        decreases seen.len() - i,
    {
        let v = chars_of(seen[i].as_str());
        if chars_eq(v.as_slice(), name) {
            assert(string_views(seen@)[i as int] == name@);
            return true;
        }
        i = i + 1;
    }
    assert forall|k: int| 0 <= k < string_views(seen@).len() implies string_views(seen@)[k]
        != name@ by {
        assert(string_views(seen@)[k] == seen@[k]@);
    }
    false
}

/// The distinct attendee names of `segments`, in first-seen order.
pub fn distinct_names_of(segments: &[TranscriptSegment], commas_to_spaces: bool) -> (r: Vec<
    String,
>)
    ensures
        string_views(r@) == distinct_names(speaker_views(segments@), commas_to_spaces),
{
    let mut seen: Vec<String> = Vec::new();
    let sentinel = chars_of(UNLABELED_SPEAKER);
    let space = [' '];
    proof {
        reveal_strlit(" ");
    }
    assert(space@ =~= " "@);
    let mut i: usize = 0;
    while i < segments.len()
        invariant
            i <= segments@.len(),
            sentinel@ == UNLABELED_SPEAKER@,
            space@ == " "@,
            string_views(seen@) == distinct_names(
                speaker_views(segments@).subrange(0, i as int),
                commas_to_spaces,
            ),
        decreases segments.len() - i,
    {
        let ghost pre = speaker_views(segments@).subrange(0, i as int);
        let ghost cur = speaker_views(segments@).subrange(0, i + 1);
        assert(cur.drop_last() =~= pre);
        assert(cur.last() == segments@[i as int].speaker@);
        let sp = chars_of(segments[i].speaker.as_str());
        if !chars_eq(sp.as_slice(), sentinel.as_slice()) {
            let src = if commas_to_spaces {
                replace_char_exec(sp.as_slice(), ',', &space)
            } else {
                sp
            };
            let name = trim_chars(src.as_slice(), false);
            assert(name@ == attendee_name(cur.last(), commas_to_spaces));
            if name.len() > 0 && !contains_name(&seen, name.as_slice()) {
                let ghost before = string_views(seen@);
                seen.push(string_of(name.as_slice()));
                assert(string_views(seen@) =~= before.push(name@));
            }
        }
        i = i + 1;
    }
    assert(speaker_views(segments@).subrange(0, i as int) =~= speaker_views(segments@));
    seen
}

/// Distinct speaker labels in first-seen order, dropping the unlabeled
/// sentinel: the shared attendee list for destination frontmatter/properties.
pub fn distinct_speakers(segments: &[TranscriptSegment]) -> (r: Vec<String>)
    ensures
        string_views(r@) == distinct_names(speaker_views(segments@), false),
{
    distinct_names_of(segments, false)
}

/// What any attendee list built this way holds: every name is non-empty,
/// none occurs twice, each is the name of some labelled speaker, and every
/// labelled speaker with a non-empty name is listed.
pub proof fn lemma_distinct_names(speakers: Seq<Seq<char>>, commas_to_spaces: bool)
    ensures
        forall|i: int|
            0 <= i < distinct_names(speakers, commas_to_spaces).len() ==> #[trigger] distinct_names(
                speakers,
                commas_to_spaces,
            )[i].len() > 0,
        forall|i: int, j: int|
            0 <= i < j < distinct_names(speakers, commas_to_spaces).len() ==> distinct_names(
                speakers,
                commas_to_spaces,
            )[i] != distinct_names(speakers, commas_to_spaces)[j],
        forall|i: int|
            #![trigger distinct_names(speakers, commas_to_spaces)[i]]
            0 <= i < distinct_names(speakers, commas_to_spaces).len() ==> exists|k: int|
                0 <= k < speakers.len() && speakers[k] != UNLABELED_SPEAKER@ && attendee_name(
                    #[trigger] speakers[k],
                    commas_to_spaces,
                ) == distinct_names(speakers, commas_to_spaces)[i],
        forall|k: int|
            0 <= k < speakers.len() && speakers[k] != UNLABELED_SPEAKER@ && attendee_name(
                #[trigger] speakers[k],
                commas_to_spaces,
            ).len() > 0 ==> distinct_names(speakers, commas_to_spaces).contains(
                attendee_name(speakers[k], commas_to_spaces),
            ),
    decreases speakers.len(),
{
    if speakers.len() > 0 {
        let prev_s = speakers.drop_last();
        lemma_distinct_names(prev_s, commas_to_spaces);
        let prev = distinct_names(prev_s, commas_to_spaces);
        let cur = distinct_names(speakers, commas_to_spaces);
        assert forall|i: int| #![trigger cur[i]] 0 <= i < cur.len() implies exists|k: int|
            0 <= k < speakers.len() && speakers[k] != UNLABELED_SPEAKER@ && attendee_name(
                #[trigger] speakers[k],
                commas_to_spaces,
            ) == cur[i] by {
            if i < prev.len() {
                assert(cur[i] == prev[i]);
                let k = choose|k: int|
                    0 <= k < prev_s.len() && prev_s[k] != UNLABELED_SPEAKER@ && attendee_name(
                        #[trigger] prev_s[k],
                        commas_to_spaces,
                    ) == prev[i];
                assert(speakers[k] == prev_s[k]);
            } else {
                assert(speakers[speakers.len() - 1] == speakers.last());
            }
        }
        assert forall|k: int|
            0 <= k < speakers.len() && speakers[k] != UNLABELED_SPEAKER@ && attendee_name(
                #[trigger] speakers[k],
                commas_to_spaces,
            ).len() > 0 implies cur.contains(attendee_name(speakers[k], commas_to_spaces)) by {
            let name = attendee_name(speakers[k], commas_to_spaces);
            if k < prev_s.len() {
                assert(prev_s[k] == speakers[k]);
                assert(prev.contains(name));
                let j = choose|j: int| 0 <= j < prev.len() && prev[j] == name;
                assert(cur[j] == name);
            } else {
                assert(speakers[k] == speakers.last());
                if !prev.contains(name) {
                    assert(cur[prev.len() as int] == name);
                }
            }
        }
    }
}

// ── HTML ───────────────────────────────────────────────────────────────────

/// The HTML text for one character: `&`, `<`, `>` and `"` as entities.
pub open spec fn html_char(c: char) -> Seq<char> {
    if c == '&' {
        "&amp;"@
    } else if c == '<' {
        "&lt;"@
    } else if c == '>' {
        "&gt;"@
    } else if c == '"' {
        "&quot;"@
    } else {
        seq![c]
    }
}

pub open spec fn spec_html_escape(s: Seq<char>) -> Seq<char>
    decreases s.len(),
{
    if s.len() == 0 {
        Seq::empty()
    } else {
        spec_html_escape(s.drop_last()) + html_char(s.last())
    }
}

fn push_html_escaped(out: &mut Vec<char>, s: &str)
    ensures
        final(out)@ == old(out)@ + spec_html_escape(s@),
{
    let v = chars_of(s);
    let mut i: usize = 0;
    while i < v.len()
        invariant
            i <= v@.len(),
            v@ == s@,
            out@ == old(out)@ + spec_html_escape(s@.subrange(0, i as int)),
        decreases v.len() - i,
    {
        let c = v[i];
        assert(s@.subrange(0, i + 1).drop_last() =~= s@.subrange(0, i as int));
        if c == '&' {
            push_str(out, "&amp;");
        } else if c == '<' {
            push_str(out, "&lt;");
        } else if c == '>' {
            push_str(out, "&gt;");
        } else if c == '"' {
            push_str(out, "&quot;");
        } else {
            out.push(c);
        }
        assert(out@ =~= old(out)@ + spec_html_escape(s@.subrange(0, i + 1)));
        i = i + 1;
    }
    assert(s@.subrange(0, i as int) =~= s@);
}

/// Text safe to place in HTML: `&`, `<`, `>` and `"` as entities.
pub fn html_escape(s: &str) -> (r: String)
    ensures
        r@ == spec_html_escape(s@),
{
    let mut out: Vec<char> = Vec::new();
    push_html_escaped(&mut out, s);
    string_of(out.as_slice())
}

/// The HTML of one block, on a line of its own.
pub open spec fn block_html(b: BlockView) -> Seq<char> {
    match b {
        BlockView::Callout(t) => "<div><b>TL;DR</b> "@ + spec_html_escape(t) + "</div>\n"@,
        BlockView::Heading(t) => "<h2>"@ + spec_html_escape(t) + "</h2>\n"@,
        BlockView::Paragraph(t) => "<p>"@ + spec_html_escape(t) + "</p>\n"@,
        BlockView::Bullet(t) => "<ul><li>"@ + spec_html_escape(t) + "</li></ul>\n"@,
        BlockView::Todo(t) => "<ul><li>\u{2610} "@ + spec_html_escape(t) + "</li></ul>\n"@,
        BlockView::Quote(t) => "<blockquote>"@ + spec_html_escape(t) + "</blockquote>\n"@,
        BlockView::Utterance { speaker, stamp, text } => "<p><b>"@ + spec_html_escape(speaker)
            + " ("@ + spec_html_escape(stamp) + "):</b> "@ + spec_html_escape(text) + "</p>\n"@,
    }
}

pub open spec fn spec_blocks_to_html(bs: Seq<BlockView>) -> Seq<char>
    decreases bs.len(),
{
    if bs.len() == 0 {
        Seq::empty()
    } else {
        spec_blocks_to_html(bs.drop_last()) + block_html(bs.last())
    }
}

fn push_block_html(out: &mut Vec<char>, block: &Block)
    ensures
        final(out)@ == old(out)@ + block_html(block@),
{
    match block {
        Block::Callout(t) => {
            push_str(out, "<div><b>TL;DR</b> ");
            push_html_escaped(out, t.as_str());
            push_str(out, "</div>\n");
        },
        Block::Heading(t) => {
            push_str(out, "<h2>");
            push_html_escaped(out, t.as_str());
            push_str(out, "</h2>\n");
        },
        Block::Paragraph(t) => {
            push_str(out, "<p>");
            push_html_escaped(out, t.as_str());
            push_str(out, "</p>\n");
        },
        Block::Bullet(t) => {
            push_str(out, "<ul><li>");
            push_html_escaped(out, t.as_str());
            push_str(out, "</li></ul>\n");
        },
        Block::Todo(t) => {
            push_str(out, "<ul><li>\u{2610} ");
            push_html_escaped(out, t.as_str());
            push_str(out, "</li></ul>\n");
        },
        Block::Quote(t) => {
            push_str(out, "<blockquote>");
            push_html_escaped(out, t.as_str());
            push_str(out, "</blockquote>\n");
        },
        Block::Utterance { speaker, stamp, text } => {
            push_str(out, "<p><b>");
            push_html_escaped(out, speaker.as_str());
            push_str(out, " (");
            push_html_escaped(out, stamp.as_str());
            push_str(out, "):</b> ");
            push_html_escaped(out, text.as_str());
            push_str(out, "</p>\n");
        },
    }
    assert(out@ =~= old(out)@ + block_html(block@));
}

/// Render blocks as the HTML body of a note, one element per block.
pub fn blocks_to_html(blocks: &[Block]) -> (r: String)
    ensures
        r@ == spec_blocks_to_html(block_views(blocks@)),
{
    let mut out: Vec<char> = Vec::new();
    let mut i: usize = 0;
    while i < blocks.len()
        invariant
            i <= blocks@.len(),
            out@ == spec_blocks_to_html(block_views(blocks@).subrange(0, i as int)),
        decreases blocks.len() - i,
    {
        let ghost pre = block_views(blocks@).subrange(0, i as int);
        let ghost cur = block_views(blocks@).subrange(0, i + 1);
        assert(cur.drop_last() =~= pre);
        push_block_html(&mut out, &blocks[i]);
        i = i + 1;
    }
    assert(block_views(blocks@).subrange(0, i as int) =~= block_views(blocks@));
    string_of(out.as_slice())
}

} // verus!
