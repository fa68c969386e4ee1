//! Markdown: the line shortcuts that style inline note bodies, the page
//! editor's pending edits, and the per-file markdown export.
use vstd::prelude::*;
use crate::document::{first_index_of, has_id, Document, ObjectId};
use crate::caret::{clamp_caret, clamp_of, NoteBody, TextBuffer};
use crate::strings::{chars_of, enc, push_char, push_str, string_from_chars, trim_end, trimmed_end};

verus! {

/// Legacy document meta key of a page's markdown source (still read).
pub const META_KEY_MARKDOWN_SOURCE: &'static str = "markdown_source";

/// How a line of a note body is shown.
#[derive(Debug, Clone, Copy, PartialEq, Eq, Structural)]
pub enum LineKind {
    Heading1,
    Heading2,
    Heading3,
    Checked,
    Unchecked,
    Bullet,
    Plain,
}

/// Display size of a line of this kind, in tenths of a point: body text is
/// 16 pt, headings 1.15, 1.3 and 1.55 times that.
pub open spec fn size_tenths(k: LineKind) -> u32 {
    match k {
        LineKind::Heading1 => 248,
        LineKind::Heading2 => 208,
        LineKind::Heading3 => 184,
        _ => 160,
    }
}

impl LineKind {
    pub fn font_size_tenths(self) -> (t: u32)
        ensures
            t == size_tenths(self),
    {
        match self {
            LineKind::Heading1 => 248,
            LineKind::Heading2 => 208,
            LineKind::Heading3 => 184,
            _ => 160,
        }
    }
}

/// A line ready to draw: its text after the shortcut and its kind.
#[derive(Debug, Clone)]
pub struct StyledLine {
    pub text: String,
    pub kind: LineKind,
}

/// `s` without the prefix `p`, if it starts with it.
pub open spec fn strip_prefix(s: Seq<char>, p: Seq<char>) -> Option<Seq<char>> {
    if s.len() >= p.len() && s.take(p.len() as int) == p {
        Some(s.skip(p.len() as int))
    } else {
        None
    }
}

pub open spec fn checked_glyph() -> Seq<char> {
    seq!['\u{2611}', ' ', ' ']
}

pub open spec fn unchecked_glyph() -> Seq<char> {
    seq!['\u{2610}', ' ', ' ']
}

pub open spec fn bullet_glyph() -> Seq<char> {
    seq!['\u{2022}', ' ', ' ']
}

/// The shortcut a line starts with decides its kind: `### `, `## `, `# `
/// headings; `[x] ` or `[X] ` a ticked box; `[ ] ` or `[] ` an empty box;
/// `- ` or `* ` a bullet. Headings drop their marker; boxes and bullets
/// get a glyph in its place.
pub open spec fn style_line(line: Seq<char>) -> (LineKind, Seq<char>) {
    if let Some(r) = strip_prefix(line, seq!['#', '#', '#', ' ']) {
        (LineKind::Heading3, r)
    } else if let Some(r) = strip_prefix(line, seq!['#', '#', ' ']) {
        (LineKind::Heading2, r)
    } else if let Some(r) = strip_prefix(line, seq!['#', ' ']) {
        (LineKind::Heading1, r)
    } else if let Some(r) = strip_prefix(line, seq!['[', 'x', ']', ' ']) {
        (LineKind::Checked, checked_glyph() + r)
    } else if let Some(r) = strip_prefix(line, seq!['[', 'X', ']', ' ']) {
        (LineKind::Checked, checked_glyph() + r)
    } else if let Some(r) = strip_prefix(line, seq!['[', ' ', ']', ' ']) {
        (LineKind::Unchecked, unchecked_glyph() + r)
    } else if let Some(r) = strip_prefix(line, seq!['[', ']', ' ']) {
        (LineKind::Unchecked, unchecked_glyph() + r)
    } else if let Some(r) = strip_prefix(line, seq!['-', ' ']) {
        (LineKind::Bullet, bullet_glyph() + r)
    } else if let Some(r) = strip_prefix(line, seq!['*', ' ']) {
        (LineKind::Bullet, bullet_glyph() + r)
    } else {
        (LineKind::Plain, line)
    }
}

fn strip_prefix_chars(s: &Vec<char>, p: &Vec<char>) -> (r: Option<Vec<char>>)
    ensures
        match r {
            Some(v) => strip_prefix(s@, p@) == Some(v@),
            None => strip_prefix(s@, p@) is None,
        },
{
    if s.len() < p.len() {
        return None;
    }
    let mut i: usize = 0;
    while i < p.len()
        invariant
            p@.len() <= s@.len(),
            i <= p@.len(),
            forall|k: int| 0 <= k < i ==> s@[k] == p@[k],
        decreases p@.len() - i,
    {
        if s[i] != p[i] {
            assert(s@.take(p@.len() as int)[i as int] != p@[i as int]);
            return None;
        }
        i = i + 1;
    }
    assert(s@.take(p@.len() as int) =~= p@);
    let mut out: Vec<char> = Vec::new();
    let mut j: usize = p.len();
    while j < s.len()
        invariant
            p@.len() <= j <= s@.len(),
            out@ == s@.subrange(p@.len() as int, j as int),
        decreases s@.len() - j,
    {
        out.push(s[j]);
        proof {
            assert(s@.subrange(p@.len() as int, j as int).push(s@[j as int]) =~= s@.subrange(
                p@.len() as int,
                j + 1,
            ));
        }
        j = j + 1;
    }
    assert(out@ =~= s@.skip(p@.len() as int));
    Some(out)
}

fn glyph_then(g: char, rest: &Vec<char>) -> (r: String)
    ensures
        r@ == seq![g, ' ', ' '] + rest@,
{
    let mut v: Vec<char> = Vec::new();
    v.push(g);
    v.push(' ');
    v.push(' ');
    let mut i: usize = 0;
    while i < rest.len()
        invariant
            i <= rest@.len(),
            v@ == seq![g, ' ', ' '] + rest@.take(i as int),
        decreases rest@.len() - i,
    {
        v.push(rest[i]);
        proof {
            assert(rest@.take(i as int).push(rest@[i as int]) =~= rest@.take(i + 1));
            assert(v@ =~= seq![g, ' ', ' '] + rest@.take(i + 1));
        }
        i = i + 1;
    }
    assert(rest@.take(rest@.len() as int) =~= rest@);
    string_from_chars(&v)
}

/// Applies a line's markdown shortcut.
pub fn transform_line(line: &str) -> (r: StyledLine)
    ensures
        (r.kind, r.text@) == style_line(line@),
{
    let s = chars_of(line);
    let h3 = vec!['#', '#', '#', ' '];
    let h2 = vec!['#', '#', ' '];
    let h1 = vec!['#', ' '];
    let cx = vec!['[', 'x', ']', ' '];
    let cxu = vec!['[', 'X', ']', ' '];
    let cb = vec!['[', ' ', ']', ' '];
    let cb2 = vec!['[', ']', ' '];
    let dash = vec!['-', ' '];
    let star = vec!['*', ' '];
    proof {
        assert(h3@ =~= seq!['#', '#', '#', ' ']);
        assert(h2@ =~= seq!['#', '#', ' ']);
        assert(h1@ =~= seq!['#', ' ']);
        assert(cx@ =~= seq!['[', 'x', ']', ' ']);
        assert(cxu@ =~= seq!['[', 'X', ']', ' ']);
        assert(cb@ =~= seq!['[', ' ', ']', ' ']);
        assert(cb2@ =~= seq!['[', ']', ' ']);
        assert(dash@ =~= seq!['-', ' ']);
        assert(star@ =~= seq!['*', ' ']);
    }
    if let Some(r) = strip_prefix_chars(&s, &h3) {
        return StyledLine { text: string_from_chars(&r), kind: LineKind::Heading3 };
    }
    if let Some(r) = strip_prefix_chars(&s, &h2) {
        return StyledLine { text: string_from_chars(&r), kind: LineKind::Heading2 };
    }
    if let Some(r) = strip_prefix_chars(&s, &h1) {
        return StyledLine { text: string_from_chars(&r), kind: LineKind::Heading1 };
    }
    if let Some(r) = strip_prefix_chars(&s, &cx) {
        return StyledLine { text: glyph_then('\u{2611}', &r), kind: LineKind::Checked };
    }
    if let Some(r) = strip_prefix_chars(&s, &cxu) {
        return StyledLine { text: glyph_then('\u{2611}', &r), kind: LineKind::Checked };
    }
    if let Some(r) = strip_prefix_chars(&s, &cb) {
        return StyledLine { text: glyph_then('\u{2610}', &r), kind: LineKind::Unchecked };
    }
    if let Some(r) = strip_prefix_chars(&s, &cb2) {
        return StyledLine { text: glyph_then('\u{2610}', &r), kind: LineKind::Unchecked };
    }
    if let Some(r) = strip_prefix_chars(&s, &dash) {
        return StyledLine { text: glyph_then('\u{2022}', &r), kind: LineKind::Bullet };
    }
    if let Some(r) = strip_prefix_chars(&s, &star) {
        return StyledLine { text: glyph_then('\u{2022}', &r), kind: LineKind::Bullet };
    }
    StyledLine { text: line.to_owned(), kind: LineKind::Plain }
}

/// The pieces of `s` between occurrences of `c` (one more than there are
/// occurrences).
pub open spec fn split_on(s: Seq<char>, c: char) -> Seq<Seq<char>>
    decreases s.len(),
{
    if s.len() == 0 {
        seq![Seq::empty()]
    } else {
        let rest = split_on(s.drop_first(), c);
        if s[0] == c {
            seq![Seq::empty()] + rest
        } else {
            rest.update(0, seq![s[0]] + rest[0])
        }
    }
}

proof fn lemma_split_nonempty(s: Seq<char>, c: char)
    ensures
        split_on(s, c).len() >= 1,
    decreases s.len(),
{
    if s.len() > 0 {
        lemma_split_nonempty(s.drop_first(), c);
    }
}

/// `parts` with `cur` put in front of its first part.
pub open spec fn prepend_first(cur: Seq<char>, parts: Seq<Seq<char>>) -> Seq<Seq<char>> {
    parts.update(0, cur + parts[0])
}

/// The styled lines of a note body: split at newlines, trailing whitespace
/// dropped, each line's shortcut applied.
pub open spec fn styled_lines(source: Seq<char>) -> Seq<(LineKind, Seq<char>)> {
    split_on(source, '\n').map_values(|l: Seq<char>| style_line(trimmed_end(l)))
}

fn finish_line(cur: &Vec<char>) -> (r: StyledLine)
    ensures
        (r.kind, r.text@) == style_line(trimmed_end(cur@)),
{
    let s = string_from_chars(cur);
    transform_line(trim_end(s.as_str()))
}

/// Styles every line of a note body.
pub fn render_lines(source: &str) -> (r: Vec<StyledLine>)
    ensures
        r@.len() == styled_lines(source@).len(),
        forall|i: int| 0 <= i < r@.len() ==> (#[trigger] r@[i].kind, r@[i].text@) == styled_lines(source@)[i],
{
    let s = chars_of(source);
    let mut out: Vec<StyledLine> = Vec::new();
    let mut cur: Vec<char> = Vec::new();
    let ghost mut done: Seq<Seq<char>> = Seq::empty();
    let mut i: usize = 0;
    proof {
        lemma_split_nonempty(s@, '\n');
        assert(s@.skip(0) =~= s@);
        assert(prepend_first(cur@, split_on(s@, '\n')) =~= split_on(s@, '\n'));
    }
    while i < s.len()
        invariant
            s@ == source@,
            i <= s@.len(),
            split_on(s@, '\n') == done + prepend_first(cur@, split_on(s@.skip(i as int), '\n')),
            out@.len() == done.len(),
            forall|k: int| 0 <= k < out@.len() ==> (#[trigger] out@[k].kind, out@[k].text@) == style_line(trimmed_end(done[k])),
        decreases s@.len() - i,
    {
        let ch = s[i];
        let ghost t = s@.skip(i as int);
        proof {
            assert(t.drop_first() =~= s@.skip(i + 1));
            lemma_split_nonempty(s@.skip(i + 1), '\n');
        }
        if ch == '\n' {
            let line = finish_line(&cur);
            out.push(line);
            proof {
                let rest = split_on(s@.skip(i + 1), '\n');
                assert(split_on(t, '\n') == seq![Seq::<char>::empty()] + rest);
                assert(prepend_first(cur@, seq![Seq::<char>::empty()] + rest) =~= seq![cur@] + prepend_first(Seq::empty(), rest));
                assert(done + (seq![cur@] + prepend_first(Seq::<char>::empty(), rest)) =~= done.push(cur@) + prepend_first(Seq::empty(), rest));
                done = done.push(cur@);
            }
            cur = Vec::new();
        } else {
            proof {
                let rest = split_on(s@.skip(i + 1), '\n');
                assert(split_on(t, '\n') == rest.update(0, seq![ch] + rest[0]));
                assert(cur@ + (seq![ch] + rest[0]) =~= cur@.push(ch) + rest[0]);
                assert(prepend_first(cur@, rest.update(0, seq![ch] + rest[0])) =~= prepend_first(cur@.push(ch), rest));
            }
            cur.push(ch);
        }
        i = i + 1;
    }
    let line = finish_line(&cur);
    out.push(line);
    proof {
        assert(s@.skip(i as int) =~= Seq::<char>::empty());
        assert(prepend_first(cur@, seq![Seq::<char>::empty()]) =~= seq![cur@]);
        done = done.push(cur@);
        assert(split_on(s@, '\n') =~= done);
    }
    out
}

/// The markdown block of a note in an export. A linked note (no inline
/// text, a target file) becomes a reference `[<title>](<target>)`, its
/// title the link text. Any other note is `### <title>` when it has a
/// title, then its inline text.
pub open spec fn note_block_text(title: Seq<char>, inline: Option<Seq<char>>, target: Seq<char>) -> Seq<char> {
    let head = if title.len() > 0 {
        seq!['#', '#', '#', ' '] + title + seq!['\n']
    } else {
        Seq::empty()
    };
    match inline {
        Some(t) => head + t,
        None => if target.len() > 0 {
            seq!['['] + title + seq![']', '('] + target + seq![')']
        } else {
            head
        },
    }
}

/// A note's export block (empty when the note has nothing to show).
pub fn note_block(title: &str, inline: Option<&str>, target: &str) -> (r: String)
    ensures
        r@ == note_block_text(title@, match inline {
            Some(t) => Some(t@),
            None => None,
        }, target@),
{
    let mut body = String::new();
    if inline.is_none() && target.unicode_len() > 0 {
        push_char(&mut body, '[');
        push_str(&mut body, title);
        push_str(&mut body, "](");
        push_str(&mut body, target);
        push_char(&mut body, ')');
        proof {
            reveal_strlit("](");
            assert(body@ =~= seq!['['] + title@ + seq![']', '('] + target@ + seq![')']);
        }
        return body;
    }
    if title.unicode_len() > 0 {
        push_str(&mut body, "### ");
        push_str(&mut body, title);
        push_char(&mut body, '\n');
    }
    proof {
        reveal_strlit("### ");
        if title@.len() > 0 {
            assert(body@ =~= seq!['#', '#', '#', ' '] + title@ + seq!['\n']);
        } else {
            assert(body@ =~= Seq::<char>::empty());
        }
    }
    match inline {
        Some(t) => {
            push_str(&mut body, t);
        },
        None => {},
    }
    body
}

/// One block as it appears in the export: its text, a newline unless it
/// already ends with one, and a blank line.
pub open spec fn export_block(b: Seq<char>) -> Seq<char> {
    if b.len() > 0 && b.last() == '\n' {
        b + seq!['\n']
    } else {
        b + seq!['\n', '\n']
    }
}

/// The export of a page: `# <title>` and a blank line when it has a title,
/// then each block in reading order.
pub open spec fn export_text(title: Seq<char>, blocks: Seq<Seq<char>>) -> Seq<char>
    decreases blocks.len(),
{
    if blocks.len() == 0 {
        if title.len() > 0 {
            seq!['#', ' '] + title + seq!['\n', '\n']
        } else {
            Seq::empty()
        }
    } else {
        export_text(title, blocks.drop_last()) + export_block(blocks.last())
    }
}

/// The markdown export of a page whose non-empty text blocks are given in
/// reading order (top to bottom, then left to right).
pub fn render_markdown(title: &str, blocks: &Vec<String>) -> (r: String)
    ensures
        r@ == export_text(title@, crate::strings::views(blocks@)),
{
    let mut out = String::new();
    if title.unicode_len() > 0 {
        push_str(&mut out, "# ");
        push_str(&mut out, title);
        push_str(&mut out, "\n\n");
    }
    proof {
        reveal_strlit("# ");
        reveal_strlit("\n\n");
        assert(crate::strings::views(blocks@.take(0)) =~= Seq::<Seq<char>>::empty());
        if title@.len() > 0 {
            assert(out@ =~= seq!['#', ' '] + title@ + seq!['\n', '\n']);
        } else {
            assert(out@ =~= Seq::<char>::empty());
        }
    }
    let mut i: usize = 0;
    while i < blocks.len()
        invariant
            i <= blocks@.len(),
            out@ == export_text(title@, crate::strings::views(blocks@.take(i as int))),
        decreases blocks@.len() - i,
    {
        let b = blocks[i].as_str();
        let ghost before = out@;
        let n = b.unicode_len();
        push_str(&mut out, b);
        if n == 0 || b.get_char(n - 1) != '\n' {
            push_char(&mut out, '\n');
        }
        push_char(&mut out, '\n');
        proof {
            let vs = crate::strings::views(blocks@.take(i + 1));
            assert(vs.drop_last() =~= crate::strings::views(blocks@.take(i as int)));
            assert(vs.last() == b@);
            assert(out@ =~= before + export_block(b@));
        }
        i = i + 1;
    }
    proof {
        assert(blocks@.take(blocks@.len() as int) =~= blocks@);
    }
    out
}

/// Which kind of block a page-editor edit targets.
#[derive(Debug, Clone, Copy, PartialEq, Eq, Structural)]
pub enum BlockKind {
    TextBox,
    InlineNote,
}

/// The page editor's state between frames: edits to flush into the
/// document, and whether a new block was asked for.
#[derive(Debug)]
pub struct MarkdownState {
    /// Edits made since the last flush, oldest first.
    pub pending_edits: Vec<(ObjectId, BlockKind, String)>,
    pub append_requested: bool,
}

impl MarkdownState {
    /// Whether a new block was asked for.
    pub open spec fn append_flag(&self) -> bool {
        self.append_requested
    }

    pub open spec fn pending(&self) -> Seq<(ObjectId, BlockKind, Seq<char>)> {
        self.pending_edits@.map_values(|e: (ObjectId, BlockKind, String)| (e.0, e.1, e.2@))
    }

    /// A fresh editor state; the legacy markdown source is not kept.
    pub fn new(_seed_source: String) -> (s: MarkdownState)
        ensures
            s.pending().len() == 0,
            !s.append_flag(),
            !s.append_requested,
    {
        let s = MarkdownState { pending_edits: Vec::new(), append_requested: false };
        assert(s.pending() =~= Seq::empty());
        s
    }

    /// Records an edit of block `id` to `content`.
    pub fn record_edit(&mut self, id: ObjectId, kind: BlockKind, content: String)
        ensures
            final(self).pending() == old(self).pending().push((id, kind, content@)),
            final(self).append_flag() == old(self).append_flag(),
            final(self).append_requested == old(self).append_requested,
    {
        let ghost c = content@;
        self.pending_edits.push((id, kind, content));
        assert(self.pending() =~= old(self).pending().push((id, kind, c)));
    }

    /// Hands out the pending edits in the order they were made, and forgets them.
    pub fn take_pending(&mut self) -> (r: Vec<(ObjectId, BlockKind, String)>)
        ensures
            r@.map_values(|e: (ObjectId, BlockKind, String)| (e.0, e.1, e.2@)) == old(self).pending(),
            final(self).pending().len() == 0,
            final(self).append_flag() == old(self).append_flag(),
            final(self).append_requested == old(self).append_requested,
    {
        let mut r: Vec<(ObjectId, BlockKind, String)> = Vec::new();
        std::mem::swap(&mut r, &mut self.pending_edits);
        assert(self.pending() =~= Seq::empty());
        r
    }
}

/// A document object as the page editor sees it: a text box's text and
/// caret, a note's body and caret, or anything else.
pub enum PageBlock {
    Text(TextBuffer),
    Note(NoteBody),
    Other,
}

/// Whether an edit of `kind` to object `id` lands: the object exists and
/// is of the edited kind.
pub open spec fn edit_lands(e: Seq<(ObjectId, PageBlock)>, id: ObjectId, kind: BlockKind) -> bool {
    has_id(e, id) && match (kind, e[first_index_of(e, id)].1) {
        (BlockKind::TextBox, PageBlock::Text(_)) => true,
        (BlockKind::InlineNote, PageBlock::Note(_)) => true,
        _ => false,
    }
}

/// The objects after one edit: a text box gets the text and its caret is
/// pinned into it; a note gets the text as its inline body, caret pinned
/// likewise; an edit whose object is missing or of the other kind changes
/// nothing.
pub open spec fn edited(e: Seq<(ObjectId, PageBlock)>, edit: (ObjectId, BlockKind, String)) -> Seq<(ObjectId, PageBlock)> {
    let (id, kind, text) = edit;
    if edit_lands(e, id, kind) {
        let k = first_index_of(e, id);
        match e[k].1 {
            PageBlock::Text(b) => e.update(k, (id, PageBlock::Text(TextBuffer {
                content: text,
                cursor: clamp_caret(enc(text@), b.cursor as int) as usize,
            }))),
            PageBlock::Note(b) => e.update(k, (id, PageBlock::Note(NoteBody {
                inline_content: Some(text),
                cursor: clamp_caret(enc(text@), b.cursor as int) as usize,
            }))),
            PageBlock::Other => e,
        }
    } else {
        e
    }
}

/// The objects after the edits, applied in order.
pub open spec fn all_edited(e: Seq<(ObjectId, PageBlock)>, edits: Seq<(ObjectId, BlockKind, String)>) -> Seq<(ObjectId, PageBlock)>
    decreases edits.len(),
{
    if edits.len() == 0 {
        e
    } else {
        edited(all_edited(e, edits.drop_last()), edits.last())
    }
}

/// The ids of the edits that land, in order.
pub open spec fn landed_ids(e: Seq<(ObjectId, PageBlock)>, edits: Seq<(ObjectId, BlockKind, String)>) -> Seq<ObjectId>
    decreases edits.len(),
{
    if edits.len() == 0 {
        Seq::empty()
    } else {
        let prev = all_edited(e, edits.drop_last());
        let rest = landed_ids(e, edits.drop_last());
        if edit_lands(prev, edits.last().0, edits.last().1) {
            rest.push(edits.last().0)
        } else {
            rest
        }
    }
}

/// Writes the page editor's taken edits into the document, in the order
/// they were made. Returns the ids of the objects written (to store).
pub fn apply_page_edits(doc: &mut Document<PageBlock>, edits: &Vec<(ObjectId, BlockKind, String)>) -> (written: Vec<ObjectId>)
    ensures
        final(doc).entries() == all_edited(old(doc).entries(), edits@),
        written@ == landed_ids(old(doc).entries(), edits@),
        final(doc).last_id() == old(doc).last_id(),
{
    let ghost e0 = doc.entries();
    let mut written: Vec<ObjectId> = Vec::new();
    let mut i: usize = 0;
    while i < edits.len()
        invariant
            i <= edits@.len(),
            doc.entries() == all_edited(e0, edits@.take(i as int)),
            written@ == landed_ids(e0, edits@.take(i as int)),
            doc.last_id() == old(doc).last_id(),
            e0 == old(doc).entries(),
        decreases edits@.len() - i,
    {
        proof {
            assert(edits@.take(i + 1).drop_last() =~= edits@.take(i as int));
            assert(edits@.take(i + 1).last() == edits@[i as int]);
        }
        let id = edits[i].0;
        let kind = edits[i].1;
        let text = edits[i].2.clone();
        let ghost before = doc.entries();
        let next: Option<PageBlock> = match doc.get(id) {
            Some(b) => match (kind, b) {
                (BlockKind::TextBox, PageBlock::Text(tb)) => {
                    let c = clamp_of(&text, tb.cursor);
                    Some(PageBlock::Text(TextBuffer { content: text, cursor: c }))
                },
                (BlockKind::InlineNote, PageBlock::Note(nb)) => {
                    let c = clamp_of(&text, nb.cursor);
                    Some(PageBlock::Note(NoteBody { inline_content: Some(text), cursor: c }))
                },
                _ => None,
            },
            None => None,
        };
        match next {
            Some(n) => {
                match doc.get_mut(id) {
                    Some(b) => {
                        *b = n;
                    },
                    None => {},
                }
                written.push(id);
            },
            None => {},
        }
        proof {
            assert(doc.entries() =~= edited(before, edits@[i as int]));
        }
        i = i + 1;
    }
    proof {
        assert(edits@.take(edits@.len() as int) =~= edits@);
    }
    written
}

/// What the page editor asks of the app after a frame.
#[derive(Debug, Clone, Copy, PartialEq, Eq, Structural)]
pub struct MdActions {
    pub source_changed: bool,
    pub leave_markdown: bool,
}

impl Default for MdActions {
    fn default() -> (a: MdActions)
        ensures
            !a.source_changed,
            !a.leave_markdown,
    {
        MdActions { source_changed: false, leave_markdown: false }
    }
}

/// How many times `c` occurs in `s`.
pub open spec fn occurrences(s: Seq<char>, c: char) -> nat
    decreases s.len(),
{
    if s.len() == 0 {
        0
    } else {
        occurrences(s.drop_first(), c) + if s[0] == c { 1nat } else { 0nat }
    }
}

/// A note body shows one line per newline, plus one.
pub proof fn law_one_line_per_newline(source: Seq<char>)
    ensures
        styled_lines(source).len() == occurrences(source, '\n') + 1,
    decreases source.len(),
{
    lemma_split_len(source, '\n');
}

proof fn lemma_split_len(s: Seq<char>, c: char)
    ensures
        split_on(s, c).len() == occurrences(s, c) + 1,
    decreases s.len(),
{
    if s.len() > 0 {
        lemma_split_len(s.drop_first(), c);
        lemma_split_nonempty(s.drop_first(), c);
    }
}

} // verus!
