//! A note card on a canvas, without its placement: either an inline sticky
//! whose text lives on the card, or a card linking to its own `.writee`
//! file; either may be an index card listing workspace files.
use vstd::prelude::*;
use crate::caret::{clamp_caret, clamp_of, NoteBody};
use crate::links::{copy_entries, entries_view, NoteLinks};
use crate::model::{IndexEntry, NoteMode};
use crate::strings::{enc, push_str, views};
use crate::workspace::{resolved_view, ResolvedIndexEntry};

verus! {

/// Both absent, or both present with the same file names.
pub open spec fn same_files(a: Option<Vec<String>>, b: Option<Vec<String>>) -> bool {
    match (a, b) {
        (Some(x), Some(y)) => views(x@) == views(y@),
        (None, None) => true,
        _ => false,
    }
}

/// Both absent, or both present with the same rows.
pub open spec fn same_entries(a: Option<Vec<IndexEntry>>, b: Option<Vec<IndexEntry>>) -> bool {
    match (a, b) {
        (Some(x), Some(y)) => entries_view(x@) == entries_view(y@),
        (None, None) => true,
        _ => false,
    }
}

fn copy_strings(v: &Vec<String>) -> (r: Vec<String>)
    ensures
        views(r@) == views(v@),
{
    let r = v.clone();
    assert(views(r@) =~= views(v@));
    r
}

/// Everything a note card holds except its position and size.
pub struct NoteCard {
    /// Text printed on the card.
    pub title: String,
    /// The linked file; empty for an inline note.
    pub target_file: String,
    /// How the linked file opens.
    pub mode: NoteMode,
    /// `Some` for an inline sticky, holding its text.
    pub inline_content: Option<String>,
    /// The body lists workspace files.
    pub is_index: bool,
    /// Legacy curated file list of an index card.
    pub index_files: Option<Vec<String>>,
    /// Curated entries of an index card.
    pub index_entries: Option<Vec<IndexEntry>>,
    /// Dragging, deleting and converting are refused.
    pub locked: bool,
    /// Caret byte offset into the inline text.
    pub cursor: usize,
}

impl NoteCard {
    pub open spec fn inline(&self) -> bool {
        self.inline_content is Some
    }

    pub open spec fn linked(&self) -> bool {
        !self.inline() && self.target_file@.len() > 0
    }

    /// An empty inline sticky. Stickies carry no title, so the hint is not
    /// used.
    pub fn new_inline(title_hint: String) -> (n: NoteCard)
        ensures
            n.title@.len() == 0,
            n.target_file@.len() == 0,
            n.mode == NoteMode::Markdown,
            n.inline_content matches Some(s) && s@.len() == 0,
            !n.is_index,
            n.index_files is None,
            n.index_entries is None,
            !n.locked,
            n.cursor == 0,
    {
        NoteCard {
            title: String::new(),
            target_file: String::new(),
            mode: NoteMode::Markdown,
            inline_content: Some(String::new()),
            is_index: false,
            index_files: None,
            index_entries: None,
            locked: false,
            cursor: 0,
        }
    }

    /// A card linking to `target_file`.
    pub fn new_linked(target_file: String, title: String, mode: NoteMode) -> (n: NoteCard)
        ensures
            n.title == title,
            n.target_file == target_file,
            n.mode == mode,
            n.inline_content is None,
            !n.is_index,
            n.index_files is None,
            n.index_entries is None,
            !n.locked,
            n.cursor == 0,
    {
        NoteCard {
            title,
            target_file,
            mode,
            inline_content: None,
            is_index: false,
            index_files: None,
            index_entries: None,
            locked: false,
            cursor: 0,
        }
    }

    /// A locked index card showing every workspace file (the workspace
    /// home on the welcome canvas).
    pub fn new_locked_index(title: String) -> (n: NoteCard)
        ensures
            n.title == title,
            n.target_file@.len() == 0,
            n.mode == NoteMode::Canvas,
            n.inline_content is None,
            n.is_index,
            n.index_files is None,
            n.index_entries is None,
            n.locked,
            n.cursor == 0,
    {
        NoteCard {
            title,
            target_file: String::new(),
            mode: NoteMode::Canvas,
            inline_content: None,
            is_index: true,
            index_files: None,
            index_entries: None,
            locked: true,
            cursor: 0,
        }
    }

    /// The index card the index tool drops: a sticky titled "Index" whose
    /// curated list starts empty (rather than showing every file).
    pub fn new_user_index() -> (n: NoteCard)
        ensures
            n.title@ == "Index"@,
            n.target_file@.len() == 0,
            n.mode == NoteMode::Markdown,
            n.inline_content matches Some(s) && s@.len() == 0,
            n.is_index,
            n.index_files is None,
            n.index_entries matches Some(v) && v@.len() == 0,
            !n.locked,
            n.cursor == 0,
    {
        let mut n = NoteCard::new_inline(String::new());
        n.is_index = true;
        n.index_entries = Some(Vec::new());
        n.title = "Index".to_string();
        n
    }

    pub fn is_inline(&self) -> (b: bool)
        ensures
            b == self.inline(),
    {
        self.inline_content.is_some()
    }

    pub fn is_linked(&self) -> (b: bool)
        ensures
            b == self.linked(),
    {
        !self.is_inline() && self.target_file.unicode_len() > 0
    }

    /// Linked and index cards show a title strip; plain stickies do not.
    pub fn has_title_bar(&self) -> (b: bool)
        ensures
            b == (!self.inline() || self.is_index),
    {
        !self.is_inline() || self.is_index
    }

    /// The card's references to other files.
    pub fn links(&self) -> (l: NoteLinks)
        ensures
            l.target_file == self.target_file,
            l.is_inline == self.inline(),
            same_files(l.index_files, self.index_files),
            same_entries(l.index_entries, self.index_entries),
    {
        NoteLinks {
            target_file: self.target_file.clone(),
            is_inline: self.is_inline(),
            index_files: match &self.index_files {
                Some(v) => Some(copy_strings(v)),
                None => None,
            },
            index_entries: match &self.index_entries {
                Some(v) => Some(copy_entries(v)),
                None => None,
            },
        }
    }

    /// The card's text and caret.
    pub fn body(&self) -> (b: NoteBody)
        ensures
            b.inline_content == self.inline_content,
            b.cursor == self.cursor,
    {
        NoteBody { inline_content: self.inline_content.clone(), cursor: self.cursor }
    }

    /// Start typing into the card: a card without inline text becomes an
    /// empty sticky, and the caret is pinned onto a character boundary.
    pub fn begin_inline_edit(&mut self)
        ensures
            old(self).inline_content is Some ==> final(self).inline_content
                == old(self).inline_content,
            old(self).inline_content is None ==> (final(self).inline_content matches Some(s)
                && s@.len() == 0),
            final(self).inline_content matches Some(s) && final(self).cursor == clamp_caret(
                enc(s@),
                old(self).cursor as int,
            ),
            final(self).title == old(self).title,
            final(self).target_file == old(self).target_file,
            final(self).mode == old(self).mode,
            final(self).is_index == old(self).is_index,
            final(self).index_files == old(self).index_files,
            final(self).index_entries == old(self).index_entries,
            final(self).locked == old(self).locked,
    {
        if self.inline_content.is_none() {
            self.inline_content = Some(String::new());
        }
        match &self.inline_content {
            Some(s) => {
                self.cursor = clamp_of(s, self.cursor);
            },
            None => {},
        }
    }

    /// Turn an inline sticky into a card linking to `file_name`; its text
    /// is handed back to become the new file's markdown source. A linked or
    /// locked card is left as it is and `None` comes back.
    pub fn convert_to_linked(&mut self, file_name: String) -> (content: Option<String>)
        ensures
            content is Some <==> old(self).inline() && !old(self).locked,
            content is Some ==> content == old(self).inline_content
                && final(self).target_file == file_name
                && linked_version(*old(self), *final(self), file_name@),
            content is None ==> *final(self) == *old(self),
    {
        if !self.is_inline() || self.locked {
            return None;
        }
        let content = self.inline_content.take();
        self.target_file = file_name;
        self.mode = NoteMode::Markdown;
        self.cursor = 0;
        content
    }

    /// Pull a linked file's markdown `content` into the card, which stops
    /// linking. An inline or locked card is left as it is and `false` comes
    /// back.
    pub fn convert_to_inline(&mut self, content: String) -> (done: bool)
        ensures
            done <==> old(self).linked() && !old(self).locked,
            done ==> final(self).inline_content == Some(content)
                && inline_version(*old(self), *final(self), content@),
            !done ==> *final(self) == *old(self),
    {
        if !self.is_linked() || self.locked {
            return false;
        }
        self.inline_content = Some(content);
        self.target_file = String::new();
        self.cursor = 0;
        true
    }

    /// Flip whether the card lists workspace files; a locked card stays as
    /// it is. Returns whether the card changed.
    pub fn toggle_index(&mut self) -> (changed: bool)
        ensures
            changed == !old(self).locked,
            changed ==> *final(self) == (NoteCard { is_index: !old(self).is_index, ..*old(self) }),
            !changed ==> *final(self) == *old(self),
    {
        if self.locked {
            return false;
        }
        self.is_index = !self.is_index;
        true
    }

    /// Choose how a linked card's file opens. Only a linked card changes;
    /// returns whether it did.
    pub fn set_linked_mode(&mut self, want_markdown: bool) -> (changed: bool)
        ensures
            changed == old(self).linked(),
            changed ==> *final(self) == (NoteCard {
                mode: if want_markdown { NoteMode::Markdown } else { NoteMode::Canvas },
                ..*old(self)
            }),
            !changed ==> *final(self) == *old(self),
    {
        if !self.is_linked() {
            return false;
        }
        self.mode = if want_markdown { NoteMode::Markdown } else { NoteMode::Canvas };
        true
    }
}

/// What a click on a card (without dragging it) does.
#[derive(Debug, Clone, Copy, PartialEq, Eq, Structural)]
pub enum NoteClick {
    /// Open the file of the index row under the pointer.
    IndexRow,
    /// Open the linked file.
    OpenTarget,
    /// Start typing into the sticky.
    EditBody,
    /// Nothing happens.
    Nothing,
}

impl NoteCard {
    /// An index card opens the row clicked, then a linked card its file,
    /// then a sticky starts editing.
    pub fn click_action(&self) -> (c: NoteClick)
        ensures
            c == if self.is_index {
                NoteClick::IndexRow
            } else if self.linked() {
                NoteClick::OpenTarget
            } else if self.inline() {
                NoteClick::EditBody
            } else {
                NoteClick::Nothing
            },
    {
        if self.is_index {
            NoteClick::IndexRow
        } else if self.is_linked() {
            NoteClick::OpenTarget
        } else if self.is_inline() {
            NoteClick::EditBody
        } else {
            NoteClick::Nothing
        }
    }
}

/// What pressing the note or index tool on the canvas does.
#[derive(Debug, Clone, Copy, PartialEq, Eq, Structural)]
pub enum NoteToolPress {
    /// Start typing into the sticky under the pointer.
    EditBody,
    /// Open the index editor of the index card under the pointer.
    EditIndex,
    /// Treat it as a click on the card under the pointer.
    ClickCard,
    /// Drop a new card there (a sticky, or an index card) and start on it.
    DropNew,
}

/// The note tool on a card: a sticky starts editing, another card is
/// clicked; on empty canvas a new sticky is dropped.
pub fn note_tool_press(hit: Option<&NoteCard>) -> (p: NoteToolPress)
    ensures
        p == match hit {
            Some(n) => if n.inline() { NoteToolPress::EditBody } else { NoteToolPress::ClickCard },
            None => NoteToolPress::DropNew,
        },
{
    match hit {
        Some(n) => if n.is_inline() { NoteToolPress::EditBody } else { NoteToolPress::ClickCard },
        None => NoteToolPress::DropNew,
    }
}

/// The index tool on a card: an index card opens its editor, another card
/// is clicked; on empty canvas a new index card is dropped.
pub fn index_tool_press(hit: Option<&NoteCard>) -> (p: NoteToolPress)
    ensures
        p == match hit {
            Some(n) => if n.is_index { NoteToolPress::EditIndex } else { NoteToolPress::ClickCard },
            None => NoteToolPress::DropNew,
        },
{
    match hit {
        Some(n) => if n.is_index { NoteToolPress::EditIndex } else { NoteToolPress::ClickCard },
        None => NoteToolPress::DropNew,
    }
}

/// The file an index card opens when its row `idx` is clicked: only a file
/// row opens anything.
pub fn index_row_target(rows: &Vec<ResolvedIndexEntry>, idx: usize) -> (r: Option<String>)
    ensures
        r is Some <==> idx < rows@.len() && resolved_view(rows@[idx as int]).0,
        r is Some ==> r->0@ == resolved_view(rows@[idx as int]).1,
{
    if idx < rows.len() {
        match &rows[idx] {
            ResolvedIndexEntry::File { path, .. } => Some(path.clone()),
            ResolvedIndexEntry::Heading { .. } => None,
        }
    } else {
        None
    }
}

/// The markdown source a linked file starts with when it first switches to
/// markdown: a level-one heading with the card's title and a blank line.
pub fn initial_markdown_source(title: &str) -> (s: String)
    ensures
        s@ == "# "@ + title@ + "\n\n"@,
{
    let mut s = String::new();
    push_str(&mut s, "# ");
    push_str(&mut s, title);
    push_str(&mut s, "\n\n");
    s
}

/// `b` is sticky `a` turned into a card linking to `file_name`.
pub open spec fn linked_version(a: NoteCard, b: NoteCard, file_name: Seq<char>) -> bool {
    &&& b.inline_content is None
    &&& b.target_file@ == file_name
    &&& b.mode == NoteMode::Markdown
    &&& b.cursor == 0
    &&& b.title == a.title
    &&& b.is_index == a.is_index
    &&& b.index_files == a.index_files
    &&& b.index_entries == a.index_entries
    &&& b.locked == a.locked
}

/// `b` is linked card `a` holding `content` inline instead.
pub open spec fn inline_version(a: NoteCard, b: NoteCard, content: Seq<char>) -> bool {
    &&& b.inline_content matches Some(s) && s@ == content
    &&& b.target_file@.len() == 0
    &&& b.cursor == 0
    &&& b.title == a.title
    &&& b.mode == a.mode
    &&& b.is_index == a.is_index
    &&& b.index_files == a.index_files
    &&& b.index_entries == a.index_entries
    &&& b.locked == a.locked
}

/// Turning an unlocked sticky into a linked card (under a non-empty file
/// name) gives a card that may be turned back, and pulling the sticky's
/// text back in restores a sticky with that text, title, index flags and
/// lock.
pub proof fn law_link_then_inline_restores_text(a: NoteCard, b: NoteCard, c: NoteCard, file_name: Seq<char>)
    requires
        a.inline(),
        !a.locked,
        file_name.len() > 0,
        linked_version(a, b, file_name),
        inline_version(b, c, a.inline_content->0@),
    ensures
        b.linked(),
        !b.locked,
        c.inline(),
        c.inline_content->0@ == a.inline_content->0@,
        c.title == a.title,
        c.is_index == a.is_index,
        c.index_files == a.index_files,
        c.index_entries == a.index_entries,
        c.locked == a.locked,
        c.cursor == 0,
{
}

} // verus!
