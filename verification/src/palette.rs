//! Command palette — the Ctrl/Cmd-K modal.
//!
//! Three result sections, all filtered by the same query: actions (fuzzy
//! match on the label), files (fuzzy match on the file name) and content
//! hits (substring search, only once the query has two bytes or more).
use vstd::prelude::*;
use crate::search::Hit;
use crate::strings::{chars_of, lowercase, to_lowercase, trim, trimmed};

verus! {

/// Open/closed state of the palette and its query.
#[derive(Debug)]
pub struct PaletteState {
    pub open: bool,
    pub query: String,
    /// Index of the focused row across the combined result list.
    pub focus: usize,
    /// True once the text field has been focused for the current session.
    pub focused: bool,
}

impl PaletteState {
    /// A closed palette with an empty query.
    pub fn new() -> (s: PaletteState)
        ensures
            !s.open,
            s.query@ == Seq::<char>::empty(),
            s.focus == 0,
            !s.focused,
    {
        PaletteState { open: false, query: String::new(), focus: 0, focused: false }
    }

    /// Open a closed palette with a fresh query, or close an open one.
    pub fn toggle(&mut self)
        ensures
            final(self).open == !old(self).open,
            final(self).open ==> final(self).query@ == Seq::<char>::empty() && final(self).focus
                == 0 && !final(self).focused,
            !final(self).open ==> final(self).query@ == old(self).query@ && final(self).focus
                == old(self).focus && final(self).focused == old(self).focused,
    {
        self.open = !self.open;
        if self.open {
            self.query = String::new();
            self.focus = 0;
            self.focused = false;
        }
    }

    /// Close the palette and reset it.
    pub fn close(&mut self)
        ensures
            !final(self).open,
            final(self).query@ == Seq::<char>::empty(),
            final(self).focus == 0,
            !final(self).focused,
    {
        self.open = false;
        self.query = String::new();
        self.focus = 0;
        self.focused = false;
    }
}

/// Static palette commands.
#[derive(Debug, Clone, Copy, PartialEq, Eq, Structural)]
pub enum PaletteAction {
    NewWhiteboard,
    FitToContent,
    ToggleMarkdownMode,
    ToggleTheme,
    ExportMarkdown,
    ExportPdf,
    ExportPng,
}

/// The label shown for an action.
pub open spec fn action_label(a: PaletteAction) -> Seq<char> {
    match a {
        PaletteAction::NewWhiteboard => "New whiteboard"@,
        PaletteAction::FitToContent => "Fit canvas to content"@,
        PaletteAction::ToggleMarkdownMode => "Toggle page / edgeless mode"@,
        PaletteAction::ToggleTheme => "Toggle dark / light theme"@,
        PaletteAction::ExportMarkdown => "Export current file as Markdown"@,
        PaletteAction::ExportPdf => "Export current file as PDF"@,
        PaletteAction::ExportPng => "Export current file as PNG"@,
    }
}

/// The actions, in display order.
pub open spec fn all_actions() -> Seq<PaletteAction> {
    seq![
        PaletteAction::NewWhiteboard,
        PaletteAction::FitToContent,
        PaletteAction::ToggleMarkdownMode,
        PaletteAction::ToggleTheme,
        PaletteAction::ExportMarkdown,
        PaletteAction::ExportPdf,
        PaletteAction::ExportPng,
    ]
}

impl PaletteAction {
    pub fn label(self) -> (s: &'static str)
        ensures
            s@ == action_label(self),
    {
        match self {
            PaletteAction::NewWhiteboard => "New whiteboard",
            PaletteAction::FitToContent => "Fit canvas to content",
            PaletteAction::ToggleMarkdownMode => "Toggle page / edgeless mode",
            PaletteAction::ToggleTheme => "Toggle dark / light theme",
            PaletteAction::ExportMarkdown => "Export current file as Markdown",
            PaletteAction::ExportPdf => "Export current file as PDF",
            PaletteAction::ExportPng => "Export current file as PNG",
        }
    }

    pub fn all() -> (r: [PaletteAction; 7])
        ensures
            r@ == all_actions(),
    {
        let r = [
            PaletteAction::NewWhiteboard,
            PaletteAction::FitToContent,
            PaletteAction::ToggleMarkdownMode,
            PaletteAction::ToggleTheme,
            PaletteAction::ExportMarkdown,
            PaletteAction::ExportPdf,
            PaletteAction::ExportPng,
        ];
        assert(r@ =~= all_actions());
        r
    }
}

/// Whether `a` occurs in `b` as a subsequence (its characters in order,
/// not necessarily adjacent).
pub open spec fn is_subsequence(a: Seq<char>, b: Seq<char>) -> bool
    decreases b.len(),
{
    if a.len() == 0 {
        true
    } else if b.len() == 0 {
        false
    } else if a[0] == b[0] {
        is_subsequence(a.drop_first(), b.drop_first())
    } else {
        is_subsequence(a, b.drop_first())
    }
}

/// The fuzzy-match rule: an empty needle matches everything, otherwise the
/// lower-cased needle must be a subsequence of the lower-cased haystack.
pub open spec fn fuzzy_matches(haystack: Seq<char>, needle: Seq<char>) -> bool {
    needle.len() == 0 || is_subsequence(lowercase(needle), lowercase(haystack))
}

/// Greedy subsequence test on already lower-cased text.
pub fn subsequence_match(haystack_lower: &str, needle_lower: &str) -> (r: bool)
    ensures
        r == is_subsequence(needle_lower@, haystack_lower@),
{
    let h = chars_of(haystack_lower);
    let nd = chars_of(needle_lower);
    let mut i: usize = 0;
    let mut j: usize = 0;
    assert(nd@.skip(0) =~= nd@);
    assert(h@.skip(0) =~= h@);
    while i < nd.len() && j < h.len()
        invariant
            i <= nd@.len(),
            j <= h@.len(),
            is_subsequence(nd@.skip(i as int), h@.skip(j as int)) == is_subsequence(nd@, h@),
        decreases h@.len() - j,
    {
        assert(h@.skip(j as int).drop_first() =~= h@.skip(j + 1));
        assert(nd@.skip(i as int).drop_first() =~= nd@.skip(i + 1));
        assert(h@.skip(j as int)[0] == h@[j as int]);
        assert(nd@.skip(i as int)[0] == nd@[i as int]);
        if h[j] == nd[i] {
            i = i + 1;
        }
        j = j + 1;
    }
    if i < nd.len() {
        assert(h@.skip(j as int).len() == 0);
        assert(nd@.skip(i as int).len() > 0);
        false
    } else {
        assert(nd@.skip(i as int).len() == 0);
        true
    }
}

/// Sublime-text-style subsequence match: every character of `needle` must
/// appear in `haystack` in order, case-insensitively. An empty needle
/// matches everything.
pub fn fuzzy_match(haystack: &str, needle: &str) -> (r: bool)
    ensures
        r == fuzzy_matches(haystack@, needle@),
{
    if needle.is_empty() {
        return true;
    }
    let h = to_lowercase(haystack);
    let nd = to_lowercase(needle);
    subsequence_match(h.as_str(), nd.as_str())
}

/// A row the user can pick.
#[derive(Debug, Clone)]
pub enum PaletteRow {
    /// A workspace file (its path).
    File(String),
    Content { file: String, snippet: String },
    Action(PaletteAction),
}

/// A workspace file offered by the palette: its path and its file name.
#[derive(Debug, Clone)]
pub struct PaletteFile {
    pub path: String,
    pub name: String,
}

impl PaletteState {
    /// Whether the query is long enough (two bytes once trimmed) for a
    /// content search.
    pub fn wants_content_search(&self) -> (r: bool)
        ensures
            r == (crate::strings::enc(trimmed(self.query@)).len() >= 2),
    {
        let q = trim(self.query.as_str());
        q.as_bytes().len() >= 2
    }
}

/// The spec of a row list: actions matching the query, then files whose
/// name matches, then (for queries of two bytes or more) the content hits.
pub open spec fn rows_spec(q: Seq<char>, files: Seq<PaletteFile>, hits: Seq<Hit>) -> Seq<
    PaletteRow,
> {
    action_rows(all_actions().filter(action_filter(q))) + file_rows(files.filter(file_filter(q)))
        + if crate::strings::enc(q).len() >= 2 {
        hit_rows(hits)
    } else {
        Seq::empty()
    }
}

/// Actions whose label fuzzy-matches `q`.
pub open spec fn action_filter(q: Seq<char>) -> spec_fn(PaletteAction) -> bool {
    |a: PaletteAction| fuzzy_matches(action_label(a), q)
}

/// Files whose name fuzzy-matches `q`.
pub open spec fn file_filter(q: Seq<char>) -> spec_fn(PaletteFile) -> bool {
    |f: PaletteFile| fuzzy_matches(f.name@, q)
}

pub open spec fn action_rows(a: Seq<PaletteAction>) -> Seq<PaletteRow> {
    a.map_values(|a: PaletteAction| PaletteRow::Action(a))
}

pub open spec fn file_rows(f: Seq<PaletteFile>) -> Seq<PaletteRow> {
    f.map_values(|f: PaletteFile| PaletteRow::File(f.path))
}

pub open spec fn hit_rows(h: Seq<Hit>) -> Seq<PaletteRow> {
    h.map_values(|h: Hit| PaletteRow::Content { file: h.file, snippet: h.snippet })
}

/// Build the result list for the current query: matching actions, then
/// matching files, then the content hits (used only for queries of two
/// bytes or more; the caller searches only when
/// [`PaletteState::wants_content_search`] says so).
pub fn collect_rows(state: &PaletteState, workspace_files: &Vec<PaletteFile>, hits: &Vec<Hit>) -> (rows: Vec<PaletteRow>)
    ensures
        rows@ == rows_spec(trimmed(state.query@), workspace_files@, hits@),
{
    broadcast use vstd::seq_lib::group_seq_properties;
    let q = trim(state.query.as_str());
    let ghost qs = q@;
    let mut out: Vec<PaletteRow> = Vec::new();
    let actions = PaletteAction::all();
    let mut i: usize = 0;
    while i < 7
        invariant
            i <= 7,
            actions@ == all_actions(),
            q@ == qs,
            out@ == action_rows(all_actions().take(i as int).filter(action_filter(qs))),
        decreases 7 - i,
    {
        let a = actions[i];
        proof {
            assert(all_actions().take(i + 1) =~= all_actions().take(i as int).push(a));
            all_actions().take(i as int).lemma_filter_push(a, action_filter(qs));
        }
        if fuzzy_match(a.label(), q) {
            out.push(PaletteRow::Action(a));
            assert(out@ =~= action_rows(all_actions().take(i + 1).filter(action_filter(qs))));
        } else {
            assert(out@ =~= action_rows(all_actions().take(i + 1).filter(action_filter(qs))));
        }
        i = i + 1;
    }
    assert(all_actions().take(7) =~= all_actions());
    let ghost head = out@;
    let mut k: usize = 0;
    while k < workspace_files.len()
        invariant
            k <= workspace_files@.len(),
            q@ == qs,
            out@ == head + file_rows(workspace_files@.take(k as int).filter(file_filter(qs))),
        decreases workspace_files@.len() - k,
    {
        let f = &workspace_files[k];
        proof {
            assert(workspace_files@.take(k + 1) =~= workspace_files@.take(k as int).push(*f));
            workspace_files@.take(k as int).lemma_filter_push(*f, file_filter(qs));
        }
        if fuzzy_match(f.name.as_str(), q) {
            out.push(PaletteRow::File(f.path.clone()));
        }
        assert(out@ =~= head + file_rows(workspace_files@.take(k + 1).filter(file_filter(qs))));
        k = k + 1;
    }
    assert(workspace_files@.take(workspace_files@.len() as int) =~= workspace_files@);
    let ghost middle = out@;
    if q.as_bytes().len() >= 2 {
        let mut j: usize = 0;
        while j < hits.len()
            invariant
                j <= hits@.len(),
                out@ == middle + hit_rows(hits@.take(j as int)),
            decreases hits@.len() - j,
        {
            let h = &hits[j];
            out.push(PaletteRow::Content { file: h.file.clone(), snippet: h.snippet.clone() });
            assert(hits@.take(j + 1) =~= hits@.take(j as int).push(*h));
            assert(out@ =~= middle + hit_rows(hits@.take(j + 1)));
            j = j + 1;
        }
        assert(hits@.take(hits@.len() as int) =~= hits@);
    } else {
        assert(out@ =~= middle + Seq::<PaletteRow>::empty());
    }
    out
}

/// What picking a palette row does.
#[derive(Debug, Clone)]
pub enum PaletteCommand {
    /// Open this file.
    Open(String),
    /// Run this action.
    Run(PaletteAction),
    /// The action exists but is not available yet (PDF and PNG export).
    Unavailable(PaletteAction),
    /// No such row.
    Nothing,
}

/// The command for picking row `idx` of `rows`; the palette closes
/// afterwards whatever it is.
pub open spec fn pick_command(rows: Seq<PaletteRow>, idx: int) -> PaletteCommand {
    if idx < 0 || idx >= rows.len() {
        PaletteCommand::Nothing
    } else {
        match rows[idx] {
            PaletteRow::File(p) => PaletteCommand::Open(p),
            PaletteRow::Content { file, .. } => PaletteCommand::Open(file),
            PaletteRow::Action(a) => match a {
                PaletteAction::ExportPdf => PaletteCommand::Unavailable(a),
                PaletteAction::ExportPng => PaletteCommand::Unavailable(a),
                _ => PaletteCommand::Run(a),
            },
        }
    }
}

/// Decides what picking row `idx` does.
pub fn palette_pick(rows: &Vec<PaletteRow>, idx: usize) -> (c: PaletteCommand)
    ensures
        c == pick_command(rows@, idx as int),
{
    if idx >= rows.len() {
        return PaletteCommand::Nothing;
    }
    match &rows[idx] {
        PaletteRow::File(p) => PaletteCommand::Open(p.clone()),
        PaletteRow::Content { file, .. } => PaletteCommand::Open(file.clone()),
        PaletteRow::Action(a) => match a {
            PaletteAction::ExportPdf | PaletteAction::ExportPng => PaletteCommand::Unavailable(*a),
            _ => PaletteCommand::Run(*a),
        },
    }
}

/// The focus after moving it: one row down and/or up (saturating), then
/// kept within the rows when there are any.
pub open spec fn moved_focus(focus: usize, next: bool, prev: bool, row_count: usize) -> usize {
    let f1: int = if next { if focus == usize::MAX { focus as int } else { focus + 1 } } else { focus as int };
    let f2: int = if prev { if f1 == 0 { 0 } else { f1 - 1 } } else { f1 };
    if row_count > 0 && f2 >= row_count {
        (row_count - 1) as usize
    } else {
        f2 as usize
    }
}

impl PaletteState {
    /// Moves the focused row.
    pub fn move_focus(&mut self, next: bool, prev: bool, row_count: usize)
        ensures
            final(self).focus == moved_focus(old(self).focus, next, prev, row_count),
            final(self).open == old(self).open,
            final(self).query@ == old(self).query@,
            final(self).focused == old(self).focused,
    {
        if next {
            self.focus = self.focus.saturating_add(1);
        }
        if prev {
            self.focus = self.focus.saturating_sub(1);
        }
        if row_count > 0 && self.focus >= row_count {
            self.focus = row_count - 1;
        }
    }

    /// Takes the text field's query; a changed query puts the focus back
    /// on the first row.
    pub fn set_query(&mut self, q: String)
        ensures
            final(self).query@ == q@,
            final(self).focus == if q@ == old(self).query@ { old(self).focus } else { 0 },
            final(self).open == old(self).open,
            final(self).focused == old(self).focused,
    {
        if q != self.query {
            self.query = q;
            self.focus = 0;
        }
    }
}

/// Picking a file row or a content-search hit opens that file; picking an
/// action row runs it, but for the two exports not yet available; picking
/// past the end does nothing.
pub proof fn law_pick_opens_the_row_file(rows: Seq<PaletteRow>, idx: int)
    ensures
        0 <= idx < rows.len() ==> (rows[idx] matches PaletteRow::File(p) ==> pick_command(rows, idx)
            == PaletteCommand::Open(p)),
        0 <= idx < rows.len() ==> (rows[idx] matches PaletteRow::Content { file, .. }
            ==> pick_command(rows, idx) == PaletteCommand::Open(file)),
        0 <= idx < rows.len() ==> (rows[idx] matches PaletteRow::Action(a) ==> pick_command(rows, idx)
            == if a == PaletteAction::ExportPdf || a == PaletteAction::ExportPng {
            PaletteCommand::Unavailable(a)
        } else {
            PaletteCommand::Run(a)
        }),
        !(0 <= idx < rows.len()) ==> pick_command(rows, idx) == PaletteCommand::Nothing,
{
}

} // verus!
