//! What the chrome reports back to the app after a frame, and the rows the
//! index editor shows.
use vstd::prelude::*;
use crate::links::entry_view;
use crate::model::IndexEntry;
use crate::tool::Tool;

verus! {

/// Everything the user asked for in one frame of the chrome.
#[derive(Debug)]
pub struct UiActions {
    pub set_tool: Option<Tool>,
    pub undo: bool,
    pub redo: bool,
    pub new_file: bool,
    pub cycle_file: bool,
    pub export_web: bool,
    pub fit_to_content: bool,
    pub delete_selected: bool,
    pub clear_selection: bool,
    pub open_file: Option<String>,
    /// A file to rename, and its new stem.
    pub rename_file: Option<(String, String)>,
    pub delete_file: Option<String>,
    pub restore_file: Option<String>,
    pub purge_file: Option<String>,
    /// Switch the current file between canvas and markdown mode.
    pub toggle_markdown: bool,
    pub note_open: Option<u64>,
    pub note_edit_inline: Option<u64>,
    pub note_convert_to_linked: Option<u64>,
    pub note_convert_to_inline: Option<u64>,
    pub note_toggle_index: Option<u64>,
    pub note_edit_index_contents: Option<u64>,
    /// A linked note and whether its file should open as markdown.
    pub note_set_linked_mode: Option<(u64, bool)>,
    pub note_delete: Option<u64>,
    pub note_close_menu: bool,
    pub index_editor_commit: bool,
    pub index_editor_cancel: bool,
    pub recovery_accept: bool,
    pub recovery_discard: bool,
    /// A tag clicked in the sidebar; `Some(None)` clears the filter.
    pub set_tag_filter: Option<Option<String>>,
    /// The palette row picked this frame.
    pub palette_pick: Option<usize>,
    pub palette_close: bool,
    pub palette_focus_next: bool,
    pub palette_focus_prev: bool,
    /// The palette's text field took focus.
    pub palette_focused: bool,
}

/// No action at all.
pub open spec fn no_actions(a: UiActions) -> bool {
    &&& a.set_tool is None
    &&& !a.undo && !a.redo && !a.new_file && !a.cycle_file && !a.export_web
    &&& !a.fit_to_content && !a.delete_selected && !a.clear_selection
    &&& a.open_file is None && a.rename_file is None && a.delete_file is None
    &&& a.restore_file is None && a.purge_file is None && !a.toggle_markdown
    &&& a.note_open is None && a.note_edit_inline is None && a.note_convert_to_linked is None
    &&& a.note_convert_to_inline is None && a.note_toggle_index is None
    &&& a.note_edit_index_contents is None && a.note_set_linked_mode is None
    &&& a.note_delete is None && !a.note_close_menu
    &&& !a.index_editor_commit && !a.index_editor_cancel
    &&& !a.recovery_accept && !a.recovery_discard
    &&& a.set_tag_filter is None && a.palette_pick is None
    &&& !a.palette_close && !a.palette_focus_next && !a.palette_focus_prev && !a.palette_focused
}

impl Default for UiActions {
    fn default() -> (a: UiActions)
        ensures
            no_actions(a),
    {
        UiActions {
            set_tool: None,
            undo: false,
            redo: false,
            new_file: false,
            cycle_file: false,
            export_web: false,
            fit_to_content: false,
            delete_selected: false,
            clear_selection: false,
            open_file: None,
            rename_file: None,
            delete_file: None,
            restore_file: None,
            purge_file: None,
            toggle_markdown: false,
            note_open: None,
            note_edit_inline: None,
            note_convert_to_linked: None,
            note_convert_to_inline: None,
            note_toggle_index: None,
            note_edit_index_contents: None,
            note_set_linked_mode: None,
            note_delete: None,
            note_close_menu: false,
            index_editor_commit: false,
            index_editor_cancel: false,
            recovery_accept: false,
            recovery_discard: false,
            set_tag_filter: None,
            palette_pick: None,
            palette_close: false,
            palette_focus_next: false,
            palette_focus_prev: false,
            palette_focused: false,
        }
    }
}

/// A row of the index editor: a file or a heading.
#[derive(Debug, Clone, PartialEq, Eq)]
pub enum IndexEditorEntry {
    File { file: String },
    Heading { text: String },
}

pub open spec fn editor_entry_view(e: IndexEditorEntry) -> (bool, Seq<char>) {
    match e {
        IndexEditorEntry::File { file } => (true, file@),
        IndexEditorEntry::Heading { text } => (false, text@),
    }
}

/// The editor rows for a card's entries, one for one.
pub fn editor_rows(entries: &Vec<IndexEntry>) -> (r: Vec<IndexEditorEntry>)
    ensures
        r@.map_values(|e: IndexEditorEntry| editor_entry_view(e)) == entries@.map_values(
            |e: IndexEntry| entry_view(e),
        ),
{
    let mut out: Vec<IndexEditorEntry> = Vec::new();
    let mut i: usize = 0;
    while i < entries.len()
        invariant
            i <= entries@.len(),
            out@.map_values(|e: IndexEditorEntry| editor_entry_view(e)) == entries@.take(
                i as int,
            ).map_values(|e: IndexEntry| entry_view(e)),
        decreases entries@.len() - i,
    {
        let row = match &entries[i] {
            IndexEntry::File { file } => IndexEditorEntry::File { file: file.clone() },
            IndexEntry::Heading { text } => IndexEditorEntry::Heading { text: text.clone() },
        };
        proof {
            assert(out@.push(row).map_values(|e: IndexEditorEntry| editor_entry_view(e))
                =~= out@.map_values(|e: IndexEditorEntry| editor_entry_view(e)).push(
                editor_entry_view(row),
            ));
            assert(entries@.take(i + 1).map_values(|e: IndexEntry| entry_view(e))
                =~= entries@.take(i as int).map_values(|e: IndexEntry| entry_view(e)).push(
                entry_view(entries@[i as int]),
            ));
        }
        out.push(row);
        i = i + 1;
    }
    assert(entries@.take(entries@.len() as int) =~= entries@);
    out
}

/// The window title: `writee — <file>  ·  <tool>`, with `untitled` when
/// no file is open and `-` when no tool is active.
pub open spec fn title_text(file: Option<Seq<char>>, tool: Option<Tool>) -> Seq<char> {
    "writee \u{2014} "@ + match file {
        Some(f) => f,
        None => "untitled"@,
    } + "  \u{b7}  "@ + match tool {
        Some(t) => crate::tool::tool_short_name(t),
        None => "-"@,
    }
}

pub fn window_title(file: Option<&str>, tool: Option<Tool>) -> (s: String)
    ensures
        s@ == title_text(match file {
            Some(f) => Some(f@),
            None => None,
        }, tool),
{
    let mut s = String::from_str("writee \u{2014} ");
    match file {
        Some(f) => crate::strings::push_str(&mut s, f),
        None => crate::strings::push_str(&mut s, "untitled"),
    }
    crate::strings::push_str(&mut s, "  \u{b7}  ");
    match tool {
        Some(t) => crate::strings::push_str(&mut s, t.short_name()),
        None => crate::strings::push_str(&mut s, "-"),
    }
    s
}

} // verus!
