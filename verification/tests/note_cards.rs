use writee::model::{IndexEntry, NoteMode, ObjectKind};
use writee::note::{index_row_target, index_tool_press, initial_markdown_source, note_tool_press, NoteCard, NoteClick, NoteToolPress};
use writee::workspace::ResolvedIndexEntry;
use writee::tool::{CursorShape, Tool, ToolState};

#[test]
fn fresh_cards() {
    let s = NoteCard::new_inline("ignored".to_string());
    assert!(s.is_inline());
    assert!(!s.is_linked());
    assert!(!s.has_title_bar());
    assert_eq!(s.title, "");
    assert_eq!(s.inline_content.as_deref(), Some(""));
    assert_eq!(s.mode, NoteMode::Markdown);

    let l = NoteCard::new_linked("a.writee".to_string(), "A".to_string(), NoteMode::Canvas);
    assert!(l.is_linked());
    assert!(l.has_title_bar());

    let i = NoteCard::new_locked_index("Workspace".to_string());
    assert!(i.is_index && i.locked);
    assert!(!i.is_linked() && !i.is_inline());
    assert!(i.has_title_bar());
}

#[test]
fn sticky_to_linked_and_back() {
    let mut c = NoteCard::new_inline(String::new());
    c.inline_content = Some("hello\nworld".to_string());
    c.title = "Ideas".to_string();
    c.cursor = 3;
    let content = c.convert_to_linked("ideas.writee".to_string());
    assert_eq!(content.as_deref(), Some("hello\nworld"));
    assert!(c.is_linked());
    assert_eq!(c.target_file, "ideas.writee");
    assert_eq!(c.cursor, 0);
    assert_eq!(c.mode, NoteMode::Markdown);
    // A linked card is not converted again.
    assert_eq!(c.convert_to_linked("other.writee".to_string()), None);
    assert_eq!(c.target_file, "ideas.writee");

    assert!(c.convert_to_inline("hello\nworld".to_string()));
    assert_eq!(c.inline_content.as_deref(), Some("hello\nworld"));
    assert_eq!(c.target_file, "");
    assert_eq!(c.title, "Ideas");
    assert!(!c.convert_to_inline("again".to_string()));
}

#[test]
fn locked_cards_refuse_changes() {
    let mut i = NoteCard::new_locked_index("Home".to_string());
    assert!(!i.toggle_index());
    assert!(i.is_index);
    let mut s = NoteCard::new_inline(String::new());
    s.locked = true;
    assert_eq!(s.convert_to_linked("x.writee".to_string()), None);
    assert!(s.is_inline());
}

#[test]
fn index_flag_and_linked_mode() {
    let mut s = NoteCard::new_inline(String::new());
    assert!(s.toggle_index());
    assert!(s.is_index && s.has_title_bar());
    assert!(s.toggle_index());
    assert!(!s.is_index);
    assert!(!s.set_linked_mode(false));
    assert_eq!(s.mode, NoteMode::Markdown);

    let mut l = NoteCard::new_linked("b.writee".to_string(), "B".to_string(), NoteMode::Canvas);
    assert!(l.set_linked_mode(true));
    assert_eq!(l.mode, NoteMode::Markdown);
    assert!(l.set_linked_mode(false));
    assert_eq!(l.mode, NoteMode::Canvas);
}

#[test]
fn begin_inline_edit_upgrades_and_clamps() {
    let mut l = NoteCard::new_linked("b.writee".to_string(), "B".to_string(), NoteMode::Canvas);
    l.cursor = 7;
    l.begin_inline_edit();
    assert_eq!(l.inline_content.as_deref(), Some(""));
    assert_eq!(l.cursor, 0);

    let mut s = NoteCard::new_inline(String::new());
    s.inline_content = Some("aé".to_string());
    s.cursor = 2;
    s.begin_inline_edit();
    assert_eq!(s.cursor, 1);
    assert_eq!(s.inline_content.as_deref(), Some("aé"));
}

#[test]
fn card_links_and_body() {
    let mut c = NoteCard::new_locked_index("Home".to_string());
    c.index_files = Some(vec!["a.writee".to_string()]);
    c.index_entries = Some(vec![IndexEntry::Heading { text: "Top".to_string() }]);
    let l = c.links();
    assert!(!l.is_inline);
    assert_eq!(l.index_files, Some(vec!["a.writee".to_string()]));
    assert_eq!(l.index_entries, Some(vec![IndexEntry::Heading { text: "Top".to_string() }]));
    let b = c.body();
    assert_eq!(b.inline_content, None);
}

#[test]
fn first_markdown_source() {
    assert_eq!(initial_markdown_source("Coulomb"), "# Coulomb\n\n");
    assert_eq!(initial_markdown_source(""), "# \n\n");
}

#[test]
fn object_kind_names_and_anchors() {
    assert_eq!(ObjectKind::TextBox.kind_name(), "text");
    assert_eq!(ObjectKind::SubNote.kind_name(), "note");
    assert_eq!(ObjectKind::Image.kind_name(), "image");
    assert!(!ObjectKind::Link.is_anchorable());
    assert!(ObjectKind::Stroke.is_anchorable());
    assert!(ObjectKind::Image.is_anchorable());
}

#[test]
fn tool_cursors() {
    assert_eq!(Tool::Pen.cursor_icon(), CursorShape::Crosshair);
    assert_eq!(Tool::Shape.cursor_icon(), CursorShape::Crosshair);
    assert_eq!(Tool::Text.cursor_icon(), CursorShape::Text);
    assert_eq!(Tool::Index.cursor_icon(), CursorShape::Copy);
    assert_eq!(Tool::Link.cursor_icon(), CursorShape::Alias);
    assert_eq!(Tool::Select.cursor_icon(), CursorShape::Default);
}

#[test]
fn tool_state_reset_keeps_tool_and_selection() {
    let mut t: ToolState<(i32, i32), &str> = ToolState::default();
    t.current = Some(Tool::Select);
    t.selected = vec![3, 5];
    t.editing_text = Some(9);
    t.edit_text_before = Some("before".to_string());
    t.editing_note = Some(4);
    t.arrow_start = Some((1, 2));
    t.drag_active = true;
    t.drag_before = vec![(3, "obj")];
    t.marquee = Some(((0, 0), (5, 5)));
    t.link_in_progress = Some((3, writee::model::Anchor::N, (0, 0), (1, 1)));
    t.reset_transient();
    assert_eq!(t.current, Some(Tool::Select));
    assert_eq!(t.selected, vec![3, 5]);
    assert_eq!(t.editing_text, Some(9));
    assert_eq!(t.edit_text_before.as_deref(), Some("before"));
    assert_eq!(t.editing_note, None);
    assert_eq!(t.arrow_start, None);
    assert!(!t.drag_active);
    assert!(t.drag_before.is_empty());
    assert_eq!(t.marquee, None);
    assert!(t.link_in_progress.is_none());
}

#[test]
fn select_tool_press() {
    let mut t: ToolState<(i32, i32), ()> = ToolState::default();
    t.press_select(Some(4), false);
    assert_eq!(t.selected, vec![4]);
    t.press_select(Some(7), true);
    assert_eq!(t.selected, vec![4, 7]);
    // Pressing a selected object keeps the selection for a drag.
    t.press_select(Some(4), false);
    assert_eq!(t.selected, vec![4, 7]);
    t.press_select(Some(9), false);
    assert_eq!(t.selected, vec![9]);
    t.press_select(None, true);
    assert_eq!(t.selected, vec![9]);
    t.press_select(None, false);
    assert!(t.selected.is_empty());
}

#[test]
fn select_all_skips_links() {
    let mut t: ToolState<(), ()> = ToolState::default();
    t.selected = vec![99];
    t.select_all(&vec![(1, ObjectKind::Stroke), (2, ObjectKind::Link), (3, ObjectKind::SubNote)]);
    assert_eq!(t.selected, vec![1, 3]);
}

#[test]
fn copies_follow_the_selection() {
    let mut doc: writee::document::Document<String> = writee::document::Document::new();
    let a = doc.add("a".to_string());
    let b = doc.add("b".to_string());
    assert_eq!(doc.copies_of(&vec![b, 42, a]), vec!["b".to_string(), "a".to_string()]);
    assert!(doc.copies_of(&vec![]).is_empty());
}

#[test]
fn card_clicks() {
    let mut i = NoteCard::new_locked_index("Home".to_string());
    assert_eq!(i.click_action(), NoteClick::IndexRow);
    i.is_index = false;
    assert_eq!(i.click_action(), NoteClick::Nothing);
    let l = NoteCard::new_linked("a.writee".to_string(), "A".to_string(), NoteMode::Canvas);
    assert_eq!(l.click_action(), NoteClick::OpenTarget);
    let s = NoteCard::new_inline(String::new());
    assert_eq!(s.click_action(), NoteClick::EditBody);

    let rows = vec![
        ResolvedIndexEntry::Heading { text: "Top".to_string() },
        ResolvedIndexEntry::File { path: "/w/a.writee".to_string(), display: "a".to_string() },
    ];
    assert_eq!(index_row_target(&rows, 0), None);
    assert_eq!(index_row_target(&rows, 1), Some("/w/a.writee".to_string()));
    assert_eq!(index_row_target(&rows, 2), None);
}

#[test]
fn index_tool_card() {
    let c = NoteCard::new_user_index();
    assert_eq!(c.title, "Index");
    assert!(c.is_index && c.is_inline() && !c.locked);
    assert_eq!(c.index_entries, Some(vec![]));
    assert_eq!(c.click_action(), NoteClick::IndexRow);
}

#[test]
fn note_and_index_tool_presses() {
    let s = NoteCard::new_inline(String::new());
    let l = NoteCard::new_linked("a.writee".to_string(), "A".to_string(), NoteMode::Canvas);
    let i = NoteCard::new_locked_index("Home".to_string());
    assert_eq!(note_tool_press(Some(&s)), NoteToolPress::EditBody);
    assert_eq!(note_tool_press(Some(&l)), NoteToolPress::ClickCard);
    assert_eq!(note_tool_press(None), NoteToolPress::DropNew);
    assert_eq!(index_tool_press(Some(&i)), NoteToolPress::EditIndex);
    assert_eq!(index_tool_press(Some(&s)), NoteToolPress::ClickCard);
    assert_eq!(index_tool_press(None), NoteToolPress::DropNew);
}

#[test]
fn press_select_touches_only_the_selection() {
    let mut t: ToolState<(i32, i32), ()> = ToolState::default();
    t.editing_note = Some(5);
    t.arrow_start = Some((1, 1));
    t.press_select(Some(2), false);
    assert_eq!(t.selected, vec![2]);
    assert_eq!(t.editing_note, Some(5));
    assert_eq!(t.arrow_start, Some((1, 1)));
}
