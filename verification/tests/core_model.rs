use writee::caret::{caret_at_click, NoteBody, TextBuffer};
use writee::document::Document;
use writee::keys::{handle_key, CaretMove, KeyCommand, KeyContext, KeyInput, NamedKey, PhysicalCode};
use writee::model::{locked_from_meta, locked_meta_value, mode_from_meta, Anchor, DocumentMode, NoteMode, ObjectKind};
use writee::settings::{color_from_idx, ActiveShape, FontMappings, FontSlot, InkColor, PersistedState, WindowConfig};
use writee::theme::{ColorTheme, ThemeName, COLOR_HIGHLIGHT, COLOR_INK};
use writee::tool::{short_button_label, Tool};
use writee::undo::{add_object, apply_redo, apply_undo, finish_text_edit, remove_object, remove_unless_locked, Persist, UndoStack};

fn buf(s: &str, cursor: usize) -> TextBuffer {
    TextBuffer { content: s.to_string(), cursor }
}

#[test]
fn text_buffer_insert_then_backspace_restores() {
    let mut t = buf("héllo", 3);
    t.insert_at_cursor('x');
    assert_eq!(t.content, "héxllo");
    assert_eq!(t.cursor, 4);
    assert!(t.backspace_at_cursor());
    assert_eq!(t.content, "héllo");
    assert_eq!(t.cursor, 3);
}

#[test]
fn text_buffer_clamps_into_a_character() {
    let mut t = buf("é", 1);
    t.clamp_cursor();
    assert_eq!(t.cursor, 0);
    let mut t = buf("ab", 9);
    t.clamp_cursor();
    assert_eq!(t.cursor, 2);
}

#[test]
fn text_buffer_caret_moves() {
    let mut t = buf("ab\ncdef", 6);
    t.cursor_up();
    assert_eq!(t.cursor, 2);
    t.cursor_down();
    assert_eq!(t.cursor, 5);
    t.cursor_home();
    assert_eq!(t.cursor, 3);
    t.cursor_end();
    assert_eq!(t.cursor, 7);
    t.cursor_left();
    assert_eq!(t.cursor, 6);
    t.cursor_right();
    assert_eq!(t.cursor, 7);
    assert_eq!(t.cursor_line_col(), (1, 4));
    assert_eq!(t.text_extent(), (4, 2));
}

#[test]
fn text_buffer_backspace_at_start_does_nothing() {
    let mut t = buf("abc", 0);
    assert!(!t.backspace_at_cursor());
    assert_eq!(t.content, "abc");
}

#[test]
fn note_body_edits_only_inline_text() {
    let mut n = NoteBody { inline_content: Some("ab".to_string()), cursor: 1 };
    n.insert_at_cursor('z');
    assert_eq!(n.inline_content.as_deref(), Some("azb"));
    n.cursor_end();
    assert_eq!(n.cursor, 3);
    let mut linked = NoteBody { inline_content: None, cursor: 5 };
    linked.insert_at_cursor('q');
    assert_eq!(linked.inline_content, None);
    assert!(!linked.backspace_at_cursor());
}

#[test]
fn document_ids_and_removal() {
    let mut d: Document<u32> = Document::new();
    let a = d.add(10);
    let b = d.add(20);
    assert_eq!((a, b), (1, 2));
    assert_eq!(d.get(2), Some(&20));
    assert_eq!(d.remove(1), Some(10));
    assert_eq!(d.len(), 1);
    assert_eq!(d.add(30), 3);
    d.reinsert(1, 11);
    let ids: Vec<u64> = d.objects().iter().map(|(id, _)| *id).collect();
    assert_eq!(ids, vec![1, 2, 3]);
    assert!(!d.is_empty());
}

#[test]
fn document_from_records_continues_ids() {
    let mut d = Document::from_records(vec![(4u64, 'a'), (9u64, 'b')]);
    assert_eq!(d.add('c'), 10);
    if let Some(x) = d.get_mut(4) {
        *x = 'z';
    }
    assert_eq!(d.get(4), Some(&'z'));
    assert_eq!(d.get(5), None);
}

#[test]
fn undo_redo_round_trip() {
    let mut d: Document<u32> = Document::new();
    let mut s: UndoStack<u32> = UndoStack::new();
    let id = add_object(&mut d, &mut s, 7);
    assert!(s.can_undo());
    assert_eq!(apply_undo(&mut d, &mut s), Some(Persist::Delete(id)));
    assert!(d.is_empty());
    assert!(s.can_redo());
    assert_eq!(apply_redo(&mut d, &mut s), Some(Persist::Write(id)));
    assert_eq!(d.get(id), Some(&7));
    assert!(remove_object(&mut d, &mut s, id));
    assert_eq!(apply_undo(&mut d, &mut s), Some(Persist::Write(id)));
    assert_eq!(d.get(id), Some(&7));
    assert!(!remove_object(&mut d, &mut s, 99));
}

#[test]
fn undo_on_empty_history_is_nothing() {
    let mut d: Document<u32> = Document::new();
    let mut s: UndoStack<u32> = UndoStack::new();
    assert_eq!(apply_undo(&mut d, &mut s), None);
    assert_eq!(apply_redo(&mut d, &mut s), None);
}

#[test]
fn document_mode_meta() {
    assert_eq!(DocumentMode::from_str("markdown"), DocumentMode::Markdown);
    assert_eq!(DocumentMode::from_str("other"), DocumentMode::Canvas);
    assert_eq!(DocumentMode::Markdown.as_str(), "markdown");
    assert_eq!(mode_from_meta(None), DocumentMode::Canvas);
    assert!(locked_from_meta(Some(locked_meta_value(true))));
    assert!(!locked_from_meta(Some(locked_meta_value(false))));
    assert_eq!(Anchor::all().len(), 9);
    assert_eq!(NoteMode::default(), NoteMode::Canvas);
}

#[test]
fn themes() {
    assert_eq!(ThemeName::default(), ThemeName::Light);
    assert_eq!(ThemeName::Light.toggled(), ThemeName::Dark);
    assert_eq!(ThemeName::Dark.label(), "Dark");
    let l = ThemeName::Light.theme();
    assert_eq!(l.ink, COLOR_INK);
    let d = ColorTheme::dark();
    assert_ne!(d.canvas_bg, l.canvas_bg);
}

#[test]
fn tools() {
    assert_eq!(Tool::all().len(), 10);
    assert_eq!(Tool::Highlighter.short_name(), "highlight");
    assert_eq!(Tool::Shape.label(), "Shape (R)");
    assert_eq!(short_button_label(Tool::Eraser), "Erase");
    assert_eq!(Tool::drawing_tools(), &[Tool::Pen, Tool::Highlighter, Tool::Eraser]);
    assert_eq!(Tool::selection_tools(), &[Tool::Select]);
    assert_eq!(Tool::annotation_tools().len(), 6);
}

#[test]
fn settings_values() {
    assert_eq!(InkColor::Highlighter.to_idx(), 1);
    assert_eq!(color_from_idx(InkColor::Highlighter.to_idx()), InkColor::Highlighter.rgba());
    assert_eq!(color_from_idx(0), COLOR_INK);
    assert_eq!(color_from_idx(7), COLOR_INK);
    assert_eq!(color_from_idx(1), COLOR_HIGHLIGHT);
    assert_eq!(FontSlot::default(), FontSlot::Default);
    assert_eq!(FontSlot::all()[4].label(), "Thematic");
    assert_eq!(ActiveShape::Rectangle.label(), "Rect");
    let f = FontMappings::default();
    assert_eq!(f.resolve(FontSlot::Mono), "JetBrains Mono");
    assert_eq!(f.resolve(FontSlot::Thematic), "Inter");
    let w = WindowConfig::default();
    assert_eq!((w.width, w.height), (1280, 800));
    assert!(PersistedState::default().last_file.is_none());
}

fn ctx(ctrl: bool) -> KeyContext {
    KeyContext { pressed: true, ctrl, shift: false, palette_open: false, editing_text: false, editing_note: false }
}

#[test]
fn keys_palette_owns_keyboard() {
    let mut c = ctx(false);
    c.palette_open = true;
    let o = handle_key(c, &KeyInput::Character("p".into()), PhysicalCode::KeyP);
    assert_eq!(o.command, KeyCommand::Nothing);
    assert!(!o.redraw);
    c.ctrl = true;
    assert_eq!(handle_key(c, &KeyInput::Other, PhysicalCode::KeyK).command, KeyCommand::TogglePalette);
}

#[test]
fn keys_shortcuts_and_tools() {
    assert_eq!(handle_key(ctx(true), &KeyInput::Other, PhysicalCode::KeyZ).command, KeyCommand::Undo);
    let mut s = ctx(true);
    s.shift = true;
    assert_eq!(handle_key(s, &KeyInput::Other, PhysicalCode::KeyZ).command, KeyCommand::Redo);
    assert_eq!(handle_key(ctx(true), &KeyInput::Other, PhysicalCode::NumpadAdd).command, KeyCommand::ZoomIn);
    assert_eq!(handle_key(ctx(false), &KeyInput::Other, PhysicalCode::KeyT).command, KeyCommand::SetTool(Tool::Text));
    assert_eq!(handle_key(ctx(false), &KeyInput::Named(NamedKey::Delete), PhysicalCode::Other).command, KeyCommand::DeleteSelection);
    let mut released = ctx(true);
    released.pressed = false;
    assert_eq!(handle_key(released, &KeyInput::Other, PhysicalCode::KeyZ).command, KeyCommand::Nothing);
}

#[test]
fn keys_while_editing() {
    let mut c = ctx(false);
    c.editing_text = true;
    assert_eq!(handle_key(c, &KeyInput::Named(NamedKey::ArrowUp), PhysicalCode::Other).command, KeyCommand::TextMove(CaretMove::Up));
    assert_eq!(handle_key(c, &KeyInput::Character("e".into()), PhysicalCode::KeyE).command, KeyCommand::TextInsert);
    let mut n = ctx(false);
    n.editing_note = true;
    assert_eq!(handle_key(n, &KeyInput::Named(NamedKey::Enter), PhysicalCode::Other).command, KeyCommand::NoteNewline);
    assert_eq!(handle_key(n, &KeyInput::Named(NamedKey::ArrowUp), PhysicalCode::Other).command, KeyCommand::Nothing);
}

#[test]
fn locked_objects_stay() {
    let mut d: Document<u32> = Document::new();
    let mut s: UndoStack<u32> = UndoStack::new();
    let id = add_object(&mut d, &mut s, 1);
    assert!(!remove_unless_locked(&mut d, &mut s, id, true));
    assert_eq!(d.len(), 1);
    assert!(remove_unless_locked(&mut d, &mut s, id, false));
    assert!(d.is_empty());
    assert_eq!(d.last_issued_id(), 1);
}

#[test]
fn object_kind_codes() {
    let kinds = [
        ObjectKind::Stroke,
        ObjectKind::Arrow,
        ObjectKind::TextBox,
        ObjectKind::Shape,
        ObjectKind::SubNote,
        ObjectKind::Link,
        ObjectKind::Image,
    ];
    for (i, k) in kinds.iter().enumerate() {
        assert_eq!(k.code(), i as i64);
        assert_eq!(ObjectKind::from_code(i as i64), Some(*k));
    }
    assert_eq!(ObjectKind::from_code(7), None);
    assert_eq!(ObjectKind::from_code(-1), None);
}

#[test]
fn text_edit_sessions_end() {
    // A new box left empty is dropped.
    let mut doc: Document<String> = Document::new();
    let mut st: UndoStack<String> = UndoStack::new();
    let id = doc.add(String::new());
    let p = finish_text_edit(&mut doc, &mut st, id, None, "", String::new(), String::new());
    assert_eq!(p, Some(Persist::Delete(id)));
    assert!(doc.is_empty());
    assert!(!st.can_undo());

    // A new box with text is recorded as added; undo removes it.
    let id = doc.add("hi".to_string());
    let p = finish_text_edit(&mut doc, &mut st, id, None, "hi", "hi".to_string(), "hi".to_string());
    assert_eq!(p, None);
    assert!(st.can_undo());
    assert_eq!(apply_undo(&mut doc, &mut st), Some(Persist::Delete(id)));
    assert!(doc.is_empty());

    // An edited box is recorded as replaced; undo restores the old text.
    let mut doc: Document<String> = Document::new();
    let mut st: UndoStack<String> = UndoStack::new();
    let id = doc.add("new".to_string());
    let p = finish_text_edit(&mut doc, &mut st, id, Some("old"), "new", "new".to_string(), "old".to_string());
    assert_eq!(p, None);
    assert_eq!(apply_undo(&mut doc, &mut st), Some(Persist::Write(id)));
    assert_eq!(doc.get(id).map(|s| s.as_str()), Some("old"));

    // An unchanged box records nothing.
    let mut st2: UndoStack<String> = UndoStack::new();
    let p = finish_text_edit(&mut doc, &mut st2, id, Some("old"), "old", "old".to_string(), "old".to_string());
    assert_eq!(p, None);
    assert!(!st2.can_undo());
}

#[test]
fn keys_tool_letters_and_escape() {
    let letters = [
        (PhysicalCode::KeyP, Tool::Pen),
        (PhysicalCode::KeyH, Tool::Highlighter),
        (PhysicalCode::KeyE, Tool::Eraser),
        (PhysicalCode::KeyA, Tool::Arrow),
        (PhysicalCode::KeyT, Tool::Text),
        (PhysicalCode::KeyS, Tool::Select),
    ];
    for (code, tool) in letters {
        assert_eq!(handle_key(ctx(false), &KeyInput::Character("x".into()), code).command, KeyCommand::SetTool(tool));
    }
    assert_eq!(handle_key(ctx(false), &KeyInput::Named(NamedKey::Escape), PhysicalCode::Other).command, KeyCommand::ClearSelection);
    assert_eq!(handle_key(ctx(false), &KeyInput::Named(NamedKey::Backspace), PhysicalCode::Other).command, KeyCommand::DeleteSelection);
    let mut c = ctx(false);
    c.editing_text = true;
    assert_eq!(handle_key(c, &KeyInput::Named(NamedKey::Escape), PhysicalCode::Other).command, KeyCommand::FinishTextEdit);
}

#[test]
fn clicks_place_the_caret() {
    let t = "ab\ncd\nef";
    assert_eq!(caret_at_click(t, 1, 1), 4);
    // Line 0 of a text with a newline lands on line 1 too.
    assert_eq!(caret_at_click(t, 0, 1), 4);
    assert_eq!(caret_at_click(t, 2, 1), 7);
    assert_eq!(caret_at_click(t, 2, 5), 8);
    // Past the last line: counted from the start of the text.
    assert_eq!(caret_at_click(t, 3, 1), 1);
    assert_eq!(caret_at_click("héllo", 0, 2), 3);
    assert_eq!(caret_at_click("", 4, 4), 0);
}
