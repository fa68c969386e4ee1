use writee::markdown::{apply_page_edits, render_lines, transform_line, LineKind, note_block, render_markdown, MarkdownState, BlockKind, MdActions, PageBlock};
use writee::caret::{NoteBody, TextBuffer};
use writee::document::Document;
use writee::search::snippet_around;
use writee::tags::{extract_tags, all_tags, TaggedFile};

#[test]
fn snippet_centres_around_match() {
    let s = "the quick brown fox jumps over the lazy dog";
    let snip = snippet_around(s, s.find("fox").unwrap(), 3);
    assert!(snip.contains("fox"));
}

#[test]
fn snippet_is_cut_with_ellipses_and_flattens_newlines() {
    let s = "0123456789012345678901234567890123456789\nneedle\n0123456789012345678901234567890123456789";
    let at = s.find("needle").unwrap();
    let snip = snippet_around(s, at, 6);
    assert_eq!(
        snip,
        "\u{2026}012345678901234567890123456789 needle 01234567890123456789012345678\u{2026}"
    );
}

#[test]
fn snippet_of_short_text_has_no_ellipsis() {
    let s = "a fox";
    assert_eq!(snippet_around(s, 2, 3), "a fox");
}

#[test]
fn picks_simple_and_nested() {
    let tags = extract_tags("hello #foo world #proj/bar and #foo again");
    assert_eq!(tags, vec!["foo".to_string(), "proj/bar".to_string()]);
}

#[test]
fn rejects_leading_digit_and_bare_hash() {
    assert!(extract_tags("#1foo #").is_empty());
}

#[test]
fn case_folds() {
    let tags = extract_tags("#Foo #FOO");
    assert_eq!(tags, vec!["foo".to_string()]);
}

#[test]
fn tag_characters_stop_at_punctuation() {
    assert_eq!(extract_tags("see #a-b_c/d, then #x."), vec!["a-b_c/d".to_string(), "x".to_string()]);
}

#[test]
fn all_tags_groups_files_by_tag_in_order() {
    let files = vec![
        TaggedFile { path: "b.writee".into(), texts: vec!["#zeta and #alpha".into(), "#alpha".into()] },
        TaggedFile { path: "a.writee".into(), texts: vec!["no tags".into()] },
        TaggedFile { path: "c.writee".into(), texts: vec!["#Alpha".into()] },
    ];
    let map = all_tags(&files);
    let keys: Vec<&str> = map.iter().map(|(k, _)| k.as_str()).collect();
    assert_eq!(keys, vec!["alpha", "zeta"]);
    assert_eq!(map[0].1, vec!["b.writee".to_string(), "c.writee".to_string()]);
    assert_eq!(map[1].1, vec!["b.writee".to_string()]);
}

#[test]
fn h1_h2_h3_sized() {
    let lines = render_lines("# big\n## mid\n### small\nplain");
    assert!(lines[0].kind.font_size_tenths() > lines[1].kind.font_size_tenths());
    assert!(lines[1].kind.font_size_tenths() > lines[2].kind.font_size_tenths());
    assert!(lines[3].kind.font_size_tenths() == 160);
}

#[test]
fn bullet_and_checkbox() {
    let lines = render_lines("- one\n[x] done\n[ ] pending");
    assert!(lines[0].text.starts_with('\u{2022}'));
    assert!(lines[1].text.starts_with('\u{2611}'));
    assert!(lines[2].text.starts_with('\u{2610}'));
}

#[test]
fn heading_markers_are_dropped() {
    let l = transform_line("## Title");
    assert_eq!(l.kind, LineKind::Heading2);
    assert_eq!(l.text, "Title");
    assert_eq!(transform_line("#nospace").kind, LineKind::Plain);
}

#[test]
fn shortcut_glyphs_replace_markers() {
    assert_eq!(transform_line("[X] ok").text, "\u{2611}  ok");
    assert_eq!(transform_line("[] todo").text, "\u{2610}  todo");
    assert_eq!(transform_line("* star").text, "\u{2022}  star");
}

#[test]
fn render_lines_splits_and_trims() {
    let lines = render_lines("a  \n\nb");
    assert_eq!(lines.len(), 3);
    assert_eq!(lines[0].text, "a");
    assert_eq!(lines[1].text, "");
    assert_eq!(lines[2].text, "b");
    assert_eq!(render_lines("").len(), 1);
}

#[test]
fn font_sizes_in_tenths() {
    assert_eq!(LineKind::Heading1.font_size_tenths(), 248);
    assert_eq!(LineKind::Heading2.font_size_tenths(), 208);
    assert_eq!(LineKind::Heading3.font_size_tenths(), 184);
    assert_eq!(LineKind::Bullet.font_size_tenths(), 160);
}

#[test]
fn note_block_forms() {
    assert_eq!(note_block("T", Some("body"), ""), "### T\nbody");
    assert_eq!(note_block("Child", None, "child.writee"), "[Child](child.writee)");
    assert_eq!(note_block("", None, "x.writee"), "[](x.writee)");
    assert_eq!(note_block("T", None, ""), "### T\n");
    assert_eq!(render_markdown("", &vec![note_block("Child", None, "child.writee")]), "[Child](child.writee)\n\n");
    assert_eq!(note_block("", None, ""), "");
}

#[test]
fn markdown_export_layout() {
    let blocks = vec!["one".to_string(), "two\n".to_string()];
    assert_eq!(render_markdown("Page", &blocks), "# Page\n\none\n\ntwo\n\n");
    assert_eq!(render_markdown("", &Vec::new()), "");
}

#[test]
fn markdown_state_collects_and_drains_edits() {
    let mut st = MarkdownState::new("legacy".to_string());
    st.record_edit(4, BlockKind::TextBox, "new".to_string());
    st.record_edit(9, BlockKind::InlineNote, "body".to_string());
    let edits = st.take_pending();
    assert_eq!(edits.len(), 2);
    assert_eq!(edits[0].0, 4);
    assert_eq!(edits[1].2, "body");
    assert!(st.take_pending().is_empty());
    assert!(!st.append_requested);
    let a = MdActions::default();
    assert!(!a.source_changed && !a.leave_markdown);
}

#[test]
fn page_edits_flow_into_the_document() {
    let mut doc: Document<PageBlock> = Document::new();
    let t = doc.add(PageBlock::Text(TextBuffer { content: "old".to_string(), cursor: 2 }));
    let n = doc.add(PageBlock::Note(NoteBody { inline_content: None, cursor: 0 }));
    let o = doc.add(PageBlock::Other);
    let mut st = MarkdownState::new(String::new());
    st.record_edit(t, BlockKind::TextBox, "h\u{e9}".to_string());
    st.record_edit(n, BlockKind::TextBox, "skipped".to_string());
    st.record_edit(n, BlockKind::InlineNote, "body".to_string());
    st.record_edit(o, BlockKind::TextBox, "x".to_string());
    st.record_edit(99, BlockKind::TextBox, "x".to_string());
    let edits = st.take_pending();
    let written = apply_page_edits(&mut doc, &edits);
    assert_eq!(written, vec![t, n]);
    match doc.get(t) {
        Some(PageBlock::Text(b)) => {
            assert_eq!(b.content, "h\u{e9}");
            // The old caret (2) falls inside the two-byte character: pinned to 1.
            assert_eq!(b.cursor, 1);
        }
        _ => panic!("text block expected"),
    }
    match doc.get(n) {
        Some(PageBlock::Note(b)) => assert_eq!(b.inline_content.as_deref(), Some("body")),
        _ => panic!("note block expected"),
    }
    assert!(matches!(doc.get(o), Some(PageBlock::Other)));
}
