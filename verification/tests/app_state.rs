use writee::export::{doc_js, export_shape_name};
use writee::hashing::{image_id, recovery_signature, FNV_OFFSET};
use writee::icon::rgba_64;
use writee::index_editor::{IndexEditorActions, IndexEditorState};
use writee::links::NoteLinks;
use writee::model::{IndexEntry, ShapeKind};
use writee::order::{insert_sorted_unique, sort_strings, str_less};
use writee::palette::{collect_rows, fuzzy_match, palette_pick, PaletteAction, PaletteCommand, PaletteFile, PaletteRow, PaletteState};
use writee::recovery::{offer_snapshot, path_for, recovery_content, recovery_step, restores_wet_stroke, snapshot_applies, tmp_path_for, RecoveryStep};
use writee::search::{Hit, HitKind};
use writee::search_cache::{find_bytes, rows_for, SearchCache, SearchSource};
use writee::ui::{editor_rows, IndexEditorEntry, UiActions};

#[test]
fn fnv_fingerprints() {
    assert_eq!(image_id(b""), FNV_OFFSET);
    assert_eq!(image_id(b"a"), 0xaf63dc4c8601ec8c);
    assert_eq!(image_id(b"foobar"), 0x85944171f73967e8);
}

#[test]
fn recovery_signature_mixes_state() {
    let text = Some((7u64, "hi".to_string()));
    assert_eq!(recovery_signature(3, Some((1, 2, 5)), &text, &None), 0xddf4c8a28c8b3648);
    assert_eq!(recovery_signature(0, None, &None, &None), 0xaf63bd4c8601b7df);
    assert_ne!(recovery_signature(3, Some((1, 2, 5)), &text, &None), recovery_signature(3, Some((1, 2, 6)), &text, &None));
}

#[test]
fn icon_pixels() {
    let (w, h, px) = rgba_64();
    assert_eq!((w, h, px.len()), (64, 64, 64 * 64 * 4));
    let at = |x: usize, y: usize| &px[(y * 64 + x) * 4..(y * 64 + x) * 4 + 4];
    assert_eq!(at(0, 0), &[40, 40, 40, 255]);
    assert_eq!(at(63, 30), &[40, 40, 40, 255]);
    assert_eq!(at(5, 5), &[251, 251, 251, 255]);
    // Glyph row 2, column 0 covers x 8..14, y 20..26.
    assert_eq!(at(8, 20), &[18, 18, 18, 255]);
    assert_eq!(at(14, 20), &[251, 251, 251, 255]);
}

#[test]
fn recovery_paths_and_decisions() {
    assert_eq!(path_for("/w"), "/w/.writee-recovery.json");
    assert_eq!(tmp_path_for("/w/"), "/w/.writee-recovery.json.tmp");
    let c = recovery_content(true, 1, Some(0), Some(3));
    assert!(!c.wet && !c.text && c.note && c.any());
    assert_eq!(recovery_step(false, Some(5), Some(1), 1), RecoveryStep::Clear);
    assert_eq!(recovery_step(false, None, None, 1), RecoveryStep::Idle);
    assert_eq!(recovery_step(true, Some(1), None, 1), RecoveryStep::Wait);
    assert_eq!(recovery_step(true, Some(2), Some(9), 9), RecoveryStep::Touch);
    assert_eq!(recovery_step(true, None, Some(9), 8), RecoveryStep::Write);
    assert!(offer_snapshot(1000, 400, true));
    assert!(!offer_snapshot(1001, 400, true));
    assert!(offer_snapshot(5, 400, true));
    assert!(!offer_snapshot(1000, 999, false));
}

#[test]
fn export_helpers() {
    assert_eq!(export_shape_name(ShapeKind::Rectangle), "rect");
    assert_eq!(doc_js("{}"), "window.WRITEE_DOC = {};\n");
}

#[test]
fn string_order() {
    assert!(str_less("abc", "abd"));
    assert!(str_less("ab", "abc"));
    assert!(!str_less("b", "abc"));
    assert!(!str_less("x", "x"));
    let v = vec!["pear".to_string(), "apple".to_string(), "fig".to_string(), "apple".to_string()];
    assert_eq!(sort_strings(&v), vec!["apple", "apple", "fig", "pear"]);
    let mut u: Vec<String> = Vec::new();
    insert_sorted_unique(&mut u, "b".into());
    insert_sorted_unique(&mut u, "a".into());
    insert_sorted_unique(&mut u, "b".into());
    assert_eq!(u, vec!["a", "b"]);
}

#[test]
fn palette_rows_and_picks() {
    let mut st = PaletteState::new();
    st.toggle();
    assert!(st.open);
    st.set_query("exp".to_string());
    let files = vec![PaletteFile { path: "/w/expenses.writee".into(), name: "expenses.writee".into() }];
    let rows = collect_rows(&st, &files, &Vec::new());
    assert_eq!(rows.len(), 4);
    match palette_pick(&rows, 3) {
        PaletteCommand::Open(p) => assert_eq!(p, "/w/expenses.writee"),
        _ => panic!("expected a file"),
    }
    assert!(matches!(palette_pick(&rows, 1), PaletteCommand::Unavailable(PaletteAction::ExportPdf)));
    assert!(matches!(palette_pick(&rows, 0), PaletteCommand::Run(PaletteAction::ExportMarkdown)));
    assert!(matches!(palette_pick(&rows, 9), PaletteCommand::Nothing));
    st.move_focus(true, false, 4);
    assert_eq!(st.focus, 1);
    st.move_focus(true, false, 2);
    assert_eq!(st.focus, 1);
    st.move_focus(false, true, 2);
    st.move_focus(false, true, 2);
    assert_eq!(st.focus, 0);
    st.close();
    assert!(!st.open && st.query.is_empty());
    assert!(fuzzy_match("New whiteboard", "nwb"));
    assert!(!fuzzy_match("Fit", "tf"));
}

#[test]
fn palette_content_rows_need_two_bytes() {
    let mut st = PaletteState::new();
    st.toggle();
    st.set_query("z".to_string());
    let hits = vec![Hit { file: "/w/a.writee".into(), object_id: 1, kind: HitKind::TextBox, snippet: "z".into() }];
    assert!(collect_rows(&st, &Vec::new(), &hits).is_empty());
    st.set_query("zz".to_string());
    let rows = collect_rows(&st, &Vec::new(), &hits);
    assert_eq!(rows.len(), 1);
    assert!(matches!(&rows[0], PaletteRow::Content { .. }));
}

#[test]
fn byte_search() {
    assert_eq!(find_bytes(b"hello", b"ll"), Some(2));
    assert_eq!(find_bytes(b"hello", b""), Some(0));
    assert_eq!(find_bytes(b"hello", b"z"), None);
    assert_eq!(find_bytes(b"ab", b"abc"), None);
}

#[test]
fn search_cache_search() {
    let objs = vec![
        (1u64, SearchSource::TextBox { content: "The Quick fox".into() }),
        (2u64, SearchSource::Note { title: "Fox facts".into(), inline: Some("no".into()) }),
        (3u64, SearchSource::Other),
    ];
    let rows = rows_for(&objs);
    assert_eq!(rows.len(), 3);
    assert_eq!(rows[0].lower, "the quick fox");
    let mut cache = SearchCache::new();
    assert!(!cache.is_fresh("/w/a.writee", Some(1)));
    cache.store("/w/a.writee".into(), Some(1), rows);
    assert!(cache.is_fresh("/w/a.writee", Some(1)));
    assert!(!cache.is_fresh("/w/a.writee", Some(2)));
    let paths = vec!["/w/a.writee".to_string(), "/w/b.writee".to_string()];
    let hits = cache.search(&paths, "  FOX ");
    assert_eq!(hits.len(), 2);
    assert_eq!(hits[0].object_id, 1);
    assert_eq!(hits[0].snippet, "The Quick fox");
    assert_eq!(hits[1].kind, HitKind::NoteTitle);
    assert!(cache.search(&paths, "   ").is_empty());
    cache.forget("/w/a.writee");
    assert!(cache.search(&paths, "fox").is_empty());
}

#[test]
fn search_caps_hits_per_file() {
    let objs: Vec<(u64, SearchSource)> =
        (0..8u64).map(|i| (i, SearchSource::TextBox { content: "abc".into() })).collect();
    let mut cache = SearchCache::new();
    cache.store("/w/a.writee".into(), None, rows_for(&objs));
    let hits = cache.search(&vec!["/w/a.writee".to_string()], "b");
    assert_eq!(hits.len(), 5);
}

fn index_card(entries: Option<Vec<IndexEntry>>, files: Option<Vec<String>>) -> NoteLinks {
    NoteLinks { target_file: String::new(), is_inline: false, index_files: files, index_entries: entries }
}

#[test]
fn index_editor_opens_only_on_unlocked_index() {
    let card = index_card(None, Some(vec!["a.writee".into()]));
    assert!(IndexEditorState::open(1, &card, false, false, vec![]).is_none());
    assert!(IndexEditorState::open(1, &card, true, true, vec![]).is_none());
    let st = IndexEditorState::open(1, &card, true, false, vec!["x.writee".into()]).unwrap();
    assert_eq!(st.entries, vec![IndexEntry::File { file: "a.writee".into() }]);
    assert_eq!(st.add_file_selected.as_deref(), Some("x.writee"));
}

#[test]
fn index_editor_actions() {
    let card = index_card(Some(vec![
        IndexEntry::Heading { text: "H".into() },
        IndexEntry::File { file: "a.writee".into() },
    ]), None);
    let mut st = IndexEditorState::open(3, &card, true, false, vec!["a.writee".into(), "b.writee".into()]).unwrap();
    let mut a = IndexEditorActions::default();
    a.move_up = Some(1);
    st.apply(&a);
    assert_eq!(st.entries[0], IndexEntry::File { file: "a.writee".into() });
    let mut a = IndexEditorActions::default();
    a.move_down = Some(0);
    st.apply(&a);
    assert_eq!(st.entries[0], IndexEntry::Heading { text: "H".into() });
    let mut a = IndexEditorActions::default();
    a.add_all_missing = true;
    a.add_heading = Some("More".into());
    st.apply(&a);
    assert_eq!(st.entries.len(), 4);
    assert_eq!(st.entries[3], IndexEntry::File { file: "b.writee".into() });
    let mut a = IndexEditorActions::default();
    a.remove = Some(0);
    st.apply(&a);
    assert_eq!(st.entries.len(), 3);
    let committed = st.commit(&card);
    assert!(committed.index_files.is_none());
    assert_eq!(committed.index_entries.as_ref().map(|v| v.len()), Some(3));
    let mut a = IndexEditorActions::default();
    a.clear_all = true;
    st.apply(&a);
    assert!(st.entries.is_empty());
}

#[test]
fn ui_defaults_and_rows() {
    let a = UiActions::default();
    assert!(a.set_tool.is_none() && !a.undo && a.palette_pick.is_none());
    let rows = editor_rows(&vec![IndexEntry::File { file: "f".into() }, IndexEntry::Heading { text: "h".into() }]);
    assert_eq!(rows, vec![IndexEditorEntry::File { file: "f".into() }, IndexEditorEntry::Heading { text: "h".into() }]);
}

#[test]
fn recovery_applies_only_to_its_file() {
    assert!(snapshot_applies(Some("/w/a.writee"), "/w/a.writee"));
    assert!(!snapshot_applies(Some("/w/b.writee"), "/w/a.writee"));
    assert!(!snapshot_applies(None, "/w/a.writee"));
    assert!(!restores_wet_stroke(0));
    assert!(!restores_wet_stroke(1));
    assert!(restores_wet_stroke(2));
}

#[test]
fn search_with_a_lowered_query() {
    let mut cache = SearchCache::new();
    let rows = rows_for(&vec![(1, SearchSource::TextBox { content: "The Quick Fox".to_string() })]);
    cache.store("/w/a.writee".to_string(), Some(1), rows);
    let paths = vec!["/w/a.writee".to_string()];
    let hits = cache.search_lowered(&paths, &"quick".to_string());
    assert_eq!(hits.len(), 1);
    assert_eq!(hits[0].snippet, "The Quick Fox");
    // The rows hold lower-cased text, so an upper-case query finds nothing here.
    assert!(cache.search_lowered(&paths, &"Quick".to_string()).is_empty());
    assert!(cache.search_lowered(&paths, &String::new()).is_empty());
}

#[test]
fn search_keeps_hits_after_case_folding() {
    let mut cache = SearchCache::new();
    let rows = rows_for(&vec![(1, SearchSource::TextBox { content: "\u{130}ab".to_string() })]);
    cache.store("/w/x.writee".to_string(), Some(1), rows);
    let hits = cache.search(&vec!["/w/x.writee".to_string()], "ab");
    assert_eq!(hits.len(), 1);
    assert!(hits[0].snippet.contains("ab"));
}

#[test]
fn search_caps_every_file() {
    let objs: Vec<(u64, SearchSource)> =
        (0..8u64).map(|i| (i, SearchSource::TextBox { content: "abc".into() })).collect();
    let mut cache = SearchCache::new();
    cache.store("/w/a.writee".into(), None, rows_for(&objs));
    cache.store("/w/b.writee".into(), None, rows_for(&objs));
    let hits = cache.search(&vec!["/w/a.writee".to_string(), "/w/b.writee".to_string()], "b");
    assert_eq!(hits.len(), 10);
    assert_eq!(hits.iter().filter(|h| h.file == "/w/a.writee").count(), 5);
    assert_eq!(hits.iter().filter(|h| h.file == "/w/b.writee").count(), 5);
}
