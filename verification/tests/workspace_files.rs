use writee::sidebar::{clicked_tag_filter, row_label, sidebar_rows, SidebarRow};
use writee::tool::Tool;
use writee::ui::window_title;
use writee::links::{NoteLinks, rewrite_note_links, note_mentions};
use writee::model::IndexEntry;
use writee::names::{decimal, display_name_for_file, slugify, strip_trash_prefix, trash_file_name, numbered_file_name, after_underscore};
use writee::workspace::{
    join_path, root_from_marker, sidecar_name, rename_plan, index_rows, FileLinks, RenamePlan,
    ResolvedIndexEntry, TreeNode, Workspace, WorkspaceTree, filter_tree,
};

fn ws() -> Workspace {
    Workspace::discover_or_create("/home/u/Writee".to_string())
}

fn linked(target: &str) -> NoteLinks {
    NoteLinks { target_file: target.to_string(), is_inline: false, index_files: None, index_entries: None }
}

fn inline_note() -> NoteLinks {
    NoteLinks { target_file: String::new(), is_inline: true, index_files: None, index_entries: None }
}

#[test]
fn special_paths() {
    let w = ws();
    assert_eq!(w.current_file, "/home/u/Writee/_welcome.writee");
    assert_eq!(w.index_file_path(), "/home/u/Writee/_index.writee");
    assert_eq!(w.welcome_file_path(), "/home/u/Writee/_welcome.writee");
    assert_eq!(w.trash_dir(), "/home/u/Writee/.trash");
}

#[test]
fn join_adds_one_separator() {
    assert_eq!(join_path("/a/", "b"), "/a/b");
    assert_eq!(join_path("/a", "b"), "/a/b");
    assert_eq!(join_path("", "b"), "b");
}

#[test]
fn marker_contents_are_trimmed() {
    assert_eq!(root_from_marker("  /data/Writee\n"), "/data/Writee");
}

#[test]
fn next_file_cycles() {
    let mut w = ws();
    let files = vec!["/home/u/Writee/a.writee".to_string(), "/home/u/Writee/b.writee".to_string()];
    w.current_file = files[1].clone();
    assert_eq!(w.next_file(&files), Some(files[0].clone()));
    w.current_file = files[0].clone();
    assert_eq!(w.next_file(&files), Some(files[1].clone()));
    w.current_file = "/elsewhere.writee".to_string();
    assert_eq!(w.next_file(&files), None);
    assert_eq!(w.next_file(&vec![files[0].clone()]), None);
}

#[test]
fn next_untitled_skips_taken_names() {
    let w = ws();
    assert_eq!(w.next_untitled(&vec![]), "/home/u/Writee/untitled.writee");
    let taken = vec!["untitled.writee".to_string(), "untitled-2.writee".to_string(), "x.writee".to_string()];
    assert_eq!(w.next_untitled(&taken), "/home/u/Writee/untitled-3.writee");
}

#[test]
fn restore_target_strips_timestamp_and_avoids_clash() {
    let w = ws();
    assert_eq!(w.restore_target("1716843200_my_note", &vec![]), "/home/u/Writee/my_note.writee");
    let taken = vec!["my_note.writee".to_string()];
    assert_eq!(w.restore_target("1716843200_my_note", &taken), "/home/u/Writee/my_note-2.writee");
}

#[test]
fn decimal_numbers() {
    assert_eq!(decimal(0), "0");
    assert_eq!(decimal(7), "7");
    assert_eq!(decimal(1716843200), "1716843200");
    assert_eq!(decimal(u64::MAX), "18446744073709551615");
}

#[test]
fn numbered_names() {
    assert_eq!(numbered_file_name("a", 1), "a.writee");
    assert_eq!(numbered_file_name("a", 12), "a-12.writee");
}

#[test]
fn display_names() {
    assert_eq!(display_name_for_file("_welcome.writee"), "welcome");
    assert_eq!(display_name_for_file("notes.writee"), "notes");
    assert_eq!(display_name_for_file("plain"), "plain");
}

#[test]
fn trash_names_round_trip() {
    let name = trash_file_name(1716843200, "my_note");
    assert_eq!(name, "1716843200_my_note.writee");
    assert_eq!(strip_trash_prefix(&name), "my_note");
    assert_eq!(strip_trash_prefix("1716843200_my-note.writee"), "my-note");
    assert_eq!(strip_trash_prefix("nounderscore.writee"), "nounderscore");
    assert_eq!(after_underscore("a_b_c"), "b_c");
}

#[test]
fn slugs() {
    assert_eq!(slugify("Coulomb's Law!"), "coulomb-s-law");
    assert_eq!(slugify("  --  "), "note");
    assert_eq!(slugify("ÄBC  9"), "bc-9");
    assert_eq!(slugify("a--b"), "a-b");
}

#[test]
fn sidecars() {
    assert_eq!(sidecar_name("x.writee", "writee-wal"), "x.writee-wal");
    assert_eq!(sidecar_name("x", "writee-shm"), "x.writee-shm");
}

#[test]
fn rename_plans() {
    let taken = vec!["a.writee".to_string(), "taken.writee".to_string()];
    assert!(matches!(rename_plan("a.writee", "A", &taken), RenamePlan::Unchanged));
    match rename_plan("a.writee", "Taken", &taken) {
        RenamePlan::Taken(n) => assert_eq!(n, "taken.writee"),
        _ => panic!("expected a clash"),
    }
    match rename_plan("a.writee", "New Name", &taken) {
        RenamePlan::Rename(n) => assert_eq!(n, "new-name.writee"),
        _ => panic!("expected a rename"),
    }
}

#[test]
fn linked_note_names() {
    let w = ws();
    assert_eq!(w.linked_note_file_name("", &vec![]), "note.writee");
    let taken = vec!["my-idea.writee".to_string()];
    assert_eq!(w.linked_note_file_name("My Idea", &taken), "my-idea-2.writee");
}

#[test]
fn note_link_rewrite() {
    let mut l = linked("old.writee");
    l.index_files = Some(vec!["old.writee".into(), "keep.writee".into()]);
    l.index_entries = Some(vec![
        IndexEntry::File { file: "old.writee".into() },
        IndexEntry::Heading { text: "old.writee".into() },
    ]);
    let r = rewrite_note_links(&l, "old.writee", "new.writee").unwrap();
    assert_eq!(r.target_file, "new.writee");
    assert_eq!(r.index_files, Some(vec!["new.writee".to_string(), "keep.writee".to_string()]));
    assert_eq!(
        r.index_entries,
        Some(vec![IndexEntry::File { file: "new.writee".into() }, IndexEntry::Heading { text: "old.writee".into() }])
    );
    assert!(rewrite_note_links(&linked("other.writee"), "old.writee", "new.writee").is_none());
    assert!(note_mentions(&l, "keep.writee"));
    assert!(!note_mentions(&l, "nope.writee"));
}

fn scan() -> Vec<FileLinks> {
    vec![
        FileLinks { name: "a.writee".into(), notes: vec![(1, linked("b.writee")), (2, linked("c.writee")), (3, inline_note())] },
        FileLinks { name: "b.writee".into(), notes: vec![(5, linked("c.writee")), (6, linked("missing.writee"))] },
        FileLinks { name: "c.writee".into(), notes: vec![] },
        FileLinks { name: "d.writee".into(), notes: vec![(9, linked("b.writee"))] },
    ]
}

#[test]
fn workspace_rewrite_links_counts_files() {
    let w = ws();
    let (n, ups) = w.rewrite_links("c.writee", "z.writee", &scan());
    assert_eq!(n, 2);
    assert_eq!(ups.len(), 2);
    assert_eq!((ups[0].file, ups[0].id), (0, 2));
    assert_eq!((ups[1].file, ups[1].id), (1, 5));
    assert_eq!(ups[0].links.target_file, "z.writee");
    let (n0, ups0) = w.rewrite_links("c.writee", "c.writee", &scan());
    assert_eq!((n0, ups0.len()), (0, 0));
}

#[test]
fn workspace_backlinks() {
    let w = ws();
    assert_eq!(w.backlinks("b.writee", &scan()), vec!["a.writee".to_string(), "d.writee".to_string()]);
    assert_eq!(w.backlinks("c.writee", &scan()), vec!["a.writee".to_string(), "b.writee".to_string()]);
    assert!(w.backlinks("a.writee", &scan()).is_empty());
}

#[test]
fn workspace_tree() {
    let w = ws();
    let t = w.build_tree(&scan());
    assert_eq!(t.roots, vec!["a.writee".to_string(), "d.writee".to_string()]);
    assert_eq!(t.children.len(), 3);
    assert_eq!(t.children[0].parent, "a.writee");
    assert_eq!(t.children[0].children, vec!["b.writee".to_string(), "c.writee".to_string()]);
    assert_eq!(t.children[1].parent, "b.writee");
    assert_eq!(t.children[1].children, vec!["c.writee".to_string()]);
    assert_eq!(t.children[2].parent, "d.writee");
}

#[test]
fn index_rows_fall_back_to_listing() {
    let listed = vec!["a.writee".to_string(), "b.writee".to_string()];
    let mut l = linked("");
    assert_eq!(index_rows(&l, &listed).len(), 2);
    l.index_files = Some(vec!["b.writee".into()]);
    assert_eq!(index_rows(&l, &listed), vec![IndexEntry::File { file: "b.writee".into() }]);
    l.index_entries = Some(vec![]);
    assert_eq!(index_rows(&l, &listed).len(), 2);
    l.index_entries = Some(vec![IndexEntry::Heading { text: "H".into() }]);
    assert_eq!(index_rows(&l, &listed), vec![IndexEntry::Heading { text: "H".into() }]);
}

#[test]
fn resolved_index_rows() {
    let w = ws();
    let rows = vec![
        (IndexEntry::Heading { text: "Papers".into() }, false),
        (IndexEntry::File { file: "_intro.writee".into() }, true),
        (IndexEntry::File { file: "gone.writee".into() }, false),
    ];
    let r = w.resolve_index_entries(&rows);
    assert_eq!(r.len(), 2);
    match &r[0] {
        ResolvedIndexEntry::Heading { text } => assert_eq!(text, "Papers"),
        _ => panic!("heading expected"),
    }
    match &r[1] {
        ResolvedIndexEntry::File { path, display } => {
            assert_eq!(path, "/home/u/Writee/_intro.writee");
            assert_eq!(display, "intro");
        }
        _ => panic!("file expected"),
    }
}

#[test]
fn list_files_filters_and_sorts() {
    let w = ws();
    let names = vec![
        "b.writee".to_string(),
        "_index.writee".to_string(),
        ".writee".to_string(),
        "notes.txt".to_string(),
        "a.writee".to_string(),
        ".trash".to_string(),
    ];
    assert_eq!(
        w.list_files(&names),
        vec!["/home/u/Writee/a.writee".to_string(), "/home/u/Writee/b.writee".to_string()]
    );
}

#[test]
fn window_titles() {
    assert_eq!(window_title(Some("a.writee"), Some(Tool::Pen)), "writee \u{2014} a.writee  \u{b7}  pen");
    assert_eq!(window_title(None, None), "writee \u{2014} untitled  \u{b7}  -");
}

#[test]
fn marker_trim_covers_unicode_whitespace() {
    assert_eq!(root_from_marker("\u{a0}\t/x y\u{3000}\u{2028}"), "/x y");
}

fn node(parent: &str, children: &[&str]) -> TreeNode {
    TreeNode { parent: parent.to_string(), children: children.iter().map(|c| c.to_string()).collect() }
}

fn shape(rows: &[SidebarRow]) -> Vec<(String, usize, bool)> {
    rows.iter().map(|r| (r.name.clone(), r.depth, r.has_children)).collect()
}

#[test]
fn sidebar_walks_depth_first_once() {
    let t = WorkspaceTree {
        roots: vec!["a".to_string(), "d".to_string()],
        children: vec![node("a", &["b", "c"]), node("b", &["c", "d"])],
    };
    let rows = sidebar_rows(&t);
    assert_eq!(
        shape(&rows),
        vec![
            ("a".to_string(), 0, true),
            ("b".to_string(), 1, true),
            ("c".to_string(), 2, false),
            ("d".to_string(), 2, false),
        ]
    );
}

#[test]
fn sidebar_survives_cycles() {
    let t = WorkspaceTree {
        roots: vec!["x".to_string()],
        children: vec![node("x", &["y"]), node("y", &["x"])],
    };
    let rows = sidebar_rows(&t);
    assert_eq!(shape(&rows), vec![("x".to_string(), 0, true), ("y".to_string(), 1, true)]);
    let empty = WorkspaceTree { roots: vec![], children: vec![] };
    assert!(sidebar_rows(&empty).is_empty());
}

#[test]
fn sidebar_labels_and_tag_clicks() {
    assert_eq!(row_label("welcome.writee", "welcome.writee"), "* welcome.writee");
    assert_eq!(row_label("a.writee", "welcome.writee"), "a.writee");
    assert_eq!(clicked_tag_filter(Some("math"), "math"), None);
    assert_eq!(clicked_tag_filter(Some("math"), "art"), Some("art".to_string()));
    assert_eq!(clicked_tag_filter(None, "art"), Some("art".to_string()));
}

#[test]
fn on_the_index_file() {
    let mut w = ws();
    assert!(w.is_on_index_file());
    w.current_file = "/home/u/Writee/other.writee".to_string();
    assert!(!w.is_on_index_file());
}

#[test]
fn self_linking_file_stays_a_root() {
    let w = ws();
    let files = vec![
        FileLinks { name: "a.writee".to_string(), notes: vec![(1, linked("a.writee"))] },
        FileLinks { name: "b.writee".to_string(), notes: vec![] },
    ];
    let t = w.build_tree(&files);
    assert_eq!(t.roots, vec!["a.writee".to_string(), "b.writee".to_string()]);
    assert_eq!(t.children.len(), 1);
    assert_eq!(t.children[0].parent, "a.writee");
    assert_eq!(t.children[0].children, vec!["a.writee".to_string()]);
    let rows = sidebar_rows(&t);
    assert_eq!(shape(&rows), vec![("a.writee".to_string(), 0, true), ("b.writee".to_string(), 0, false)]);
}

#[test]
fn tag_filter_restricts_the_tree() {
    let t = WorkspaceTree {
        roots: vec!["a".to_string(), "d".to_string()],
        children: vec![node("a", &["b", "c"]), node("b", &["c", "d"])],
    };
    let allowed = vec!["c".to_string(), "b".to_string(), "d".to_string()];
    let f = filter_tree(&t, &allowed);
    assert_eq!(f.roots, vec!["b".to_string()]);
    assert_eq!(f.children.len(), 1);
    assert_eq!(f.children[0].parent, "b");
    assert_eq!(f.children[0].children, vec!["c".to_string(), "d".to_string()]);

    let f2 = filter_tree(&t, &vec!["c".to_string(), "a".to_string(), "a".to_string()]);
    assert_eq!(f2.roots, vec!["a".to_string()]);
    assert_eq!(f2.children[0].children, vec!["c".to_string()]);
    let rows = sidebar_rows(&f2);
    assert_eq!(shape(&rows), vec![("a".to_string(), 0, true), ("c".to_string(), 1, false)]);
}

#[test]
fn trashed_file_comes_back_under_its_stem() {
    let w = ws();
    let trashed = trash_file_name(1700000000, "notes");
    assert_eq!(trashed, "1700000000_notes.writee");
    let stem = trashed.strip_suffix(".writee").unwrap();
    assert_eq!(w.restore_target(stem, &vec![]), "/home/u/Writee/notes.writee");
    assert_eq!(
        w.restore_target(stem, &vec!["notes.writee".to_string()]),
        "/home/u/Writee/notes-2.writee"
    );
}

#[test]
fn tag_filter_counts_a_surviving_self_link() {
    let t = WorkspaceTree { roots: vec!["x".to_string()], children: vec![node("x", &["x"])] };
    let f = filter_tree(&t, &vec!["x".to_string()]);
    assert!(f.roots.is_empty());
    assert_eq!(f.children[0].children, vec!["x".to_string()]);
}

#[test]
fn welcome_canvas_seed() {
    let w = writee::workspace::welcome_seed();
    assert_eq!(w.title, "Welcome");
    assert!(w.locked_notes);
    assert_eq!(w.texts.len(), 2);
    assert_eq!((w.texts[0].id, w.texts[0].x, w.texts[0].y, w.texts[0].font_size), (1, -560, -280, 32));
    assert_eq!(w.texts[0].content, "writee");
    assert_eq!((w.texts[1].id, w.texts[1].x, w.texts[1].y, w.texts[1].font_size), (2, -560, -230, 14));
    assert!(w.texts[1].content.starts_with("Press N to drop a note anywhere."));
    assert_eq!((w.card_id, w.card_x, w.card_y), (3, -180, -180));
    assert_eq!(w.card.title, "Workspace");
    assert!(w.card.is_index && w.card.locked && w.card.inline_content.is_none());
}

#[test]
fn blank_headings_are_refused() {
    assert_eq!(writee::index_editor::heading_to_add("  Part two \t"), Some("Part two".to_string()));
    assert_eq!(writee::index_editor::heading_to_add(" \u{3000} "), None);
}
