//! The part of a note that refers to other files: a linked note's target,
//! and an index card's curated entries (new style) and file list (legacy).
use vstd::prelude::*;
use crate::model::IndexEntry;
use crate::strings::{str_eq, views};

verus! {

/// What a note links to.
#[derive(Debug, Clone)]
pub struct NoteLinks {
    /// The linked file; empty for an inline note.
    pub target_file: String,
    /// Whether the note keeps its text inline instead of linking a file.
    pub is_inline: bool,
    /// Legacy curated file list of an index card.
    pub index_files: Option<Vec<String>>,
    /// Curated entries of an index card.
    pub index_entries: Option<Vec<IndexEntry>>,
}

/// An index entry as (is a file row, its text).
pub open spec fn entry_view(e: IndexEntry) -> (bool, Seq<char>) {
    match e {
        IndexEntry::File { file } => (true, file@),
        IndexEntry::Heading { text } => (false, text@),
    }
}

pub open spec fn entries_view(v: Seq<IndexEntry>) -> Seq<(bool, Seq<char>)> {
    v.map_values(|e: IndexEntry| entry_view(e))
}

/// A note that points at a separate file.
pub open spec fn is_linked(l: NoteLinks) -> bool {
    !l.is_inline && l.target_file@.len() > 0
}

/// The note refers to file `f`: as its target, as a file entry, or in
/// its legacy file list.
pub open spec fn mentions(l: NoteLinks, f: Seq<char>) -> bool {
    ||| l.target_file@ == f
    ||| (l.index_entries is Some && entries_view(l.index_entries->0@).contains((true, f)))
    ||| (l.index_files is Some && views(l.index_files->0@).contains(f))
}

pub open spec fn renamed(s: Seq<char>, old: Seq<char>, new: Seq<char>) -> Seq<char> {
    if s == old {
        new
    } else {
        s
    }
}

pub open spec fn renamed_entry(e: (bool, Seq<char>), old: Seq<char>, new: Seq<char>) -> (
    bool,
    Seq<char>,
) {
    if e.0 && e.1 == old {
        (true, new)
    } else {
        e
    }
}

/// `r` is `l` with every reference to `old` turned into one to `new`.
pub open spec fn is_renamed(l: NoteLinks, r: NoteLinks, old: Seq<char>, new: Seq<char>) -> bool {
    &&& r.target_file@ == renamed(l.target_file@, old, new)
    &&& r.is_inline == l.is_inline
    &&& match (l.index_files, r.index_files) {
        (None, None) => true,
        (Some(a), Some(b)) => views(b@) == views(a@).map_values(
            |s: Seq<char>| renamed(s, old, new),
        ),
        _ => false,
    }
    &&& match (l.index_entries, r.index_entries) {
        (None, None) => true,
        (Some(a), Some(b)) => entries_view(b@) == entries_view(a@).map_values(
            |e: (bool, Seq<char>)| renamed_entry(e, old, new),
        ),
        _ => false,
    }
}

fn renamed_string(s: &String, old: &str, new: &str) -> (r: (String, bool))
    ensures
        r.0@ == renamed(s@, old@, new@),
        r.1 == (s@ == old@),
{
    if str_eq(s.as_str(), old) {
        (new.to_owned(), true)
    } else {
        (s.clone(), false)
    }
}

fn rename_files(v: &Vec<String>, old: &str, new: &str) -> (r: (Vec<String>, bool))
    ensures
        views(r.0@) == views(v@).map_values(|s: Seq<char>| renamed(s, old@, new@)),
        r.1 == views(v@).contains(old@),
{
    let mut out: Vec<String> = Vec::new();
    let mut changed = false;
    let mut i: usize = 0;
    while i < v.len()
        invariant
            i <= v@.len(),
            views(out@) == views(v@.take(i as int)).map_values(
                |s: Seq<char>| renamed(s, old@, new@),
            ),
            changed == views(v@.take(i as int)).contains(old@),
        decreases v@.len() - i,
    {
        let (s, c) = renamed_string(&v[i], old, new);
        proof {
            assert(views(v@.take(i + 1)) =~= views(v@.take(i as int)).push(v@[i as int]@));
            assert(views(out@.push(s)) =~= views(out@).push(s@));
            if c {
                assert(views(v@.take(i + 1))[i as int] == old@);
            }
            let ghost nv = views(v@.take(i + 1));
            if nv.contains(old@) && !c {
                let k = choose|k: int| 0 <= k < nv.len() && #[trigger] nv[k] == old@;
                assert(views(v@.take(i as int))[k] == old@);
            }
            let ghost pv = views(v@.take(i as int));
            if pv.contains(old@) {
                let k = choose|k: int| 0 <= k < pv.len() && #[trigger] pv[k] == old@;
                assert(nv[k] == old@);
            }
        }
        out.push(s);
        changed = changed || c;
        i = i + 1;
        proof {
            assert(views(out@) =~= views(v@.take(i as int)).map_values(
                |s: Seq<char>| renamed(s, old@, new@),
            ));
        }
    }
    assert(v@.take(v@.len() as int) =~= v@);
    (out, changed)
}

fn rename_entries(v: &Vec<IndexEntry>, old: &str, new: &str) -> (r: (Vec<IndexEntry>, bool))
    ensures
        entries_view(r.0@) == entries_view(v@).map_values(
            |e: (bool, Seq<char>)| renamed_entry(e, old@, new@),
        ),
        r.1 == entries_view(v@).contains((true, old@)),
{
    let mut out: Vec<IndexEntry> = Vec::new();
    let mut changed = false;
    let mut i: usize = 0;
    while i < v.len()
        invariant
            i <= v@.len(),
            entries_view(out@) == entries_view(v@.take(i as int)).map_values(
                |e: (bool, Seq<char>)| renamed_entry(e, old@, new@),
            ),
            changed == entries_view(v@.take(i as int)).contains((true, old@)),
        decreases v@.len() - i,
    {
        let (e, c) = match &v[i] {
            IndexEntry::File { file } => {
                let (f, c) = renamed_string(file, old, new);
                (IndexEntry::File { file: f }, c)
            },
            IndexEntry::Heading { text } => (IndexEntry::Heading { text: text.clone() }, false),
        };
        proof {
            assert(entries_view(v@.take(i + 1)) =~= entries_view(v@.take(i as int)).push(
                entry_view(v@[i as int]),
            ));
            assert(entries_view(out@.push(e)) =~= entries_view(out@).push(entry_view(e)));
            if c {
                assert(entries_view(v@.take(i + 1))[i as int] == (true, old@));
            }
            let ghost nv = entries_view(v@.take(i + 1));
            if nv.contains((true, old@)) && !c {
                let k = choose|k: int| 0 <= k < nv.len() && #[trigger] nv[k] == (true, old@);
                assert(entries_view(v@.take(i as int))[k] == (true, old@));
            }
            let ghost pv = entries_view(v@.take(i as int));
            if pv.contains((true, old@)) {
                let k = choose|k: int| 0 <= k < pv.len() && #[trigger] pv[k] == (true, old@);
                assert(nv[k] == (true, old@));
            }
        }
        out.push(e);
        changed = changed || c;
        i = i + 1;
        proof {
            assert(entries_view(out@) =~= entries_view(v@.take(i as int)).map_values(
                |e: (bool, Seq<char>)| renamed_entry(e, old@, new@),
            ));
        }
    }
    assert(v@.take(v@.len() as int) =~= v@);
    (out, changed)
}

/// A note's links with `old` renamed to `new`, or `None` when the note
/// does not mention `old`.
pub fn rewrite_note_links(l: &NoteLinks, old: &str, new: &str) -> (r: Option<NoteLinks>)
    ensures
        r is Some <==> mentions(*l, old@),
        r is Some ==> is_renamed(*l, r->0, old@, new@),
{
    let (target_file, c1) = renamed_string(&l.target_file, old, new);
    let (index_entries, c2) = match &l.index_entries {
        Some(es) => {
            let (v, c) = rename_entries(es, old, new);
            (Some(v), c)
        },
        None => (None, false),
    };
    let (index_files, c3) = match &l.index_files {
        Some(fs) => {
            let (v, c) = rename_files(fs, old, new);
            (Some(v), c)
        },
        None => (None, false),
    };
    if c1 || c2 || c3 {
        Some(NoteLinks { target_file, is_inline: l.is_inline, index_files, index_entries })
    } else {
        None
    }
}

/// Whether the note refers to file `f`.
pub fn note_mentions(l: &NoteLinks, f: &str) -> (b: bool)
    ensures
        b == mentions(*l, f@),
{
    rewrite_note_links(l, f, f).is_some()
}

/// Whether the note points at a separate file.
pub fn note_is_linked(l: &NoteLinks) -> (b: bool)
    ensures
        b == is_linked(*l),
{
    !l.is_inline && l.target_file.unicode_len() > 0
}

/// A copy of an index entry.
pub fn copy_entry(e: &IndexEntry) -> (r: IndexEntry)
    ensures
        entry_view(r) == entry_view(*e),
{
    match e {
        IndexEntry::File { file } => IndexEntry::File { file: file.clone() },
        IndexEntry::Heading { text } => IndexEntry::Heading { text: text.clone() },
    }
}

/// A copy of a list of index entries.
pub fn copy_entries(v: &Vec<IndexEntry>) -> (r: Vec<IndexEntry>)
    ensures
        entries_view(r@) == entries_view(v@),
{
    let mut out: Vec<IndexEntry> = Vec::new();
    let mut i: usize = 0;
    while i < v.len()
        invariant
            i <= v@.len(),
            entries_view(out@) == entries_view(v@.take(i as int)),
        decreases v@.len() - i,
    {
        let e = copy_entry(&v[i]);
        proof {
            assert(entries_view(out@.push(e)) =~= entries_view(out@).push(entry_view(e)));
            assert(entries_view(v@.take(i + 1)) =~= entries_view(v@.take(i as int)).push(entry_view(v@[i as int])));
        }
        out.push(e);
        i = i + 1;
    }
    assert(v@.take(v@.len() as int) =~= v@);
    out
}

/// File entries for each of `files`.
pub fn file_entries(files: &Vec<String>) -> (r: Vec<IndexEntry>)
    ensures
        entries_view(r@) == views(files@).map_values(|f: Seq<char>| (true, f)),
{
    let mut out: Vec<IndexEntry> = Vec::new();
    let mut i: usize = 0;
    while i < files.len()
        invariant
            i <= files@.len(),
            entries_view(out@) == views(files@.take(i as int)).map_values(|f: Seq<char>| (true, f)),
        decreases files@.len() - i,
    {
        let e = IndexEntry::File { file: files[i].clone() };
        proof {
            assert(entries_view(out@.push(e)) =~= entries_view(out@).push(entry_view(e)));
            assert(views(files@.take(i + 1)).map_values(|f: Seq<char>| (true, f)) =~= views(files@.take(i as int)).map_values(|f: Seq<char>| (true, f)).push((true, files@[i as int]@)));
        }
        out.push(e);
        i = i + 1;
    }
    assert(files@.take(files@.len() as int) =~= files@);
    out
}

/// After renaming `old` to a different `new` in a note's links, the note
/// no longer refers to `old`, and it refers to `new` if it referred to `old`.
pub proof fn law_rename_moves_references(l: NoteLinks, r: NoteLinks, old: Seq<char>, new: Seq<char>)
    requires
        is_renamed(l, r, old, new),
        old != new,
    ensures
        !mentions(r, old),
        mentions(l, old) ==> mentions(r, new),
{
    if let (Some(a), Some(b)) = (l.index_files, r.index_files) {
        let va = views(a@);
        let vb = views(b@);
        if vb.contains(old) {
            let k = choose|k: int| 0 <= k < vb.len() && vb[k] == old;
            assert(vb[k] == renamed(va[k], old, new));
        }
        if va.contains(old) {
            let k = choose|k: int| 0 <= k < va.len() && va[k] == old;
            assert(vb[k] == new);
        }
    }
    if let (Some(a), Some(b)) = (l.index_entries, r.index_entries) {
        let ea = entries_view(a@);
        let eb = entries_view(b@);
        if eb.contains((true, old)) {
            let k = choose|k: int| 0 <= k < eb.len() && eb[k] == (true, old);
            assert(eb[k] == renamed_entry(ea[k], old, new));
        }
        if ea.contains((true, old)) {
            let k = choose|k: int| 0 <= k < ea.len() && ea[k] == (true, old);
            assert(eb[k] == (true, new));
        }
    }
}

} // verus!
