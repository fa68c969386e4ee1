//! The "edit index contents" modal: a working list of file rows and
//! headings that the user reorders, trims and extends, written back to the
//! index card on commit.
use vstd::prelude::*;
use crate::links::{NoteLinks, copy_entries, entries_view, entry_view, file_entries};
use crate::model::IndexEntry;
use crate::strings::{trim, trimmed, views};

verus! {

/// What the user did in the modal during one frame.
#[derive(Debug)]
pub struct IndexEditorActions {
    /// Move row i one step towards the top.
    pub move_up: Option<usize>,
    /// Move row i one step towards the bottom.
    pub move_down: Option<usize>,
    pub remove: Option<usize>,
    /// A workspace file to append as a row.
    pub add_file: Option<String>,
    /// A heading to append.
    pub add_heading: Option<String>,
    /// Append every workspace file that has no row yet.
    pub add_all_missing: bool,
    /// Remove every row.
    pub clear_all: bool,
}

impl Default for IndexEditorActions {
    fn default() -> (a: IndexEditorActions)
        ensures
            a.move_up is None,
            a.move_down is None,
            a.remove is None,
            a.add_file is None,
            a.add_heading is None,
            !a.add_all_missing,
            !a.clear_all,
    {
        IndexEditorActions {
            move_up: None,
            move_down: None,
            remove: None,
            add_file: None,
            add_heading: None,
            add_all_missing: false,
            clear_all: false,
        }
    }
}

/// The modal's working state.
#[derive(Debug)]
pub struct IndexEditorState {
    /// The index card being edited.
    pub object_id: u64,
    /// The rows, in display order.
    pub entries: Vec<IndexEntry>,
    /// Every workspace file when the modal opened.
    pub available_files: Vec<String>,
    /// The heading being typed.
    pub new_heading_text: String,
    /// The file picked in the "add file" list.
    pub add_file_selected: Option<String>,
}

type Rows = Seq<(bool, Seq<char>)>;

/// The rows a card starts with: its entries, else its legacy file list as
/// file rows, else none.
pub open spec fn seeded_rows(l: NoteLinks) -> Rows {
    match l.index_entries {
        Some(v) => entries_view(v@),
        None => match l.index_files {
            Some(f) => views(f@).map_values(|x: Seq<char>| (true, x)),
            None => Seq::empty(),
        },
    }
}

pub open spec fn swapped(e: Rows, i: int, j: int) -> Rows {
    e.update(i, e[j]).update(j, e[i])
}

pub open spec fn after_move_up(e: Rows, m: Option<usize>) -> Rows {
    match m {
        Some(i) => if 0 < i < e.len() { swapped(e, i - 1, i as int) } else { e },
        None => e,
    }
}

pub open spec fn after_move_down(e: Rows, m: Option<usize>) -> Rows {
    match m {
        Some(i) => if i + 1 < e.len() { swapped(e, i as int, i + 1) } else { e },
        None => e,
    }
}

pub open spec fn after_remove(e: Rows, m: Option<usize>) -> Rows {
    match m {
        Some(i) => if i < e.len() { e.remove(i as int) } else { e },
        None => e,
    }
}

pub open spec fn after_add(e: Rows, is_file: bool, t: Option<String>) -> Rows {
    match t {
        Some(s) => e.push((is_file, s@)),
        None => e,
    }
}

/// The available files that have no file row in `e`, in order, as rows.
pub open spec fn missing_rows(e: Rows, available: Seq<Seq<char>>) -> Rows {
    available.filter(not_listed(e)).map_values(|f: Seq<char>| (true, f))
}

/// Files with no file row in `e`.
pub open spec fn not_listed(e: Rows) -> spec_fn(Seq<char>) -> bool {
    |f: Seq<char>| !e.contains((true, f))
}

pub open spec fn after_add_missing(e: Rows, flag: bool, available: Seq<Seq<char>>) -> Rows {
    if flag {
        e + missing_rows(e, available)
    } else {
        e
    }
}

/// The rows after one frame's actions, applied in a fixed order: move up,
/// move down, remove, add file, add heading, add missing, clear.
pub open spec fn after_actions(e: Rows, a: IndexEditorActions, available: Seq<Seq<char>>) -> Rows {
    let e1 = after_move_up(e, a.move_up);
    let e2 = after_move_down(e1, a.move_down);
    let e3 = after_remove(e2, a.remove);
    let e4 = after_add(e3, true, a.add_file);
    let e5 = after_add(e4, false, a.add_heading);
    let e6 = after_add_missing(e5, a.add_all_missing, available);
    if a.clear_all {
        Seq::empty()
    } else {
        e6
    }
}

fn swap_adjacent(v: &mut Vec<IndexEntry>, i: usize)
    requires
        i + 1 < old(v)@.len(),
    ensures
        entries_view(final(v)@) == swapped(entries_view(old(v)@), i as int, i + 1),
{
    let ghost ov = entries_view(v@);
    let n = v.len();
    assert(i + 1 < n);
    let x = v.remove(i + 1);
    v.insert(i, x);
    assert(entries_view(v@) =~= swapped(ov, i as int, i + 1));
}

fn move_up(v: &mut Vec<IndexEntry>, m: Option<usize>)
    ensures
        entries_view(final(v)@) == after_move_up(entries_view(old(v)@), m),
{
    if let Some(i) = m {
        if i > 0 && i < v.len() {
            swap_adjacent(v, i - 1);
        }
    }
}

fn move_down(v: &mut Vec<IndexEntry>, m: Option<usize>)
    ensures
        entries_view(final(v)@) == after_move_down(entries_view(old(v)@), m),
{
    if let Some(i) = m {
        if i < v.len() && i + 1 < v.len() {
            swap_adjacent(v, i);
        }
    }
}

fn remove_row(v: &mut Vec<IndexEntry>, m: Option<usize>)
    ensures
        entries_view(final(v)@) == after_remove(entries_view(old(v)@), m),
{
    if let Some(i) = m {
        if i < v.len() {
            let ghost ov = entries_view(v@);
            v.remove(i);
            assert(entries_view(v@) =~= ov.remove(i as int));
        }
    }
}

fn add_row(v: &mut Vec<IndexEntry>, is_file: bool, t: &Option<String>)
    ensures
        entries_view(final(v)@) == after_add(entries_view(old(v)@), is_file, *t),
{
    if let Some(x) = t {
        let ghost ov = entries_view(v@);
        let e = if is_file {
            IndexEntry::File { file: x.clone() }
        } else {
            IndexEntry::Heading { text: x.clone() }
        };
        v.push(e);
        assert(entries_view(v@) =~= ov.push((is_file, x@)));
    }
}

fn has_file_row(v: &Vec<IndexEntry>, upto: usize, f: &String) -> (b: bool)
    requires
        upto <= v@.len(),
    ensures
        b == entries_view(v@.take(upto as int)).contains((true, f@)),
{
    let ghost ev = entries_view(v@.take(upto as int));
    let mut k: usize = 0;
    while k < upto
        invariant
            upto <= v@.len(),
            k <= upto,
            ev == entries_view(v@.take(upto as int)),
            forall|m: int| 0 <= m < k ==> ev[m] != (true, f@),
        decreases upto - k,
    {
        assert(ev[k as int] == entry_view(v@[k as int]));
        match &v[k] {
            IndexEntry::File { file } => {
                if *file == *f {
                    assert(ev[k as int] == (true, f@));
                    return true;
                }
            },
            IndexEntry::Heading { .. } => {},
        }
        k = k + 1;
    }
    proof {
        if ev.contains((true, f@)) {
            let m = choose|m: int| 0 <= m < ev.len() && ev[m] == (true, f@);
            assert(ev[m] != (true, f@));
        }
    }
    false
}

impl IndexEditorState {
    /// Opens the editor on index card `object_id`, seeded from its links;
    /// `None` when the card is not an index or is locked. The "add file"
    /// picker starts on the first available file.
    pub fn open(object_id: u64, links: &NoteLinks, is_index: bool, locked: bool, available_files: Vec<String>) -> (r: Option<IndexEditorState>)
        ensures
            r is None <==> (!is_index || locked),
            r matches Some(s) ==> {
                &&& s.object_id == object_id
                &&& entries_view(s.entries@) == seeded_rows(*links)
                &&& views(s.available_files@) == views(available_files@)
                &&& s.new_heading_text@.len() == 0
                &&& match s.add_file_selected {
                    Some(f) => available_files@.len() > 0 && f@ == available_files@[0]@,
                    None => available_files@.len() == 0,
                }
            },
    {
        if !is_index || locked {
            return None;
        }
        let entries = match &links.index_entries {
            Some(v) => copy_entries(v),
            None => match &links.index_files {
                Some(f) => file_entries(f),
                None => {
                    let e: Vec<IndexEntry> = Vec::new();
                    assert(entries_view(e@) =~= Seq::empty());
                    e
                },
            },
        };
        let add_file_selected = if available_files.len() > 0 {
            Some(available_files[0].clone())
        } else {
            None
        };
        Some(IndexEditorState {
            object_id,
            entries,
            available_files,
            new_heading_text: String::new(),
            add_file_selected,
        })
    }

    /// Applies one frame's row actions.
    pub fn apply(&mut self, a: &IndexEditorActions)
        ensures
            entries_view(final(self).entries@) == after_actions(
                entries_view(old(self).entries@),
                *a,
                views(old(self).available_files@),
            ),
            views(final(self).available_files@) == views(old(self).available_files@),
            final(self).object_id == old(self).object_id,
    {
        let ghost e0 = entries_view(self.entries@);
        move_up(&mut self.entries, a.move_up);
        move_down(&mut self.entries, a.move_down);
        remove_row(&mut self.entries, a.remove);
        add_row(&mut self.entries, true, &a.add_file);
        add_row(&mut self.entries, false, &a.add_heading);
        let ghost e5 = entries_view(self.entries@);
        if a.add_all_missing {
            self.add_missing();
        }
        if a.clear_all {
            self.entries.clear();
            assert(entries_view(self.entries@) =~= Seq::empty());
        }
    }

    fn add_missing(&mut self)
        ensures
            entries_view(final(self).entries@) == after_add_missing(
                entries_view(old(self).entries@),
                true,
                views(old(self).available_files@),
            ),
            views(final(self).available_files@) == views(old(self).available_files@),
            final(self).object_id == old(self).object_id,
    {
        let n0 = self.entries.len();
        let ghost e = entries_view(self.entries@);
        let ghost av = views(self.available_files@);
        let ghost pred = not_listed(e);
        let mut j: usize = 0;
        proof {
            assert(self.entries@.take(n0 as int) =~= self.entries@);
            assert(av.take(0).filter(pred) =~= Seq::<Seq<char>>::empty());
            assert(entries_view(self.entries@) =~= e + av.take(0).filter(pred).map_values(|f: Seq<char>| (true, f)));
        }
        while j < self.available_files.len()
            invariant
                n0 <= self.entries@.len(),
                j <= self.available_files@.len(),
                self.object_id == old(self).object_id,
                self.available_files@ == old(self).available_files@,
                av == views(self.available_files@),
                e == entries_view(self.entries@.take(n0 as int)),
                pred == not_listed(e),
                entries_view(self.entries@) == e + av.take(j as int).filter(pred).map_values(|f: Seq<char>| (true, f)),
            decreases self.available_files@.len() - j,
        {
            let ghost before = entries_view(self.entries@);
            let f = self.available_files[j].clone();
            let present = has_file_row(&self.entries, n0, &f);
            proof {
                assert(av.take(j + 1) =~= av.take(j as int).push(av[j as int]));
                av.take(j as int).lemma_filter_push(av[j as int], pred);
                assert(f@ == av[j as int]);
            }
            if !present {
                let ghost fv = f@;
                let ghost es_before = self.entries@;
                self.entries.push(IndexEntry::File { file: f });
                proof {
                    assert(self.entries@.take(n0 as int) =~= es_before.take(n0 as int));
                    assert(entries_view(self.entries@) =~= before.push((true, fv)));
                    assert(av.take(j as int).filter(pred).push(fv).map_values(|f: Seq<char>| (true, f)) =~= av.take(j as int).filter(pred).map_values(|f: Seq<char>| (true, f)).push((true, fv)));
                }
            }
            j = j + 1;
        }
        proof {
            assert(av.take(av.len() as int) =~= av);
        }
    }

    /// The card's links after committing: the rows become its entries and
    /// the legacy file list is dropped.
    pub fn commit(&self, links: &NoteLinks) -> (r: NoteLinks)
        ensures
            r.target_file@ == links.target_file@,
            r.is_inline == links.is_inline,
            r.index_files is None,
            r.index_entries matches Some(v) && entries_view(v@) == entries_view(self.entries@),
    {
        NoteLinks {
            target_file: links.target_file.clone(),
            is_inline: links.is_inline,
            index_files: None,
            index_entries: Some(copy_entries(&self.entries)),
        }
    }
}

/// Moving a row up and then back down restores the list.
pub proof fn law_move_up_then_down_restores(e: Rows, i: usize)
    requires
        0 < i < e.len(),
    ensures
        after_move_down(after_move_up(e, Some(i)), Some((i - 1) as usize)) == e,
{
    assert(after_move_down(after_move_up(e, Some(i)), Some((i - 1) as usize)) =~= e);
}

/// Moving rows keeps the same rows.
pub proof fn law_moves_keep_rows(e: Rows, up: Option<usize>, down: Option<usize>)
    ensures
        after_move_down(after_move_up(e, up), down).to_multiset() == e.to_multiset(),
{
    lemma_swap_multiset_opt_up(e, up);
    lemma_swap_multiset_opt_down(after_move_up(e, up), down);
}

proof fn lemma_swap_multiset(e: Rows, i: int, j: int)
    requires
        0 <= i < j < e.len(),
    ensures
        swapped(e, i, j).to_multiset() == e.to_multiset(),
{
    broadcast use vstd::seq_lib::to_multiset_update;
    broadcast use vstd::multiset::group_multiset_axioms;

    let s1 = e.update(i, e[j]);
    vstd::seq_lib::to_multiset_update(e, i, e[j]);
    vstd::seq_lib::to_multiset_update(s1, j, e[i]);
    assert(s1[j] == e[j]);
    assert(e.contains(e[i]));
    vstd::seq_lib::to_multiset_contains(e, e[i]);
    assert(s1.contains(e[j]));
    vstd::seq_lib::to_multiset_contains(s1, e[j]);
    let m = e.to_multiset();
    let m1 = m.insert(e[j]).remove(e[i]);
    assert(s1.to_multiset() == m1);
    assert(swapped(e, i, j).to_multiset() == m1.insert(e[i]).remove(e[j]));
    assert(m1.insert(e[i]).remove(e[j]) =~= m);
}

proof fn lemma_swap_multiset_opt_up(e: Rows, m: Option<usize>)
    ensures
        after_move_up(e, m).to_multiset() == e.to_multiset(),
{
    if let Some(i) = m {
        if 0 < i < e.len() {
            lemma_swap_multiset(e, i - 1, i as int);
        }
    }
}

proof fn lemma_swap_multiset_opt_down(e: Rows, m: Option<usize>)
    ensures
        after_move_down(e, m).to_multiset() == e.to_multiset(),
{
    if let Some(i) = m {
        if i + 1 < e.len() {
            lemma_swap_multiset(e, i as int, i + 1);
        }
    }
}

/// After "add all missing" every available file has a file row.
pub proof fn law_add_missing_covers_available(e: Rows, available: Seq<Seq<char>>, f: Seq<char>)
    requires
        available.contains(f),
    ensures
        after_add_missing(e, true, available).contains((true, f)),
{
    let pred = not_listed(e);
    if !e.contains((true, f)) {
        assert(pred(f));
        let k = choose|k: int| 0 <= k < available.len() && available[k] == f;
        available.lemma_filter_contains_rev(pred, f);
        let fl = available.filter(pred);
        let m = choose|m: int| 0 <= m < fl.len() && fl[m] == f;
        let added = missing_rows(e, available);
        assert(added[m] == (true, f));
        assert((e + added)[e.len() + m] == (true, f));
    } else {
        let k = choose|k: int| 0 <= k < e.len() && e[k] == (true, f);
        assert((e + missing_rows(e, available))[k] == (true, f));
    }
}

/// The heading the "+ heading" button adds from the typed text: the text
/// trimmed, or nothing when it is blank.
pub fn heading_to_add(text: &str) -> (r: Option<String>)
    ensures
        r is None <==> trimmed(text@).len() == 0,
        r is Some ==> r->0@ == trimmed(text@),
{
    let t = trim(text);
    if t.unicode_len() == 0 {
        None
    } else {
        Some(t.to_string())
    }
}

} // verus!
