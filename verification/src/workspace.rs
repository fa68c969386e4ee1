//! The workspace: a directory of `.writee` files, its special files, and
//! what is computed from a scan of it (the file tree, backlinks, link
//! rewriting after a rename, the next free untitled name, file cycling).
//!
//! Paths are strings joined with `/`. The directory scans themselves happen
//! outside; the functions here take what a scan found.
use vstd::prelude::*;
use crate::names::{after_first, after_underscore, display_name, display_name_for_file, ext_writee, slug, slugify, strip_suffix, lemma_numbered_injective, numbered_file_name, numbered_name, untitled_stem};
use crate::strings::{push_char, push_str, str_eq, trim, trimmed, views};
use crate::links::{NoteLinks, copy_entries, entries_view, file_entries, is_linked, is_renamed, mentions, note_is_linked, note_mentions, rewrite_note_links};
use crate::order::{insert_sorted_unique, sort_strings, sorted, str_less, str_lt, strictly_sorted};
use crate::document::ObjectId;
use crate::model::{IndexEntry, NoteMode};
use crate::note::NoteCard;

verus! {

/// Workspace-relative name of the trash directory (hidden by the dot).
pub const TRASH_DIR_NAME: &'static str = ".trash";

/// The file that hosts the file picker.
pub const INDEX_FILE_NAME: &'static str = "_index.writee";

/// The first-run onboarding canvas.
pub const WELCOME_FILE_NAME: &'static str = "_welcome.writee";

/// `name` inside the directory `root`.
pub open spec fn joined(root: Seq<char>, name: Seq<char>) -> Seq<char> {
    if root.len() == 0 || root.last() == '/' {
        root + name
    } else {
        root + seq!['/'] + name
    }
}

/// The path of `name` inside `root`.
pub fn join_path(root: &str, name: &str) -> (r: String)
    ensures
        r@ == joined(root@, name@),
{
    let n = root.unicode_len();
    let mut out = root.to_owned();
    if n > 0 && root.get_char(n - 1) != '/' {
        push_char(&mut out, '/');
    }
    push_str(&mut out, name);
    proof {
        if n > 0 && root@.last() != '/' {
            assert(root@.push('/') + name@ =~= root@ + seq!['/'] + name@);
        }
    }
    out
}

/// The directory the app works in and the file it has open.
#[derive(Debug, Clone)]
pub struct Workspace {
    pub root: String,
    pub current_file: String,
}

/// The workspace directory a marker file names: its contents, trimmed.
pub fn root_from_marker(contents: &str) -> (r: String)
    ensures
        r@ == trimmed(contents@),
{
    trim(contents).to_owned()
}

impl Workspace {
    /// The workspace rooted at a directory that was found (or created) with
    /// its welcome file in place; the welcome file is the one open.
    pub fn discover_or_create(root: String) -> (w: Workspace)
        ensures
            w.root@ == root@,
            w.current_file@ == joined(root@, WELCOME_FILE_NAME@),
    {
        let current_file = join_path(root.as_str(), WELCOME_FILE_NAME);
        Workspace { root, current_file }
    }

    pub fn index_file_path(&self) -> (p: String)
        ensures
            p@ == joined(self.root@, INDEX_FILE_NAME@),
    {
        join_path(self.root.as_str(), INDEX_FILE_NAME)
    }

    pub fn welcome_file_path(&self) -> (p: String)
        ensures
            p@ == joined(self.root@, WELCOME_FILE_NAME@),
    {
        join_path(self.root.as_str(), WELCOME_FILE_NAME)
    }

    /// Whether the open file is the welcome canvas (the workspace home).
    pub fn is_on_index_file(&self) -> (b: bool)
        ensures
            b == (self.current_file@ == joined(self.root@, WELCOME_FILE_NAME@)),
    {
        let w = self.welcome_file_path();
        str_eq(self.current_file.as_str(), w.as_str())
    }

    pub fn trash_dir(&self) -> (p: String)
        ensures
            p@ == joined(self.root@, TRASH_DIR_NAME@),
    {
        join_path(self.root.as_str(), TRASH_DIR_NAME)
    }

    /// The file after the open one in `files` (the sorted listing),
    /// wrapping around; `None` with fewer than two files or when the open
    /// file is not listed.
    pub fn next_file(&self, files: &Vec<String>) -> (r: Option<String>)
        ensures
            opt_view(r) == next_file_name(name_views(files@), self.current_file@),
    {
        if files.len() < 2 {
            return None;
        }
        proof {
            lemma_position_of(name_views(files@), self.current_file@);
        }
        let mut i: usize = 0;
        while i < files.len()
            invariant
                2 <= files@.len(),
                i <= files@.len(),
                forall|k: int| 0 <= k < i ==> files@[k]@ != self.current_file@,
                0 <= position_of(name_views(files@), self.current_file@) <= files@.len(),
                forall|k: int|
                    0 <= k < position_of(name_views(files@), self.current_file@) ==> name_views(
                        files@,
                    )[k] != self.current_file@,
                position_of(name_views(files@), self.current_file@) < files@.len() ==> name_views(
                    files@,
                )[position_of(name_views(files@), self.current_file@)] == self.current_file@,
            decreases files@.len() - i,
        {
            if files[i] == self.current_file {
                assert(position_of(name_views(files@), self.current_file@) == i) by {
                    assert(name_views(files@)[i as int] == self.current_file@);
                    let p = position_of(name_views(files@), self.current_file@);
                    if p < i {
                        assert(files@[p]@ == name_views(files@)[p]);
                    }
                }
                let next = if i + 1 == files.len() {
                    0
                } else {
                    i + 1
                };
                proof {
                    let n = files@.len() as int;
                    if i + 1 == n {
                        assert(n % n == 0) by (nonlinear_arith)
                            requires
                                n > 0,
                        ;
                    } else {
                        let m = i + 1;
                        assert(m % n == m) by (nonlinear_arith)
                            requires
                                0 <= m < n,
                        ;
                    }
                }
                return Some(files[next].clone());
            }
            i = i + 1;
        }
        proof {
            let p = position_of(name_views(files@), self.current_file@);
            if p < files@.len() {
                assert(files@[p]@ == name_views(files@)[p]);
            }
        }
        None
    }
}

/// The contents of an optional string.
pub open spec fn opt_view(o: Option<String>) -> Option<Seq<char>> {
    match o {
        Some(s) => Some(s@),
        None => None,
    }
}

/// Index of the first occurrence of `x` in `s`, or `s.len()`.
pub open spec fn position_of(s: Seq<Seq<char>>, x: Seq<char>) -> int
    decreases s.len(),
{
    if s.len() == 0 {
        0
    } else if s[0] == x {
        0
    } else {
        1 + position_of(s.drop_first(), x)
    }
}

proof fn lemma_position_of(s: Seq<Seq<char>>, x: Seq<char>)
    ensures
        0 <= position_of(s, x) <= s.len(),
        position_of(s, x) < s.len() ==> s[position_of(s, x)] == x,
        forall|k: int| 0 <= k < position_of(s, x) ==> s[k] != x,
    decreases s.len(),
{
    if s.len() > 0 && s[0] != x {
        lemma_position_of(s.drop_first(), x);
        assert forall|k: int| 0 <= k < position_of(s, x) implies s[k] != x by {
            if k > 0 {
                assert(s[k] == s.drop_first()[k - 1]);
            }
        }
    }
}

/// The file after `cur` in the listing, cyclically.
pub open spec fn next_file_name(names: Seq<Seq<char>>, cur: Seq<char>) -> Option<Seq<char>> {
    let p = position_of(names, cur);
    if names.len() < 2 || p >= names.len() {
        None
    } else {
        Some(names[(p + 1) % (names.len() as int)])
    }
}

/// The candidates `1..=i` for `stem`.
pub open spec fn numbered_names_upto(stem: Seq<char>, i: nat) -> Set<Seq<char>>
    decreases i,
{
    if i == 0 {
        Set::empty()
    } else {
        numbered_names_upto(stem, (i - 1) as nat).insert(numbered_name(stem, i))
    }
}

proof fn lemma_numbered_names_upto(stem: Seq<char>, i: nat)
    ensures
        numbered_names_upto(stem, i).finite(),
        numbered_names_upto(stem, i).len() == i,
        forall|s: Seq<char>|
            numbered_names_upto(stem, i).contains(s) <==> exists|j: nat|
                1 <= j <= i && #[trigger] numbered_name(stem, j) == s,
    decreases i,
{
    if i > 0 {
        lemma_numbered_names_upto(stem, (i - 1) as nat);
        if numbered_names_upto(stem, (i - 1) as nat).contains(numbered_name(stem, i)) {
            let j = choose|j: nat|
                1 <= j <= i - 1 && #[trigger] numbered_name(stem, j) == numbered_name(stem, i);
            lemma_numbered_injective(stem, j, i);
        }
        assert forall|s: Seq<char>|
            numbered_names_upto(stem, i).contains(s) implies exists|j: nat|
                1 <= j <= i && #[trigger] numbered_name(stem, j) == s by {
            if s == numbered_name(stem, i) {
                assert(numbered_name(stem, i) == s);
            }
        }
    }
}

/// With every candidate `1..=i` among the `taken` names, there are at
/// least `i` taken names.
proof fn lemma_taken_bound(stem: Seq<char>, taken: Seq<Seq<char>>, i: nat)
    requires
        forall|j: nat| 1 <= j <= i ==> taken.contains(#[trigger] numbered_name(stem, j)),
    ensures
        i <= taken.len(),
{
    broadcast use vstd::seq_lib::seq_to_set_is_finite;

    lemma_numbered_names_upto(stem, i);
    assert(numbered_names_upto(stem, i).subset_of(taken.to_set())) by {
        assert forall|s: Seq<char>| numbered_names_upto(stem, i).contains(s) implies taken.to_set().contains(s) by {
            let j = choose|j: nat| 1 <= j <= i && #[trigger] numbered_name(stem, j) == s;
        }
    }
    vstd::set_lib::lemma_len_subset(numbered_names_upto(stem, i), taken.to_set());
    taken.lemma_cardinality_of_set();
}

/// `n` is the first candidate for `stem` that is not among the `taken` names.
pub open spec fn is_first_free_name(stem: Seq<char>, taken: Seq<Seq<char>>, n: Seq<char>) -> bool {
    exists|i: nat|
        1 <= i && n == numbered_name(stem, i) && !taken.contains(numbered_name(stem, i))
            && forall|j: nat| 1 <= j < i ==> taken.contains(#[trigger] numbered_name(stem, j))
}

/// `p` is the path in `root` of the first candidate for `stem` that is not
/// among the `taken` names.
pub open spec fn is_first_free(root: Seq<char>, stem: Seq<char>, taken: Seq<Seq<char>>, p: Seq<char>) -> bool {
    exists|n: Seq<char>| is_first_free_name(stem, taken, n) && p == joined(root, n)
}

/// The first free candidate name for `stem`.
fn first_free_name(stem: &str, taken: &Vec<String>) -> (n: String)
    requires
        taken@.len() < u64::MAX,
    ensures
        is_first_free_name(stem@, name_views(taken@), n@),
{
    let mut i: u64 = 1;
    while i <= taken.len() as u64
        invariant
            1 <= i <= taken@.len() + 1,
            taken@.len() < u64::MAX,
            forall|j: nat| 1 <= j < i ==> name_views(taken@).contains(#[trigger] numbered_name(stem@, j)),
        decreases taken@.len() + 1 - i,
    {
        let name = numbered_file_name(stem, i);
        if !contains_name(taken, &name) {
            return name;
        }
        i = i + 1;
    }
    let name = numbered_file_name(stem, i);
    let found = contains_name(taken, &name);
    proof {
        if found {
            assert forall|j: nat| 1 <= j <= i implies name_views(taken@).contains(
                #[trigger] numbered_name(stem@, j),
            ) by {}
            lemma_taken_bound(stem@, name_views(taken@), i as nat);
        }
    }
    name
}

/// The path of the first free candidate for `stem` in `root`.
fn first_free(root: &str, stem: &str, taken: &Vec<String>) -> (p: String)
    requires
        taken@.len() < u64::MAX,
    ensures
        is_first_free(root@, stem@, name_views(taken@), p@),
{
    let n = first_free_name(stem, taken);
    join_path(root, n.as_str())
}

/// The names of a list of strings.
pub open spec fn name_views(v: Seq<String>) -> Seq<Seq<char>> {
    v.map_values(|s: String| s@)
}

fn contains_name(v: &Vec<String>, s: &String) -> (b: bool)
    ensures
        b == name_views(v@).contains(s@),
{
    let mut i: usize = 0;
    while i < v.len()
        invariant
            i <= v@.len(),
            forall|k: int| 0 <= k < i ==> v@[k]@ != s@,
        decreases v@.len() - i,
    {
        if v[i] == *s {
            assert(name_views(v@)[i as int] == s@);
            return true;
        }
        i = i + 1;
    }
    proof {
        if name_views(v@).contains(s@) {
            let k = choose|k: int| 0 <= k < name_views(v@).len() && name_views(v@)[k] == s@;
            assert(v@[k]@ == s@);
        }
    }
    false
}

impl Workspace {
    /// The path for a new file: `untitled.writee`, else the first of
    /// `untitled-2.writee`, `untitled-3.writee`, ... that is not among the
    /// names `taken` in the workspace directory.
    pub fn next_untitled(&self, taken: &Vec<String>) -> (p: String)
        requires
            taken@.len() < u64::MAX,
        ensures
            is_first_free(self.root@, untitled_stem(), name_views(taken@), p@),
    {
        proof {
            reveal_strlit("untitled");
            assert("untitled"@ =~= untitled_stem());
        }
        first_free(self.root.as_str(), "untitled", taken)
    }

    /// Where a trashed file goes back to: its stem after the timestamp
    /// prefix, as `<stem>.writee`, else the first of `<stem>-2.writee`,
    /// `<stem>-3.writee`, ... not among the names `taken` in the workspace.
    pub fn restore_target(&self, trashed_stem: &str, taken: &Vec<String>) -> (p: String)
        requires
            taken@.len() < u64::MAX,
        ensures
            is_first_free(self.root@, after_first(trashed_stem@, '_'), name_views(taken@), p@),
    {
        let stem = after_underscore(trashed_stem);
        first_free(self.root.as_str(), stem.as_str(), taken)
    }
}

/// The notes of one workspace file, as a scan loaded them.
#[derive(Debug, Clone)]
pub struct FileLinks {
    /// The file's name inside the workspace.
    pub name: String,
    /// Each note's id and links.
    pub notes: Vec<(ObjectId, NoteLinks)>,
}

/// A note whose links a rename changed, and its new links.
#[derive(Debug, Clone)]
pub struct LinkUpdate {
    /// Index of the file in the scan.
    pub file: usize,
    pub id: ObjectId,
    pub links: NoteLinks,
}

/// Indices of the first `upto` notes that mention `old`.
pub open spec fn note_keys(notes: Seq<(ObjectId, NoteLinks)>, upto: nat, old: Seq<char>) -> Seq<int>
    decreases upto,
{
    if upto == 0 {
        Seq::empty()
    } else {
        let prev = note_keys(notes, (upto - 1) as nat, old);
        if mentions(notes[upto - 1].1, old) {
            prev.push(upto - 1)
        } else {
            prev
        }
    }
}

/// (file, note) indices of the notes a rename of `old` to `new` rewrites,
/// among the first `upto` files: every note that mentions `old`, in files
/// other than the one now called `new`.
pub open spec fn update_keys(files: Seq<FileLinks>, upto: nat, old: Seq<char>, new: Seq<char>) -> Seq<(int, int)>
    decreases upto,
{
    if upto == 0 {
        Seq::empty()
    } else {
        let i = upto - 1;
        let prev = update_keys(files, (upto - 1) as nat, old, new);
        if files[i].name@ == new {
            prev
        } else {
            prev + note_keys(files[i].notes@, files[i].notes@.len(), old).map_values(
                |j: int| (i, j),
            )
        }
    }
}

/// How many of the first `upto` files a rename of `old` to `new` changes.
pub open spec fn touched_files(files: Seq<FileLinks>, upto: nat, old: Seq<char>, new: Seq<char>) -> nat
    decreases upto,
{
    if upto == 0 {
        0
    } else {
        let i = upto - 1;
        let prev = touched_files(files, (upto - 1) as nat, old, new);
        if files[i].name@ != new && note_keys(files[i].notes@, files[i].notes@.len(), old).len() > 0 {
            prev + 1
        } else {
            prev
        }
    }
}

/// Update `u` rewrites the note at `key` as the rename asks.
pub open spec fn update_matches(files: Seq<FileLinks>, u: LinkUpdate, key: (int, int), old: Seq<char>, new: Seq<char>) -> bool {
    &&& u.file == key.0
    &&& u.id == files[key.0].notes@[key.1].0
    &&& is_renamed(files[key.0].notes@[key.1].1, u.links, old, new)
}

proof fn lemma_note_keys_bound(notes: Seq<(ObjectId, NoteLinks)>, upto: nat, old: Seq<char>)
    ensures
        note_keys(notes, upto, old).len() <= upto,
        forall|k: int| 0 <= k < note_keys(notes, upto, old).len() ==> 0 <= #[trigger] note_keys(notes, upto, old)[k] < upto,
    decreases upto,
{
    if upto > 0 {
        lemma_note_keys_bound(notes, (upto - 1) as nat, old);
    }
}

impl Workspace {
    /// After a file was renamed from `old_name` to `new_name`, the notes in
    /// the other scanned files that refer to `old_name` (as a linked target,
    /// an index entry or a legacy index file), rewritten to refer to
    /// `new_name`; with the number of files that have such notes.
    pub fn rewrite_links(&self, old_name: &str, new_name: &str, files: &Vec<FileLinks>) -> (r: (usize, Vec<LinkUpdate>))
        ensures
            old_name@ == new_name@ ==> r.0 == 0 && r.1@.len() == 0,
            old_name@ != new_name@ ==> {
                let keys = update_keys(files@, files@.len(), old_name@, new_name@);
                &&& r.0 == touched_files(files@, files@.len(), old_name@, new_name@)
                &&& r.1@.len() == keys.len()
                &&& forall|k: int| 0 <= k < keys.len() ==> update_matches(files@, #[trigger] r.1@[k], keys[k], old_name@, new_name@)
            },
    {
        let mut updates: Vec<LinkUpdate> = Vec::new();
        if str_eq(old_name, new_name) {
            return (0, updates);
        }
        let mut touched: usize = 0;
        let mut i: usize = 0;
        while i < files.len()
            invariant
                i <= files@.len(),
                touched == touched_files(files@, i as nat, old_name@, new_name@),
                touched <= i,
                updates@.len() == update_keys(files@, i as nat, old_name@, new_name@).len(),
                forall|k: int| 0 <= k < updates@.len() ==> update_matches(files@, #[trigger] updates@[k], update_keys(files@, i as nat, old_name@, new_name@)[k], old_name@, new_name@),
            decreases files@.len() - i,
        {
            let ghost prev_keys = update_keys(files@, i as nat, old_name@, new_name@);
            let f = &files[i];
            if str_eq(f.name.as_str(), new_name) {
                i = i + 1;
                continue;
            }
            let ghost base = updates@.len();
            let mut file_touched = false;
            let mut j: usize = 0;
            while j < f.notes.len()
                invariant
                    f == files@[i as int],
                    i < files@.len(),
                    j <= f.notes@.len(),
                    base == prev_keys.len(),
                    file_touched == (note_keys(f.notes@, j as nat, old_name@).len() > 0),
                    updates@.len() == base + note_keys(f.notes@, j as nat, old_name@).len(),
                    forall|k: int| 0 <= k < base ==> update_matches(files@, #[trigger] updates@[k], prev_keys[k], old_name@, new_name@),
                    forall|k: int| 0 <= k < note_keys(f.notes@, j as nat, old_name@).len() ==> update_matches(files@, #[trigger] updates@[base + k], (i as int, note_keys(f.notes@, j as nat, old_name@)[k]), old_name@, new_name@),
                decreases f.notes@.len() - j,
            {
                let ghost nk = note_keys(f.notes@, j as nat, old_name@);
                let ghost before = updates@;
                if let Some(links) = rewrite_note_links(&f.notes[j].1, old_name, new_name) {
                    updates.push(LinkUpdate { file: i, id: f.notes[j].0, links });
                    file_touched = true;
                    proof {
                        let nk2 = note_keys(f.notes@, (j + 1) as nat, old_name@);
                        assert(nk2 == nk.push(j as int));
                        assert forall|k: int| 0 <= k < nk2.len() implies update_matches(files@, #[trigger] updates@[base + k], (i as int, nk2[k]), old_name@, new_name@) by {
                            if k < nk.len() {
                                assert(updates@[base + k] == before[base + k]);
                            }
                        }
                    }
                }
                j = j + 1;
            }
            proof {
                assert(f.notes@.len() == j);
                let nk = note_keys(f.notes@, f.notes@.len(), old_name@);
                let add = nk.map_values(|jj: int| (i as int, jj));
                let keys2 = update_keys(files@, (i + 1) as nat, old_name@, new_name@);
                assert(keys2 == prev_keys + add);
                assert forall|k: int| 0 <= k < updates@.len() implies update_matches(files@, #[trigger] updates@[k], keys2[k], old_name@, new_name@) by {
                    if k >= base {
                        let kk = k - base;
                        assert(updates@[base + kk] == updates@[k]);
                        assert(keys2[k] == add[kk]);
                    } else {
                        assert(keys2[k] == prev_keys[k]);
                    }
                }
            }
            if file_touched {
                touched = touched + 1;
            }
            i = i + 1;
        }
        (touched, updates)
    }
}

/// Some note of `f` refers to `target`.
pub open spec fn links_to_file(f: FileLinks, target: Seq<char>) -> bool {
    exists|j: int| 0 <= j < f.notes@.len() && mentions(#[trigger] f.notes@[j].1, target)
}

/// Names of the first `upto` files, other than `target`, with a note
/// that refers to `target`.
pub open spec fn backlink_names(files: Seq<FileLinks>, upto: int, target: Seq<char>) -> Set<Seq<char>> {
    Set::new(
        |n: Seq<char>|
            exists|i: int|
                0 <= i < upto && #[trigger] files[i].name@ == n && n != target && links_to_file(
                    files[i],
                    target,
                ),
    )
}

fn file_mentions(f: &FileLinks, target: &str) -> (b: bool)
    ensures
        b == links_to_file(*f, target@),
{
    let mut j: usize = 0;
    while j < f.notes.len()
        invariant
            j <= f.notes@.len(),
            forall|k: int| 0 <= k < j ==> !mentions(#[trigger] f.notes@[k].1, target@),
        decreases f.notes@.len() - j,
    {
        if note_mentions(&f.notes[j].1, target) {
            return true;
        }
        j = j + 1;
    }
    false
}

impl Workspace {
    /// The files (by name, sorted, each once) other than `file` whose notes
    /// refer to `file`.
    pub fn backlinks(&self, file: &str, files: &Vec<FileLinks>) -> (r: Vec<String>)
        ensures
            strictly_sorted(views(r@)),
            views(r@).to_set() == backlink_names(files@, files@.len() as int, file@),
    {
        let mut out: Vec<String> = Vec::new();
        let mut i: usize = 0;
        proof {
            assert(views(out@).to_set() =~= backlink_names(files@, 0, file@));
        }
        while i < files.len()
            invariant
                i <= files@.len(),
                strictly_sorted(views(out@)),
                views(out@).to_set() == backlink_names(files@, i as int, file@),
            decreases files@.len() - i,
        {
            let f = &files[i];
            let ghost prev = backlink_names(files@, i as int, file@);
            if !str_eq(f.name.as_str(), file) && file_mentions(f, file) {
                insert_sorted_unique(&mut out, f.name.clone());
                proof {
                    assert(backlink_names(files@, i + 1, file@) =~= prev.insert(f.name@));
                }
            } else {
                proof {
                    assert(backlink_names(files@, i + 1, file@) =~= prev);
                }
            }
            i = i + 1;
        }
        out
    }
}

/// One parent in the file tree and the files it links to.
#[derive(Debug, Clone)]
pub struct TreeNode {
    pub parent: String,
    pub children: Vec<String>,
}

/// The file tree: files no other file links to are roots; every other
/// file sits under each parent that links it.
#[derive(Debug, Clone)]
pub struct WorkspaceTree {
    pub roots: Vec<String>,
    pub children: Vec<TreeNode>,
}

/// The names of the scanned files.
pub open spec fn file_names(files: Seq<FileLinks>) -> Seq<Seq<char>> {
    files.map_values(|f: FileLinks| f.name@)
}

/// Note `j` of file `i` is a linked note whose target is a scanned file.
pub open spec fn edge_at(files: Seq<FileLinks>, i: int, j: int, p: Seq<char>, c: Seq<char>) -> bool {
    &&& 0 <= i < files.len()
    &&& 0 <= j < files[i].notes@.len()
    &&& files[i].name@ == p
    &&& is_linked(files[i].notes@[j].1)
    &&& files[i].notes@[j].1.target_file@ == c
    &&& file_names(files).contains(c)
}

/// `p` links to `c` through a note found before note `j` of file `i`.
pub open spec fn edge_before(files: Seq<FileLinks>, i: int, j: int, p: Seq<char>, c: Seq<char>) -> bool {
    exists|a: int, b: int| (a < i || (a == i && b < j)) && #[trigger] edge_at(files, a, b, p, c)
}

/// File `p` links to file `c`.
pub open spec fn is_edge(files: Seq<FileLinks>, p: Seq<char>, c: Seq<char>) -> bool {
    exists|a: int, b: int| #[trigger] edge_at(files, a, b, p, c)
}

/// Some other scanned file links to `c` (a file linking to itself is not
/// its own parent).
pub open spec fn has_parent(files: Seq<FileLinks>, c: Seq<char>) -> bool {
    exists|p: Seq<char>| p != c && #[trigger] is_edge(files, p, c)
}

/// The files no other file links to.
pub open spec fn parentless(files: Seq<FileLinks>) -> spec_fn(Seq<char>) -> bool {
    |n: Seq<char>| !has_parent(files, n)
}

pub open spec fn tree_keys(t: Seq<TreeNode>) -> Seq<Seq<char>> {
    t.map_values(|n: TreeNode| n.parent@)
}

/// The tree lists `c` under `p`.
pub open spec fn tree_edge(t: Seq<TreeNode>, p: Seq<char>, c: Seq<char>) -> bool {
    exists|k: int| 0 <= k < t.len() && t[k].parent@ == p && #[trigger] views(t[k].children@).contains(c)
}

/// Parents sorted without repeats; each child list sorted, without
/// repeats, and not empty.
pub open spec fn tree_wf(t: Seq<TreeNode>) -> bool {
    &&& strictly_sorted(tree_keys(t))
    &&& forall|k: int| 0 <= k < t.len() ==> strictly_sorted(views(#[trigger] t[k].children@))
    &&& forall|k: int| 0 <= k < t.len() ==> (#[trigger] t[k].children@).len() > 0
}

fn add_edge(t: &mut Vec<TreeNode>, p: &String, c: String)
    requires
        tree_wf(old(t)@),
    ensures
        tree_wf(final(t)@),
        forall|q: Seq<char>, d: Seq<char>|
            #[trigger] tree_edge(final(t)@, q, d) <==> tree_edge(old(t)@, q, d) || (q == p@ && d == c@),
{
    let ghost ot = t@;
    let mut k: usize = 0;
    while k < t.len() && str_less(t[k].parent.as_str(), p.as_str())
        invariant
            k <= t@.len(),
            t@ == ot,
            tree_wf(ot),
            forall|m: int| 0 <= m < k ==> str_lt(#[trigger] tree_keys(ot)[m], p@),
        decreases t@.len() - k,
    {
        assert(tree_keys(ot)[k as int] == ot[k as int].parent@);
        k = k + 1;
    }
    proof {
        if k < t@.len() {
            crate::order::lemma_lt_total(ot[k as int].parent@, p@);
        }
    }
    if k < t.len() && t[k].parent == *p {
        let mut node = t.remove(k);
        let ghost oc = views(node.children@);
        insert_sorted_unique(&mut node.children, c);
        let ghost nn = node;
        t.insert(k, node);
        proof {
            assert(t@ =~= ot.update(k as int, nn));
            assert(tree_keys(t@) =~= tree_keys(ot));
            assert forall|q: Seq<char>, d: Seq<char>|
                #[trigger] tree_edge(t@, q, d) <==> tree_edge(ot, q, d) || (q == p@ && d == c@) by {
                if tree_edge(t@, q, d) {
                    let m = choose|m: int| 0 <= m < t@.len() && t@[m].parent@ == q && #[trigger] views(t@[m].children@).contains(d);
                    if m != k {
                        assert(views(ot[m].children@).contains(d));
                    } else if !(q == p@ && d == c@) {
                        assert(views(nn.children@).to_set().contains(d));
                        assert(oc.to_set().contains(d));
                        assert(views(ot[m].children@).contains(d));
                    }
                }
                if tree_edge(ot, q, d) {
                    let m = choose|m: int| 0 <= m < ot.len() && ot[m].parent@ == q && #[trigger] views(ot[m].children@).contains(d);
                    if m != k {
                        assert(views(t@[m].children@).contains(d));
                    } else {
                        assert(oc.to_set().contains(d));
                        assert(views(nn.children@).to_set().contains(d));
                        assert(views(t@[m].children@).contains(d));
                    }
                }
                if q == p@ && d == c@ {
                    assert(views(nn.children@).to_set().contains(d));
                    assert(views(t@[k as int].children@).contains(d));
                }
            }
            assert forall|m: int| 0 <= m < t@.len() implies (#[trigger] t@[m].children@).len() > 0 by {
                if m == k {
                    assert(views(nn.children@).to_set().contains(c@));
                }
            }
        }
    } else {
        let mut kids: Vec<String> = Vec::new();
        let ghost cv = c@;
        kids.push(c);
        let node = TreeNode { parent: p.clone(), children: kids };
        proof {
            assert(views(node.children@) =~= seq![cv]);
            if k < ot.len() {
                assert(str_lt(p@, tree_keys(ot)[k as int]));
                assert forall|m: int| k <= m < ot.len() implies str_lt(p@, #[trigger] tree_keys(ot)[m]) by {
                    if m > k {
                        crate::order::lemma_lt_transitive(p@, tree_keys(ot)[k as int], tree_keys(ot)[m]);
                    }
                }
            }
        }
        t.insert(k, node);
        proof {
            assert(t@ =~= ot.insert(k as int, node));
            let nk = tree_keys(t@);
            assert(nk =~= tree_keys(ot).insert(k as int, p@));
            assert forall|a: int, b: int| 0 <= a < b < nk.len() implies str_lt(#[trigger] nk[a], #[trigger] nk[b]) by {
                if a < k && b > k {
                    crate::order::lemma_lt_transitive(nk[a], p@, nk[b]);
                }
            }
            assert forall|q: Seq<char>, d: Seq<char>|
                #[trigger] tree_edge(t@, q, d) <==> tree_edge(ot, q, d) || (q == p@ && d == c@) by {
                if tree_edge(t@, q, d) {
                    let m = choose|m: int| 0 <= m < t@.len() && t@[m].parent@ == q && #[trigger] views(t@[m].children@).contains(d);
                    if m < k {
                        assert(views(ot[m].children@).contains(d));
                    } else if m > k {
                        assert(t@[m] == ot[m - 1]);
                        assert(views(ot[m - 1].children@).contains(d));
                    } else {
                        assert(views(node.children@)[0] == cv);
                    }
                }
                if tree_edge(ot, q, d) {
                    let m = choose|m: int| 0 <= m < ot.len() && ot[m].parent@ == q && #[trigger] views(ot[m].children@).contains(d);
                    if m < k {
                        assert(views(t@[m].children@).contains(d));
                    } else {
                        assert(t@[m + 1] == ot[m]);
                        assert(views(t@[m + 1].children@).contains(d));
                    }
                }
                if q == p@ && d == c@ {
                    assert(views(t@[k as int].children@)[0] == d);
                    assert(views(t@[k as int].children@).contains(d));
                }
            }
            assert forall|m: int| 0 <= m < t@.len() implies strictly_sorted(views(#[trigger] t@[m].children@)) by {
                if m > k {
                    assert(t@[m] == ot[m - 1]);
                } else if m == k {
                    assert(views(node.children@).len() == 1);
                }
            }
            assert forall|m: int| 0 <= m < t@.len() implies (#[trigger] t@[m].children@).len() > 0 by {
                if m > k {
                    assert(t@[m] == ot[m - 1]);
                }
            }
        }
    }
}

fn is_file_name(files: &Vec<FileLinks>, n: &String) -> (b: bool)
    ensures
        b == file_names(files@).contains(n@),
{
    let mut i: usize = 0;
    while i < files.len()
        invariant
            i <= files@.len(),
            forall|k: int| 0 <= k < i ==> files@[k].name@ != n@,
        decreases files@.len() - i,
    {
        if files[i].name == *n {
            assert(file_names(files@)[i as int] == n@);
            return true;
        }
        i = i + 1;
    }
    proof {
        if file_names(files@).contains(n@) {
            let k = choose|k: int| 0 <= k < file_names(files@).len() && file_names(files@)[k] == n@;
            assert(files@[k].name@ == n@);
        }
    }
    false
}

fn tree_has_child(t: &Vec<TreeNode>, n: &String) -> (b: bool)
    ensures
        b == exists|p: Seq<char>| p != n@ && tree_edge(t@, p, n@),
{
    let mut k: usize = 0;
    while k < t.len()
        invariant
            k <= t@.len(),
            forall|m: int| 0 <= m < k ==> t@[m].parent@ == n@ || !(#[trigger] views(t@[m].children@)).contains(n@),
        decreases t@.len() - k,
    {
        if str_eq(t[k].parent.as_str(), n.as_str()) {
            k = k + 1;
            continue;
        }
        let kids = &t[k].children;
        let mut j: usize = 0;
        while j < kids.len()
            invariant
                k < t@.len(),
                kids == t@[k as int].children,
                t@[k as int].parent@ != n@,
                j <= kids@.len(),
                forall|m: int| 0 <= m < j ==> kids@[m]@ != n@,
            decreases kids@.len() - j,
        {
            if kids[j] == *n {
                assert(views(t@[k as int].children@)[j as int] == n@);
                assert(views(t@[k as int].children@).contains(n@));
                assert(tree_edge(t@, t@[k as int].parent@, n@));
                return true;
            }
            j = j + 1;
        }
        proof {
            if views(kids@).contains(n@) {
                let m = choose|m: int| 0 <= m < views(kids@).len() && views(kids@)[m] == n@;
                assert(kids@[m]@ == n@);
            }
        }
        k = k + 1;
    }
    proof {
        if exists|p: Seq<char>| p != n@ && tree_edge(t@, p, n@) {
            let p = choose|p: Seq<char>| p != n@ && tree_edge(t@, p, n@);
            let m = choose|m: int| 0 <= m < t@.len() && t@[m].parent@ == p && #[trigger] views(t@[m].children@).contains(n@);
            assert(!views(t@[m].children@).contains(n@));
        }
    }
    false
}

impl Workspace {
    /// The file tree of the scanned files: each file lists, sorted and once
    /// each, the scanned files its linked notes point at; the roots are the
    /// files no other file links to, sorted.
    pub fn build_tree(&self, files: &Vec<FileLinks>) -> (r: WorkspaceTree)
        ensures
            tree_wf(r.children@),
            forall|p: Seq<char>, c: Seq<char>| #[trigger] tree_edge(r.children@, p, c) <==> is_edge(files@, p, c),
            sorted(views(r.roots@)),
            views(r.roots@).to_multiset() == file_names(files@).filter(parentless(files@)).to_multiset(),
    {
        let mut tree: Vec<TreeNode> = Vec::new();
        let mut i: usize = 0;
        while i < files.len()
            invariant
                i <= files@.len(),
                tree_wf(tree@),
                forall|p: Seq<char>, c: Seq<char>| #[trigger] tree_edge(tree@, p, c) <==> edge_before(files@, i as int, 0, p, c),
            decreases files@.len() - i,
        {
            let f = &files[i];
            let mut j: usize = 0;
            while j < f.notes.len()
                invariant
                    f == files@[i as int],
                    i < files@.len(),
                    j <= f.notes@.len(),
                    tree_wf(tree@),
                    forall|p: Seq<char>, c: Seq<char>| #[trigger] tree_edge(tree@, p, c) <==> edge_before(files@, i as int, j as int, p, c),
                decreases f.notes@.len() - j,
            {
                let l = &f.notes[j].1;
                let ghost ot = tree@;
                if note_is_linked(l) && is_file_name(files, &l.target_file) {
                    add_edge(&mut tree, &f.name, l.target_file.clone());
                    proof {
                        assert(edge_at(files@, i as int, j as int, f.name@, l.target_file@));
                        assert forall|p: Seq<char>, c: Seq<char>| #[trigger] tree_edge(tree@, p, c) <==> edge_before(files@, i as int, j + 1, p, c) by {
                            if edge_before(files@, i as int, j + 1, p, c) {
                                let (a, b) = choose|a: int, b: int| (a < i || (a == i && b < j + 1)) && #[trigger] edge_at(files@, a, b, p, c);
                                if !(a == i && b == j) {
                                    assert(edge_before(files@, i as int, j as int, p, c));
                                }
                            }
                            if edge_before(files@, i as int, j as int, p, c) {
                                let (a, b) = choose|a: int, b: int| (a < i || (a == i && b < j)) && #[trigger] edge_at(files@, a, b, p, c);
                                assert(edge_before(files@, i as int, j + 1, p, c));
                            }
                        }
                    }
                } else {
                    proof {
                        assert forall|p: Seq<char>, c: Seq<char>| #[trigger] tree_edge(tree@, p, c) <==> edge_before(files@, i as int, j + 1, p, c) by {
                            if edge_before(files@, i as int, j + 1, p, c) {
                                let (a, b) = choose|a: int, b: int| (a < i || (a == i && b < j + 1)) && #[trigger] edge_at(files@, a, b, p, c);
                                if a == i && b == j {
                                    assert(false);
                                }
                                assert(edge_before(files@, i as int, j as int, p, c));
                            }
                            if edge_before(files@, i as int, j as int, p, c) {
                                let (a, b) = choose|a: int, b: int| (a < i || (a == i && b < j)) && #[trigger] edge_at(files@, a, b, p, c);
                                assert(edge_before(files@, i as int, j + 1, p, c));
                            }
                        }
                    }
                }
                j = j + 1;
            }
            proof {
                assert forall|p: Seq<char>, c: Seq<char>| #[trigger] tree_edge(tree@, p, c) <==> edge_before(files@, i + 1, 0, p, c) by {
                    if edge_before(files@, i + 1, 0, p, c) {
                        let (a, b) = choose|a: int, b: int| (a < i + 1 || (a == i + 1 && b < 0)) && #[trigger] edge_at(files@, a, b, p, c);
                        assert(edge_before(files@, i as int, j as int, p, c));
                    }
                    if edge_before(files@, i as int, j as int, p, c) {
                        let (a, b) = choose|a: int, b: int| (a < i || (a == i && b < j)) && #[trigger] edge_at(files@, a, b, p, c);
                        assert(edge_before(files@, i + 1, 0, p, c));
                    }
                }
            }
            i = i + 1;
        }
        proof {
            assert forall|p: Seq<char>, c: Seq<char>| #[trigger] tree_edge(tree@, p, c) <==> is_edge(files@, p, c) by {
                if is_edge(files@, p, c) {
                    let (a, b) = choose|a: int, b: int| #[trigger] edge_at(files@, a, b, p, c);
                    assert(edge_before(files@, i as int, 0, p, c));
                }
                if edge_before(files@, i as int, 0, p, c) {
                    let (a, b) = choose|a: int, b: int| (a < i || (a == i && b < 0)) && #[trigger] edge_at(files@, a, b, p, c);
                    assert(is_edge(files@, p, c));
                }
            }
        }
        let mut cands: Vec<String> = Vec::new();
        let mut k: usize = 0;
        while k < files.len()
            invariant
                k <= files@.len(),
                forall|p: Seq<char>, c: Seq<char>| #[trigger] tree_edge(tree@, p, c) <==> is_edge(files@, p, c),
                views(cands@) == file_names(files@).take(k as int).filter(parentless(files@)),
            decreases files@.len() - k,
        {
            let ghost before = file_names(files@).take(k as int);
            proof {
                assert(file_names(files@).take(k + 1) =~= before.push(files@[k as int].name@));
                before.lemma_filter_push(files@[k as int].name@, parentless(files@));
            }
            let under = tree_has_child(&tree, &files[k].name);
            proof {
                let n = files@[k as int].name@;
                assert(parentless(files@)(n) == !has_parent(files@, n));
                if under {
                    let p = choose|p: Seq<char>| p != n && tree_edge(tree@, p, n);
                    assert(is_edge(files@, p, n));
                } else {
                    if has_parent(files@, n) {
                        let p = choose|p: Seq<char>| p != n && #[trigger] is_edge(files@, p, n);
                        assert(tree_edge(tree@, p, n));
                    }
                }
            }
            if !under {
                let ghost cv = views(cands@);
                cands.push(files[k].name.clone());
                proof {
                    assert(views(cands@) =~= cv.push(files@[k as int].name@));
                }
            }
            proof {
                assert(views(cands@) == file_names(files@).take(k + 1).filter(parentless(files@)));
            }
            k = k + 1;
        }
        proof {
            assert(file_names(files@).take(files@.len() as int) =~= file_names(files@));
        }
        let roots = sort_strings(&cands);
        WorkspaceTree { roots, children: tree }
    }
}

/// The rows an index card shows before checking which files exist: its
/// entries when it has some, else its legacy file list when that is not
/// empty, else every listed workspace file. (An empty entry list does not
/// fall back to the legacy list.)
pub open spec fn index_rows_spec(l: NoteLinks, listed: Seq<Seq<char>>) -> Seq<(bool, Seq<char>)> {
    let all = listed.map_values(|f: Seq<char>| (true, f));
    match l.index_entries {
        Some(v) => if v@.len() > 0 { entries_view(v@) } else { all },
        None => match l.index_files {
            Some(f) => if f@.len() > 0 { views(f@).map_values(|x: Seq<char>| (true, x)) } else { all },
            None => all,
        },
    }
}

/// The rows an index card shows (see [`index_rows_spec`]), given the
/// workspace listing.
pub fn index_rows(links: &NoteLinks, listed: &Vec<String>) -> (r: Vec<IndexEntry>)
    ensures
        entries_view(r@) == index_rows_spec(*links, views(listed@)),
{
    match &links.index_entries {
        Some(v) => {
            if v.len() > 0 {
                return copy_entries(v);
            }
        },
        None => match &links.index_files {
            Some(f) => {
                if f.len() > 0 {
                    return file_entries(f);
                }
            },
            None => {},
        },
    }
    file_entries(listed)
}

/// An index row ready to show: a file's path and label, or a heading.
#[derive(Debug, Clone)]
pub enum ResolvedIndexEntry {
    File { path: String, display: String },
    Heading { text: String },
}

pub open spec fn resolved_view(r: ResolvedIndexEntry) -> (bool, Seq<char>, Seq<char>) {
    match r {
        ResolvedIndexEntry::File { path, display } => (true, path@, display@),
        ResolvedIndexEntry::Heading { text } => (false, text@, Seq::empty()),
    }
}

/// The shown rows: file rows whose file exists, as (path in `root`,
/// label), and every heading.
pub open spec fn resolved_rows(root: Seq<char>, rows: Seq<((bool, Seq<char>), bool)>) -> Seq<(bool, Seq<char>, Seq<char>)>
    decreases rows.len(),
{
    if rows.len() == 0 {
        Seq::empty()
    } else {
        let prev = resolved_rows(root, rows.drop_last());
        let (e, exists) = rows.last();
        if e.0 {
            if exists {
                prev.push((true, joined(root, e.1), display_name(e.1)))
            } else {
                prev
            }
        } else {
            prev.push((false, e.1, Seq::empty()))
        }
    }
}

impl Workspace {
    /// Resolves an index card's rows; each comes with whether its file
    /// exists in the workspace (ignored for headings).
    pub fn resolve_index_entries(&self, rows: &Vec<(IndexEntry, bool)>) -> (r: Vec<ResolvedIndexEntry>)
        ensures
            r@.map_values(|x: ResolvedIndexEntry| resolved_view(x)) == resolved_rows(
                self.root@,
                rows@.map_values(|p: (IndexEntry, bool)| (crate::links::entry_view(p.0), p.1)),
            ),
    {
        let ghost rv = rows@.map_values(|p: (IndexEntry, bool)| (crate::links::entry_view(p.0), p.1));
        let mut out: Vec<ResolvedIndexEntry> = Vec::new();
        let mut i: usize = 0;
        proof {
            assert(rv.take(0) =~= Seq::<((bool, Seq<char>), bool)>::empty());
            assert(out@.map_values(|x: ResolvedIndexEntry| resolved_view(x)) =~= Seq::empty());
        }
        while i < rows.len()
            invariant
                i <= rows@.len(),
                rv == rows@.map_values(|p: (IndexEntry, bool)| (crate::links::entry_view(p.0), p.1)),
                out@.map_values(|x: ResolvedIndexEntry| resolved_view(x)) == resolved_rows(self.root@, rv.take(i as int)),
            decreases rows@.len() - i,
        {
            let ghost before = out@.map_values(|x: ResolvedIndexEntry| resolved_view(x));
            proof {
                assert(rv.take(i + 1).drop_last() =~= rv.take(i as int));
                assert(rv.take(i + 1).last() == rv[i as int]);
            }
            match &rows[i].0 {
                IndexEntry::File { file } => {
                    if rows[i].1 {
                        let r = ResolvedIndexEntry::File {
                            path: join_path(self.root.as_str(), file.as_str()),
                            display: display_name_for_file(file.as_str()),
                        };
                        out.push(r);
                        assert(out@.map_values(|x: ResolvedIndexEntry| resolved_view(x)) =~= before.push(resolved_view(r)));
                    }
                },
                IndexEntry::Heading { text } => {
                    let r = ResolvedIndexEntry::Heading { text: text.clone() };
                    out.push(r);
                    assert(out@.map_values(|x: ResolvedIndexEntry| resolved_view(x)) =~= before.push(resolved_view(r)));
                },
            }
            i = i + 1;
        }
        proof {
            assert(rv.take(rows@.len() as int) =~= rv);
        }
        out
    }
}

/// The stem a new linked file gets from a note title: `note` for an
/// untitled note, else the title's slug.
pub open spec fn linked_stem(title: Seq<char>) -> Seq<char> {
    if title.len() == 0 {
        seq!['n', 'o', 't', 'e']
    } else {
        slug(title)
    }
}

impl Workspace {
    /// The file name an inline note gets when it becomes a linked note:
    /// `<stem>.writee`, else the first of `<stem>-2.writee`, ... not among
    /// the names `taken` in the workspace, the stem coming from the title.
    pub fn linked_note_file_name(&self, title: &str, taken: &Vec<String>) -> (n: String)
        requires
            taken@.len() < u64::MAX,
        ensures
            is_first_free_name(linked_stem(title@), name_views(taken@), n@),
    {
        let stem = if title.unicode_len() == 0 {
            proof {
                reveal_strlit("note");
            }
            let s = String::from_str("note");
            assert(s@ =~= seq!['n', 'o', 't', 'e']);
            s
        } else {
            slugify(title)
        };
        first_free_name(stem.as_str(), taken)
    }
}

/// What renaming a file to a new title does.
#[derive(Debug, Clone)]
pub enum RenamePlan {
    /// The slug gives the same name: nothing to do.
    Unchanged,
    /// Another file already has the name: refuse.
    Taken(String),
    /// Rename to this file name.
    Rename(String),
}

/// The name a file is renamed to: the slug of the new title, `.writee`.
pub open spec fn renamed_file_name(new_stem: Seq<char>) -> Seq<char> {
    slug(new_stem) + ext_writee()
}

/// Renaming file `old_name` to the title `new_stem`, given the names
/// `taken` in its directory.
pub fn rename_plan(old_name: &str, new_stem: &str, taken: &Vec<String>) -> (r: RenamePlan)
    ensures
        match r {
            RenamePlan::Unchanged => renamed_file_name(new_stem@) == old_name@,
            RenamePlan::Taken(n) => n@ == renamed_file_name(new_stem@) && n@ != old_name@ && name_views(taken@).contains(n@),
            RenamePlan::Rename(n) => n@ == renamed_file_name(new_stem@) && n@ != old_name@ && !name_views(taken@).contains(n@),
        },
{
    let mut name = slugify(new_stem);
    crate::strings::push_str(&mut name, ".writee");
    proof {
        reveal_strlit(".writee");
        assert(".writee"@ =~= ext_writee());
    }
    if str_eq(name.as_str(), old_name) {
        return RenamePlan::Unchanged;
    }
    if contains_name(taken, &name) {
        RenamePlan::Taken(name)
    } else {
        RenamePlan::Rename(name)
    }
}

/// The SQLite side file of a `.writee` file: the extension `.writee`
/// replaced by `.<ext>` (`writee-wal`, `writee-shm`).
pub open spec fn sidecar(name: Seq<char>, ext: Seq<char>) -> Seq<char> {
    strip_suffix(name, ext_writee()) + seq!['.'] + ext
}

/// The name of a file's side file with extension `ext`.
pub fn sidecar_name(name: &str, ext: &str) -> (r: String)
    ensures
        r@ == sidecar(name@, ext@),
{
    let chars = crate::strings::chars_of(name);
    let n = chars.len();
    let mut stem_len = n;
    if n >= 7 && chars[n - 7] == '.' && chars[n - 6] == 'w' && chars[n - 5] == 'r' && chars[n - 4] == 'i'
        && chars[n - 3] == 't' && chars[n - 2] == 'e' && chars[n - 1] == 'e' {
        stem_len = n - 7;
        assert(name@.skip(n - 7) =~= ext_writee());
    } else {
        assert(!(name@.len() >= 7 && name@.skip(name@.len() - 7) == ext_writee())) by {
            if name@.len() >= 7 && name@.skip(name@.len() - 7) == ext_writee() {
                assert(name@.skip(n - 7)[0] == '.');
                assert(name@.skip(n - 7)[1] == 'w');
                assert(name@.skip(n - 7)[2] == 'r');
                assert(name@.skip(n - 7)[3] == 'i');
                assert(name@.skip(n - 7)[4] == 't');
                assert(name@.skip(n - 7)[5] == 'e');
                assert(name@.skip(n - 7)[6] == 'e');
            }
        }
    }
    let mut v: Vec<char> = Vec::new();
    let mut i: usize = 0;
    while i < stem_len
        invariant
            stem_len <= n,
            n == chars@.len(),
            chars@ == name@,
            i <= stem_len,
            v@ == chars@.take(i as int),
        decreases stem_len - i,
    {
        v.push(chars[i]);
        proof {
            assert(chars@.take(i as int).push(chars@[i as int]) =~= chars@.take(i + 1));
        }
        i = i + 1;
    }
    v.push('.');
    let mut out = crate::strings::string_from_chars(&v);
    crate::strings::push_str(&mut out, ext);
    proof {
        assert(strip_suffix(name@, ext_writee()) =~= name@.take(stem_len as int));
        assert(out@ =~= sidecar(name@, ext@));
    }
    out
}

/// A whiteboard file: a name with a stem before `.writee` (what has the
/// extension `writee`).
pub open spec fn is_writee_name(n: Seq<char>) -> bool {
    n.len() > 7 && n.skip(n.len() - 7) == ext_writee()
}

fn writee_name(n: &String) -> (b: bool)
    ensures
        b == is_writee_name(n@),
{
    let c = crate::strings::chars_of(n.as_str());
    let k = c.len();
    if k <= 7 {
        return false;
    }
    let ext = vec!['.', 'w', 'r', 'i', 't', 'e', 'e'];
    let mut i: usize = 0;
    while i < 7
        invariant
            k == c@.len(),
            k > 7,
            c@ == n@,
            ext@ == ext_writee(),
            i <= 7,
            forall|m: int| 0 <= m < i ==> c@[k - 7 + m] == ext@[m],
        decreases 7 - i,
    {
        if c[k - 7 + i] != ext[i] {
            assert(n@.skip(k - 7)[i as int] != ext_writee()[i as int]);
            return false;
        }
        i = i + 1;
    }
    assert(n@.skip(k - 7) =~= ext_writee());
    true
}

impl Workspace {
    /// The whiteboard files among the names in the workspace directory,
    /// without the index file, sorted, as paths.
    pub fn list_files(&self, names: &Vec<String>) -> (r: Vec<String>)
        ensures
            sorted(views(r@)),
            views(r@).to_multiset() == views(names@).filter(listed_files()).map_values(
                |n: Seq<char>| joined(self.root@, n),
            ).to_multiset(),
    {
        let mut picked: Vec<String> = Vec::new();
        let mut i: usize = 0;
        proof {
            assert(views(names@).take(0).filter(listed_files()) =~= Seq::<Seq<char>>::empty());
            assert(views(picked@) =~= Seq::<Seq<char>>::empty());
        }
        while i < names.len()
            invariant
                i <= names@.len(),
                views(picked@) == views(names@).take(i as int).filter(listed_files()).map_values(
                    |n: Seq<char>| joined(self.root@, n),
                ),
            decreases names@.len() - i,
        {
            let n = &names[i];
            proof {
                assert(views(names@).take(i + 1) =~= views(names@).take(i as int).push(n@));
                views(names@).take(i as int).lemma_filter_push(n@, listed_files());
            }
            let is_index = str_eq(n.as_str(), INDEX_FILE_NAME);
            if writee_name(n) && !is_index {
                let ghost before = views(picked@);
                picked.push(join_path(self.root.as_str(), n.as_str()));
                proof {
                    assert(listed_files()(n@));
                    assert(views(picked@) =~= before.push(joined(self.root@, n@)));
                    assert(views(names@).take(i as int).filter(listed_files()).push(n@).map_values(
                        |n: Seq<char>| joined(self.root@, n),
                    ) =~= before.push(joined(self.root@, n@)));
                }
            } else {
                assert(!listed_files()(n@));
            }
            i = i + 1;
        }
        proof {
            assert(views(names@).take(names@.len() as int) =~= views(names@));
        }
        sort_strings(&picked)
    }
}

/// Listed as a workspace file: a whiteboard file other than the index.
pub open spec fn listed_files() -> spec_fn(Seq<char>) -> bool {
    |n: Seq<char>| is_writee_name(n) && n != INDEX_FILE_NAME@
}

/// A parent with its children, as names.
pub open spec fn node_view(n: TreeNode) -> (Seq<char>, Seq<Seq<char>>) {
    (n.parent@, views(n.children@))
}

pub open spec fn in_list(allowed: Seq<Seq<char>>) -> spec_fn(Seq<char>) -> bool {
    |f: Seq<char>| allowed.contains(f)
}

/// The nodes whose parent is allowed, in order, each listing only its
/// allowed children.
pub open spec fn kept_nodes(t: Seq<TreeNode>, allowed: Seq<Seq<char>>) -> Seq<(Seq<char>, Seq<Seq<char>>)>
    decreases t.len(),
{
    if t.len() == 0 {
        Seq::empty()
    } else {
        let rest = kept_nodes(t.drop_last(), allowed);
        let n = t.last();
        if allowed.contains(n.parent@) {
            rest.push((n.parent@, views(n.children@).filter(in_list(allowed))))
        } else {
            rest
        }
    }
}

fn tree_lists(t: &Vec<TreeNode>, n: &String) -> (b: bool)
    ensures
        b == exists|p: Seq<char>| tree_edge(t@, p, n@),
{
    let mut k: usize = 0;
    while k < t.len()
        invariant
            k <= t@.len(),
            forall|m: int| 0 <= m < k ==> !(#[trigger] views(t@[m].children@)).contains(n@),
        decreases t@.len() - k,
    {
        let kids = &t[k].children;
        let mut j: usize = 0;
        while j < kids.len()
            invariant
                k < t@.len(),
                kids == t@[k as int].children,
                j <= kids@.len(),
                forall|m: int| 0 <= m < j ==> kids@[m]@ != n@,
            decreases kids@.len() - j,
        {
            if kids[j] == *n {
                assert(views(t@[k as int].children@)[j as int] == n@);
                assert(views(t@[k as int].children@).contains(n@));
                assert(tree_edge(t@, t@[k as int].parent@, n@));
                return true;
            }
            j = j + 1;
        }
        proof {
            if views(kids@).contains(n@) {
                let m = choose|m: int| 0 <= m < views(kids@).len() && views(kids@)[m] == n@;
                assert(kids@[m]@ == n@);
            }
        }
        k = k + 1;
    }
    proof {
        if exists|p: Seq<char>| tree_edge(t@, p, n@) {
            let p = choose|p: Seq<char>| tree_edge(t@, p, n@);
            let m = choose|m: int| 0 <= m < t@.len() && t@[m].parent@ == p && #[trigger] views(t@[m].children@).contains(n@);
            assert(!views(t@[m].children@).contains(n@));
        }
    }
    false
}

/// The tree restricted to the `allowed` files (those carrying the active
/// tag): a parent stays when allowed and keeps only its allowed children;
/// the roots are the allowed files that no surviving parent lists (a
/// surviving self-link counts), sorted and once each, so an allowed file
/// under a filtered-out parent stays reachable.
pub fn filter_tree(tree: &WorkspaceTree, allowed: &Vec<String>) -> (r: WorkspaceTree)
    ensures
        r.children@.map_values(|n: TreeNode| node_view(n)) == kept_nodes(tree.children@, views(allowed@)),
        strictly_sorted(views(r.roots@)),
        forall|f: Seq<char>| #[trigger] views(r.roots@).contains(f) <==> (views(allowed@).contains(f)
            && !exists|p: Seq<char>| tree_edge(r.children@, p, f)),
{
    let ghost al = views(allowed@);
    let mut kept: Vec<TreeNode> = Vec::new();
    let mut i: usize = 0;
    while i < tree.children.len()
        invariant
            i <= tree.children@.len(),
            al == views(allowed@),
            kept@.map_values(|n: TreeNode| node_view(n)) == kept_nodes(tree.children@.take(i as int), al),
        decreases tree.children@.len() - i,
    {
        proof {
            assert(tree.children@.take(i + 1).drop_last() =~= tree.children@.take(i as int));
            assert(tree.children@.take(i + 1).last() == tree.children@[i as int]);
        }
        let node = &tree.children[i];
        proof {
            assert(name_views(allowed@) =~= al);
        }
        if contains_name(allowed, &node.parent) {
            let mut kids: Vec<String> = Vec::new();
            let mut j: usize = 0;
            while j < node.children.len()
                invariant
                    j <= node.children@.len(),
                    al == views(allowed@),
                    views(kids@) == views(node.children@).take(j as int).filter(in_list(al)),
                decreases node.children@.len() - j,
            {
                proof {
                    let before = views(node.children@).take(j as int);
                    assert(views(node.children@).take(j + 1) =~= before.push(node.children@[j as int]@));
                    before.lemma_filter_push(node.children@[j as int]@, in_list(al));
                }
                proof {
                    assert(name_views(allowed@) =~= al);
                }
                if contains_name(allowed, &node.children[j]) {
                    let ghost kv = views(kids@);
                    kids.push(node.children[j].clone());
                    proof {
                        assert(views(kids@) =~= kv.push(node.children@[j as int]@));
                    }
                }
                j = j + 1;
            }
            proof {
                assert(views(node.children@).take(node.children@.len() as int) =~= views(node.children@));
            }
            let ghost kb = kept@;
            let nn = TreeNode { parent: node.parent.clone(), children: kids };
            kept.push(nn);
            proof {
                assert(kept@.map_values(|n: TreeNode| node_view(n)) =~= kb.map_values(|n: TreeNode| node_view(n)).push(node_view(nn)));
            }
        }
        i = i + 1;
    }
    proof {
        assert(tree.children@.take(tree.children@.len() as int) =~= tree.children@);
    }
    let mut roots: Vec<String> = Vec::new();
    let mut k: usize = 0;
    while k < allowed.len()
        invariant
            k <= allowed@.len(),
            al == views(allowed@),
            strictly_sorted(views(roots@)),
            forall|f: Seq<char>| #[trigger] views(roots@).contains(f) <==> (al.take(k as int).contains(f)
                && !exists|p: Seq<char>| tree_edge(kept@, p, f)),
        decreases allowed@.len() - k,
    {
        let under = tree_lists(&kept, &allowed[k]);
        let ghost before = views(roots@);
        if !under {
            insert_sorted_unique(&mut roots, allowed[k].clone());
        }
        proof {
            let a = allowed@[k as int]@;
            assert(al[k as int] == a);
            let t1 = al.take(k + 1);
            let t0 = al.take(k as int);
            assert(t1 =~= t0.push(a));
            assert forall|f: Seq<char>| #[trigger] views(roots@).contains(f) <==> (t1.contains(f)
                && !exists|p: Seq<char>| tree_edge(kept@, p, f)) by {
                let hop = exists|p: Seq<char>| tree_edge(kept@, p, f);
                assert(before.contains(f) <==> (t0.contains(f) && !hop));
                assert(t1.contains(f) <==> (t0.contains(f) || f == a)) by {
                    if t1.contains(f) && f != a {
                        let m = choose|m: int| 0 <= m < k + 1 && #[trigger] t1[m] == f;
                        assert(t0[m] == f);
                    }
                    if t0.contains(f) {
                        let m = choose|m: int| 0 <= m < k && #[trigger] t0[m] == f;
                        assert(t1[m] == f);
                    }
                    if f == a {
                        assert(t1[k as int] == f);
                    }
                }
                if under {
                    assert(views(roots@) == before);
                } else {
                    assert(views(roots@).to_set() == before.to_set().insert(a));
                    assert(views(roots@).contains(f) <==> views(roots@).to_set().contains(f));
                    assert(before.contains(f) <==> before.to_set().contains(f));
                }
            }
        }
        k = k + 1;
    }
    proof {
        assert(al.take(allowed@.len() as int) =~= al);
    }
    WorkspaceTree { roots, children: kept }
}

/// A file trashed under time stamp `ts` comes back under the stem it had:
/// restoring it gives the first free name for that stem, which is the
/// file's own old name when nothing has taken it since.
pub proof fn law_restore_returns_to_stem(root: Seq<char>, ts: nat, stem: Seq<char>, taken: Seq<Seq<char>>, p: Seq<char>)
    requires
        is_first_free(root, after_first(crate::names::trash_stem(ts, stem), '_'), taken, p),
    ensures
        is_first_free(root, stem, taken, p),
        !taken.contains(numbered_name(stem, 1)) ==> p == joined(root, numbered_name(stem, 1)),
{
    crate::names::lemma_dec_digits(ts);
    crate::names::lemma_after_first_past_digits(crate::names::dec(ts), stem);
    if !taken.contains(numbered_name(stem, 1)) {
        let n = choose|n: Seq<char>| is_first_free_name(stem, taken, n) && p == joined(root, n);
        let i = choose|i: nat| 1 <= i && n == numbered_name(stem, i) && !taken.contains(numbered_name(stem, i))
            && forall|j: nat| 1 <= j < i ==> taken.contains(#[trigger] numbered_name(stem, j));
        if i > 1 {
            assert(taken.contains(numbered_name(stem, 1)));
        }
    }
}

/// Title of the welcome canvas.
pub const WELCOME_TITLE: &'static str = "Welcome";

/// The welcome canvas's heading text.
pub const WELCOME_HEADING: &'static str = "writee";

/// The welcome canvas's introduction.
pub const WELCOME_INTRO: &'static str = "Press N to drop a note anywhere. Notes start as sticky text; right-click one to convert\nit into its own linked file, mark it as an index, or change its mode (canvas / markdown).";

/// Title of the welcome canvas's index card.
pub const WELCOME_CARD_TITLE: &'static str = "Workspace";

/// A text box to seed, by id, world position and font size.
pub struct SeedText {
    pub id: u64,
    pub x: i32,
    pub y: i32,
    pub font_size: u32,
    pub content: String,
}

/// What a new welcome canvas holds: its title, the flag that refuses new
/// notes, two text boxes and a locked index card showing every file.
pub struct WelcomeSeed {
    pub title: String,
    pub locked_notes: bool,
    pub texts: Vec<SeedText>,
    pub card_id: u64,
    pub card_x: i32,
    pub card_y: i32,
    pub card: NoteCard,
}

/// The content a missing welcome canvas is created with.
pub fn welcome_seed() -> (w: WelcomeSeed)
    ensures
        w.title@ == WELCOME_TITLE@,
        w.locked_notes,
        w.texts@.len() == 2,
        w.texts@[0].id == 1 && w.texts@[0].x == -560 && w.texts@[0].y == -280
            && w.texts@[0].font_size == 32 && w.texts@[0].content@ == WELCOME_HEADING@,
        w.texts@[1].id == 2 && w.texts@[1].x == -560 && w.texts@[1].y == -230
            && w.texts@[1].font_size == 14 && w.texts@[1].content@ == WELCOME_INTRO@,
        w.card_id == 3,
        w.card_x == -180 && w.card_y == -180,
        w.card.title@ == WELCOME_CARD_TITLE@,
        w.card.target_file@.len() == 0,
        w.card.mode == NoteMode::Canvas,
        w.card.inline_content is None,
        w.card.is_index,
        w.card.index_files is None,
        w.card.index_entries is None,
        w.card.locked,
        w.card.cursor == 0,
{
    let mut texts: Vec<SeedText> = Vec::new();
    texts.push(SeedText { id: 1, x: -560, y: -280, font_size: 32, content: WELCOME_HEADING.to_string() });
    texts.push(SeedText { id: 2, x: -560, y: -230, font_size: 14, content: WELCOME_INTRO.to_string() });
    WelcomeSeed {
        title: WELCOME_TITLE.to_string(),
        locked_notes: true,
        texts,
        card_id: 3,
        card_x: -180,
        card_y: -180,
        card: NoteCard::new_locked_index(WELCOME_CARD_TITLE.to_string()),
    }
}

} // verus!
