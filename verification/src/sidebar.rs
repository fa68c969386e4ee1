//! The rows of the file-tree sidebar: a depth-first walk of the workspace
//! tree from its roots that shows each file once, indented under the file
//! it was reached from.
use vstd::prelude::*;
use crate::strings::{push_str, str_eq, views};
use crate::workspace::{TreeNode, WorkspaceTree};

verus! {

/// One line of the sidebar.
#[derive(Debug, Clone)]
pub struct SidebarRow {
    pub name: String,
    /// Nesting level; roots are at 0.
    pub depth: usize,
    /// The tree lists files under this one (it shows an expander).
    pub has_children: bool,
}

/// The files listed under `p`: those of the first node for `p`, none when
/// there is no such node.
pub open spec fn child_list(t: Seq<TreeNode>, p: Seq<char>) -> Seq<Seq<char>>
    decreases t.len(),
{
    if t.len() == 0 {
        Seq::empty()
    } else if t[0].parent@ == p {
        views(t[0].children@)
    } else {
        child_list(t.drop_first(), p)
    }
}

/// Every child named anywhere in the tree, node by node.
pub open spec fn all_children(t: Seq<TreeNode>) -> Seq<Seq<char>>
    decreases t.len(),
{
    if t.len() == 0 {
        Seq::empty()
    } else {
        views(t[0].children@) + all_children(t.drop_first())
    }
}

/// Every name the walk can meet: the roots and every listed child.
pub open spec fn universe(t: WorkspaceTree) -> Set<Seq<char>> {
    (views(t.roots@) + all_children(t.children@)).to_set()
}

pub open spec fn row_names(rows: Seq<SidebarRow>) -> Seq<Seq<char>> {
    rows.map_values(|r: SidebarRow| r.name@)
}

/// Row `i` sits under an earlier row `j` (from `lo` on) one level up that
/// lists it, with only deeper rows in between: the row it is shown under.
pub open spec fn nested_under(t: Seq<TreeNode>, rows: Seq<SidebarRow>, lo: int, i: int, j: int) -> bool {
    &&& lo <= j < i
    &&& rows[j].depth + 1 == rows[i].depth
    &&& forall|m: int| j < m < i ==> #[trigger] rows[m].depth >= rows[i].depth
    &&& child_list(t, rows[j].name@).contains(rows[i].name@)
}

pub open spec fn nested(t: Seq<TreeNode>, rows: Seq<SidebarRow>, lo: int, i: int) -> bool {
    exists|j: int| #[trigger] nested_under(t, rows, lo, i, j)
}

/// Rows from `lo` on: each lists whether it has children, every child of
/// each is shown somewhere, and each but the first (from `lo`) is nested
/// under an earlier one from `lo` on at least `depth` deep.
pub open spec fn walked_from(t: Seq<TreeNode>, rows: Seq<SidebarRow>, lo: int, depth: int) -> bool {
    &&& forall|i: int| lo <= i < rows.len() ==> #[trigger] rows[i].depth >= depth
    &&& forall|i: int| lo <= i < rows.len() ==> #[trigger] rows[i].has_children == (child_list(t, rows[i].name@).len() > 0)
    &&& forall|i: int, c: Seq<char>| lo <= i < rows.len() && #[trigger] child_list(t, rows[i].name@).contains(c)
        ==> row_names(rows).contains(c)
}

pub proof fn lemma_child_in_all(t: Seq<TreeNode>, p: Seq<char>, c: Seq<char>)
    requires
        child_list(t, p).contains(c),
    ensures
        all_children(t).contains(c),
    decreases t.len(),
{
    if t[0].parent@ == p {
        let k = choose|k: int| 0 <= k < child_list(t, p).len() && child_list(t, p)[k] == c;
        assert(all_children(t)[k] == c);
    } else {
        lemma_child_in_all(t.drop_first(), p, c);
        let rest = all_children(t.drop_first());
        let k = choose|k: int| 0 <= k < rest.len() && rest[k] == c;
        assert(all_children(t)[views(t[0].children@).len() + k] == c);
    }
}

/// Index of the first node for `p`, if any.
fn find_node(t: &Vec<TreeNode>, p: &str) -> (k: Option<usize>)
    ensures
        match k {
            Some(k) => k < t@.len() && views(t@[k as int].children@) == child_list(t@, p@),
            None => child_list(t@, p@).len() == 0,
        },
{
    let mut i: usize = 0;
    assert(t@.skip(0) =~= t@);
    while i < t.len()
        invariant
            i <= t@.len(),
            child_list(t@, p@) == child_list(t@.skip(i as int), p@),
        decreases t@.len() - i,
    {
        assert(t@.skip(i as int).drop_first() =~= t@.skip(i + 1));
        if str_eq(t[i].parent.as_str(), p) {
            assert(t@.skip(i as int)[0] == t@[i as int]);
            return Some(i);
        }
        i = i + 1;
    }
    None
}

fn shown(rows: &Vec<SidebarRow>, name: &str) -> (b: bool)
    ensures
        b == row_names(rows@).contains(name@),
{
    let mut i: usize = 0;
    while i < rows.len()
        invariant
            i <= rows@.len(),
            forall|m: int| 0 <= m < i ==> row_names(rows@)[m] != name@,
        decreases rows@.len() - i,
    {
        if str_eq(rows[i].name.as_str(), name) {
            assert(row_names(rows@)[i as int] == name@);
            return true;
        }
        i = i + 1;
    }
    false
}

/// How many names of the universe are not among `shown`.
pub open spec fn unshown(t: WorkspaceTree, shown: Seq<Seq<char>>) -> nat {
    universe(t).difference(shown.to_set()).len()
}

pub proof fn lemma_unshown_drops(t: WorkspaceTree, shown: Seq<Seq<char>>, name: Seq<char>)
    requires
        universe(t).contains(name),
        !shown.contains(name),
    ensures
        unshown(t, shown.push(name)) < unshown(t, shown),
{
    vstd::seq_lib::seq_to_set_is_finite(views(t.roots@) + all_children(t.children@));
    shown.lemma_push_to_set_commute(name);
    universe(t).lemma_set_insert_diff_decreases(shown.to_set(), name);
}

pub proof fn lemma_unshown_grows_less(t: WorkspaceTree, shown: Seq<Seq<char>>, more: Seq<Seq<char>>)
    ensures
        unshown(t, shown + more) <= unshown(t, shown),
{
    vstd::seq_lib::seq_to_set_is_finite(views(t.roots@) + all_children(t.children@));
    let a = universe(t).difference((shown + more).to_set());
    let b = universe(t).difference(shown.to_set());
    assert(a.subset_of(b)) by {
        assert forall|x: Seq<char>| a.contains(x) implies b.contains(x) by {
            if shown.contains(x) {
                let k = choose|k: int| 0 <= k < shown.len() && shown[k] == x;
                assert((shown + more)[k] == x);
            }
        }
    }
    vstd::set_lib::lemma_len_subset(a, b);
}

/// The rows (name, depth) a depth-first visit of `name` at `depth` adds
/// when the names `shown` are already shown: nothing for a name already
/// shown (or unknown to the tree); else its row, then the visits of its
/// children one level deeper, in the order the tree lists them.
pub open spec fn walk(t: WorkspaceTree, name: Seq<char>, depth: int, shown: Seq<Seq<char>>) -> Seq<(Seq<char>, int)>
    decreases unshown(t, shown), 0nat, 0nat,
{
    if shown.contains(name) || !universe(t).contains(name) {
        Seq::empty()
    } else {
        proof {
            lemma_unshown_drops(t, shown, name);
        }
        seq![(name, depth)] + walk_list(t, child_list(t.children@, name), depth + 1, shown.push(name))
    }
}

/// The rows added by visiting each of `names` in turn at `depth`.
pub open spec fn walk_list(t: WorkspaceTree, names: Seq<Seq<char>>, depth: int, shown: Seq<Seq<char>>) -> Seq<(Seq<char>, int)>
    decreases unshown(t, shown), 1nat, names.len(),
{
    if names.len() == 0 {
        Seq::empty()
    } else {
        let first = walk(t, names[0], depth, shown);
        proof {
            lemma_unshown_grows_less(t, shown, first.map_values(|r: (Seq<char>, int)| r.0));
        }
        first + walk_list(t, names.drop_first(), depth, shown + first.map_values(|r: (Seq<char>, int)| r.0))
    }
}

pub open spec fn rows_view(rows: Seq<SidebarRow>) -> Seq<(Seq<char>, int)> {
    rows.map_values(|r: SidebarRow| (r.name@, r.depth as int))
}

/// Distinct shown names from the universe are no more than it holds.
proof fn lemma_rows_bounded(t: WorkspaceTree, rows: Seq<SidebarRow>)
    requires
        row_names(rows).no_duplicates(),
        forall|i: int| 0 <= i < rows.len() ==> universe(t).contains(#[trigger] row_names(rows)[i]),
    ensures
        rows.len() <= universe(t).len(),
        universe(t).finite(),
{
    let names = row_names(rows);
    names.unique_seq_to_set();
    vstd::seq_lib::seq_to_set_is_finite(views(t.roots@) + all_children(t.children@));
    assert(names.to_set().subset_of(universe(t))) by {
        assert forall|x: Seq<char>| names.to_set().contains(x) implies universe(t).contains(x) by {
            let i = choose|i: int| 0 <= i < names.len() && names[i] == x;
        }
    }
    vstd::set_lib::lemma_len_subset(names.to_set(), universe(t));
}

/// What a visit of `name` at `depth` leaves, given the rows `old` it began
/// with.
pub open spec fn visited(t: WorkspaceTree, old: Seq<SidebarRow>, rows: Seq<SidebarRow>, name: Seq<char>, depth: int) -> bool {
    &&& row_names(rows).no_duplicates()
    &&& forall|i: int| 0 <= i < rows.len() ==> universe(t).contains(#[trigger] row_names(rows)[i])
    &&& rows.len() >= old.len()
    &&& rows.take(old.len() as int) == old
    &&& row_names(rows).contains(name)
    &&& row_names(old).contains(name) ==> rows == old
    &&& !row_names(old).contains(name) ==> rows.len() > old.len() && rows[old.len() as int].name@ == name
        && rows[old.len() as int].depth == depth
    &&& walked_from(t.children@, rows, old.len() as int, depth)
    &&& forall|i: int| old.len() < i < rows.len() ==> #[trigger] nested(t.children@, rows, old.len() as int, i)
    &&& rows_view(rows) == rows_view(old) + walk(t, name, depth, row_names(old))
}

proof fn lemma_prefix_names(before: Seq<SidebarRow>, after: Seq<SidebarRow>, c: Seq<char>)
    requires
        after.len() >= before.len(),
        after.take(before.len() as int) == before,
        row_names(before).contains(c),
    ensures
        row_names(after).contains(c),
{
    let q = choose|q: int| 0 <= q < before.len() && row_names(before)[q] == c;
    assert(after.take(before.len() as int)[q] == after[q]);
    assert(row_names(after)[q] == c);
}

/// After visiting one more child of the row at `start`, the rows from
/// `start` on still hang together.
proof fn lemma_step(
    t: WorkspaceTree,
    orows: Seq<SidebarRow>,
    before: Seq<SidebarRow>,
    after: Seq<SidebarRow>,
    name: Seq<char>,
    child: Seq<char>,
    start: int,
    depth: int,
)
    requires
        start == orows.len(),
        before.len() > start,
        before[start].name@ == name,
        before[start].depth == depth,
        before.take(start) == orows,
        walked_from(t.children@, before, start + 1, depth + 1),
        forall|i: int| start < i < before.len() ==> #[trigger] nested(t.children@, before, start, i),
        child_list(t.children@, name).contains(child),
        visited(t, before, after, child, depth + 1),
    ensures
        after.len() >= before.len(),
        after[start] == before[start],
        after.take(start) == orows,
        walked_from(t.children@, after, start + 1, depth + 1),
        forall|i: int| start < i < after.len() ==> #[trigger] nested(t.children@, after, start, i),
{
    let bl = before.len() as int;
    assert forall|m: int| 0 <= m < bl implies after[m] == before[m] by {
        assert(after.take(bl)[m] == after[m]);
    }
    assert(after.take(start) =~= orows) by {
        assert forall|m: int| 0 <= m < start implies after.take(start)[m] == orows[m] by {
            assert(before.take(start)[m] == before[m]);
        }
    }
    let tc = t.children@;
    assert forall|i: int, c: Seq<char>| start + 1 <= i < after.len() && #[trigger] child_list(tc, after[i].name@).contains(c)
        implies row_names(after).contains(c) by {
        if i < bl {
            assert(row_names(before).contains(c));
            lemma_prefix_names(before, after, c);
        }
    }
    assert forall|i: int| start < i < after.len() implies #[trigger] nested(tc, after, start, i) by {
        if i < bl {
            assert(nested(tc, before, start, i));
            let j = choose|j: int| #[trigger] nested_under(tc, before, start, i, j);
            assert(nested_under(tc, after, start, i, j));
        } else if i == bl {
            assert(!row_names(before).contains(child)) by {
                if row_names(before).contains(child) {
                    assert(after == before);
                }
            }
            assert(nested_under(tc, after, start, i, start));
        } else {
            assert(nested(tc, after, bl, i));
            let j = choose|j: int| #[trigger] nested_under(tc, after, bl, i, j);
            assert(nested_under(tc, after, start, i, j));
        }
    }
}

/// Once every child of the row at `start` is shown, the visit that added
/// it is complete.
proof fn lemma_finish(t: WorkspaceTree, orows: Seq<SidebarRow>, rows: Seq<SidebarRow>, name: Seq<char>, start: int, depth: int)
    requires
        start == orows.len(),
        !row_names(orows).contains(name),
        rows.len() > start,
        rows[start].name@ == name,
        rows[start].depth == depth,
        rows[start].has_children == (child_list(t.children@, name).len() > 0),
        rows.take(start) == orows,
        row_names(rows).no_duplicates(),
        forall|i: int| 0 <= i < rows.len() ==> universe(t).contains(#[trigger] row_names(rows)[i]),
        forall|c: Seq<char>| #[trigger] child_list(t.children@, name).contains(c) ==> row_names(rows).contains(c),
        walked_from(t.children@, rows, start + 1, depth + 1),
        forall|i: int| start < i < rows.len() ==> #[trigger] nested(t.children@, rows, start, i),
        rows_view(rows) == rows_view(orows) + walk(t, name, depth, row_names(orows)),
    ensures
        visited(t, orows, rows, name, depth),
{
    assert(row_names(rows)[start] == name);
    let tc = t.children@;
    assert forall|i: int, c: Seq<char>| start <= i < rows.len() && #[trigger] child_list(tc, rows[i].name@).contains(c)
        implies row_names(rows).contains(c) by {
        if i > start {
        }
    }
}

/// Visiting the next name of a list advances the list's walk by that
/// name's rows.
proof fn lemma_walk_list_step(t: WorkspaceTree, l: Seq<Seq<char>>, j: int, d: int, before: Seq<SidebarRow>, after: Seq<SidebarRow>)
    requires
        0 <= j < l.len(),
        rows_view(after) == rows_view(before) + walk(t, l[j], d, row_names(before)),
    ensures
        rows_view(after) + walk_list(t, l.skip(j + 1), d, row_names(after))
            == rows_view(before) + walk_list(t, l.skip(j), d, row_names(before)),
{
    let first = walk(t, l[j], d, row_names(before));
    let names_of = |r: (Seq<char>, int)| r.0;
    assert(row_names(after) =~= rows_view(after).map_values(names_of));
    assert(row_names(before) =~= rows_view(before).map_values(names_of));
    assert(rows_view(after).map_values(names_of) =~= rows_view(before).map_values(names_of) + first.map_values(names_of));
    assert(l.skip(j)[0] == l[j]);
    assert(l.skip(j).drop_first() =~= l.skip(j + 1));
    assert(rows_view(after) + walk_list(t, l.skip(j + 1), d, row_names(after))
        =~= rows_view(before) + (first + walk_list(t, l.skip(j + 1), d, row_names(before) + first.map_values(names_of))));
}

fn visit(t: &WorkspaceTree, name: &String, depth: usize, rows: &mut Vec<SidebarRow>)
    requires
        universe(*t).contains(name@),
        row_names(old(rows)@).no_duplicates(),
        forall|i: int| 0 <= i < old(rows)@.len() ==> universe(*t).contains(#[trigger] row_names(old(rows)@)[i]),
        depth <= old(rows)@.len(),
    ensures
        visited(*t, old(rows)@, final(rows)@, name@, depth as int),
    decreases universe(*t).len() - old(rows)@.len(),
{
    proof {
        lemma_rows_bounded(*t, rows@);
    }
    if shown(rows, name.as_str()) {
        assert(rows@.take(rows@.len() as int) =~= rows@);
        assert(rows_view(rows@) + walk(*t, name@, depth as int, row_names(rows@)) =~= rows_view(rows@));
        return;
    }
    let ghost start = rows@.len() as int;
    let ghost orows = rows@;
    let k = find_node(&t.children, name.as_str());
    let has_children = match k {
        Some(k) => t.children[k].children.len() > 0,
        None => false,
    };
    rows.push(SidebarRow { name: name.clone(), depth, has_children });
    proof {
        assert(row_names(rows@) =~= row_names(orows).push(name@));
        assert(rows@.take(start) =~= orows);
        assert forall|i: int| 0 <= i < rows@.len() implies universe(*t).contains(#[trigger] row_names(rows@)[i]) by {
            if i < start {
                assert(row_names(rows@)[i] == row_names(orows)[i]);
            }
        }
        assert(row_names(rows@)[start] == name@);
        assert(rows_view(rows@) =~= rows_view(orows).push((name@, depth as int)));
    }
    let n = rows.len();
    let d = depth + 1;
    match k {
        Some(k) => {
            let kids = &t.children[k].children;
            let mut j: usize = 0;
            proof {
                let w = walk_list(*t, child_list(t.children@, name@), d as int, row_names(orows).push(name@));
                assert(views(kids@).skip(0) =~= views(kids@));
                assert(walk(*t, name@, depth as int, row_names(orows)) == seq![(name@, depth as int)] + w);
                assert(rows_view(orows) + (seq![(name@, depth as int)] + w) =~= rows_view(rows@) + w);
            }
            while j < kids.len()
                invariant
                    j <= kids@.len(),
                    views(kids@) == child_list(t.children@, name@),
                    d == depth + 1,
                    d <= n,
                    start == orows.len(),
                    orows == old(rows)@,
                    n == start + 1,
                    !row_names(orows).contains(name@),
                    rows@.len() >= n,
                    rows@[start].name@ == name@,
                    rows@[start].depth == depth,
                    rows@[start].has_children == (child_list(t.children@, name@).len() > 0),
                    rows@.take(start) == orows,
                    row_names(rows@).no_duplicates(),
                    forall|i: int| 0 <= i < rows@.len() ==> universe(*t).contains(#[trigger] row_names(rows@)[i]),
                    forall|m: int| 0 <= m < j ==> row_names(rows@).contains(#[trigger] views(kids@)[m]),
                    walked_from(t.children@, rows@, start + 1, d as int),
                    forall|i: int| start < i < rows@.len() ==> #[trigger] nested(t.children@, rows@, start, i),
                    rows_view(orows) + walk(*t, name@, depth as int, row_names(orows))
                        == rows_view(rows@) + walk_list(*t, views(kids@).skip(j as int), d as int, row_names(rows@)),
                decreases kids@.len() - j,
            {
                let ghost before = rows@;
                proof {
                    lemma_child_in_all(t.children@, name@, views(kids@)[j as int]);
                    let c = views(kids@)[j as int];
                    let all = views(t.roots@) + all_children(t.children@);
                    let kk = choose|kk: int| 0 <= kk < all_children(t.children@).len() && all_children(t.children@)[kk] == c;
                    assert(all[views(t.roots@).len() + kk] == c);
                    lemma_rows_bounded(*t, rows@);
                }
                visit(t, &kids[j], d, rows);
                proof {
                    lemma_step(*t, orows, before, rows@, name@, views(kids@)[j as int], start, depth as int);
                    lemma_walk_list_step(*t, views(kids@), j as int, d as int, before, rows@);
                    assert forall|m: int| 0 <= m < j + 1 implies row_names(rows@).contains(#[trigger] views(kids@)[m]) by {
                        if m < j {
                            let q = choose|q: int| 0 <= q < before.len() && row_names(before)[q] == views(kids@)[m];
                            assert(rows@.take(before.len() as int)[q] == rows@[q]);
                            assert(row_names(rows@)[q] == views(kids@)[m]);
                        }
                    }
                }
                j = j + 1;
            }
            proof {
                assert(views(kids@).skip(j as int) =~= Seq::<Seq<char>>::empty());
                assert(rows_view(rows@) + Seq::<(Seq<char>, int)>::empty() =~= rows_view(rows@));
                lemma_finish(*t, orows, rows@, name@, start, depth as int);
            }
        },
        None => {
            proof {
                assert(walked_from(t.children@, rows@, start + 1, d as int));
                let w = walk_list(*t, child_list(t.children@, name@), d as int, row_names(orows).push(name@));
                assert(w =~= Seq::<(Seq<char>, int)>::empty());
                assert(walk(*t, name@, depth as int, row_names(orows)) == seq![(name@, depth as int)] + w);
                assert(rows_view(orows) + (seq![(name@, depth as int)] + w) =~= rows_view(rows@));
                lemma_finish(*t, orows, rows@, name@, start, depth as int);
            }
        },
    }
}

/// Row `i` is a root shown at the top level, or nested under an earlier row.
pub open spec fn placed(t: WorkspaceTree, rows: Seq<SidebarRow>, i: int) -> bool {
    ||| rows[i].depth == 0 && views(t.roots@).contains(rows[i].name@)
    ||| nested(t.children@, rows, 0, i)
}

proof fn lemma_root_step(t: WorkspaceTree, before: Seq<SidebarRow>, after: Seq<SidebarRow>, root: Seq<char>)
    requires
        views(t.roots@).contains(root),
        walked_from(t.children@, before, 0, 0),
        forall|i: int| 0 <= i < before.len() ==> #[trigger] placed(t, before, i),
        visited(t, before, after, root, 0),
    ensures
        walked_from(t.children@, after, 0, 0),
        forall|i: int| 0 <= i < after.len() ==> #[trigger] placed(t, after, i),
{
    let bl = before.len() as int;
    let tc = t.children@;
    assert forall|m: int| 0 <= m < bl implies after[m] == before[m] by {
        assert(after.take(bl)[m] == after[m]);
    }
    assert forall|i: int, c: Seq<char>| 0 <= i < after.len() && #[trigger] child_list(tc, after[i].name@).contains(c)
        implies row_names(after).contains(c) by {
        if i < bl {
            assert(row_names(before).contains(c));
            lemma_prefix_names(before, after, c);
        }
    }
    assert forall|i: int| 0 <= i < after.len() implies #[trigger] placed(t, after, i) by {
        if i < bl {
            if !(before[i].depth == 0 && views(t.roots@).contains(before[i].name@)) {
                assert(placed(t, before, i));
                assert(nested(tc, before, 0, i));
                let j = choose|j: int| #[trigger] nested_under(tc, before, 0, i, j);
                assert(nested_under(tc, after, 0, i, j));
            }
        } else if i == bl {
            assert(!row_names(before).contains(root)) by {
                if row_names(before).contains(root) {
                    assert(after == before);
                }
            }
        } else {
            assert(nested(tc, after, bl, i));
            let j = choose|j: int| #[trigger] nested_under(tc, after, bl, i, j);
            assert(nested_under(tc, after, 0, i, j));
        }
    }
}

/// The sidebar's rows: the roots in order, each followed depth-first by
/// the files it lists, every file shown once. A file reached again later is
/// not repeated.
pub fn sidebar_rows(t: &WorkspaceTree) -> (rows: Vec<SidebarRow>)
    ensures
        row_names(rows@).no_duplicates(),
        forall|i: int| 0 <= i < rows@.len() ==> universe(*t).contains(#[trigger] row_names(rows@)[i]),
        forall|r: Seq<char>| #[trigger] views(t.roots@).contains(r) ==> row_names(rows@).contains(r),
        walked_from(t.children@, rows@, 0, 0),
        forall|i: int| 0 <= i < rows@.len() ==> #[trigger] placed(*t, rows@, i),
        rows_view(rows@) == walk_list(*t, views(t.roots@), 0, Seq::empty()),
{
    let mut rows: Vec<SidebarRow> = Vec::new();
    let mut r: usize = 0;
    proof {
        assert(row_names(rows@) =~= Seq::<Seq<char>>::empty());
        assert(views(t.roots@).skip(0) =~= views(t.roots@));
        assert(rows_view(rows@) + walk_list(*t, views(t.roots@), 0, Seq::empty()) =~= walk_list(*t, views(t.roots@), 0, Seq::empty()));
    }
    while r < t.roots.len()
        invariant
            r <= t.roots@.len(),
            row_names(rows@).no_duplicates(),
            forall|i: int| 0 <= i < rows@.len() ==> universe(*t).contains(#[trigger] row_names(rows@)[i]),
            forall|m: int| 0 <= m < r ==> row_names(rows@).contains(#[trigger] views(t.roots@)[m]),
            walked_from(t.children@, rows@, 0, 0),
            forall|i: int| 0 <= i < rows@.len() ==> #[trigger] placed(*t, rows@, i),
            walk_list(*t, views(t.roots@), 0, Seq::empty())
                == rows_view(rows@) + walk_list(*t, views(t.roots@).skip(r as int), 0, row_names(rows@)),
        decreases t.roots@.len() - r,
    {
        let ghost before = rows@;
        proof {
            let all = views(t.roots@) + all_children(t.children@);
            assert(all[r as int] == views(t.roots@)[r as int]);
            assert(views(t.roots@).contains(views(t.roots@)[r as int]));
        }
        visit(t, &t.roots[r], 0, &mut rows);
        proof {
            lemma_root_step(*t, before, rows@, views(t.roots@)[r as int]);
            lemma_walk_list_step(*t, views(t.roots@), r as int, 0, before, rows@);
            assert forall|m: int| 0 <= m < r + 1 implies row_names(rows@).contains(#[trigger] views(t.roots@)[m]) by {
                if m < r {
                    lemma_prefix_names(before, rows@, views(t.roots@)[m]);
                }
            }
        }
        r = r + 1;
    }
    proof {
        assert(views(t.roots@).skip(r as int) =~= Seq::<Seq<char>>::empty());
        assert(rows_view(rows@) + Seq::<(Seq<char>, int)>::empty() =~= rows_view(rows@));
        assert forall|x: Seq<char>| #[trigger] views(t.roots@).contains(x) implies row_names(rows@).contains(x) by {
            let m = choose|m: int| 0 <= m < views(t.roots@).len() && views(t.roots@)[m] == x;
        }
    }
    rows
}

/// The text of a row: the welcome file is starred.
pub fn row_label(name: &str, welcome_name: &str) -> (s: String)
    ensures
        s@ == if name@ == welcome_name@ { "* "@ + name@ } else { name@ },
{
    let mut s = String::new();
    if str_eq(name, welcome_name) {
        push_str(&mut s, "* ");
    }
    push_str(&mut s, name);
    proof {
        reveal_strlit("* ");
        assert(Seq::<char>::empty() + name@ =~= name@);
    }
    s
}

/// The tag filter after a tag is clicked: clicking the active tag clears
/// the filter, any other tag becomes the filter.
pub fn clicked_tag_filter(active: Option<&str>, tag: &str) -> (f: Option<String>)
    ensures
        f is None <==> (active matches Some(a) && a@ == tag@),
        f is Some ==> f->0@ == tag@,
{
    match active {
        Some(a) => if str_eq(a, tag) { None } else { Some(tag.to_string()) },
        None => Some(tag.to_string()),
    }
}

} // verus!
