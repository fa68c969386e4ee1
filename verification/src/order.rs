//! The lexicographic order of strings (by Unicode scalar value, which is
//! also the byte order of their UTF-8 encodings), and sorting by it.
use vstd::prelude::*;
use vstd::seq_lib::*;
use crate::strings::{chars_of, views};

verus! {

/// `a` sorts strictly before `b`.
pub open spec fn str_lt(a: Seq<char>, b: Seq<char>) -> bool
    decreases a.len(),
{
    if a.len() == 0 {
        b.len() > 0
    } else if b.len() == 0 {
        false
    } else if a[0] != b[0] {
        a[0] < b[0]
    } else {
        str_lt(a.drop_first(), b.drop_first())
    }
}

pub open spec fn str_le(a: Seq<char>, b: Seq<char>) -> bool {
    a == b || str_lt(a, b)
}

/// Ascending, duplicates allowed.
pub open spec fn sorted(s: Seq<Seq<char>>) -> bool {
    forall|i: int, j: int| 0 <= i < j < s.len() ==> str_le(#[trigger] s[i], #[trigger] s[j])
}

/// Ascending with no duplicates.
pub open spec fn strictly_sorted(s: Seq<Seq<char>>) -> bool {
    forall|i: int, j: int| 0 <= i < j < s.len() ==> str_lt(#[trigger] s[i], #[trigger] s[j])
}

pub proof fn lemma_lt_irreflexive(a: Seq<char>)
    ensures
        !str_lt(a, a),
    decreases a.len(),
{
    if a.len() > 0 {
        lemma_lt_irreflexive(a.drop_first());
    }
}

pub proof fn lemma_lt_transitive(a: Seq<char>, b: Seq<char>, c: Seq<char>)
    requires
        str_lt(a, b),
        str_lt(b, c),
    ensures
        str_lt(a, c),
    decreases a.len(),
{
    if a.len() > 0 && b.len() > 0 && c.len() > 0 && a[0] == b[0] && b[0] == c[0] {
        lemma_lt_transitive(a.drop_first(), b.drop_first(), c.drop_first());
    }
}

pub proof fn lemma_lt_total(a: Seq<char>, b: Seq<char>)
    ensures
        a == b || str_lt(a, b) || str_lt(b, a),
    decreases a.len(),
{
    if a.len() > 0 && b.len() > 0 && a[0] == b[0] {
        lemma_lt_total(a.drop_first(), b.drop_first());
        if a.drop_first() == b.drop_first() {
            assert(a =~= seq![a[0]] + a.drop_first());
            assert(b =~= seq![b[0]] + b.drop_first());
        }
    } else if a.len() == 0 && b.len() == 0 {
        assert(a =~= b);
    }
}

/// Whether `a` sorts strictly before `b`.
pub fn str_less(a: &str, b: &str) -> (r: bool)
    ensures
        r == str_lt(a@, b@),
{
    let x = chars_of(a);
    let y = chars_of(b);
    let mut i: usize = 0;
    proof {
        assert(x@.skip(0) =~= x@);
        assert(y@.skip(0) =~= y@);
    }
    while i < x.len() && i < y.len() && x[i] == y[i]
        invariant
            x@ == a@,
            y@ == b@,
            i <= x@.len(),
            i <= y@.len(),
            str_lt(a@, b@) == str_lt(x@.skip(i as int), y@.skip(i as int)),
        decreases x@.len() - i,
    {
        proof {
            assert(x@.skip(i as int).drop_first() =~= x@.skip(i + 1));
            assert(y@.skip(i as int).drop_first() =~= y@.skip(i + 1));
        }
        i = i + 1;
    }
    if i == x.len() {
        i < y.len()
    } else if i == y.len() {
        false
    } else {
        x[i] < y[i]
    }
}

proof fn lemma_views_insert(v: Seq<String>, i: int, s: String)
    requires
        0 <= i <= v.len(),
    ensures
        views(v.insert(i, s)) == views(v).insert(i, s@),
{
    assert(views(v.insert(i, s)) =~= views(v).insert(i, s@));
}

proof fn lemma_views_take_push(v: Seq<String>, i: int)
    requires
        0 <= i < v.len(),
    ensures
        views(v.take(i + 1)) == views(v.take(i)).push(v[i]@),
{
    assert(views(v.take(i + 1)) =~= views(v.take(i)).push(v[i]@));
}

/// The strings of `v`, sorted ascending (duplicates kept).
pub fn sort_strings(v: &Vec<String>) -> (r: Vec<String>)
    ensures
        sorted(views(r@)),
        views(r@).to_multiset() == views(v@).to_multiset(),
{
    broadcast use to_multiset_insert, to_multiset_build;

    let mut out: Vec<String> = Vec::new();
    let mut i: usize = 0;
    proof {
        assert(views(out@) =~= Seq::<Seq<char>>::empty());
        assert(views(v@.take(0)) =~= Seq::<Seq<char>>::empty());
    }
    while i < v.len()
        invariant
            i <= v.len(),
            sorted(views(out@)),
            views(out@).to_multiset() == views(v@.take(i as int)).to_multiset(),
        decreases v.len() - i,
    {
        let s = v[i].clone();
        let mut j: usize = 0;
        while j < out.len() && !str_less(s.as_str(), out[j].as_str())
            invariant
                j <= out.len(),
                s@ == v@[i as int]@,
                sorted(views(out@)),
                forall|k: int| 0 <= k < j ==> str_le(#[trigger] views(out@)[k], s@),
            decreases out.len() - j,
        {
            proof {
                lemma_lt_total(s@, out@[j as int]@);
            }
            j = j + 1;
        }
        let ghost old_views = views(out@);
        proof {
            if j < out.len() {
                assert forall|k: int| j <= k < old_views.len() implies str_lt(
                    s@,
                    #[trigger] old_views[k],
                ) by {
                    if k > j {
                        assert(str_le(old_views[j as int], old_views[k]));
                        if old_views[j as int] != old_views[k] {
                            lemma_lt_transitive(s@, old_views[j as int], old_views[k]);
                        }
                    }
                }
            }
            lemma_views_insert(out@, j as int, s);
            lemma_views_take_push(v@, i as int);
        }
        out.insert(j, s);
        proof {
            let nv = views(out@);
            assert(nv == old_views.insert(j as int, s@));
            to_multiset_insert(old_views, j as int, s@);
            to_multiset_build(views(v@.take(i as int)), v@[i as int]@);
            assert forall|a: int, b: int| 0 <= a < b < nv.len() implies str_le(
                #[trigger] nv[a],
                #[trigger] nv[b],
            ) by {
                if a < j && b > j {
                    if old_views[a] != s@ {
                        lemma_lt_transitive(old_views[a], s@, old_views[b - 1]);
                    }
                }
            }
        }
        i = i + 1;
    }
    proof {
        assert(v@.take(v@.len() as int) =~= v@);
    }
    out
}

/// Adds `s` to a strictly sorted list unless it is already there.
pub fn insert_sorted_unique(out: &mut Vec<String>, s: String)
    requires
        strictly_sorted(views(old(out)@)),
    ensures
        strictly_sorted(views(final(out)@)),
        views(final(out)@).to_set() == views(old(out)@).to_set().insert(s@),
{
    let ghost old_views = views(out@);
    let mut j: usize = 0;
    while j < out.len() && str_less(out[j].as_str(), s.as_str())
        invariant
            j <= out.len(),
            out@ == old(out)@,
            old_views == views(out@),
            strictly_sorted(old_views),
            forall|k: int| 0 <= k < j ==> str_lt(#[trigger] old_views[k], s@),
        decreases out.len() - j,
    {
        j = j + 1;
    }
    if j < out.len() && out[j] == s {
        assert(old_views.to_set().insert(s@) =~= old_views.to_set()) by {
            assert(old_views[j as int] == s@);
        }
        return;
    }
    proof {
        if j < out.len() {
            lemma_lt_total(out@[j as int]@, s@);
            assert forall|k: int| j <= k < old_views.len() implies str_lt(
                s@,
                #[trigger] old_views[k],
            ) by {
                if k > j {
                    lemma_lt_transitive(s@, old_views[j as int], old_views[k]);
                }
            }
        }
        lemma_views_insert(out@, j as int, s);
    }
    out.insert(j, s);
    proof {
        let nv = views(out@);
        assert(nv == old_views.insert(j as int, s@));
        assert forall|a: int, b: int| 0 <= a < b < nv.len() implies str_lt(
            #[trigger] nv[a],
            #[trigger] nv[b],
        ) by {
            if a < j && b > j {
                lemma_lt_transitive(old_views[a], s@, old_views[b - 1]);
            }
        }
        assert(nv.to_set() =~= old_views.to_set().insert(s@)) by {
            assert forall|x: Seq<char>| nv.to_set().contains(x) implies old_views.to_set().insert(
                s@,
            ).contains(x) by {
                let k = choose|k: int| 0 <= k < nv.len() && nv[k] == x;
                if k < j {
                    assert(old_views[k] == x);
                } else if k > j {
                    assert(old_views[k - 1] == x);
                }
            }
            assert forall|x: Seq<char>| old_views.to_set().insert(s@).contains(x) implies nv.to_set().contains(
                x,
            ) by {
                if x == s@ {
                    assert(nv[j as int] == x);
                } else {
                    let k = choose|k: int| 0 <= k < old_views.len() && old_views[k] == x;
                    if k < j {
                        assert(nv[k] == x);
                    } else {
                        assert(nv[k + 1] == x);
                    }
                }
            }
        }
    }
}

} // verus!
