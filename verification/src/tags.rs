//! `#tag` parsing.
//!
//! Tags live in the user's own text. Anything matching
//! `#[a-zA-Z][a-zA-Z0-9_/-]*` counts as a tag; a slash means hierarchy
//! (`#proj/foo` nests under `proj`).
use vstd::prelude::*;
use crate::strings::{enc, push_char, views};
use crate::order::{str_less, str_lt, strictly_sorted};

verus! {

pub open spec fn is_ascii_alpha(c: u8) -> bool {
    (65 <= c <= 90) || (97 <= c <= 122)
}

pub open spec fn is_ascii_digit(c: u8) -> bool {
    48 <= c <= 57
}

/// A byte that may continue a tag: letters, digits, `_`, `/` and `-`.
pub open spec fn is_tag_byte(c: u8) -> bool {
    is_ascii_alpha(c) || is_ascii_digit(c) || c == 95 || c == 47 || c == 45
}

/// ASCII lower-casing of one byte.
pub open spec fn lower_byte(c: u8) -> u8 {
    if 65 <= c <= 90 {
        (c + 32) as u8
    } else {
        c
    }
}

/// A `#` at `i` directly followed by a letter starts a tag.
pub open spec fn is_tag_start(b: Seq<u8>, i: int) -> bool {
    0 <= i && i + 1 < b.len() && b[i] == 35 && is_ascii_alpha(b[i + 1])
}

/// First position at or after `j` that does not continue a tag.
pub open spec fn tag_end(b: Seq<u8>, j: int) -> int
    decreases b.len() - j,
{
    if j >= b.len() || j < 0 {
        j
    } else if is_tag_byte(b[j]) {
        tag_end(b, j + 1)
    } else {
        j
    }
}

/// The lower-cased tag whose `#` is at `i`.
pub open spec fn tag_at(b: Seq<u8>, i: int) -> Seq<char> {
    b.subrange(i + 1, tag_end(b, i + 1)).map_values(|c: u8| lower_byte(c) as char)
}

/// Tags starting before byte `n`, first occurrences only, in order.
pub open spec fn tags_before(b: Seq<u8>, n: int) -> Seq<Seq<char>>
    decreases n,
{
    if n <= 0 {
        Seq::empty()
    } else {
        let prev = tags_before(b, n - 1);
        if is_tag_start(b, n - 1) && !prev.contains(tag_at(b, n - 1)) {
            prev.push(tag_at(b, n - 1))
        } else {
            prev
        }
    }
}

/// Every tag of a text, lower-cased, first occurrences only, in order.
pub open spec fn tags_of(text: Seq<char>) -> Seq<Seq<char>> {
    tags_before(enc(text), enc(text).len() as int)
}

proof fn lemma_tags_skip(b: Seq<u8>, a: int, c: int)
    requires
        a <= c,
        forall|j: int| a <= j < c ==> !is_tag_start(b, j),
    ensures
        tags_before(b, c) == tags_before(b, a),
    decreases c - a,
{
    if c > a {
        lemma_tags_skip(b, a, c - 1);
    }
}

proof fn lemma_tag_end(b: Seq<u8>, j: int)
    requires
        0 <= j <= b.len(),
    ensures
        j <= tag_end(b, j) <= b.len(),
        forall|k: int| j <= k < tag_end(b, j) ==> is_tag_byte(#[trigger] b[k]),
    decreases b.len() - j,
{
    if j < b.len() && is_tag_byte(b[j]) {
        lemma_tag_end(b, j + 1);
    }
}

fn contains_string(v: &Vec<String>, s: &String) -> (r: bool)
    ensures
        r == views(v@).contains(s@),
{
    let mut k: usize = 0;
    while k < v.len()
        invariant
            k <= v@.len(),
            forall|q: int| 0 <= q < k ==> v@[q]@ != s@,
        decreases v@.len() - k,
    {
        if v[k] == *s {
            assert(views(v@)[k as int] == s@);
            return true;
        }
        k = k + 1;
    }
    assert forall|q: int| 0 <= q < v@.len() implies #[trigger] views(v@)[q] != s@ by {
        assert(views(v@)[q] == v@[q]@);
    }
    false
}

/// Pull every `#tag` token out of a freeform text body. Returns lowercase
/// tags without the leading `#`, duplicates removed, in order of first
/// occurrence.
pub fn extract_tags(text: &str) -> (out: Vec<String>)
    ensures
        views(out@) == tags_of(text@),
{
    let b = text.as_bytes();
    let n = b.len();
    let mut out: Vec<String> = Vec::new();
    let mut i: usize = 0;
    while i < n
        invariant
            n == b@.len(),
            b@ == enc(text@),
            i <= n,
            views(out@) == tags_before(b@, i as int),
        decreases n - i,
    {
        if b[i] != 35 {
            proof {
                assert(!is_tag_start(b@, i as int));
                assert(tags_before(b@, i + 1) == tags_before(b@, i as int));
            }
            i = i + 1;
            continue;
        }
        let start = i + 1;
        if start >= n || !alpha_byte(b[start]) {
            proof {
                assert(!is_tag_start(b@, i as int));
                assert(tags_before(b@, i + 1) == tags_before(b@, i as int));
            }
            i = i + 1;
            continue;
        }
        let mut end = start;
        while end < n && tag_byte(b[end])
            invariant
                n == b@.len(),
                start <= end <= n,
                tag_end(b@, end as int) == tag_end(b@, start as int),
                forall|k: int| start <= k < end ==> is_tag_byte(#[trigger] b@[k]),
            decreases n - end,
        {
            end = end + 1;
        }
        let mut tag = String::new();
        let mut k = start;
        while k < end
            invariant
                n == b@.len(),
                start <= k <= end <= n,
                tag@ == b@.subrange(start as int, k as int).map_values(
                    |c: u8| lower_byte(c) as char,
                ),
            decreases end - k,
        {
            let c = b[k];
            let lc = if 65 <= c && c <= 90 {
                c + 32
            } else {
                c
            };
            push_char(&mut tag, lc as char);
            assert(b@.subrange(start as int, k + 1).map_values(|c: u8| lower_byte(c) as char)
                =~= b@.subrange(start as int, k as int).map_values(
                |c: u8| lower_byte(c) as char,
            ).push(lower_byte(b@[k as int]) as char));
            k = k + 1;
        }
        proof {
            assert(is_tag_start(b@, i as int));
            assert(tag@ == tag_at(b@, i as int));
            assert(tags_before(b@, i + 1) == (if !tags_before(b@, i as int).contains(
                tag_at(b@, i as int),
            ) {
                tags_before(b@, i as int).push(tag_at(b@, i as int))
            } else {
                tags_before(b@, i as int)
            }));
        }
        if !contains_string(&out, &tag) {
            out.push(tag);
            assert(views(out@) =~= tags_before(b@, i as int).push(
                tag_at(b@, i as int),
            ));
        }
        proof {
            assert forall|j: int| i + 1 <= j < end implies !is_tag_start(b@, j) by {
                assert(is_tag_byte(b@[j]));
            }
            lemma_tags_skip(b@, i + 1, end as int);
        }
        i = end;
    }
    out
}

fn alpha_byte(c: u8) -> (r: bool)
    ensures
        r == is_ascii_alpha(c),
{
    (65 <= c && c <= 90) || (97 <= c && c <= 122)
}

fn tag_byte(c: u8) -> (r: bool)
    ensures
        r == is_tag_byte(c),
{
    alpha_byte(c) || (48 <= c && c <= 57) || c == 95 || c == 47 || c == 45
}

/// The texts of one workspace file that may hold tags (text boxes and
/// inline notes).
#[derive(Debug, Clone)]
pub struct TaggedFile {
    pub path: String,
    pub texts: Vec<String>,
}

/// Some text of `f` carries tag `t`.
pub open spec fn file_has_tag(f: TaggedFile, t: Seq<char>) -> bool {
    exists|i: int| 0 <= i < f.texts@.len() && #[trigger] tags_of(f.texts@[i]@).contains(t)
}

/// The paths of the files carrying tag `t`, in order.
pub open spec fn files_with_tag(files: Seq<TaggedFile>, t: Seq<char>) -> Seq<Seq<char>>
    decreases files.len(),
{
    if files.len() == 0 {
        Seq::empty()
    } else {
        let prev = files_with_tag(files.drop_last(), t);
        if file_has_tag(files.last(), t) {
            prev.push(files.last().path@)
        } else {
            prev
        }
    }
}

pub open spec fn tag_keys(m: Seq<(String, Vec<String>)>) -> Seq<Seq<char>> {
    m.map_values(|e: (String, Vec<String>)| e.0@)
}

/// The files listed under tag `t`, or nothing when `t` has no entry.
pub open spec fn tag_lookup(m: Seq<(String, Vec<String>)>, t: Seq<char>) -> Seq<Seq<char>>
    decreases m.len(),
{
    if m.len() == 0 {
        Seq::empty()
    } else if m[0].0@ == t {
        views(m[0].1@)
    } else {
        tag_lookup(m.drop_first(), t)
    }
}

proof fn lemma_tag_lookup_absent(m: Seq<(String, Vec<String>)>, t: Seq<char>)
    requires
        forall|j: int| 0 <= j < m.len() ==> m[j].0@ != t,
    ensures
        tag_lookup(m, t) == Seq::<Seq<char>>::empty(),
    decreases m.len(),
{
    if m.len() > 0 {
        assert forall|j: int| 0 <= j < m.drop_first().len() implies m.drop_first()[j].0@ != t by {
            assert(m.drop_first()[j] == m[j + 1]);
        }
        lemma_tag_lookup_absent(m.drop_first(), t);
    }
}

proof fn lemma_tag_lookup_first(m: Seq<(String, Vec<String>)>, i: int)
    requires
        0 <= i < m.len(),
        forall|j: int| 0 <= j < i ==> m[j].0@ != m[i].0@,
    ensures
        tag_lookup(m, m[i].0@) == views(m[i].1@),
    decreases i,
{
    if i > 0 {
        let d = m.drop_first();
        assert(d[i - 1] == m[i]);
        assert forall|j: int| 0 <= j < i - 1 implies #[trigger] d[j].0@ != d[i - 1].0@ by {
            assert(d[j] == m[j + 1]);
        }
        lemma_tag_lookup_first(m.drop_first(), i - 1);
    }
}

/// Tags sorted without repeats, each with a non-empty file list.
pub open spec fn tag_map_wf(m: Seq<(String, Vec<String>)>) -> bool {
    &&& strictly_sorted(tag_keys(m))
    &&& forall|k: int| 0 <= k < m.len() ==> (#[trigger] m[k].1@).len() > 0
}

proof fn lemma_tag_lookup_at(m: Seq<(String, Vec<String>)>, i: int)
    requires
        tag_map_wf(m),
        0 <= i < m.len(),
    ensures
        tag_lookup(m, m[i].0@) == views(m[i].1@),
{
    assert forall|j: int| 0 <= j < i implies m[j].0@ != m[i].0@ by {
        assert(tag_keys(m)[j] == m[j].0@);
        assert(tag_keys(m)[i] == m[i].0@);
        assert(str_lt(tag_keys(m)[j], tag_keys(m)[i]));
        crate::order::lemma_lt_irreflexive(m[i].0@);
    }
    lemma_tag_lookup_first(m, i);
}

fn add_tagged(m: &mut Vec<(String, Vec<String>)>, tag: &String, path: &String)
    requires
        tag_map_wf(old(m)@),
    ensures
        tag_map_wf(final(m)@),
        forall|t: Seq<char>| #[trigger] tag_lookup(final(m)@, t) == if t == tag@ {
            tag_lookup(old(m)@, t).push(path@)
        } else {
            tag_lookup(old(m)@, t)
        },
        forall|t: Seq<char>| tag_keys(final(m)@).contains(t) <==> (tag_keys(old(m)@).contains(t) || t == tag@),
{
    let ghost om = m@;
    let mut k: usize = 0;
    while k < m.len() && str_less(m[k].0.as_str(), tag.as_str())
        invariant
            k <= m@.len(),
            m@ == om,
            tag_map_wf(om),
            forall|j: int| 0 <= j < k ==> str_lt(#[trigger] tag_keys(om)[j], tag@),
        decreases m@.len() - k,
    {
        assert(tag_keys(om)[k as int] == om[k as int].0@);
        k = k + 1;
    }
    proof {
        if k < m@.len() {
            crate::order::lemma_lt_total(om[k as int].0@, tag@);
        }
    }
    if k < m.len() && m[k].0 == *tag {
        let (key, mut paths) = m.remove(k);
        let ghost op = views(paths@);
        paths.push(path.clone());
        proof {
            assert(views(paths@) =~= op.push(path@));
        }
        let ghost ne = (key, paths);
        m.insert(k, (key, paths));
        proof {
            let nm = m@;
            assert(nm =~= om.update(k as int, ne));
            assert(tag_keys(nm) =~= tag_keys(om));
            assert forall|t: Seq<char>| #[trigger] tag_lookup(nm, t) == if t == tag@ {
                tag_lookup(om, t).push(path@)
            } else {
                tag_lookup(om, t)
            } by {
                if exists|j: int| 0 <= j < om.len() && om[j].0@ == t {
                    let j = choose|j: int| 0 <= j < om.len() && om[j].0@ == t;
                    lemma_tag_lookup_at(om, j);
                    lemma_tag_lookup_at(nm, j);
                    if j == k {
                        assert(tag_lookup(om, tag@) == op);
                    } else {
                        assert(nm[j] == om[j]);
                        assert(tag_keys(om)[j] != tag_keys(om)[k as int]) by {
                            if j < k { assert(str_lt(tag_keys(om)[j], tag_keys(om)[k as int])); crate::order::lemma_lt_irreflexive(tag@); }
                            else { assert(str_lt(tag_keys(om)[k as int], tag_keys(om)[j])); crate::order::lemma_lt_irreflexive(tag@); }
                        }
                    }
                } else {
                    assert forall|j: int| 0 <= j < nm.len() implies nm[j].0@ != t by {
                        assert(tag_keys(nm)[j] == tag_keys(om)[j]);
                    }
                    lemma_tag_lookup_absent(nm, t);
                    lemma_tag_lookup_absent(om, t);
                    if t == tag@ {
                        assert(om[k as int].0@ == t);
                    }
                }
            }
            assert forall|j: int| 0 <= j < nm.len() implies (#[trigger] nm[j].1@).len() > 0 by {
                if j != k {
                    assert(nm[j] == om[j]);
                }
            }
            assert(tag_keys(om)[k as int] == tag@);
            assert forall|t: Seq<char>| tag_keys(nm).contains(t) <==> (tag_keys(om).contains(t) || t == tag@) by {
                if t == tag@ {
                    assert(tag_keys(om)[k as int] == t);
                }
            }
        }
    } else {
        let mut paths: Vec<String> = Vec::new();
        paths.push(path.clone());
        proof {
            if k < om.len() {
                assert(str_lt(tag@, tag_keys(om)[k as int]));
                assert forall|j: int| k <= j < om.len() implies str_lt(tag@, #[trigger] tag_keys(om)[j]) by {
                    if j > k {
                        crate::order::lemma_lt_transitive(tag@, tag_keys(om)[k as int], tag_keys(om)[j]);
                    }
                }
            }
        }
        m.insert(k, (tag.clone(), paths));
        proof {
            let nm = m@;
            assert(nm =~= om.insert(k as int, nm[k as int]));
            let nk = tag_keys(nm);
            assert(nk =~= tag_keys(om).insert(k as int, tag@));
            assert forall|a: int, b: int| 0 <= a < b < nk.len() implies str_lt(#[trigger] nk[a], #[trigger] nk[b]) by {
                if a < k && b > k {
                    crate::order::lemma_lt_transitive(nk[a], tag@, nk[b]);
                }
            }
            assert forall|j: int| 0 <= j < nm.len() implies (#[trigger] nm[j].1@).len() > 0 by {
                if j > k {
                    assert(nm[j] == om[j - 1]);
                } else if j < k {
                    assert(nm[j] == om[j]);
                }
            }
            assert(tag_map_wf(nm));
            assert forall|t: Seq<char>| nk.contains(t) <==> (tag_keys(om).contains(t) || t == tag@) by {
                if nk.contains(t) {
                    let j = choose|j: int| 0 <= j < nk.len() && nk[j] == t;
                    if j < k {
                        assert(tag_keys(om)[j] == t);
                    } else if j > k {
                        assert(tag_keys(om)[j - 1] == t);
                    }
                }
                if tag_keys(om).contains(t) {
                    let j = choose|j: int| 0 <= j < tag_keys(om).len() && tag_keys(om)[j] == t;
                    if j < k {
                        assert(nk[j] == t);
                    } else {
                        assert(nk[j + 1] == t);
                    }
                }
                if t == tag@ {
                    assert(nk[k as int] == t);
                }
            }
            assert forall|t: Seq<char>| #[trigger] tag_lookup(nm, t) == if t == tag@ {
                tag_lookup(om, t).push(path@)
            } else {
                tag_lookup(om, t)
            } by {
                if t == tag@ {
                    lemma_tag_lookup_at(nm, k as int);
                    assert forall|j: int| 0 <= j < om.len() implies om[j].0@ != t by {
                        if j < k {
                            assert(str_lt(tag_keys(om)[j], tag@));
                            crate::order::lemma_lt_irreflexive(tag@);
                        } else {
                            assert(str_lt(tag@, tag_keys(om)[j]));
                            crate::order::lemma_lt_irreflexive(tag@);
                        }
                    }
                    lemma_tag_lookup_absent(om, t);
                    assert(views(nm[k as int].1@) =~= Seq::<Seq<char>>::empty().push(path@));
                } else if exists|j: int| 0 <= j < om.len() && om[j].0@ == t {
                    let j = choose|j: int| 0 <= j < om.len() && om[j].0@ == t;
                    lemma_tag_lookup_at(om, j);
                    let jj = if j < k { j } else { j + 1 };
                    assert(nm[jj] == om[j]);
                    lemma_tag_lookup_at(nm, jj);
                } else {
                    assert forall|j: int| 0 <= j < nm.len() implies nm[j].0@ != t by {
                        if j < k {
                            assert(nm[j] == om[j]);
                        } else if j > k {
                            assert(nm[j] == om[j - 1]);
                        }
                    }
                    lemma_tag_lookup_absent(nm, t);
                    lemma_tag_lookup_absent(om, t);
                }
            }
        }
    }
}

proof fn lemma_keys_lookup(m: Seq<(String, Vec<String>)>, t: Seq<char>)
    requires
        tag_map_wf(m),
    ensures
        tag_keys(m).contains(t) <==> tag_lookup(m, t).len() > 0,
{
    if tag_keys(m).contains(t) {
        let j = choose|j: int| 0 <= j < tag_keys(m).len() && tag_keys(m)[j] == t;
        lemma_tag_lookup_at(m, j);
        assert(m[j].1@.len() > 0);
    } else {
        assert forall|j: int| 0 <= j < m.len() implies m[j].0@ != t by {
            assert(tag_keys(m)[j] == m[j].0@);
        }
        lemma_tag_lookup_absent(m, t);
    }
}

/// The tags of a file's texts, each once.
fn file_tags(f: &TaggedFile) -> (seen: Vec<String>)
    ensures
        forall|a: int, b: int| 0 <= a < b < seen@.len() ==> #[trigger] views(seen@)[a] != #[trigger] views(seen@)[b],
        forall|t: Seq<char>| views(seen@).contains(t) <==> file_has_tag(*f, t),
{
    let mut seen: Vec<String> = Vec::new();
    let mut j: usize = 0;
    while j < f.texts.len()
        invariant
            j <= f.texts@.len(),
            forall|a: int, b: int| 0 <= a < b < seen@.len() ==> #[trigger] views(seen@)[a] != #[trigger] views(seen@)[b],
            forall|t: Seq<char>| views(seen@).contains(t) <==> exists|i: int| 0 <= i < j && #[trigger] tags_of(f.texts@[i]@).contains(t),
        decreases f.texts@.len() - j,
    {
        let tags = extract_tags(f.texts[j].as_str());
        let mut k: usize = 0;
        while k < tags.len()
            invariant
                j < f.texts@.len(),
                k <= tags@.len(),
                views(tags@) == tags_of(f.texts@[j as int]@),
                forall|a: int, b: int| 0 <= a < b < seen@.len() ==> #[trigger] views(seen@)[a] != #[trigger] views(seen@)[b],
                forall|t: Seq<char>| views(seen@).contains(t) <==> ((exists|i: int| 0 <= i < j && #[trigger] tags_of(f.texts@[i]@).contains(t)) || views(tags@).take(k as int).contains(t)),
            decreases tags@.len() - k,
        {
            let tg = tags[k].clone();
            let ghost sv = views(seen@);
            proof {
                assert(views(tags@).take(k + 1) =~= views(tags@).take(k as int).push(tg@));
            }
            let ghost tv = tg@;
            proof {
                assert(views(tags@)[k as int] == tv);
            }
            if !contains_string(&seen, &tg) {
                seen.push(tg);
                proof {
                    assert(views(seen@) =~= sv.push(tv));
                    assert forall|a: int, b: int| 0 <= a < b < seen@.len() implies #[trigger] views(seen@)[a] != #[trigger] views(seen@)[b] by {
                        if b == sv.len() {
                            assert(views(seen@)[a] == sv[a]);
                        } else {
                            assert(views(seen@)[a] == sv[a]);
                            assert(views(seen@)[b] == sv[b]);
                        }
                    }
                    assert forall|t: Seq<char>| views(seen@).contains(t) <==> ((exists|i: int| 0 <= i < j && #[trigger] tags_of(f.texts@[i]@).contains(t)) || views(tags@).take(k + 1).contains(t)) by {
                        if views(seen@).contains(t) && t != tv {
                            let a = choose|a: int| 0 <= a < views(seen@).len() && views(seen@)[a] == t;
                            assert(sv[a] == t);
                            assert(sv.contains(t));
                        }
                        if t == tv {
                            assert(views(seen@)[sv.len() as int] == tv);
                            assert(views(tags@).take(k + 1)[k as int] == tv);
                        }
                        if views(tags@).take(k as int).contains(t) {
                            let a = choose|a: int| 0 <= a < k && #[trigger] views(tags@).take(k as int)[a] == t;
                            assert(views(tags@).take(k + 1)[a] == t);
                        }
                        if views(tags@).take(k + 1).contains(t) && t != tv {
                            let a = choose|a: int| 0 <= a < k + 1 && #[trigger] views(tags@).take(k + 1)[a] == t;
                            assert(views(tags@).take(k as int)[a] == t);
                        }
                        if sv.contains(t) {
                            let a = choose|a: int| 0 <= a < sv.len() && sv[a] == t;
                            assert(views(seen@)[a] == t);
                        }
                    }
                }
            } else {
                proof {
                    assert forall|t: Seq<char>| views(seen@).contains(t) <==> ((exists|i: int| 0 <= i < j && #[trigger] tags_of(f.texts@[i]@).contains(t)) || views(tags@).take(k + 1).contains(t)) by {
                        if t == tv {
                            assert(views(tags@).take(k + 1)[k as int] == tv);
                        }
                        if views(tags@).take(k as int).contains(t) {
                            let a = choose|a: int| 0 <= a < k && #[trigger] views(tags@).take(k as int)[a] == t;
                            assert(views(tags@).take(k + 1)[a] == t);
                        }
                        if views(tags@).take(k + 1).contains(t) && t != tv {
                            let a = choose|a: int| 0 <= a < k + 1 && #[trigger] views(tags@).take(k + 1)[a] == t;
                            assert(views(tags@).take(k as int)[a] == t);
                        }
                    }
                }
            }
            k = k + 1;
        }
        proof {
            assert(views(tags@).take(tags@.len() as int) =~= views(tags@));
            assert forall|t: Seq<char>| views(seen@).contains(t) <==> exists|i: int| 0 <= i < j + 1 && #[trigger] tags_of(f.texts@[i]@).contains(t) by {
                if views(tags@).contains(t) {
                    assert(tags_of(f.texts@[j as int]@).contains(t));
                }
                if exists|i: int| 0 <= i < j + 1 && #[trigger] tags_of(f.texts@[i]@).contains(t) {
                    let i = choose|i: int| 0 <= i < j + 1 && #[trigger] tags_of(f.texts@[i]@).contains(t);
                    if i == j {
                        assert(views(tags@).contains(t));
                    }
                }
            }
        }
        j = j + 1;
    }
    seen
}

/// Every tag in the workspace with the files that carry it: tags sorted,
/// each once; under each tag, the files carrying it in scan order, each once.
pub fn all_tags(files: &Vec<TaggedFile>) -> (r: Vec<(String, Vec<String>)>)
    ensures
        tag_map_wf(r@),
        forall|t: Seq<char>| #[trigger] tag_lookup(r@, t) == files_with_tag(files@, t),
        forall|t: Seq<char>| tag_keys(r@).contains(t) <==> files_with_tag(files@, t).len() > 0,
{
    let mut m: Vec<(String, Vec<String>)> = Vec::new();
    let mut i: usize = 0;
    proof {
        assert(tag_keys(m@) =~= Seq::<Seq<char>>::empty());
        assert forall|t: Seq<char>| #[trigger] tag_lookup(m@, t) == files_with_tag(files@.take(0), t) by {
            assert(files@.take(0) =~= Seq::<TaggedFile>::empty());
        }
    }
    while i < files.len()
        invariant
            i <= files@.len(),
            tag_map_wf(m@),
            forall|t: Seq<char>| #[trigger] tag_lookup(m@, t) == files_with_tag(files@.take(i as int), t),
        decreases files@.len() - i,
    {
        let f = &files[i];
        let seen = file_tags(f);
        let ghost base = m@;
        let mut k: usize = 0;
        proof {
            assert forall|t: Seq<char>| #[trigger] tag_lookup(m@, t) == files_with_tag(files@.take(i as int), t) + (if views(seen@).take(k as int).contains(t) { seq![f.path@] } else { Seq::empty() }) by {
                assert(files_with_tag(files@.take(i as int), t) + Seq::<Seq<char>>::empty() =~= files_with_tag(files@.take(i as int), t));
            }
        }
        while k < seen.len()
            invariant
                i < files@.len(),
                f == files@[i as int],
                k <= seen@.len(),
                tag_map_wf(m@),
                forall|a: int, b: int| 0 <= a < b < seen@.len() ==> #[trigger] views(seen@)[a] != #[trigger] views(seen@)[b],
                forall|t: Seq<char>| #[trigger] tag_lookup(m@, t) == files_with_tag(files@.take(i as int), t) + (if views(seen@).take(k as int).contains(t) { seq![f.path@] } else { Seq::empty() }),
            decreases seen@.len() - k,
        {
            let ghost before = m@;
            add_tagged(&mut m, &seen[k], &f.path);
            proof {
                let sk = views(seen@)[k as int];
                assert(sk == seen@[k as int]@);
                assert(views(seen@).take(k + 1) =~= views(seen@).take(k as int).push(sk));
                assert(!views(seen@).take(k as int).contains(sk)) by {
                    if views(seen@).take(k as int).contains(sk) {
                        let a = choose|a: int| 0 <= a < k && views(seen@).take(k as int)[a] == sk;
                        assert(views(seen@)[a] == sk);
                    }
                }
                assert forall|t: Seq<char>| #[trigger] tag_lookup(m@, t) == files_with_tag(files@.take(i as int), t) + (if views(seen@).take(k + 1).contains(t) { seq![f.path@] } else { Seq::empty() }) by {
                    assert(tag_lookup(before, t) == files_with_tag(files@.take(i as int), t) + (if views(seen@).take(k as int).contains(t) { seq![f.path@] } else { Seq::empty() }));
                    let tk = views(seen@).take(k as int);
                    let tk1 = views(seen@).take(k + 1);
                    if t == sk {
                        assert(tk1[k as int] == sk);
                        assert(tk1.contains(t));
                        assert(files_with_tag(files@.take(i as int), t) + Seq::<Seq<char>>::empty() =~= files_with_tag(files@.take(i as int), t));
                        assert(files_with_tag(files@.take(i as int), t).push(f.path@) =~= files_with_tag(files@.take(i as int), t) + seq![f.path@]);
                    } else {
                        if tk.contains(t) {
                            let a = choose|a: int| 0 <= a < tk.len() && #[trigger] tk[a] == t;
                            assert(tk1[a] == t);
                        }
                        if tk1.contains(t) {
                            let a = choose|a: int| 0 <= a < tk1.len() && #[trigger] tk1[a] == t;
                            assert(tk[a] == t);
                        }
                        assert(tk1.contains(t) == tk.contains(t));
                    }
                }
            }
            k = k + 1;
        }
        proof {
            assert(views(seen@).take(seen@.len() as int) =~= views(seen@));
            assert(files@.take(i + 1).drop_last() =~= files@.take(i as int));
            assert(files@.take(i + 1).last() == *f);
            assert forall|t: Seq<char>| #[trigger] tag_lookup(m@, t) == files_with_tag(files@.take(i + 1), t) by {
                if file_has_tag(*f, t) {
                    assert(files_with_tag(files@.take(i as int), t).push(f.path@) =~= files_with_tag(files@.take(i as int), t) + seq![f.path@]);
                } else {
                    assert(files_with_tag(files@.take(i as int), t) + Seq::<Seq<char>>::empty() =~= files_with_tag(files@.take(i as int), t));
                }
            }
        }
        i = i + 1;
    }
    proof {
        assert(files@.take(files@.len() as int) =~= files@);
        assert forall|t: Seq<char>| tag_keys(m@).contains(t) <==> files_with_tag(files@, t).len() > 0 by {
            lemma_keys_lookup(m@, t);
            assert(tag_lookup(m@, t) == files_with_tag(files@, t));
        }
    }
    m
}

proof fn lemma_tags_before_distinct(b: Seq<u8>, n: int)
    ensures
        forall|i: int, j: int| 0 <= i < j < tags_before(b, n).len() ==> #[trigger] tags_before(b, n)[i] != #[trigger] tags_before(b, n)[j],
    decreases n,
{
    if n > 0 {
        lemma_tags_before_distinct(b, n - 1);
        let prev = tags_before(b, n - 1);
        if is_tag_start(b, n - 1) && !prev.contains(tag_at(b, n - 1)) {
            let cur = prev.push(tag_at(b, n - 1));
            assert forall|i: int, j: int| 0 <= i < j < cur.len() implies #[trigger] cur[i] != #[trigger] cur[j] by {
                if j == prev.len() {
                    assert(cur[i] == prev[i]);
                    if prev[i] == tag_at(b, n - 1) {
                        assert(prev.contains(tag_at(b, n - 1)));
                    }
                } else {
                    assert(cur[i] == prev[i] && cur[j] == prev[j]);
                }
            }
        }
    }
}

/// A text's tags come out once each.
pub proof fn law_tags_listed_once(text: Seq<char>)
    ensures
        forall|i: int, j: int| 0 <= i < j < tags_of(text).len() ==> #[trigger] tags_of(text)[i] != #[trigger] tags_of(text)[j],
{
    lemma_tags_before_distinct(enc(text), enc(text).len() as int);
}

/// A tag is the `#` followed by a letter and then the longest run of ASCII
/// letters, digits, `_`, `/` and `-`, lower-cased.
pub proof fn law_tag_is_longest_run(b: Seq<u8>, i: int)
    requires
        is_tag_start(b, i),
    ensures
        ({
            let t = tag_at(b, i);
            let e = i + 1 + t.len();
            let word = |c: u8| (65 <= c <= 90) || (97 <= c <= 122) || (48 <= c <= 57) || c == 95
                || c == 47 || c == 45;
            &&& e <= b.len()
            &&& forall|k: int| i + 1 <= k < e ==> word(#[trigger] b[k])
            &&& e == b.len() || !word(b[e])
            &&& forall|k: int| 0 <= k < t.len() ==> #[trigger] t[k] == (if 65 <= b[i + 1 + k] <= 90 {
                (b[i + 1 + k] + 32) as u8
            } else {
                b[i + 1 + k]
            }) as char
        }),
{
    lemma_tag_end(b, i + 1);
    lemma_tag_end_stops(b, i + 1);
    let e = tag_end(b, i + 1);
    let t = tag_at(b, i);
    assert(t.len() == e - (i + 1));
    assert forall|k: int| 0 <= k < t.len() implies #[trigger] t[k] == lower_byte(b[i + 1 + k]) as char by {
        assert(b.subrange(i + 1, e)[k] == b[i + 1 + k]);
    }
}

proof fn lemma_tag_end_stops(b: Seq<u8>, j: int)
    requires
        0 <= j <= b.len(),
    ensures
        tag_end(b, j) < b.len() ==> !is_tag_byte(b[tag_end(b, j)]),
    decreases b.len() - j,
{
    if j < b.len() && is_tag_byte(b[j]) {
        lemma_tag_end_stops(b, j + 1);
    }
}

} // verus!
