//! The search cache: for each scanned file, the text of its objects (and
//! its lower-cased copy), kept until the file's modification time changes;
//! and the workspace search over it.
use vstd::prelude::*;
use vstd::utf8::*;
use crate::search::{Hit, HitKind, snippet_around, snippet_bytes};
use vstd::string::StringSliceAdditionalSpecFns;
use crate::strings::{enc, lowercase, to_lowercase, trim, trimmed};
use crate::caret::{clamp_caret, clamp_of, lemma_floor_boundary};

verus! {

broadcast use vstd::utf8::group_utf8_lib;

/// `n` occurs in `h` at byte `i`.
pub open spec fn matches_at(h: Seq<u8>, n: Seq<u8>, i: int) -> bool {
    0 <= i && i + n.len() <= h.len() && h.subrange(i, i + n.len()) == n
}

/// The first occurrence of `n` in `h` at or after byte `i`.
pub open spec fn first_match_from(h: Seq<u8>, n: Seq<u8>, i: int) -> Option<int>
    decreases h.len() + 1 - i,
{
    if i < 0 || i + n.len() > h.len() {
        None
    } else if matches_at(h, n, i) {
        Some(i)
    } else {
        first_match_from(h, n, i + 1)
    }
}

proof fn lemma_first_match_fits(h: Seq<u8>, n: Seq<u8>, i: int)
    ensures
        first_match_from(h, n, i) matches Some(k) ==> matches_at(h, n, k),
    decreases h.len() + 1 - i,
{
    if !(i < 0 || i + n.len() > h.len()) && !matches_at(h, n, i) {
        lemma_first_match_fits(h, n, i + 1);
    }
}

fn matches_here(h: &[u8], n: &[u8], i: usize) -> (b: bool)
    requires
        i + n@.len() <= h@.len(),
    ensures
        b == matches_at(h@, n@, i as int),
{
    let hl = h.len();
    let mut k: usize = 0;
    while k < n.len()
        invariant
            hl == h@.len(),
            i + n@.len() <= h@.len(),
            k <= n@.len(),
            forall|m: int| 0 <= m < k ==> h@[i + m] == n@[m],
        decreases n@.len() - k,
    {
        if h[i + k] != n[k] {
            assert(h@.subrange(i as int, i + n@.len())[k as int] != n@[k as int]);
            return false;
        }
        k = k + 1;
    }
    assert(h@.subrange(i as int, i + n@.len()) =~= n@);
    true
}

/// The first byte offset at which `n` occurs in `h` (`str::find` on the
/// bytes of two strings).
pub fn find_bytes(h: &[u8], n: &[u8]) -> (r: Option<usize>)
    ensures
        match r {
            Some(i) => first_match_from(h@, n@, 0) == Some(i as int),
            None => first_match_from(h@, n@, 0) is None,
        },
{
    if n.len() > h.len() {
        return None;
    }
    if n.len() == 0 {
        assert(h@.subrange(0, 0) =~= n@);
        return Some(0);
    }
    let hl = h.len();
    let last = hl - n.len();
    let mut i: usize = 0;
    while i <= last
        invariant
            hl == h@.len(),
            last + n@.len() == h@.len(),
            n@.len() >= 1,
            i <= last + 1,
            first_match_from(h@, n@, 0) == first_match_from(h@, n@, i as int),
        decreases last + 1 - i,
    {
        if matches_here(h, n, i) {
            return Some(i);
        }
        i = i + 1;
    }
    None
}

/// One searchable text of an object.
#[derive(Debug, Clone)]
pub struct SearchRow {
    pub id: u64,
    pub kind: HitKind,
    /// The text lower-cased, which the query is matched against.
    pub lower: String,
    /// The text as written, which snippets are cut from.
    pub text: String,
}

pub open spec fn row_view(r: SearchRow) -> (u64, HitKind, Seq<char>, Seq<char>) {
    (r.id, r.kind, r.lower@, r.text@)
}

pub open spec fn rows_view(v: Seq<SearchRow>) -> Seq<(u64, HitKind, Seq<char>, Seq<char>)> {
    v.map_values(|r: SearchRow| row_view(r))
}

/// The searchable texts of a canvas object.
#[derive(Debug, Clone)]
pub enum SearchSource {
    TextBox { content: String },
    Note { title: String, inline: Option<String> },
    Other,
}

/// The rows an object contributes: a text box's content, a note's title
/// and inline body, each when not empty.
pub open spec fn source_rows(id: u64, s: SearchSource) -> Seq<(u64, HitKind, Seq<char>, Seq<char>)> {
    match s {
        SearchSource::TextBox { content } => if content@.len() > 0 {
            seq![(id, HitKind::TextBox, lowercase(content@), content@)]
        } else {
            Seq::empty()
        },
        SearchSource::Note { title, inline } => (if title@.len() > 0 {
            seq![(id, HitKind::NoteTitle, lowercase(title@), title@)]
        } else {
            Seq::empty()
        }) + match inline {
            Some(b) => if b@.len() > 0 {
                seq![(id, HitKind::NoteBody, lowercase(b@), b@)]
            } else {
                Seq::empty()
            },
            None => Seq::empty(),
        },
        SearchSource::Other => Seq::empty(),
    }
}

/// The rows of a document's objects, in order.
pub open spec fn document_rows(objs: Seq<(u64, SearchSource)>) -> Seq<(u64, HitKind, Seq<char>, Seq<char>)>
    decreases objs.len(),
{
    if objs.len() == 0 {
        Seq::empty()
    } else {
        document_rows(objs.drop_last()) + source_rows(objs.last().0, objs.last().1)
    }
}

fn row(id: u64, kind: HitKind, text: &String) -> (r: SearchRow)
    ensures
        row_view(r) == (id, kind, lowercase(text@), text@),
{
    SearchRow { id, kind, lower: to_lowercase(text.as_str()), text: text.clone() }
}

/// The searchable rows of a document's objects.
pub fn rows_for(objs: &Vec<(u64, SearchSource)>) -> (r: Vec<SearchRow>)
    ensures
        rows_view(r@) == document_rows(objs@),
{
    let mut out: Vec<SearchRow> = Vec::new();
    let mut i: usize = 0;
    proof {
        assert(objs@.take(0) =~= Seq::<(u64, SearchSource)>::empty());
        assert(rows_view(out@) =~= Seq::empty());
    }
    while i < objs.len()
        invariant
            i <= objs@.len(),
            rows_view(out@) == document_rows(objs@.take(i as int)),
        decreases objs@.len() - i,
    {
        let ghost before = rows_view(out@);
        let id = objs[i].0;
        match &objs[i].1 {
            SearchSource::TextBox { content } => {
                if content.unicode_len() > 0 {
                    out.push(row(id, HitKind::TextBox, content));
                }
            },
            SearchSource::Note { title, inline } => {
                if title.unicode_len() > 0 {
                    out.push(row(id, HitKind::NoteTitle, title));
                }
                if let Some(b) = inline {
                    if b.unicode_len() > 0 {
                        out.push(row(id, HitKind::NoteBody, b));
                    }
                }
            },
            SearchSource::Other => {},
        }
        proof {
            assert(objs@.take(i + 1).drop_last() =~= objs@.take(i as int));
            assert(rows_view(out@) =~= before + source_rows(objs@[i as int].0, objs@[i as int].1));
        }
        i = i + 1;
    }
    proof {
        assert(objs@.take(objs@.len() as int) =~= objs@);
    }
    out
}

/// The cached rows of one file and the modification time they were read at.
#[derive(Debug, Clone)]
pub struct CacheEntry {
    pub path: String,
    pub mtime: Option<u64>,
    pub rows: Vec<SearchRow>,
}

/// The cached entry for `p`, if any.
pub open spec fn lookup_in(es: Seq<CacheEntry>, p: Seq<char>) -> Option<CacheEntry>
    decreases es.len(),
{
    if es.len() == 0 {
        None
    } else if es[0].path@ == p {
        Some(es[0])
    } else {
        lookup_in(es.drop_first(), p)
    }
}

/// No two entries are for the same file.
pub open spec fn paths_distinct(es: Seq<CacheEntry>) -> bool {
    forall|i: int, j: int| 0 <= i < j < es.len() ==> #[trigger] es[i].path@ != #[trigger] es[j].path@
}

proof fn lemma_lookup_absent(es: Seq<CacheEntry>, p: Seq<char>)
    requires
        forall|k: int| 0 <= k < es.len() ==> es[k].path@ != p,
    ensures
        lookup_in(es, p) is None,
    decreases es.len(),
{
    if es.len() > 0 {
        assert forall|k: int| 0 <= k < es.drop_first().len() implies es.drop_first()[k].path@ != p by {
            assert(es.drop_first()[k] == es[k + 1]);
        }
        lemma_lookup_absent(es.drop_first(), p);
    }
}

proof fn lemma_lookup_at(es: Seq<CacheEntry>, p: Seq<char>, k: int)
    requires
        0 <= k < es.len(),
        es[k].path@ == p,
        forall|m: int| 0 <= m < k ==> es[m].path@ != p,
    ensures
        lookup_in(es, p) == Some(es[k]),
    decreases k,
{
    if k > 0 {
        assert forall|m: int| 0 <= m < k - 1 implies es.drop_first()[m].path@ != p by {
            assert(es.drop_first()[m] == es[m + 1]);
        }
        assert(es.drop_first()[k - 1] == es[k]);
        lemma_lookup_at(es.drop_first(), p, k - 1);
    }
}

/// With distinct paths, the entry of `p` is wherever `p` is.
proof fn lemma_lookup_distinct(es: Seq<CacheEntry>, p: Seq<char>)
    requires
        paths_distinct(es),
    ensures
        forall|k: int| 0 <= k < es.len() && es[k].path@ == p ==> lookup_in(es, p) == Some(#[trigger] es[k]),
        (forall|k: int| 0 <= k < es.len() ==> es[k].path@ != p) ==> lookup_in(es, p) is None,
{
    assert forall|k: int| 0 <= k < es.len() && es[k].path@ == p implies lookup_in(es, p) == Some(#[trigger] es[k]) by {
        assert forall|m: int| 0 <= m < k implies es[m].path@ != p by {
            assert(es[m].path@ != es[k].path@);
        }
        lemma_lookup_at(es, p, k);
    }
    if forall|k: int| 0 <= k < es.len() ==> es[k].path@ != p {
        lemma_lookup_absent(es, p);
    }
}

/// Cached rows per file.
#[derive(Debug)]
pub struct SearchCache {
    entries: Vec<CacheEntry>,
}

impl SearchCache {
    /// The cached entry of file `p`.
    pub closed spec fn lookup(&self, p: Seq<char>) -> Option<CacheEntry> {
        lookup_in(self.entries@, p)
    }

    /// No two entries are for the same file.
    pub closed spec fn wf(&self) -> bool {
        paths_distinct(self.entries@)
    }

    /// An empty cache.
    pub fn new() -> (c: SearchCache)
        ensures
            c.wf(),
            forall|p: Seq<char>| c.lookup(p) is None,
    {
        SearchCache { entries: Vec::new() }
    }

    fn position(&self, path: &str) -> (r: Option<usize>)
        ensures
            match r {
                Some(k) => k < self.entries@.len() && self.entries@[k as int].path@ == path@
                    && self.lookup(path@) == Some(self.entries@[k as int]),
                None => self.lookup(path@) is None && forall|k: int| 0 <= k < self.entries@.len() ==> self.entries@[k].path@ != path@,
            },
    {
        let mut k: usize = 0;
        while k < self.entries.len()
            invariant
                k <= self.entries@.len(),
                forall|m: int| 0 <= m < k ==> self.entries@[m].path@ != path@,
            decreases self.entries@.len() - k,
        {
            if crate::strings::str_eq(self.entries[k].path.as_str(), path) {
                proof {
                    assert(self.entries@[k as int].path@ == path@);
                    lemma_lookup_at(self.entries@, path@, k as int);
                }
                return Some(k);
            }
            k = k + 1;
        }
        proof {
            lemma_lookup_absent(self.entries@, path@);
        }
        None
    }

    /// Whether file `path` is cached as of modification time `mtime`.
    pub fn is_fresh(&self, path: &str, mtime: Option<u64>) -> (b: bool)
        ensures
            b == (self.lookup(path@) matches Some(e) && e.mtime == mtime),
    {
        match self.position(path) {
            Some(k) => self.entries[k].mtime == mtime,
            None => false,
        }
    }

    /// Caches `rows` for `path` as of `mtime`, replacing what was cached.
    pub fn store(&mut self, path: String, mtime: Option<u64>, rows: Vec<SearchRow>)
        requires
            old(self).wf(),
        ensures
            final(self).wf(),
            forall|p: Seq<char>| #[trigger] final(self).lookup(p) == if p == path@ {
                Some(CacheEntry { path, mtime, rows })
            } else {
                old(self).lookup(p)
            },
    {
        let ghost es = self.entries@;
        let pos = self.position(path.as_str());
        let ghost e = CacheEntry { path, mtime, rows };
        match pos {
            Some(k) => {
                self.entries.remove(k);
                self.entries.insert(k, CacheEntry { path, mtime, rows });
                proof {
                    let ns = self.entries@;
                    assert(ns =~= es.update(k as int, e));
                    assert(paths_distinct(ns)) by {
                        assert forall|i: int, j: int| 0 <= i < j < ns.len() implies #[trigger] ns[i].path@ != #[trigger] ns[j].path@ by {
                            assert(es[i].path@ != es[j].path@);
                        }
                    }
                    assert forall|p: Seq<char>| #[trigger] lookup_in(ns, p) == if p == e.path@ {
                        Some(e)
                    } else {
                        lookup_in(es, p)
                    } by {
                        lemma_lookup_distinct(es, p);
                        lemma_lookup_distinct(ns, p);
                        if p == e.path@ {
                            assert(ns[k as int] == e);
                        } else if exists|j: int| 0 <= j < es.len() && es[j].path@ == p {
                            let j = choose|j: int| 0 <= j < es.len() && es[j].path@ == p;
                            assert(ns[j] == es[j]);
                        } else {
                            assert forall|m: int| 0 <= m < ns.len() implies ns[m].path@ != p by {
                                if m != k {
                                    assert(ns[m] == es[m]);
                                }
                            }
                        }
                    }
                }
            },
            None => {
                self.entries.push(CacheEntry { path, mtime, rows });
                proof {
                    let ns = self.entries@;
                    assert(ns =~= es.push(e));
                    assert(paths_distinct(ns)) by {
                        assert forall|i: int, j: int| 0 <= i < j < ns.len() implies #[trigger] ns[i].path@ != #[trigger] ns[j].path@ by {
                            if j == es.len() {
                                assert(ns[i] == es[i]);
                            } else {
                                assert(es[i].path@ != es[j].path@);
                            }
                        }
                    }
                    assert forall|p: Seq<char>| #[trigger] lookup_in(ns, p) == if p == e.path@ {
                        Some(e)
                    } else {
                        lookup_in(es, p)
                    } by {
                        lemma_lookup_distinct(es, p);
                        lemma_lookup_distinct(ns, p);
                        if p == e.path@ {
                            assert(ns[es.len() as int] == e);
                        } else if exists|j: int| 0 <= j < es.len() && es[j].path@ == p {
                            let j = choose|j: int| 0 <= j < es.len() && es[j].path@ == p;
                            assert(ns[j] == es[j]);
                        } else {
                            assert forall|m: int| 0 <= m < ns.len() implies ns[m].path@ != p by {
                                if m < es.len() {
                                    assert(ns[m] == es[m]);
                                }
                            }
                        }
                    }
                }
            },
        }
    }

    /// Drops what is cached for `path`.
    pub fn forget(&mut self, path: &str)
        requires
            old(self).wf(),
        ensures
            final(self).wf(),
            forall|p: Seq<char>| #[trigger] final(self).lookup(p) == if p == path@ {
                None
            } else {
                old(self).lookup(p)
            },
    {
        let ghost es = self.entries@;
        match self.position(path) {
            Some(k) => {
                self.entries.remove(k);
                proof {
                    let ns = self.entries@;
                    assert(ns =~= es.remove(k as int));
                    assert(paths_distinct(ns)) by {
                        assert forall|i: int, j: int| 0 <= i < j < ns.len() implies #[trigger] ns[i].path@ != #[trigger] ns[j].path@ by {
                            let ii = if i < k { i } else { i + 1 };
                            let jj = if j < k { j } else { j + 1 };
                            assert(ns[i] == es[ii]);
                            assert(ns[j] == es[jj]);
                            assert(es[ii].path@ != es[jj].path@);
                        }
                    }
                    assert forall|p: Seq<char>| #[trigger] lookup_in(ns, p) == if p == path@ {
                        None
                    } else {
                        lookup_in(es, p)
                    } by {
                        lemma_lookup_distinct(es, p);
                        lemma_lookup_distinct(ns, p);
                        if p == path@ {
                            assert forall|m: int| 0 <= m < ns.len() implies ns[m].path@ != p by {
                                let mm = if m < k { m } else { m + 1 };
                                assert(ns[m] == es[mm]);
                                assert(es[mm].path@ != es[k as int].path@);
                            }
                        } else if exists|j: int| 0 <= j < es.len() && es[j].path@ == p {
                            let j = choose|j: int| 0 <= j < es.len() && es[j].path@ == p;
                            assert(j != k);
                            let t = if j < k { j } else { j - 1 };
                            assert(ns[t] == es[j]);
                        } else {
                            assert forall|m: int| 0 <= m < ns.len() implies ns[m].path@ != p by {
                                let mm = if m < k { m } else { m + 1 };
                                assert(ns[m] == es[mm]);
                            }
                        }
                    }
                }
            },
            None => {},
        }
    }
}

/// A hit as (file, object id, kind, snippet).
pub open spec fn hit_view(h: Hit) -> (Seq<char>, u64, HitKind, Seq<char>) {
    (h.file@, h.object_id, h.kind, h.snippet@)
}

pub open spec fn hits_view(v: Seq<Hit>) -> Seq<(Seq<char>, u64, HitKind, Seq<char>)> {
    v.map_values(|h: Hit| hit_view(h))
}

/// The hit a row gives for the lower-cased query `q`: the first match in
/// the lower-cased text, with a snippet cut from the text as written. The
/// match's byte offsets are pinned onto character boundaries of the text
/// as written (lower-casing may change byte lengths before the match).
pub open spec fn row_hit(path: Seq<char>, r: (u64, HitKind, Seq<char>, Seq<char>), q: Seq<char>) -> Option<(Seq<char>, u64, HitKind, Seq<char>)> {
    let lb = enc(r.2);
    let ob = enc(r.3);
    let qb = enc(q);
    match first_match_from(lb, qb, 0) {
        Some(i) => {
            let s = clamp_caret(ob, i);
            let e = clamp_caret(ob, i + qb.len());
            Some((path, r.0, r.1, decode_utf8(snippet_bytes(ob, s, e - s))))
        },
        None => None,
    }
}

proof fn lemma_clamp_monotone(b: Seq<u8>, x: int, y: int)
    requires
        valid_utf8(b),
        0 <= x <= y,
    ensures
        clamp_caret(b, x) <= clamp_caret(b, y),
{
    let xx = if x > b.len() { b.len() as int } else { x };
    let yy = if y > b.len() { b.len() as int } else { y };
    lemma_floor_boundary(b, xx);
    lemma_floor_boundary(b, yy);
}

/// How many hits are in file `path`.
pub open spec fn count_for(hits: Seq<(Seq<char>, u64, HitKind, Seq<char>)>, path: Seq<char>) -> nat
    decreases hits.len(),
{
    if hits.len() == 0 {
        0
    } else {
        count_for(hits.drop_last(), path) + if hits.last().0 == path { 1nat } else { 0nat }
    }
}

/// Per-file cap on hits.
pub const HITS_PER_FILE: usize = 5;

/// The hits of one file's rows added to `acc`, in row order, stopping once
/// the file has five hits.
pub open spec fn scan_rows(
    path: Seq<char>,
    rows: Seq<(u64, HitKind, Seq<char>, Seq<char>)>,
    q: Seq<char>,
    acc: Seq<(Seq<char>, u64, HitKind, Seq<char>)>,
) -> Seq<(Seq<char>, u64, HitKind, Seq<char>)>
    decreases rows.len(),
{
    if rows.len() == 0 {
        acc
    } else {
        match row_hit(path, rows[0], q) {
            Some(h) => if count_for(acc.push(h), path) >= HITS_PER_FILE {
                acc.push(h)
            } else {
                scan_rows(path, rows.drop_first(), q, acc.push(h))
            },
            None => scan_rows(path, rows.drop_first(), q, acc),
        }
    }
}

/// The hits over the first `k` listed files (a file that is not cached has none).
pub open spec fn search_upto(c: SearchCache, paths: Seq<Seq<char>>, q: Seq<char>, k: nat) -> Seq<(Seq<char>, u64, HitKind, Seq<char>)>
    decreases k,
{
    if k == 0 {
        Seq::empty()
    } else {
        let prev = search_upto(c, paths, q, (k - 1) as nat);
        match c.lookup(paths[k - 1]) {
            Some(e) => scan_rows(paths[k - 1], rows_view(e.rows@), q, prev),
            None => prev,
        }
    }
}

/// The search result: nothing for a blank query; else the hits of every
/// listed file in order, matched against the trimmed, lower-cased query.
pub open spec fn search_result(c: SearchCache, paths: Seq<Seq<char>>, query: Seq<char>) -> Seq<(Seq<char>, u64, HitKind, Seq<char>)> {
    let q = lowercase(trimmed(query));
    if q.len() == 0 {
        Seq::empty()
    } else {
        search_upto(c, paths, q, paths.len())
    }
}

fn row_match(path: &String, r: &SearchRow, q: &String) -> (h: Option<Hit>)
    ensures
        match h {
            Some(x) => row_hit(path@, row_view(*r), q@) == Some(hit_view(x)),
            None => row_hit(path@, row_view(*r), q@) is None,
        },
{
    let lb = r.lower.as_str().as_bytes();
    let qb = q.as_str().as_bytes();
    match find_bytes(lb, qb) {
        Some(i) => {
            let ll = lb.len();
            proof {
                lemma_first_match_fits(lb@, qb@, 0);
                assert(i + qb@.len() <= ll);
            }
            let s = clamp_of(&r.text, i);
            let e = clamp_of(&r.text, i + qb.len());
            proof {
                encode_utf8_valid_utf8(r.text@);
                lemma_clamp_monotone(enc(r.text@), i as int, i + qb.len());
            }
            let snip = snippet_around(r.text.as_str(), s, e - s);
            proof {
                assert(decode_utf8(enc(snip@)) == snip@);
            }
            Some(Hit { file: path.clone(), object_id: r.id, kind: r.kind, snippet: snip })
        },
        None => None,
    }
}

fn count_in(out: &Vec<Hit>, path: &String) -> (n: usize)
    ensures
        n == count_for(hits_view(out@), path@),
{
    let mut n: usize = 0;
    let mut i: usize = 0;
    proof {
        assert(hits_view(out@.take(0)) =~= Seq::empty());
    }
    while i < out.len()
        invariant
            i <= out@.len(),
            n <= i,
            n == count_for(hits_view(out@.take(i as int)), path@),
        decreases out@.len() - i,
    {
        proof {
            assert(hits_view(out@.take(i + 1)).drop_last() =~= hits_view(out@.take(i as int)));
        }
        if out[i].file == *path {
            n = n + 1;
        }
        i = i + 1;
    }
    proof {
        assert(out@.take(out@.len() as int) =~= out@);
    }
    n
}

fn scan_entry(path: &String, rows: &Vec<SearchRow>, q: &String, out: &mut Vec<Hit>)
    ensures
        hits_view(final(out)@) == scan_rows(path@, rows_view(rows@), q@, hits_view(old(out)@)),
{
    let ghost goal = scan_rows(path@, rows_view(rows@), q@, hits_view(out@));
    let mut j: usize = 0;
    proof {
        assert(rows_view(rows@).skip(0) =~= rows_view(rows@));
    }
    while j < rows.len()
        invariant
            j <= rows@.len(),
            goal == scan_rows(path@, rows_view(rows@), q@, hits_view(old(out)@)),
            goal == scan_rows(path@, rows_view(rows@).skip(j as int), q@, hits_view(out@)),
        decreases rows@.len() - j,
    {
        let ghost rest = rows_view(rows@).skip(j as int);
        proof {
            assert(rest[0] == row_view(rows@[j as int]));
            assert(rest.drop_first() =~= rows_view(rows@).skip(j + 1));
        }
        match row_match(path, &rows[j], q) {
            Some(h) => {
                let ghost hv = hit_view(h);
                let ghost before = hits_view(out@);
                out.push(h);
                proof {
                    assert(hits_view(out@) =~= before.push(hv));
                }
                let c = count_in(out, path);
                if c >= HITS_PER_FILE {
                    proof {
                        assert(row_hit(path@, rest[0], q@) == Some(hv));
                        assert(count_for(before.push(hv), path@) >= HITS_PER_FILE);
                        assert(scan_rows(path@, rest, q@, before) == before.push(hv));
                    }
                    return;
                }
            },
            None => {},
        }
        j = j + 1;
    }
    proof {
        assert(rows_view(rows@).skip(j as int) =~= Seq::empty());
    }
}

impl SearchCache {
    /// Case-insensitive substring search of the cached rows of the listed
    /// files, in listing order: each row gives at most one hit (its first
    /// match), and a file gives at most five.
    pub fn search(&self, paths: &Vec<String>, query: &str) -> (r: Vec<Hit>)
        ensures
            hits_view(r@) == search_result(*self, crate::strings::views(paths@), query@),
    {
        let q = to_lowercase(trim(query));
        self.search_lowered(paths, &q)
    }

    /// The search for an already trimmed and lower-cased query `q`: nothing
    /// for an empty query, else the hits of every listed file in order.
    pub fn search_lowered(&self, paths: &Vec<String>, q: &String) -> (r: Vec<Hit>)
        ensures
            hits_view(r@) == if q@.len() == 0 {
                Seq::empty()
            } else {
                search_upto(*self, crate::strings::views(paths@), q@, paths@.len() as nat)
            },
    {
        let mut out: Vec<Hit> = Vec::new();
        if q.unicode_len() == 0 {
            assert(hits_view(out@) =~= Seq::empty());
            return out;
        }
        let ghost pv = crate::strings::views(paths@);
        let mut k: usize = 0;
        proof {
            assert(hits_view(out@) =~= Seq::empty());
        }
        while k < paths.len()
            invariant
                k <= paths@.len(),
                pv == crate::strings::views(paths@),
                hits_view(out@) == search_upto(*self, pv, q@, k as nat),
            decreases paths@.len() - k,
        {
            let p = &paths[k];
            assert(pv[k as int] == p@);
            match self.position(p.as_str()) {
                Some(pi) => {
                    scan_entry(p, &self.entries[pi].rows, q, &mut out);
                },
                None => {},
            }
            k = k + 1;
        }
        out
    }
}

proof fn lemma_scan_cap(path: Seq<char>, rows: Seq<(u64, HitKind, Seq<char>, Seq<char>)>, q: Seq<char>, acc: Seq<(Seq<char>, u64, HitKind, Seq<char>)>)
    requires
        count_for(acc, path) < HITS_PER_FILE,
    ensures
        count_for(scan_rows(path, rows, q, acc), path) <= HITS_PER_FILE,
    decreases rows.len(),
{
    if rows.len() > 0 {
        match row_hit(path, rows[0], q) {
            Some(h) => {
                assert(acc.push(h).drop_last() =~= acc);
                if count_for(acc.push(h), path) < HITS_PER_FILE {
                    lemma_scan_cap(path, rows.drop_first(), q, acc.push(h));
                }
            },
            None => {
                lemma_scan_cap(path, rows.drop_first(), q, acc);
            },
        }
    }
}

/// A file contributes at most five hits to a search.
pub proof fn law_hits_per_file_capped(path: Seq<char>, rows: Seq<(u64, HitKind, Seq<char>, Seq<char>)>, q: Seq<char>)
    ensures
        count_for(scan_rows(path, rows, q, Seq::empty()), path) <= HITS_PER_FILE,
{
    lemma_scan_cap(path, rows, q, Seq::empty());
}

/// A file's scan only appends hits of that file.
proof fn lemma_scan_appends(path: Seq<char>, rows: Seq<(u64, HitKind, Seq<char>, Seq<char>)>, q: Seq<char>, acc: Seq<(Seq<char>, u64, HitKind, Seq<char>)>)
    ensures
        scan_rows(path, rows, q, acc).len() >= acc.len(),
        scan_rows(path, rows, q, acc).take(acc.len() as int) == acc,
        forall|k: int| acc.len() <= k < scan_rows(path, rows, q, acc).len()
            ==> (#[trigger] scan_rows(path, rows, q, acc)[k]).0 == path,
    decreases rows.len(),
{
    if rows.len() > 0 {
        match row_hit(path, rows[0], q) {
            Some(h) => {
                let a2 = acc.push(h);
                assert(a2.take(acc.len() as int) =~= acc);
                if count_for(a2, path) < HITS_PER_FILE {
                    lemma_scan_appends(path, rows.drop_first(), q, a2);
                    let r = scan_rows(path, rows.drop_first(), q, a2);
                    assert(r.take(acc.len() as int) =~= acc) by {
                        assert forall|m: int| 0 <= m < acc.len() implies r.take(acc.len() as int)[m] == acc[m] by {
                            assert(r.take(a2.len() as int)[m] == r[m]);
                        }
                    }
                    assert forall|k: int| acc.len() <= k < r.len() implies (#[trigger] r[k]).0 == path by {
                        if k == acc.len() {
                            assert(r.take(a2.len() as int)[k] == r[k]);
                        }
                    }
                }
            },
            None => {
                lemma_scan_appends(path, rows.drop_first(), q, acc);
            },
        }
    } else {
        assert(acc.take(acc.len() as int) =~= acc);
    }
}

/// Appending hits of other files leaves a file's count as it was.
proof fn lemma_count_others(acc: Seq<(Seq<char>, u64, HitKind, Seq<char>)>, ext: Seq<(Seq<char>, u64, HitKind, Seq<char>)>, p: Seq<char>)
    requires
        ext.len() >= acc.len(),
        ext.take(acc.len() as int) == acc,
        forall|k: int| acc.len() <= k < ext.len() ==> (#[trigger] ext[k]).0 != p,
    ensures
        count_for(ext, p) == count_for(acc, p),
    decreases ext.len(),
{
    if ext.len() > acc.len() {
        let e2 = ext.drop_last();
        assert(e2.take(acc.len() as int) =~= acc) by {
            assert forall|m: int| 0 <= m < acc.len() implies e2.take(acc.len() as int)[m] == acc[m] by {
                assert(ext.take(acc.len() as int)[m] == ext[m]);
            }
        }
        assert forall|k: int| acc.len() <= k < e2.len() implies (#[trigger] e2[k]).0 != p by {
            assert(e2[k] == ext[k]);
        }
        lemma_count_others(acc, e2, p);
    } else {
        assert(ext =~= acc) by {
            assert forall|m: int| 0 <= m < acc.len() implies ext[m] == acc[m] by {
                assert(ext.take(acc.len() as int)[m] == ext[m]);
            }
        }
    }
}

proof fn lemma_search_upto_cap(c: SearchCache, paths: Seq<Seq<char>>, q: Seq<char>, k: nat, p: Seq<char>)
    requires
        paths.no_duplicates(),
        k <= paths.len(),
    ensures
        !paths.take(k as int).contains(p) ==> count_for(search_upto(c, paths, q, k), p) == 0,
        count_for(search_upto(c, paths, q, k), p) <= HITS_PER_FILE,
    decreases k,
{
    if k == 0 {
        assert(search_upto(c, paths, q, k) =~= Seq::empty());
    } else {
        let k1 = (k - 1) as nat;
        let prev = search_upto(c, paths, q, k1);
        lemma_search_upto_cap(c, paths, q, k1, p);
        assert(paths.take(k as int) =~= paths.take(k1 as int).push(paths[k1 as int]));
        if !paths.take(k as int).contains(p) {
            assert(paths.take(k as int)[k1 as int] == paths[k1 as int]);
            assert(p != paths[k1 as int]);
            if paths.take(k1 as int).contains(p) {
                let m = choose|m: int| 0 <= m < k1 && paths.take(k1 as int)[m] == p;
                assert(paths.take(k as int)[m] == p);
            }
        }
        match c.lookup(paths[k1 as int]) {
            Some(e) => {
                let path = paths[k1 as int];
                let rows = rows_view(e.rows@);
                lemma_scan_appends(path, rows, q, prev);
                if p == path {
                    assert(!paths.take(k1 as int).contains(p)) by {
                        if paths.take(k1 as int).contains(p) {
                            let m = choose|m: int| 0 <= m < k1 && paths.take(k1 as int)[m] == p;
                            assert(paths[m] == paths[k1 as int]);
                        }
                    }
                    lemma_scan_cap(path, rows, q, prev);
                } else {
                    lemma_count_others(prev, scan_rows(path, rows, q, prev), p);
                }
            },
            None => {},
        }
    }
}

/// Over distinct files, no file contributes more than five hits to a
/// search.
pub proof fn law_search_caps_every_file(c: SearchCache, paths: Seq<Seq<char>>, query: Seq<char>, p: Seq<char>)
    requires
        paths.no_duplicates(),
    ensures
        count_for(search_result(c, paths, query), p) <= HITS_PER_FILE,
{
    let q = lowercase(trimmed(query));
    if q.len() > 0 {
        lemma_search_upto_cap(c, paths, q, paths.len(), p);
    }
}

} // verus!
