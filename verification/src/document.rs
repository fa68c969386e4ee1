//! The in-memory document: canvas objects keyed by id, in insertion order.
//!
//! The object payload is a type parameter: the id bookkeeping (fresh ids,
//! removal, reinsertion at the sorted position) is independent of what an
//! object is.
use vstd::prelude::*;

verus! {

pub type ObjectId = u64;

/// Index of the first entry with id `id`, or `e.len()` when there is none.
pub open spec fn first_index_of<O>(e: Seq<(ObjectId, O)>, id: ObjectId) -> int
    decreases e.len(),
{
    if e.len() == 0 {
        0
    } else if e[0].0 == id {
        0
    } else {
        1 + first_index_of(e.drop_first(), id)
    }
}

/// Whether some entry has id `id`.
pub open spec fn has_id<O>(e: Seq<(ObjectId, O)>, id: ObjectId) -> bool {
    exists|k: int| 0 <= k < e.len() && e[k].0 == id
}

/// Ids strictly increase along the entries.
pub open spec fn ids_sorted<O>(e: Seq<(ObjectId, O)>) -> bool {
    forall|i: int, j: int| 0 <= i < j < e.len() ==> e[i].0 < e[j].0
}

/// `e2` is `e` with `x` inserted at its sorted position.
pub open spec fn inserted_sorted<O>(e: Seq<(ObjectId, O)>, x: (ObjectId, O), e2: Seq<(ObjectId, O)>) -> bool {
    exists|p: int|
        0 <= p <= e.len() && e2 == e.insert(p, x) && (forall|k: int| 0 <= k < p ==> e[k].0 < x.0)
            && (forall|k: int| p <= k < e.len() ==> e[k].0 >= x.0)
}

/// The largest id among the entries, or 0.
pub open spec fn max_id<O>(e: Seq<(ObjectId, O)>) -> ObjectId
    decreases e.len(),
{
    if e.len() == 0 {
        0
    } else {
        let rest = max_id(e.drop_last());
        if e.last().0 > rest {
            e.last().0
        } else {
            rest
        }
    }
}

pub proof fn lemma_first_index_of<O>(e: Seq<(ObjectId, O)>, id: ObjectId)
    ensures
        0 <= first_index_of(e, id) <= e.len(),
        first_index_of(e, id) < e.len() ==> e[first_index_of(e, id)].0 == id,
        forall|k: int| 0 <= k < first_index_of(e, id) ==> e[k].0 != id,
        has_id(e, id) <==> first_index_of(e, id) < e.len(),
    decreases e.len(),
{
    if e.len() > 0 && e[0].0 != id {
        lemma_first_index_of(e.drop_first(), id);
        assert forall|k: int| 0 <= k < first_index_of(e, id) implies e[k].0 != id by {
            if k > 0 {
                assert(e[k] == e.drop_first()[k - 1]);
            }
        }
        if has_id(e, id) {
            let k = choose|k: int| 0 <= k < e.len() && e[k].0 == id;
            assert(e.drop_first()[k - 1].0 == id);
        }
        if first_index_of(e, id) < e.len() {
            assert(e[first_index_of(e, id)] == e.drop_first()[first_index_of(e, id) - 1]);
        }
    }
}

proof fn lemma_max_id<O>(e: Seq<(ObjectId, O)>)
    ensures
        forall|k: int| 0 <= k < e.len() ==> e[k].0 <= max_id(e),
    decreases e.len(),
{
    if e.len() > 0 {
        lemma_max_id(e.drop_last());
        assert forall|k: int| 0 <= k < e.len() implies e[k].0 <= max_id(e) by {
            if k < e.len() - 1 {
                assert(e[k] == e.drop_last()[k]);
            }
        }
    }
}

/// A document: objects with their ids, plus the last id handed out.
#[derive(Debug)]
pub struct Document<O> {
    next_id: ObjectId,
    objects: Vec<(ObjectId, O)>,
}

impl<O> Document<O> {
    /// The objects with their ids, in document order.
    pub closed spec fn entries(&self) -> Seq<(ObjectId, O)> {
        self.objects@
    }

    /// The last id handed out by [`Document::add`] (or the largest id seen).
    pub closed spec fn last_id(&self) -> ObjectId {
        self.next_id
    }

    /// Every id in the document is at most the last id handed out, so new
    /// ids are fresh.
    pub open spec fn wf(&self) -> bool {
        forall|k: int| 0 <= k < self.entries().len() ==> self.entries()[k].0 <= self.last_id()
    }

    /// An empty document.
    pub fn new() -> (d: Document<O>)
        ensures
            d.entries() == Seq::<(ObjectId, O)>::empty(),
            d.last_id() == 0,
            d.wf(),
    {
        Document { next_id: 0, objects: Vec::new() }
    }

    /// A document over stored records; ids handed out next continue after
    /// the largest stored id.
    pub fn from_records(records: Vec<(ObjectId, O)>) -> (d: Document<O>)
        ensures
            d.entries() == records@,
            d.last_id() == max_id(records@),
            d.wf(),
    {
        let mut next_id: ObjectId = 0;
        let mut i: usize = 0;
        while i < records.len()
            invariant
                i <= records@.len(),
                next_id == max_id(records@.take(i as int)),
            decreases records@.len() - i,
        {
            assert(records@.take(i + 1).drop_last() =~= records@.take(i as int));
            if records[i].0 > next_id {
                next_id = records[i].0;
            }
            i = i + 1;
        }
        assert(records@.take(i as int) =~= records@);
        proof {
            lemma_max_id(records@);
        }
        Document { next_id, objects: records }
    }

    /// The last id handed out (or the largest id seen).
    pub fn last_issued_id(&self) -> (n: ObjectId)
        ensures
            n == self.last_id(),
    {
        self.next_id
    }

    /// Append an object under a fresh id and return that id.
    pub fn add(&mut self, obj: O) -> (id: ObjectId)
        requires
            old(self).last_id() < u64::MAX,
        ensures
            id == old(self).last_id() + 1,
            final(self).last_id() == id,
            final(self).entries() == old(self).entries().push((id, obj)),
            old(self).wf() ==> !has_id(old(self).entries(), id),
            old(self).wf() ==> final(self).wf(),
            old(self).wf() && ids_sorted(old(self).entries()) ==> ids_sorted(final(self).entries()),
    {
        self.next_id = self.next_id + 1;
        let id = self.next_id;
        self.objects.push((id, obj));
        id
    }

    /// Put an object back under its old id, at the position that keeps
    /// sorted ids sorted.
    pub fn reinsert(&mut self, id: ObjectId, obj: O)
        ensures
            final(self).last_id() == if id > old(self).last_id() { id } else { old(self).last_id() },
            final(self).entries().len() == old(self).entries().len() + 1,
            exists|p: int|
                0 <= p <= old(self).entries().len() && final(self).entries() == old(
                    self,
                ).entries().insert(p, (id, obj)),
            ids_sorted(old(self).entries()) ==> inserted_sorted(
                old(self).entries(),
                (id, obj),
                final(self).entries(),
            ),
            old(self).wf() ==> final(self).wf(),
    {
        if id > self.next_id {
            self.next_id = id;
        }
        let ghost e = self.objects@;
        // Binary search for the first position whose id is not below `id`.
        let mut lo: usize = 0;
        let mut hi: usize = self.objects.len();
        while lo < hi
            invariant
                e == self.objects@,
                lo <= hi <= e.len(),
                ids_sorted(e) ==> forall|k: int| 0 <= k < lo ==> e[k].0 < id,
                ids_sorted(e) ==> forall|k: int| hi <= k < e.len() ==> e[k].0 >= id,
            decreases hi - lo,
        {
            let mid = lo + (hi - lo) / 2;
            if self.objects[mid].0 < id {
                lo = mid + 1;
            } else if self.objects[mid].0 == id {
                lo = mid;
                hi = mid;
            } else {
                hi = mid;
            }
        }
        self.objects.insert(lo, (id, obj));
        assert(self.objects@ == e.insert(lo as int, (id, obj)));
    }

    /// Remove the first object with id `id`, returning it.
    pub fn remove(&mut self, id: ObjectId) -> (r: Option<O>)
        ensures
            ({
                let e = old(self).entries();
                let k = first_index_of(e, id);
                &&& final(self).last_id() == old(self).last_id()
                &&& has_id(e, id) ==> r == Some(e[k].1) && final(self).entries() == e.remove(k)
                &&& !has_id(e, id) ==> r is None && final(self).entries() == e
            }),
            old(self).wf() ==> final(self).wf(),
            ids_sorted(old(self).entries()) ==> ids_sorted(final(self).entries()),
    {
        let pos = self.position_of(id);
        proof {
            lemma_first_index_of(self.objects@, id);
        }
        match pos {
            Some(k) => {
                let entry = self.objects.remove(k);
                Some(entry.1)
            },
            None => None,
        }
    }

    fn position_of(&self, id: ObjectId) -> (r: Option<usize>)
        ensures
            ({
                let k = first_index_of(self.entries(), id);
                &&& has_id(self.entries(), id) <==> r is Some
                &&& r matches Some(i) ==> i == k && i < self.entries().len()
            }),
    {
        proof {
            lemma_first_index_of(self.objects@, id);
        }
        let mut i: usize = 0;
        while i < self.objects.len()
            invariant
                i <= self.objects@.len(),
                forall|k: int| 0 <= k < i ==> self.objects@[k].0 != id,
            decreases self.objects@.len() - i,
        {
            if self.objects[i].0 == id {
                proof {
                    lemma_first_index_of(self.objects@, id);
                }
                return Some(i);
            }
            i = i + 1;
        }
        None
    }

    /// The first object with id `id`.
    pub fn get(&self, id: ObjectId) -> (r: Option<&O>)
        ensures
            has_id(self.entries(), id) ==> r == Some(&self.entries()[first_index_of(self.entries(), id)].1),
            !has_id(self.entries(), id) ==> r is None,
    {
        proof {
            lemma_first_index_of(self.objects@, id);
        }
        match self.position_of(id) {
            Some(k) => Some(&self.objects[k].1),
            None => None,
        }
    }

    /// Mutable access to the first object with id `id`.
    pub fn get_mut(&mut self, id: ObjectId) -> (r: Option<&mut O>)
        ensures
            ({
                let e = old(self).entries();
                let k = first_index_of(e, id);
                &&& has_id(e, id) <==> r is Some
                &&& r matches Some(m) ==> *m == e[k].1 && final(self).entries() == e.update(
                    k,
                    (id, *final(m)),
                )
                &&& r is None ==> final(self).entries() == e
                &&& final(self).last_id() == old(self).last_id()
            }),
    {
        proof {
            lemma_first_index_of(self.objects@, id);
        }
        match self.position_of(id) {
            Some(k) => Some(&mut self.objects[k].1),
            None => None,
        }
    }

    /// The objects with their ids, in document order.
    pub fn objects(&self) -> (r: &[(ObjectId, O)])
        ensures
            r@ == self.entries(),
    {
        self.objects.as_slice()
    }

    /// Number of objects.
    pub fn len(&self) -> (n: usize)
        ensures
            n == self.entries().len(),
    {
        self.objects.len()
    }

    /// Whether the document has no objects.
    pub fn is_empty(&self) -> (b: bool)
        ensures
            b == (self.entries().len() == 0),
    {
        self.objects.len() == 0
    }
}

/// The ids among `ids` that have an object in `e`, in the order of `ids`.
pub open spec fn present_ids<O>(e: Seq<(ObjectId, O)>, ids: Seq<ObjectId>) -> Seq<ObjectId>
    decreases ids.len(),
{
    if ids.len() == 0 {
        Seq::empty()
    } else {
        let rest = present_ids(e, ids.drop_last());
        if has_id(e, ids.last()) {
            rest.push(ids.last())
        } else {
            rest
        }
    }
}

impl<O: Clone> Document<O> {
    /// Copies of the objects with the given ids (the clipboard's content
    /// for a selection), in the order of `ids`; ids without an object are
    /// skipped.
    pub fn copies_of(&self, ids: &Vec<ObjectId>) -> (r: Vec<O>)
        ensures
            r@.len() == present_ids(self.entries(), ids@).len(),
            forall|k: int| 0 <= k < r@.len() ==> cloned(
                #[trigger] self.entries()[first_index_of(self.entries(), present_ids(self.entries(), ids@)[k])].1,
                r@[k],
            ),
    {
        let ghost e = self.entries();
        let mut out: Vec<O> = Vec::new();
        let mut i: usize = 0;
        while i < ids.len()
            invariant
                i <= ids@.len(),
                e == self.entries(),
                out@.len() == present_ids(e, ids@.take(i as int)).len(),
                forall|k: int| 0 <= k < out@.len() ==> cloned(
                    #[trigger] e[first_index_of(e, present_ids(e, ids@.take(i as int))[k])].1,
                    out@[k],
                ),
            decreases ids@.len() - i,
        {
            let ghost prev = present_ids(e, ids@.take(i as int));
            assert(ids@.take(i + 1).drop_last() =~= ids@.take(i as int));
            assert(ids@.take(i + 1).last() == ids@[i as int]);
            match self.get(ids[i]) {
                Some(o) => {
                    let c = o.clone();
                    out.push(c);
                    proof {
                        let now = present_ids(e, ids@.take(i + 1));
                        assert(now == prev.push(ids@[i as int]));
                        assert forall|k: int| 0 <= k < out@.len() implies cloned(
                            #[trigger] e[first_index_of(e, now[k])].1,
                            out@[k],
                        ) by {
                            if k < prev.len() {
                                assert(now[k] == prev[k]);
                            }
                        }
                    }
                },
                None => {
                    proof {
                        assert(present_ids(e, ids@.take(i + 1)) == prev);
                    }
                },
            }
            i = i + 1;
        }
        assert(ids@.take(ids@.len() as int) =~= ids@);
        out
    }
}

} // verus!
