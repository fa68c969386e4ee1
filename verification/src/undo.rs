//! Undo / redo over a coarse-grained operation log.
//!
//! Each [`Op`] describes one user-visible change to the document. Undoing an
//! op moves it onto the redo stack and redoing moves it back, so the two are
//! symmetric; a fresh action abandons the redo branch.
use vstd::prelude::*;
use crate::document::{
    first_index_of, has_id, ids_sorted, inserted_sorted, lemma_first_index_of, Document, ObjectId,
};

verus! {

/// One reversible change to the document.
#[derive(Debug, Clone)]
pub enum Op<O> {
    Add { id: ObjectId, object: O },
    Remove { id: ObjectId, object: O },
    Replace { id: ObjectId, before: O, after: O },
}

/// Undo and redo stacks; the top of each is its last element.
#[derive(Debug)]
pub struct UndoStack<O> {
    undo: Vec<Op<O>>,
    redo: Vec<Op<O>>,
}

/// What the persistent store must do for an object after a history step.
#[derive(Debug, Clone, Copy, PartialEq, Eq, Structural)]
pub enum Persist {
    /// The object is gone from the document: delete its row.
    Delete(ObjectId),
    /// The object was (re)written: store the document's current value.
    Write(ObjectId),
}

impl<O> UndoStack<O> {
    /// Ops that can be undone, oldest first.
    pub closed spec fn undo_ops(&self) -> Seq<Op<O>> {
        self.undo@
    }

    /// Ops that can be redone, oldest first.
    pub closed spec fn redo_ops(&self) -> Seq<Op<O>> {
        self.redo@
    }

    /// Empty history.
    pub fn new() -> (s: UndoStack<O>)
        ensures
            s.undo_ops() == Seq::<Op<O>>::empty(),
            s.redo_ops() == Seq::<Op<O>>::empty(),
    {
        UndoStack { undo: Vec::new(), redo: Vec::new() }
    }

    /// Record a new user action. Clears the redo branch.
    pub fn push(&mut self, op: Op<O>)
        ensures
            final(self).undo_ops() == old(self).undo_ops().push(op),
            final(self).redo_ops() == Seq::<Op<O>>::empty(),
    {
        self.undo.push(op);
        self.redo.clear();
    }

    /// Take the most recent undoable op.
    pub fn pop_undo(&mut self) -> (r: Option<Op<O>>)
        ensures
            old(self).undo_ops().len() == 0 ==> r is None && final(self).undo_ops() == old(
                self,
            ).undo_ops(),
            old(self).undo_ops().len() > 0 ==> r == Some(old(self).undo_ops().last())
                && final(self).undo_ops() == old(self).undo_ops().drop_last(),
            final(self).redo_ops() == old(self).redo_ops(),
    {
        self.undo.pop()
    }

    /// Take the most recent redoable op.
    pub fn pop_redo(&mut self) -> (r: Option<Op<O>>)
        ensures
            old(self).redo_ops().len() == 0 ==> r is None && final(self).redo_ops() == old(
                self,
            ).redo_ops(),
            old(self).redo_ops().len() > 0 ==> r == Some(old(self).redo_ops().last())
                && final(self).redo_ops() == old(self).redo_ops().drop_last(),
            final(self).undo_ops() == old(self).undo_ops(),
    {
        self.redo.pop()
    }

    /// Put an undone op on the redo stack.
    pub fn push_redo(&mut self, op: Op<O>)
        ensures
            final(self).redo_ops() == old(self).redo_ops().push(op),
            final(self).undo_ops() == old(self).undo_ops(),
    {
        self.redo.push(op);
    }

    /// Put a redone op back on the undo stack, keeping the redo branch.
    pub fn push_undo_without_clear(&mut self, op: Op<O>)
        ensures
            final(self).undo_ops() == old(self).undo_ops().push(op),
            final(self).redo_ops() == old(self).redo_ops(),
    {
        self.undo.push(op);
    }

    /// Whether there is something to undo.
    pub fn can_undo(&self) -> (b: bool)
        ensures
            b == (self.undo_ops().len() > 0),
    {
        self.undo.len() > 0
    }

    /// Whether there is something to redo.
    pub fn can_redo(&self) -> (b: bool)
        ensures
            b == (self.redo_ops().len() > 0),
    {
        self.redo.len() > 0
    }
}

/// `e` without its first entry of id `id` (unchanged when there is none).
pub open spec fn removed_first<O>(e: Seq<(ObjectId, O)>, id: ObjectId) -> Seq<(ObjectId, O)> {
    if has_id(e, id) {
        e.remove(first_index_of(e, id))
    } else {
        e
    }
}

/// `e` with its first entry of id `id` given the object `o` (unchanged when
/// there is none).
pub open spec fn replaced_first<O>(e: Seq<(ObjectId, O)>, id: ObjectId, o: O) -> Seq<
    (ObjectId, O),
> {
    if has_id(e, id) {
        e.update(first_index_of(e, id), (id, o))
    } else {
        e
    }
}

/// The document entries after one history step applies `op` backwards
/// (`forward == false`, undo) or forwards (redo), where `o` is the copy of
/// the op's object that goes into the document.
pub open spec fn stepped<O: Clone>(
    e: Seq<(ObjectId, O)>,
    op: Op<O>,
    forward: bool,
    o: O,
    e2: Seq<(ObjectId, O)>,
) -> bool {
    match op {
        Op::Add { id, object } => if forward {
            cloned(object, o) && reinserted(e, id, o, e2)
        } else {
            e2 == removed_first(e, id)
        },
        Op::Remove { id, object } => if forward {
            e2 == removed_first(e, id)
        } else {
            cloned(object, o) && reinserted(e, id, o, e2)
        },
        Op::Replace { id, before, after } => {
            &&& cloned(if forward { after } else { before }, o)
            &&& e2 == replaced_first(e, id, o)
        },
    }
}

/// `e2` is `e` with `(id, o)` put back where reinsertion puts it.
pub open spec fn reinserted<O>(e: Seq<(ObjectId, O)>, id: ObjectId, o: O, e2: Seq<(ObjectId, O)>) -> bool {
    &&& exists|p: int| 0 <= p <= e.len() && e2 == e.insert(p, (id, o))
    &&& ids_sorted(e) ==> inserted_sorted(e, (id, o), e2)
}

/// What the store must do after a history step of `op`.
pub open spec fn persist_for<O>(op: Op<O>, forward: bool) -> Persist {
    match op {
        Op::Add { id, .. } => if forward {
            Persist::Write(id)
        } else {
            Persist::Delete(id)
        },
        Op::Remove { id, .. } => if forward {
            Persist::Delete(id)
        } else {
            Persist::Write(id)
        },
        Op::Replace { id, .. } => Persist::Write(id),
    }
}

/// Add an object to the document and record it on the undo stack.
pub fn add_object<O: Clone>(doc: &mut Document<O>, stack: &mut UndoStack<O>, obj: O) -> (id:
    ObjectId)
    requires
        old(doc).last_id() < u64::MAX,
    ensures
        id == old(doc).last_id() + 1,
        final(doc).last_id() == id,
        final(doc).entries().len() == old(doc).entries().len() + 1,
        final(doc).entries().take(old(doc).entries().len() as int) == old(doc).entries(),
        final(doc).entries().last().0 == id,
        cloned(obj, final(doc).entries().last().1),
        final(stack).undo_ops() == old(stack).undo_ops().push(Op::Add { id, object: obj }),
        final(stack).redo_ops() == Seq::<Op<O>>::empty(),
        old(doc).wf() ==> final(doc).wf() && !has_id(old(doc).entries(), id),
        old(doc).wf() && ids_sorted(old(doc).entries()) ==> ids_sorted(final(doc).entries()),
{
    let copy = obj.clone();
    let id = doc.add(copy);
    assert(doc.entries().take(old(doc).entries().len() as int) =~= old(doc).entries());
    stack.push(Op::Add { id, object: obj });
    id
}

/// Remove an object from the document and record it on the undo stack.
/// Returns whether there was an object with that id.
pub fn remove_object<O>(doc: &mut Document<O>, stack: &mut UndoStack<O>, id: ObjectId) -> (removed:
    bool)
    ensures
        ({
            let e = old(doc).entries();
            &&& removed == has_id(e, id)
            &&& final(doc).entries() == removed_first(e, id)
            &&& final(doc).last_id() == old(doc).last_id()
            &&& removed ==> final(stack).undo_ops() == old(stack).undo_ops().push(
                Op::Remove { id, object: e[first_index_of(e, id)].1 },
            ) && final(stack).redo_ops() == Seq::<Op<O>>::empty()
            &&& !removed ==> final(stack).undo_ops() == old(stack).undo_ops()
                && final(stack).redo_ops() == old(stack).redo_ops()
        }),
        old(doc).wf() ==> final(doc).wf(),
        ids_sorted(old(doc).entries()) ==> ids_sorted(final(doc).entries()),
{
    match doc.remove(id) {
        Some(object) => {
            stack.push(Op::Remove { id, object });
            true
        },
        None => false,
    }
}

/// Remove an object unless it is locked (a locked note: the welcome
/// workspace card and the like); a locked object stays and nothing is
/// recorded.
pub fn remove_unless_locked<O>(doc: &mut Document<O>, stack: &mut UndoStack<O>, id: ObjectId, locked: bool) -> (removed: bool)
    ensures
        locked ==> !removed && final(doc).entries() == old(doc).entries() && final(doc).last_id()
            == old(doc).last_id() && final(stack).undo_ops() == old(stack).undo_ops()
            && final(stack).redo_ops() == old(stack).redo_ops(),
        !locked ==> ({
            let e = old(doc).entries();
            &&& removed == has_id(e, id)
            &&& final(doc).entries() == removed_first(e, id)
            &&& final(doc).last_id() == old(doc).last_id()
            &&& removed ==> final(stack).undo_ops() == old(stack).undo_ops().push(
                Op::Remove { id, object: e[first_index_of(e, id)].1 },
            ) && final(stack).redo_ops() == Seq::<Op<O>>::empty()
            &&& !removed ==> final(stack).undo_ops() == old(stack).undo_ops()
                && final(stack).redo_ops() == old(stack).redo_ops()
        }),
{
    if locked {
        return false;
    }
    remove_object(doc, stack, id)
}

/// End of a text box edit session on object `id` whose text went from
/// `before` (`None` for a box created by this session) to `content`.
/// `current` is the box as it is now and `restored` the same box with the
/// text from before. A new box left empty is dropped (its row must be
/// deleted); a new box with text is recorded as added; a changed box is
/// recorded as replaced; an unchanged box leaves the history alone.
pub fn finish_text_edit<O>(
    doc: &mut Document<O>,
    stack: &mut UndoStack<O>,
    id: ObjectId,
    before: Option<&str>,
    content: &str,
    current: O,
    restored: O,
) -> (p: Option<Persist>)
    ensures
        final(doc).last_id() == old(doc).last_id(),
        old(doc).wf() ==> final(doc).wf(),
        match before {
            None => if content@.len() == 0 {
                &&& final(doc).entries() == removed_first(old(doc).entries(), id)
                &&& final(stack).undo_ops() == old(stack).undo_ops()
                &&& final(stack).redo_ops() == old(stack).redo_ops()
                &&& p == Some(Persist::Delete(id))
            } else {
                &&& final(doc).entries() == old(doc).entries()
                &&& final(stack).undo_ops() == old(stack).undo_ops().push(Op::Add { id, object: current })
                &&& final(stack).redo_ops() == Seq::<Op<O>>::empty()
                &&& p is None
            },
            Some(b) => if b@ == content@ {
                &&& final(doc).entries() == old(doc).entries()
                &&& final(stack).undo_ops() == old(stack).undo_ops()
                &&& final(stack).redo_ops() == old(stack).redo_ops()
                &&& p is None
            } else {
                &&& final(doc).entries() == old(doc).entries()
                &&& final(stack).undo_ops() == old(stack).undo_ops().push(
                    Op::Replace { id, before: restored, after: current },
                )
                &&& final(stack).redo_ops() == Seq::<Op<O>>::empty()
                &&& p is None
            },
        },
{
    match before {
        None => {
            if content.is_empty() {
                let _ = doc.remove(id);
                proof {
                    lemma_first_index_of(old(doc).entries(), id);
                }
                Some(Persist::Delete(id))
            } else {
                stack.push(Op::Add { id, object: current });
                None
            }
        },
        Some(b) => {
            if crate::strings::str_eq(b, content) {
                None
            } else {
                stack.push(Op::Replace { id, before: restored, after: current });
                None
            }
        },
    }
}

/// Undo the most recent op: revert it in the document and move it to the
/// redo stack. Returns what the store must do, or `None` when there was
/// nothing to undo.
pub fn apply_undo<O: Clone>(doc: &mut Document<O>, stack: &mut UndoStack<O>) -> (r: Option<Persist>)
    ensures
        ({
            let u = old(stack).undo_ops();
            &&& u.len() == 0 ==> r is None && final(doc).entries() == old(doc).entries()
                && final(stack).undo_ops() == u && final(stack).redo_ops() == old(
                stack,
            ).redo_ops()
            &&& u.len() > 0 ==> {
                &&& r == Some(persist_for(u.last(), false))
                &&& final(stack).undo_ops() == u.drop_last()
                &&& final(stack).redo_ops() == old(stack).redo_ops().push(u.last())
                &&& exists|o: O|
                    stepped(old(doc).entries(), u.last(), false, o, final(doc).entries())
            }
            &&& u.len() > 0 ==> (u.last() matches Op::Replace { id, before, after }
                ==> exists|o: O| cloned(before, o) && final(doc).entries() == replaced_first(
                old(doc).entries(),
                id,
                o,
            ))
        }),
        old(doc).wf() ==> final(doc).wf(),
{
    let op = match stack.pop_undo() {
        Some(op) => op,
        None => return None,
    };
    proof {
        lemma_first_index_of(doc.entries(), op_id(op));
    }
    match op {
        Op::Add { id, object } => {
            let ghost e = doc.entries();
            let _ = doc.remove(id);
            assert(stepped(e, Op::Add { id, object }, false, object, doc.entries()));
            stack.push_redo(Op::Add { id, object });
            Some(Persist::Delete(id))
        },
        Op::Remove { id, object } => {
            let copy = object.clone();
            let ghost e = doc.entries();
            doc.reinsert(id, copy);
            assert(stepped(e, Op::Remove { id, object }, false, copy, doc.entries()));
            stack.push_redo(Op::Remove { id, object });
            Some(Persist::Write(id))
        },
        Op::Replace { id, before, after } => {
            let copy = before.clone();
            let ghost e = doc.entries();
            match doc.get_mut(id) {
                Some(slot) => {
                    *slot = copy;
                },
                None => {},
            }
            assert(stepped(e, Op::Replace { id, before, after }, false, copy, doc.entries()));
            stack.push_redo(Op::Replace { id, before, after });
            Some(Persist::Write(id))
        },
    }
}

/// Redo the most recently undone op: re-apply it to the document and move
/// it back to the undo stack. Returns what the store must do, or `None`
/// when there was nothing to redo.
pub fn apply_redo<O: Clone>(doc: &mut Document<O>, stack: &mut UndoStack<O>) -> (r: Option<Persist>)
    ensures
        ({
            let rd = old(stack).redo_ops();
            &&& rd.len() == 0 ==> r is None && final(doc).entries() == old(doc).entries()
                && final(stack).redo_ops() == rd && final(stack).undo_ops() == old(
                stack,
            ).undo_ops()
            &&& rd.len() > 0 ==> {
                &&& r == Some(persist_for(rd.last(), true))
                &&& final(stack).redo_ops() == rd.drop_last()
                &&& final(stack).undo_ops() == old(stack).undo_ops().push(rd.last())
                &&& exists|o: O| stepped(old(doc).entries(), rd.last(), true, o, final(doc).entries())
            }
            &&& rd.len() > 0 ==> (rd.last() matches Op::Replace { id, before, after }
                ==> exists|o: O| cloned(after, o) && final(doc).entries() == replaced_first(
                old(doc).entries(),
                id,
                o,
            ))
        }),
        old(doc).wf() ==> final(doc).wf(),
{
    let op = match stack.pop_redo() {
        Some(op) => op,
        None => return None,
    };
    proof {
        lemma_first_index_of(doc.entries(), op_id(op));
    }
    match op {
        Op::Add { id, object } => {
            let copy = object.clone();
            let ghost e = doc.entries();
            doc.reinsert(id, copy);
            assert(stepped(e, Op::Add { id, object }, true, copy, doc.entries()));
            stack.push_undo_without_clear(Op::Add { id, object });
            Some(Persist::Write(id))
        },
        Op::Remove { id, object } => {
            let ghost e = doc.entries();
            let _ = doc.remove(id);
            assert(stepped(e, Op::Remove { id, object }, true, object, doc.entries()));
            stack.push_undo_without_clear(Op::Remove { id, object });
            Some(Persist::Delete(id))
        },
        Op::Replace { id, before, after } => {
            let copy = after.clone();
            let ghost e = doc.entries();
            match doc.get_mut(id) {
                Some(slot) => {
                    *slot = copy;
                },
                None => {},
            }
            assert(stepped(e, Op::Replace { id, before, after }, true, copy, doc.entries()));
            stack.push_undo_without_clear(Op::Replace { id, before, after });
            Some(Persist::Write(id))
        },
    }
}

/// The id an op is about.
pub open spec fn op_id<O>(op: Op<O>) -> ObjectId {
    match op {
        Op::Add { id, .. } => id,
        Op::Remove { id, .. } => id,
        Op::Replace { id, .. } => id,
    }
}


// ---------------------------------------------------------------------------
// Laws.
// ---------------------------------------------------------------------------

/// Undo followed by redo leaves both stacks exactly as they were: ops are
/// moved between the stacks, never copied.
pub proof fn law_undo_then_redo_restores_history<O>(u: Seq<Op<O>>, r: Seq<Op<O>>)
    requires
        u.len() > 0,
    ensures
        ({
            let u1 = u.drop_last();
            let r1 = r.push(u.last());
            &&& r1.len() > 0
            &&& u1.push(r1.last()) == u
            &&& r1.drop_last() == r
        }),
{
    assert(u.drop_last().push(u.last()) =~= u);
    assert(r.push(u.last()).drop_last() =~= r);
}

/// Undoing an add removes exactly the added object: the document is back to
/// what it was before the add.
pub proof fn law_undo_reverts_add<O>(e: Seq<(ObjectId, O)>, e2: Seq<(ObjectId, O)>, id: ObjectId)
    requires
        !has_id(e, id),
        e2.len() == e.len() + 1,
        e2.take(e.len() as int) == e,
        e2.last().0 == id,
    ensures
        removed_first(e2, id) == e,
{
    lemma_first_index_of(e2, id);
    lemma_first_index_of(e, id);
    assert(has_id(e2, id)) by {
        assert(e2[e.len() as int].0 == id);
    }
    let k = first_index_of(e2, id);
    if k < e.len() {
        assert(e2[k] == e2.take(e.len() as int)[k]);
        assert(e[k].0 == id);
    }
    assert(k == e.len());
    assert(e2.remove(k) =~= e2.take(e.len() as int));
}

/// On a document with sorted ids, undoing a removal puts the object back at
/// the very position it was removed from.
pub proof fn law_undo_reverts_remove<O>(
    e: Seq<(ObjectId, O)>,
    id: ObjectId,
    o: O,
    e2: Seq<(ObjectId, O)>,
)
    requires
        ids_sorted(e),
        has_id(e, id),
        reinserted(removed_first(e, id), id, o, e2),
    ensures
        e2 == e.update(first_index_of(e, id), (id, o)),
{
    lemma_first_index_of(e, id);
    let k = first_index_of(e, id);
    let e1 = e.remove(k);
    assert(ids_sorted(e1)) by {
        assert forall|i: int, j: int| 0 <= i < j < e1.len() implies e1[i].0 < e1[j].0 by {
            let ii = if i < k { i } else { i + 1 };
            let jj = if j < k { j } else { j + 1 };
            assert(e1[i] == e[ii]);
            assert(e1[j] == e[jj]);
        }
    }
    let p = choose|p: int|
        0 <= p <= e1.len() && e2 == e1.insert(p, (id, o)) && (forall|q: int|
            0 <= q < p ==> e1[q].0 < id) && (forall|q: int| p <= q < e1.len() ==> e1[q].0 >= id);
    if p < k {
        assert(e1[p] == e[p]);
        assert(e[p].0 < e[k].0);
    }
    if p > k {
        assert(e1[k] == e[k + 1]);
        assert(e[k].0 < e[k + 1].0);
    }
    assert(p == k);
    assert(e1.insert(k, (id, o)) =~= e.update(k, (id, o)));
}

/// Redoing an add whose id is above every id of a sorted document appends
/// it again at the end.
pub proof fn law_redo_reappends_add<O>(
    e: Seq<(ObjectId, O)>,
    id: ObjectId,
    o: O,
    e2: Seq<(ObjectId, O)>,
)
    requires
        ids_sorted(e),
        forall|k: int| 0 <= k < e.len() ==> e[k].0 < id,
        reinserted(e, id, o, e2),
    ensures
        e2 == e.push((id, o)),
{
    let p = choose|p: int|
        0 <= p <= e.len() && e2 == e.insert(p, (id, o)) && (forall|q: int|
            0 <= q < p ==> e[q].0 < id) && (forall|q: int| p <= q < e.len() ==> e[q].0 >= id);
    if p < e.len() {
        assert(e[p].0 < id);
    }
    assert(e.insert(e.len() as int, (id, o)) =~= e.push((id, o)));
}

/// Redoing a replacement puts a copy of its `after` object into the entry
/// for its id (and undoing it puts a copy of `before`), keeping every other
/// entry and the order; a document without the id is left as it is.
pub proof fn law_replace_steps_put_the_right_object<O: Clone>(
    e: Seq<(ObjectId, O)>,
    id: ObjectId,
    before: O,
    after: O,
    forward: bool,
    o: O,
    e2: Seq<(ObjectId, O)>,
)
    requires
        stepped(e, Op::Replace { id, before, after }, forward, o, e2),
    ensures
        forward ==> cloned(after, o),
        !forward ==> cloned(before, o),
        e2.len() == e.len(),
        has_id(e, id) ==> e2[first_index_of(e, id)] == (id, o),
        forall|k: int| 0 <= k < e.len() && k != first_index_of(e, id) ==> #[trigger] e2[k] == e[k],
        !has_id(e, id) ==> e2 == e,
{
    lemma_first_index_of(e, id);
}

} // verus!
