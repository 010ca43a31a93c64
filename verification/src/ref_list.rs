//! The container, its entries, and the handles into it.
//!
//! `RefList` keeps every entry ever pushed in a backing store and hands out
//! `EntryRef` handles that name their slot in that store. The slots currently
//! in the list are an ordered sequence of store indices; deletion filters that
//! sequence and renumbers each surviving entry's recorded position in one
//! pass. A deleted entry is never re-attached: its value stays readable
//! through any outstanding handle, but its position is gone for good.

use std::marker::PhantomData;
use std::rc::Rc;

use vstd::prelude::*;

use crate::model::{count_deleted_before, is_deleted, lemma_count_bounds, lemma_survivors_len,
    lemma_survivors_mapping, lemma_survivors_membership, survivors};

verus! {

/// Where an entry currently stands: attached at a live index, or detached.
enum EntryOrigin {
    Index(usize),
    Detached,
}

/// A stored value together with its current positional origin.
pub struct Entry<T> {
    val: T,
    origin: EntryOrigin,
}

impl<T> Entry<T> {
    /// The entry's position: `Some(i)` while attached at index `i`,
    /// `None` once detached.
    pub closed spec fn spec_order(&self) -> Option<usize> {
        match self.origin {
            EntryOrigin::Index(i) => Some(i),
            EntryOrigin::Detached => None,
        }
    }

    /// The wrapped value.
    pub closed spec fn spec_value(&self) -> T {
        self.val
    }

    /// A new entry attached at `index`.
    pub fn new(val: T, index: usize) -> (e: Entry<T>)
        ensures
            e.spec_order() == Some(index),
            e.spec_value() == val,
    {
        Entry { val, origin: EntryOrigin::Index(index) }
    }

    /// Index of the entry within the reference list, `None` once detached.
    pub fn order(&self) -> (r: Option<usize>)
        ensures
            r == self.spec_order(),
    {
        match self.origin {
            EntryOrigin::Detached => None,
            EntryOrigin::Index(idx) => Some(idx),
        }
    }

    /// Read access to the wrapped value.
    pub fn value(&self) -> (r: &T)
        ensures
            *r == self.spec_value(),
    {
        &self.val
    }
}

/// Relies on `std::rc::Rc::clone`: returns a new strong handle to the same
/// allocation, raising its strong count by one.
#[verifier::external_body]
fn rc_clone(rc: &Rc<()>) -> Rc<()> {
    Rc::clone(rc)
}

/// Relies on `std::rc::Rc::strong_count`: the number of strong handles to the
/// allocation. `rc` itself is one of them, so the count is at least one.
#[verifier::external_body]
fn rc_strong_count(rc: &Rc<()>) -> (r: usize)
    ensures
        r >= 1,
{
    Rc::strong_count(rc)
}

/// A shareable handle to one entry of a [`RefList`].
///
/// Cloning is cheap and shares, rather than copies, the entry: every clone
/// names the same slot of the list's backing store, so a renumbering or a
/// detachment performed by the list is visible through all of them.
pub struct EntryRef<T> {
    id: usize,
    token: Rc<()>,
    marker: PhantomData<T>,
}

impl<T> EntryRef<T> {
    /// The slot in the list's backing store that this handle names.
    pub closed spec fn spec_id(&self) -> int {
        self.id as int
    }

    /// Number of handles currently naming this entry, not counting the one
    /// the list itself retains.
    ///
    /// The count is a fact about which clones are alive right now, which is
    /// outside the verified model; nothing more than the value itself is
    /// promised.
    pub fn link_count(&self) -> usize {
        rc_strong_count(&self.token) - 1
    }

    /// Read access to the referenced entry inside `list`.
    ///
    /// The handle must come from `list`; the entry stays readable after it
    /// has been detached.
    pub fn read<'a>(&self, list: &'a RefList<T>) -> (r: &'a Entry<T>)
        requires
            list.valid_handle(*self),
        ensures
            r.spec_order() == list.spec_order_at(self.spec_id()),
            r.spec_value() == list.spec_value_at(self.spec_id()),
    {
        &list.store[self.id]
    }

    /// Exclusive write access: store `value` into the referenced entry.
    ///
    /// The `&mut` borrow of the list is what grants exclusivity, so no two
    /// writes can overlap. Writing never changes the entry's position, nor
    /// any other entry.
    pub fn write(&self, list: &mut RefList<T>, value: T)
        requires
            old(list).valid_handle(*self),
        ensures
            final(list).spec_value_at(self.spec_id()) == value,
            final(list).spec_items() == old(list).spec_items(),
            final(list).spec_store_len() == old(list).spec_store_len(),
            forall|id: int|
                0 <= id < old(list).spec_store_len() ==> #[trigger] final(list).spec_order_at(id)
                    == old(list).spec_order_at(id),
            forall|id: int|
                0 <= id < old(list).spec_store_len() && id != self.spec_id()
                    ==> #[trigger] final(list).spec_value_at(id) == old(list).spec_value_at(id),
            old(list).wf() ==> final(list).wf(),
    {
        let e = &mut list.store[self.id];
        e.val = value;
        proof {
            assert forall|j: int|
                0 <= j < list.store@.len() implies #[trigger] list.store@[j].spec_order() == old(
                list,
            ).store@[j].spec_order() by {}
            if old(list).wf() {
                assert forall|i: int|
                    0 <= i < list.items@.len() implies #[trigger] list.store@[list.items@[
                    i
                ] as int].spec_order() == Some(i as usize) by {}
                assert forall|id2: int|
                    0 <= id2 < list.store@.len() && !list.live_id(id2) implies (
                #[trigger] list.store@[id2].spec_order()) is None by {
                    if old(list).live_id(id2) {
                        let i = choose|i: int|
                            0 <= i < old(list).spec_items().len() && old(list).spec_items()[i]
                                == id2;
                        assert(list.spec_items()[i] == id2);
                    }
                }
            }
        }
    }

    /// Index of the referenced entry within `list`, `None` once detached.
    ///
    /// The handle must come from `list`; the result reflects the latest
    /// renumbering.
    pub fn order(&self, list: &RefList<T>) -> (r: Option<usize>)
        requires
            list.valid_handle(*self),
        ensures
            r == list.spec_order_at(self.spec_id()),
    {
        list.store[self.id].order()
    }
}

impl<T> Clone for EntryRef<T> {
    /// A new handle to the same entry; the entry's link count rises by one.
    fn clone(&self) -> (r: Self)
        ensures
            r.spec_id() == self.spec_id(),
    {
        EntryRef { id: self.id, token: rc_clone(&self.token), marker: PhantomData }
    }
}

/// List that tracks references and indices.
///
/// `spec_items()[i]` is the backing-store slot of the element currently at
/// index `i`; `spec_order_at` and `spec_value_at` read a slot's recorded
/// position and value. Between operations the list is well formed: every live
/// slot records exactly its own index, and every other slot is detached.
pub struct RefList<T> {
    store: Vec<Entry<T>>,
    tokens: Vec<Rc<()>>,
    items: Vec<usize>,
}

impl<T> RefList<T> {
    /// The backing-store slots of the live elements, in index order.
    pub closed spec fn spec_items(&self) -> Seq<usize> {
        self.items@
    }

    /// How many slots the backing store holds (every entry ever pushed).
    pub closed spec fn spec_store_len(&self) -> int {
        self.store@.len() as int
    }

    /// The recorded position of backing-store slot `id`.
    pub closed spec fn spec_order_at(&self, id: int) -> Option<usize> {
        self.store@[id].spec_order()
    }

    /// The value held in backing-store slot `id`.
    pub closed spec fn spec_value_at(&self, id: int) -> T {
        self.store@[id].spec_value()
    }

    /// Number of live elements.
    pub open spec fn spec_len(&self) -> int {
        self.spec_items().len() as int
    }

    /// Whether `h` is a handle into this list's backing store.
    pub open spec fn valid_handle(&self, h: EntryRef<T>) -> bool {
        0 <= h.spec_id() < self.spec_store_len()
    }

    /// Whether backing-store slot `id` is currently in the list.
    pub open spec fn live_id(&self, id: int) -> bool {
        exists|i: int| 0 <= i < self.spec_items().len() && self.spec_items()[i] == id
    }

    /// Well-formedness: live slots record exactly their index, each index
    /// names a distinct in-range slot, and every slot outside the list is
    /// detached.
    pub closed spec fn wf(&self) -> bool {
        &&& self.tokens@.len() == self.store@.len()
        &&& self.items@.len() <= self.store@.len()
        &&& forall|i: int| 0 <= i < self.items@.len() ==> (#[trigger] self.items@[i] as int)
            < self.store@.len()
        &&& forall|i: int, j: int|
            0 <= i < j < self.items@.len() ==> self.items@[i] != self.items@[j]
        &&& forall|i: int|
            0 <= i < self.items@.len() ==> #[trigger] self.store@[self.items@[i] as int].spec_order()
                == Some(i as usize)
        &&& forall|id: int|
            0 <= id < self.store@.len() && !self.live_id(id) ==> (#[trigger] self.store@[
                id
            ].spec_order()) is None
    }

    /// New empty list.
    pub fn new() -> (r: Self)
        ensures
            r.wf(),
            r.spec_len() == 0,
            r.spec_store_len() == 0,
    {
        RefList { store: Vec::new(), tokens: Vec::new(), items: Vec::new() }
    }

    /// Length of the list.
    pub fn len(&self) -> (r: usize)
        ensures
            r == self.spec_len(),
    {
        self.items.len()
    }

    /// Push a new element onto the end of the list.
    ///
    /// The element is stored at index `len()`; the returned handle tracks it
    /// from then on, so its order starts out as `Some` of that index.
    pub fn push(&mut self, t: T) -> (h: EntryRef<T>)
        requires
            old(self).wf(),
        ensures
            final(self).wf(),
            final(self).spec_store_len() == old(self).spec_store_len() + 1,
            h.spec_id() == old(self).spec_store_len(),
            final(self).valid_handle(h),
            final(self).spec_items() == old(self).spec_items().push(
                old(self).spec_store_len() as usize,
            ),
            final(self).spec_len() == old(self).spec_len() + 1,
            final(self).spec_order_at(h.spec_id()) == Some(old(self).spec_len() as usize),
            final(self).spec_value_at(h.spec_id()) == t,
            forall|id: int|
                0 <= id < old(self).spec_store_len() ==> #[trigger] final(self).spec_order_at(id)
                    == old(self).spec_order_at(id) && final(self).spec_value_at(id) == old(
                    self,
                ).spec_value_at(id),
    {
        let ghost pre = *old(self);
        let idx: usize = self.items.len();
        let id: usize = self.store.len();
        self.store.push(Entry::new(t, idx));
        self.tokens.push(Rc::new(()));
        self.items.push(id);
        proof {
            assert forall|i: int| 0 <= i < self.items@.len() implies (#[trigger] self.items@[
                i
            ] as int) < self.store@.len() by {}
            assert forall|i: int|
                0 <= i < self.items@.len() implies #[trigger] self.store@[self.items@[
                i
            ] as int].spec_order() == Some(i as usize) by {}
            assert forall|id2: int|
                0 <= id2 < self.store@.len() && !self.live_id(id2) implies (#[trigger] self.store@[
                id2
            ].spec_order()) is None by {
                if id2 < pre.store@.len() {
                    if pre.live_id(id2) {
                        let i = choose|i: int|
                            0 <= i < pre.spec_items().len() && pre.spec_items()[i] == id2;
                        assert(self.spec_items()[i] == id2);
                    }
                } else {
                    assert(self.spec_items()[pre.spec_items().len() as int] == id2);
                }
            }
        }
        EntryRef { id, token: rc_clone(&self.tokens[id]), marker: PhantomData }
    }

    /// Clone the handle of the element at `idx`.
    ///
    /// The index must be in bounds; `get` is the checked variant.
    pub fn clone_ref(&self, idx: usize) -> (h: EntryRef<T>)
        requires
            self.wf(),
            (idx as int) < self.spec_len(),
        ensures
            self.valid_handle(h),
            h.spec_id() == self.spec_items()[idx as int] as int,
            self.spec_order_at(h.spec_id()) == Some(idx),
    {
        let id: usize = self.items[idx];
        EntryRef { id, token: rc_clone(&self.tokens[id]), marker: PhantomData }
    }

    /// Get the handle of the element at `idx` (checked).
    ///
    /// Returns `None` exactly when `idx` is out of bounds.
    pub fn get(&self, idx: usize) -> (r: Option<EntryRef<T>>)
        requires
            self.wf(),
        ensures
            r is Some <==> (idx as int) < self.spec_len(),
            r matches Some(h) ==> self.valid_handle(h) && h.spec_id() == self.spec_items()[
                idx as int
            ] as int && self.spec_order_at(h.spec_id()) == Some(idx),
    {
        if idx < self.items.len() {
            Some(self.clone_ref(idx))
        } else {
            None
        }
    }

    /// Borrow the entry at `idx` for transient use.
    ///
    /// The index must be in bounds; out of range is a caller error.
    pub fn get_ref(&self, idx: usize) -> (r: &Entry<T>)
        requires
            self.wf(),
            (idx as int) < self.spec_len(),
        ensures
            r.spec_order() == Some(idx),
            r.spec_value() == self.spec_value_at(self.spec_items()[idx as int] as int),
    {
        let id: usize = self.items[idx];
        &self.store[id]
    }

    /// A fresh traversal of the list: one handle per live element, in index
    /// order.
    pub fn iter(&self) -> (hs: Vec<EntryRef<T>>)
        requires
            self.wf(),
        ensures
            hs@.len() == self.spec_len(),
            forall|i: int|
                0 <= i < hs@.len() ==> #[trigger] hs@[i].spec_id() == self.spec_items()[i] as int
                    && self.spec_order_at(hs@[i].spec_id()) == Some(i as usize),
    {
        let mut hs: Vec<EntryRef<T>> = Vec::new();
        let mut i: usize = 0;
        while i < self.items.len()
            invariant
                self.wf(),
                i <= self.spec_len(),
                hs@.len() == i,
                forall|k: int|
                    0 <= k < i ==> #[trigger] hs@[k].spec_id() == self.spec_items()[k] as int
                        && self.spec_order_at(hs@[k].spec_id()) == Some(k as usize),
            decreases self.spec_len() - i,
        {
            hs.push(self.clone_ref(i));
            i += 1;
        }
        hs
    }

    /// Initialize from a slice, cloning each of its elements in order.
    pub fn from_slice(list: &[T]) -> (r: Self) where T: Clone
        ensures
            r.wf(),
            r.spec_len() == list@.len(),
            r.spec_store_len() == list@.len(),
            forall|i: int|
                0 <= i < list@.len() ==> #[trigger] r.spec_items()[i] == i && r.spec_order_at(i)
                    == Some(i as usize) && cloned::<T>(list@[i], r.spec_value_at(i)),
    {
        let mut res = Self::new();
        let mut i: usize = 0;
        while i < list.len()
            invariant
                res.wf(),
                i <= list@.len(),
                res.spec_len() == i,
                res.spec_store_len() == i,
                forall|k: int|
                    0 <= k < i ==> #[trigger] res.spec_items()[k] == k && res.spec_order_at(k)
                        == Some(k as usize) && cloned::<T>(list@[k], res.spec_value_at(k)),
            decreases list@.len() - i,
        {
            res.push(list[i].clone());
            i += 1;
        }
        res
    }

    /// What a committed deletion batch `del` does to a list: exactly the
    /// undeleted positions survive, in their original order; each survivor's
    /// recorded position drops by the number of deleted positions below it;
    /// each deleted entry is detached, as is every entry that already was;
    /// values and the backing store are untouched.
    pub open spec fn delete_commits(pre: Self, post: Self, del: Seq<usize>) -> bool {
        &&& post.wf()
        &&& post.spec_store_len() == pre.spec_store_len()
        &&& post.spec_items() == survivors(pre.spec_items(), del)
        &&& post.spec_len() == pre.spec_len() - count_deleted_before(del, pre.spec_len())
        &&& forall|q: int|
            0 <= q < pre.spec_len() && !is_deleted(del, q) ==> post.spec_order_at(
                #[trigger] pre.spec_items()[q] as int,
            ) == Some((q - count_deleted_before(del, q)) as usize)
        &&& forall|q: int|
            0 <= q < pre.spec_len() && is_deleted(del, q) ==> (post.spec_order_at(
                #[trigger] pre.spec_items()[q] as int,
            )) is None
        &&& forall|id: int|
            0 <= id < pre.spec_store_len() && (pre.spec_order_at(id)) is None ==> (
            #[trigger] post.spec_order_at(id)) is None
        &&& forall|id: int|
            0 <= id < pre.spec_store_len() ==> #[trigger] post.spec_value_at(id)
                == pre.spec_value_at(id)
    }

    /// Remove the batch of positions `indices` and renumber the survivors in
    /// one pass. Every position in the batch must be in bounds.
    fn done_delete(&mut self, indices: &[usize])
        requires
            old(self).wf(),
            forall|k: int|
                0 <= k < indices@.len() ==> (#[trigger] indices@[k] as int) < old(self).spec_len(),
        ensures
            Self::delete_commits(*old(self), *final(self), indices@),
    {
        let ghost pre = *old(self);
        let ghost del = indices@;
        let ghost items0 = pre.spec_items();
        let n: usize = self.items.len();
        let mut new_items: Vec<usize> = Vec::new();
        let mut p: usize = 0;
        while p < n
            invariant
                pre.wf(),
                pre == *old(self),
                del == indices@,
                n == items0.len(),
                items0 == pre.spec_items(),
                p <= n,
                self.items@ == items0,
                self.tokens@ == pre.tokens@,
                self.store@.len() == pre.store@.len(),
                new_items@ == survivors(items0.take(p as int), del),
                new_items@.len() == p - count_deleted_before(del, p as int),
                forall|q: int|
                    0 <= q < p && !is_deleted(del, q) ==> #[trigger] self.store@[items0[
                    q
                ] as int].spec_order() == Some((q - count_deleted_before(del, q)) as usize),
                forall|q: int|
                    0 <= q < p && is_deleted(del, q) ==> (#[trigger] self.store@[items0[
                    q
                ] as int].spec_order()) is None,
                forall|q: int|
                    p <= q < n ==> #[trigger] self.store@[items0[q] as int] == pre.store@[items0[
                    q
                ] as int],
                forall|id: int|
                    0 <= id < self.store@.len() && !pre.live_id(id) ==> #[trigger] self.store@[id]
                        == pre.store@[id],
                forall|id: int|
                    0 <= id < self.store@.len() ==> #[trigger] self.store@[id].spec_value()
                        == pre.store@[id].spec_value(),
            decreases n - p,
        {
            let id: usize = self.items[p];
            proof {
                lemma_count_bounds(del, p as int);
                assert(items0.take((p + 1) as int).drop_last() =~= items0.take(p as int));
                assert(items0.take((p + 1) as int).last() == items0[p as int]);
                assert forall|q: int| 0 <= q < n && q != p implies items0[q] != items0[p as int] by {}
            }
            if contains_index(indices, p) {
                let e = &mut self.store[id];
                e.origin = EntryOrigin::Detached;
            } else {
                let new_idx: usize = new_items.len();
                let e = &mut self.store[id];
                e.origin = EntryOrigin::Index(new_idx);
                new_items.push(id);
            }
            p += 1;
        }
        proof {
            assert(items0.take(n as int) =~= items0);
        }
        self.items = new_items;
        proof {
            lemma_survivors_len(items0, del);
            lemma_count_bounds(del, items0.len() as int);
            let post_items = self.items@;
            assert(post_items == survivors(items0, del));
            assert forall|i: int|
                0 <= i < post_items.len() implies (#[trigger] post_items[i] as int)
                    < self.store@.len() by {
                lemma_survivors_membership(items0, del, i);
            }
            assert forall|i: int, j: int|
                0 <= i < j < post_items.len() implies post_items[i] != post_items[j] by {
                lemma_survivors_membership(items0, del, i);
                lemma_survivors_membership(items0, del, j);
                let qi = choose|q: int|
                    0 <= q < items0.len() && !is_deleted(del, q) && i == q - count_deleted_before(
                        del,
                        q,
                    ) && post_items[i] == items0[q];
                let qj = choose|q: int|
                    0 <= q < items0.len() && !is_deleted(del, q) && j == q - count_deleted_before(
                        del,
                        q,
                    ) && post_items[j] == items0[q];
                assert(qi != qj);
            }
            assert forall|i: int|
                0 <= i < post_items.len() implies #[trigger] self.store@[post_items[
                i
            ] as int].spec_order() == Some(i as usize) by {
                lemma_survivors_membership(items0, del, i);
                let q = choose|q: int|
                    0 <= q < items0.len() && !is_deleted(del, q) && i == q - count_deleted_before(
                        del,
                        q,
                    ) && post_items[i] == items0[q];
                assert(self.store@[items0[q] as int].spec_order() == Some(
                    (q - count_deleted_before(del, q)) as usize,
                ));
            }
            assert forall|id: int|
                0 <= id < self.store@.len() && !self.live_id(id) implies (#[trigger] self.store@[
                id
            ].spec_order()) is None by {
                if pre.live_id(id) {
                    let q = choose|q: int| 0 <= q < items0.len() && items0[q] == id;
                    if !is_deleted(del, q) {
                        lemma_survivors_mapping(items0, del, q);
                        assert(self.spec_items()[q - count_deleted_before(del, q)] == id);
                        assert(self.live_id(id));
                    }
                }
            }
            assert forall|q: int|
                0 <= q < pre.spec_len() && is_deleted(del, q) implies (self.spec_order_at(
                #[trigger] items0[q] as int,
            )) is None by {}
            assert forall|id: int|
                0 <= id < pre.spec_store_len() && (pre.spec_order_at(id)) is None implies (
            #[trigger] self.spec_order_at(id)) is None by {
                if pre.live_id(id) {
                    let q = choose|q: int| 0 <= q < items0.len() && items0[q] == id;
                    assert(pre.store@[items0[q] as int].spec_order() == Some(q as usize));
                }
            }
        }
    }

    /// Delete several positions at once.
    ///
    /// The batch may repeat positions and name them in any order; every named
    /// position must be in bounds.
    pub fn delete(&mut self, indices: &[usize])
        requires
            old(self).wf(),
            forall|k: int|
                0 <= k < indices@.len() ==> (#[trigger] indices@[k] as int) < old(self).spec_len(),
        ensures
            Self::delete_commits(*old(self), *final(self), indices@),
    {
        self.done_delete(indices)
    }

    /// Delete the one position `index`, which must be in bounds.
    pub fn delete_one(&mut self, index: usize)
        requires
            old(self).wf(),
            (index as int) < old(self).spec_len(),
        ensures
            Self::delete_commits(*old(self), *final(self), seq![index]),
    {
        let mut one: Vec<usize> = Vec::new();
        one.push(index);
        proof {
            assert(one@ =~= seq![index]);
        }
        self.done_delete(one.as_slice());
    }

    /// Start a batched deletion.
    ///
    /// Returns an empty transaction; queue positions on it and call
    /// [`DeleteTransaction::done`] to commit them against this list. Merely
    /// starting a transaction changes nothing.
    pub fn begin_delete(&mut self) -> (tx: DeleteTransaction)
        ensures
            *final(self) == *old(self),
            tx.spec_indices() == Seq::<usize>::empty(),
    {
        DeleteTransaction { deleted: Vec::new() }
    }
}

/// Law: a committed deletion batch acts as a set of positions. If two batches
/// name the same positions — whatever their order or multiplicity, so in
/// particular a batch that names one index twice against one that names it
/// once — then a commit of one is also, exactly, a commit of the other.
pub proof fn lemma_delete_commits_set_semantics<T>(
    pre: RefList<T>,
    post: RefList<T>,
    del1: Seq<usize>,
    del2: Seq<usize>,
)
    requires
        forall|p: int| is_deleted(del1, p) <==> is_deleted(del2, p),
        RefList::delete_commits(pre, post, del1),
    ensures
        RefList::delete_commits(pre, post, del2),
{
    crate::model::lemma_batch_set_semantics(pre.spec_items(), del1, del2);
}

/// Whether `p` occurs among `indices`.
fn contains_index(indices: &[usize], p: usize) -> (r: bool)
    ensures
        r == is_deleted(indices@, p as int),
{
    let mut k: usize = 0;
    while k < indices.len()
        invariant
            k <= indices@.len(),
            forall|m: int| 0 <= m < k ==> indices@[m] != p,
        decreases indices@.len() - k,
    {
        if indices[k] == p {
            return true;
        }
        k += 1;
    }
    false
}

/// Accumulates a batch of positions to delete and applies them in one atomic
/// commit.
///
/// Dropping a transaction without calling [`DeleteTransaction::done`] changes
/// nothing: the batch exists only inside the transaction until the commit
/// hands it to the list.
#[must_use]
pub struct DeleteTransaction {
    deleted: Vec<usize>,
}

impl DeleteTransaction {
    /// The batch accumulated so far, in the order it was queued.
    pub closed spec fn spec_indices(&self) -> Seq<usize> {
        self.deleted@
    }

    /// Queue one more position for removal; duplicates are tolerated and act
    /// as a single deletion.
    pub fn push(self, idx: usize) -> (tx: Self)
        ensures
            tx.spec_indices() == self.spec_indices().push(idx),
    {
        let mut tx = self;
        tx.deleted.push(idx);
        tx
    }

    /// Commit: delete the queued positions from `list` atomically and
    /// renumber every surviving entry.
    ///
    /// Every queued position must be in bounds for `list`.
    pub fn done<T>(self, list: &mut RefList<T>)
        requires
            old(list).wf(),
            forall|k: int|
                0 <= k < self.spec_indices().len() ==> (#[trigger] self.spec_indices()[k] as int)
                    < old(list).spec_len(),
        ensures
            RefList::delete_commits(*old(list), *final(list), self.spec_indices()),
    {
        list.done_delete(self.deleted.as_slice());
    }
}

impl<T> Default for RefList<T> {
    /// New empty list.
    fn default() -> (r: Self)
        ensures
            r.wf(),
            r.spec_len() == 0,
            r.spec_store_len() == 0,
    {
        RefList { store: Vec::new(), tokens: Vec::new(), items: Vec::new() }
    }
}

} // verus!
