use vstd::prelude::*;
use std::collections::HashMap;
use crate::DEFAULT_PAGE_CAP;
use crate::keys::{
    among_keys, lemma_among_keys_all, lemma_among_keys_fresh, lemma_among_keys_next,
    lemma_grown_contains,
};
use crate::page::{SlotPtr, Storage, StorageView, ThreadsRef};
use crate::{heap_wf, object_at, thread_at, ThreadLocal};

verus! {

broadcast use vstd::std_specs::hash::group_hash_axioms;

/// A container's link to a thread that wrote into it: the id of the thread
/// whose destructor list holds the other half of the link.
pub struct ThreadHandle(pub usize);

impl ThreadHandle {
    /// The container at `tr`, whose store is `pool`, lets go of the thread
    /// behind the handle: the thread forgets the container, and the slot
    /// that its destructor for the container points at is emptied. What was
    /// in the slot is handed back. A thread that is gone, or that holds no
    /// destructor for the container, changes nothing.
    pub fn release<T>(
        &self,
        tr: &ThreadsRef,
        threads: &mut Vec<Option<ThreadState>>,
        pool: &mut Storage<T>,
    ) -> (dropped: Option<T>)
        requires
            old(pool).wf(),
        ensures
            final(pool).wf(),
            final(pool).pages() == old(pool).pages(),
            final(threads)@.len() == old(threads)@.len(),
            forall|t: usize| t != self.0 ==> thread_at(final(threads)@, t) == thread_at(old(threads)@, t),
            match thread_at(old(threads)@, self.0) {
                Some(state) => {
                    &&& thread_at(final(threads)@, self.0) is Some
                    &&& thread_at(final(threads)@, self.0)->0.id() == state.id()
                    &&& thread_at(final(threads)@, self.0)->0.list() == state.list().remove(tr.ptr)
                    &&& match state.list().get(tr.ptr) {
                        Some(dtor) => {
                            &&& dropped == old(pool)@.slots.get(dtor.ptr)
                            &&& final(pool)@ == (StorageView {
                                slots: old(pool)@.slots.remove(dtor.ptr),
                                ..old(pool)@
                            })
                        },
                        None => dropped is None && final(pool)@ == old(pool)@,
                    }
                },
                None => {
                    &&& final(threads)@ == old(threads)@
                    &&& dropped is None
                    &&& final(pool)@ == old(pool)@
                },
            },
    {
        if self.0 < threads.len() {
            match &mut threads[self.0] {
                Some(state) => {
                    let dtor = state.list.remove(&tr.ptr);
                    if let Some(dtor) = dtor {
                        dtor.drop(pool)
                    } else {
                        None
                    }
                },
                None => None,
            }
        } else {
            None
        }
    }
}

/// What a thread keeps for each container it wrote into: where its value
/// lies there, so that the slot can be emptied without knowing what it
/// holds.
pub struct Dtor {
    pub ptr: SlotPtr,
}

impl Dtor {
    pub fn new(ptr: SlotPtr) -> (dtor: Dtor)
        ensures
            dtor == (Dtor { ptr }),
    {
        Dtor { ptr }
    }

    /// Empties the slot in `pool` that the destructor points at and hands
    /// back what was in it. A slot that is empty, or that `pool` does not
    /// have, gives `None` and changes nothing.
    pub fn drop<T>(&self, pool: &mut Storage<T>) -> (dropped: Option<T>)
        requires
            old(pool).wf(),
        ensures
            final(pool).wf(),
            dropped == old(pool)@.slots.get(self.ptr),
            final(pool)@ =~= (StorageView {
                slots: old(pool)@.slots.remove(self.ptr),
                ..old(pool)@
            }),
            final(pool).pages() == old(pool).pages(),
    {
        proof {
            pool.lemma_wf();
        }
        if pool.is_slot(self.ptr) {
            let take = |val: &mut Option<T>| -> (t: Option<T>)
                ensures
                    t == *old(val),
                    *final(val) is None,
                { val.take() };
            pool.slot_mut(self.ptr).with_mut(take)
        } else {
            None
        }
    }
}

/// One live thread: its id and, for every container it wrote into, the
/// destructor of its value there, keyed by the container's address.
pub struct ThreadState {
    id: usize,
    list: HashMap<usize, Dtor>,
}

impl ThreadState {
    pub closed spec fn id(&self) -> usize {
        self.id
    }

    /// The destructors the thread holds, by container address.
    pub closed spec fn list(&self) -> Map<usize, Dtor> {
        self.list@
    }

    /// A new thread: it takes an id from `ids` and has written nowhere yet.
    pub fn new(ids: &mut ThreadIdPool) -> (state: ThreadState)
        requires
            old(ids).wf(),
            old(ids).can_alloc(),
        ensures
            final(ids).wf(),
            !old(ids).is_allocated(state.id()),
            final(ids).allocated() == old(ids).allocated().insert(state.id()),
            !old(ids).none_free() ==> {
                &&& is_least(old(ids).free(), state.id())
                &&& final(ids).free() == old(ids).free().remove(state.id())
                &&& final(ids).max() == old(ids).max()
            },
            old(ids).none_free() ==> {
                &&& state.id() == old(ids).max()
                &&& final(ids).free() == old(ids).free()
                &&& final(ids).max() == old(ids).max() + 1
            },
            state.list() == Map::<usize, Dtor>::empty(),
    {
        ThreadState { id: ids.allocate(), list: HashMap::new() }
    }
}

/// What the container `obj` looks like after a thread with id `id` and
/// destructor list `list` has gone: where the list names the container, the
/// slot that the destructor points at is empty and the thread is struck from
/// the writers; else nothing has changed.
pub open spec fn after_exit<T>(obj: StorageView<T>, id: usize, list: Map<usize, Dtor>) -> StorageView<
    T,
> {
    if list.contains_key(obj.at) {
        StorageView {
            slots: obj.slots.remove(list[obj.at].ptr),
            threads: obj.threads.remove(id),
            ..obj
        }
    } else {
        obj
    }
}

/// `v` is what a thread with destructor list `list` leaves behind in the
/// container at `c` of `heap` when it goes.
pub open spec fn exit_drops<T: Send + 'static>(
    heap: Seq<Option<ThreadLocal<T>>>,
    list: Map<usize, Dtor>,
    c: usize,
    v: T,
) -> bool {
    &&& list.contains_key(c)
    &&& object_at(heap, c) is Some
    &&& object_at(heap, c)->0@.slots.get(list[c].ptr) == Some(v)
}

impl ThreadState {
    /// The thread ends. Every container it wrote into has the thread's slot
    /// emptied and the thread struck from its writers, and the thread's id
    /// goes back to `ids`. The values that were in the slots are handed
    /// back, each with the address of the container it came from, in no
    /// particular order.
    pub fn drop<T: Send + 'static>(
        self,
        ids: &mut ThreadIdPool,
        heap: &mut Vec<Option<ThreadLocal<T>>>,
    ) -> (dropped: Vec<(ThreadsRef, T)>)
        requires
            old(ids).wf(),
            heap_wf(old(heap)@),
        ensures
            final(ids).wf(),
            final(ids).max() == old(ids).max(),
            final(ids).free() == if self.id() < old(ids).max() {
                old(ids).free().insert(self.id())
            } else {
                old(ids).free()
            },
            final(ids).allocated() == old(ids).allocated().remove(self.id()),
            heap_wf(final(heap)@),
            final(heap)@.len() == old(heap)@.len(),
            forall|c: usize|
                match #[trigger] object_at(old(heap)@, c) {
                    Some(obj) => {
                        &&& object_at(final(heap)@, c) is Some
                        &&& object_at(final(heap)@, c)->0@ == after_exit(
                            obj@,
                            self.id(),
                            self.list(),
                        )
                    },
                    None => object_at(final(heap)@, c) is None,
                },
            forall|i: int, j: int|
                0 <= i < j < dropped@.len() ==> dropped@[i].0 != dropped@[j].0,
            forall|tr: ThreadsRef, v: T|
                dropped@.contains((tr, v)) <==> exit_drops(old(heap)@, self.list(), tr.ptr, v),
    {
        let mut out: Vec<(ThreadsRef, T)> = Vec::new();
        let ghost mut done: Set<usize> = Set::empty();
        for c in it: self.list.keys()
            invariant
                it.seq().unref().to_set() == self.list@.dom(),
                it.seq().no_duplicates(),
                forall|k: usize| done.contains(k) <==> among_keys(it.seq(), it.index(), k),
                it.index() == it.seq().len() ==> done == self.list@.dom(),
                heap_wf(heap@),
                heap@.len() == old(heap)@.len(),
                heap_wf(old(heap)@),
                forall|c: usize|
                    match #[trigger] object_at(old(heap)@, c) {
                        Some(obj) => {
                            &&& object_at(heap@, c) is Some
                            &&& object_at(heap@, c)->0@ == if done.contains(c) {
                                after_exit(obj@, self.id, self.list@)
                            } else {
                                obj@
                            }
                        },
                        None => object_at(heap@, c) is None,
                    },
                forall|i: int, j: int| 0 <= i < j < out@.len() ==> out@[i].0 != out@[j].0,
                forall|tr: ThreadsRef, v: T|
                    out@.contains((tr, v)) <==> done.contains(tr.ptr) && exit_drops(
                        old(heap)@,
                        self.list@,
                        tr.ptr,
                        v,
                    ),
        {
            let tr = ThreadsRef { ptr: *c };
            let ghost before = heap@;
            let ghost out_before = out@;
            let ghost n = it.index();
            proof {
                lemma_among_keys_all(it.seq(), self.list@.dom());
                lemma_among_keys_fresh(it.seq(), n);
            }
            let dtor = self.list.get(c);
            if let Some(dtor) = dtor {
                if tr.ptr < heap.len() {
                    match &mut heap[tr.ptr] {
                        Some(obj) => {
                            if let Some(v) = dtor.drop(obj.storage_mut()) {
                                out.push((tr, v));
                            }
                        },
                        None => {},
                    }
                }
            }
            let ghost middle = heap@;
            assert(heap_wf(middle)) by {
                assert forall|k: usize| (#[trigger] object_at(middle, k)) is Some implies object_at(
                    middle,
                    k,
                )->0.wf() && object_at(middle, k)->0@.at == k by {
                    if k != tr.ptr {
                        assert(object_at(middle, k) == object_at(before, k));
                    }
                }
            }
            tr.remove(self.id, heap);
            proof {
                done = done.insert(*c);
                assert(out@ == out_before || (out@.len() == out_before.len() + 1
                    && out@.drop_last() =~= out_before));
                lemma_among_keys_next(it.seq(), n);
                assert forall|tr2: ThreadsRef, v: T|
                    out@.contains((tr2, v)) <==> done.contains(tr2.ptr) && exit_drops(
                        old(heap)@,
                        self.list@,
                        tr2.ptr,
                        v,
                    ) by {
                    lemma_grown_contains(out_before, out@, (tr2, v));
                    assert(object_at(before, tr.ptr) is Some <==> object_at(old(heap)@, tr.ptr) is Some);
                }
                assert forall|i: int, j: int| 0 <= i < j < out@.len() implies out@[i].0
                    != out@[j].0 by {
                    if j == out_before.len() {
                        assert(out_before.contains((out_before[i].0, out_before[i].1)));
                    }
                }
            }
        }
        ids.dealloc(self.id);
        out
    }
}

/// The id of the thread that `state` belongs to.
pub fn get(state: &ThreadState) -> (id: usize)
    ensures
        id == state.id(),
{
    state.id
}

/// Records that the thread wrote into the container at `tr`, into the slot
/// at `ptr`, and hands back the handle by which the container finds the
/// thread again.
pub fn push(state: &mut ThreadState, tr: ThreadsRef, ptr: SlotPtr) -> (handle: ThreadHandle)
    ensures
        final(state).id() == old(state).id(),
        final(state).list() == old(state).list().insert(tr.ptr, Dtor { ptr }),
        handle == ThreadHandle(old(state).id()),
{
    let dtor = Dtor::new(ptr);
    state.list.insert(tr.ptr, dtor);
    ThreadHandle(state.id)
}

/// `s` goes strictly down from front to back.
pub open spec fn strictly_decreasing(s: Seq<usize>) -> bool {
    forall|i: int, j: int| 0 <= i < j < s.len() ==> s[i] > s[j]
}

/// `x` is the smallest member of `s`.
pub open spec fn is_least(s: Set<usize>, x: usize) -> bool {
    s.contains(x) && forall|y: usize| s.contains(y) ==> x <= y
}

/// Puts `id` into a strictly decreasing vector, keeping the order. An `id`
/// that is already there stays once.
fn insert_decreasing(v: &mut Vec<usize>, id: usize)
    requires
        strictly_decreasing(old(v)@),
    ensures
        strictly_decreasing(final(v)@),
        final(v)@.to_set() == old(v)@.to_set().insert(id),
{
    let mut idx: usize = 0;
    while idx < v.len() && v[idx] > id
        invariant
            idx <= v@.len(),
            v@ == old(v)@,
            forall|k: int| 0 <= k < idx ==> v@[k] > id,
        decreases v@.len() - idx,
    {
        idx += 1;
    }
    if idx < v.len() && v[idx] == id {
        return ;
    }
    let ghost before = v@;
    v.insert(idx, id);
    assert(forall|x: usize| v@.contains(x) ==> before.contains(x) || x == id);
    assert forall|x: usize| before.contains(x) || x == id implies v@.contains(x) by {
        if x == id {
            assert(v@[idx as int] == x);
        } else {
            let k = choose|k: int| 0 <= k < before.len() && before[k] == x;
            if k < idx {
                assert(v@[k] == x);
            } else {
                assert(v@[k + 1] == x);
            }
        }
    }
    assert forall|x: usize| #[trigger]
        v@.to_set().contains(x) <==> before.to_set().insert(id).contains(x) by {
        assert(v@.contains(x) <==> before.contains(x) || x == id);
    }
}

/// Allocator of dense thread ids.
///
/// Ids are handed out from 0 upwards. An id that was given back is handed
/// out again before a new one is made, smallest first, so that the live ids
/// stay as small as the number of live threads allows. Free ids are kept in
/// two lists: those up to [`DEFAULT_PAGE_CAP`], which land in a container's
/// primary page, and those above it.
pub struct ThreadIdPool {
    max: usize,
    small: Vec<usize>,
    large: Vec<usize>,
}

impl ThreadIdPool {
    /// The next id that was never handed out.
    pub closed spec fn max(&self) -> nat {
        self.max as nat
    }

    /// The ids that were given back and wait to be handed out again.
    pub closed spec fn free(&self) -> Set<usize> {
        Set::new(|id: usize| self.small@.contains(id) || self.large@.contains(id))
    }

    pub closed spec fn wf(&self) -> bool {
        &&& strictly_decreasing(self.small@)
        &&& strictly_decreasing(self.large@)
        &&& forall|i: int|
            0 <= i < self.small@.len() ==> self.small@[i] <= DEFAULT_PAGE_CAP && self.small@[i]
                < self.max
        &&& forall|i: int|
            0 <= i < self.large@.len() ==> self.large@[i] > DEFAULT_PAGE_CAP && self.large@[i]
                < self.max
    }

    /// `id` is held by some thread: handed out and not given back.
    pub open spec fn is_allocated(&self, id: usize) -> bool {
        id < self.max() && !self.free().contains(id)
    }

    /// The ids that are held right now.
    pub open spec fn allocated(&self) -> Set<usize> {
        Set::new(|id: usize| self.is_allocated(id))
    }

    /// No id is waiting to be handed out again.
    pub open spec fn none_free(&self) -> bool {
        forall|id: usize| !self.free().contains(id)
    }

    /// There is an id left to hand out: a free one, or a new one that still
    /// fits the machine word.
    pub open spec fn can_alloc(&self) -> bool {
        !self.none_free() || self.max() < usize::MAX
    }

    /// Every free id was handed out before.
    pub proof fn lemma_free_below_max(&self)
        requires
            self.wf(),
        ensures
            forall|id: usize| self.free().contains(id) ==> id < self.max(),
    {
    }

    /// Every id below `max` is either held or free, never both: the ids
    /// that are held and the ids that wait add up to `max`. So `max` grows
    /// only while no id waits, and never beyond the largest number of ids
    /// that were held at one time.
    pub proof fn lemma_count(&self)
        requires
            self.wf(),
        ensures
            self.free().finite(),
            self.allocated().finite(),
            self.allocated().disjoint(self.free()),
            self.allocated().len() + self.free().len() == self.max(),
    {
        let all = Set::<usize>::range(0, self.max);
        vstd::set_lib::range_set_properties::<usize>(0, self.max);
        self.lemma_free_below_max();
        vstd::set_lib::lemma_set_subset_finite(all, self.free());
        assert(self.allocated() =~= all.difference(self.free()));
        vstd::set_lib::lemma_set_difference_len(all, self.free());
        assert(all.intersect(self.free()) =~= self.free());
    }

    pub fn new() -> (pool: ThreadIdPool)
        ensures
            pool.wf(),
            pool.max() == 0,
            pool.none_free(),
    {
        ThreadIdPool { max: 0, small: Vec::new(), large: Vec::new() }
    }

    /// Whether [`ThreadIdPool::allocate`] has run out of ids.
    pub fn is_full(&self) -> (full: bool)
        ensures
            full == !self.can_alloc(),
    {
        let full = self.small.len() == 0 && self.large.len() == 0 && self.max == usize::MAX;
        proof {
            if self.small@.len() > 0 {
                assert(self.free().contains(self.small@[0]));
            }
            if self.large@.len() > 0 {
                assert(self.free().contains(self.large@[0]));
            }
        }
        full
    }

    /// Hands out an id: the smallest free one, or else the next new one.
    pub fn allocate(&mut self) -> (id: usize)
        requires
            old(self).wf(),
            old(self).can_alloc(),
        ensures
            final(self).wf(),
            !old(self).is_allocated(id),
            final(self).allocated() == old(self).allocated().insert(id),
            !old(self).none_free() ==> {
                &&& is_least(old(self).free(), id)
                &&& final(self).free() == old(self).free().remove(id)
                &&& final(self).max() == old(self).max()
            },
            old(self).none_free() ==> {
                &&& id == old(self).max()
                &&& final(self).free() == old(self).free()
                &&& final(self).max() == old(self).max() + 1
            },
    {
        let ghost small = self.small@;
        let ghost large = self.large@;
        if let Some(id) = self.small.pop() {
            proof {
                assert forall|y: usize| self.small@.contains(y) <==> small.contains(y) && y
                    != id by {
                    if small.contains(y) && y != id {
                        let k = choose|k: int| 0 <= k < small.len() && small[k] == y;
                        assert(self.small@[k] == y);
                    }
                }
                assert(!large.contains(id));
            }
            id
        } else if let Some(id) = self.large.pop() {
            proof {
                let last = large.len() - 1;
                assert(small =~= Seq::empty());
                assert forall|y: usize| old(self).free().contains(y) implies id <= y by {
                    let k = choose|k: int| 0 <= k < large.len() && large[k] == y;
                    assert(k <= last);
                }
                assert forall|y: usize| self.large@.contains(y) <==> large.contains(y) && y
                    != id by {
                    if large.contains(y) && y != id {
                        let k = choose|k: int| 0 <= k < large.len() && large[k] == y;
                        assert(self.large@[k] == y);
                    }
                }
            }
            if self.large.len() == 0 && self.small.len() < DEFAULT_PAGE_CAP / 2 {
                self.large = Vec::new();
            }
            id
        } else {
            let id = self.max;
            self.max = id + 1;
            id
        }
    }

    /// Takes an id back. An id that is not held (never handed out, or given
    /// back already) changes nothing.
    pub fn dealloc(&mut self, id: usize)
        requires
            old(self).wf(),
        ensures
            final(self).wf(),
            final(self).max() == old(self).max(),
            final(self).free() == if id < old(self).max() {
                old(self).free().insert(id)
            } else {
                old(self).free()
            },
            final(self).allocated() == old(self).allocated().remove(id),
    {
        if id < self.max {
            if id <= DEFAULT_PAGE_CAP {
                insert_decreasing(&mut self.small, id);
                assert forall|i: int| 0 <= i < self.small@.len() implies self.small@[i]
                    <= DEFAULT_PAGE_CAP && self.small@[i] < self.max by {
                    assert(self.small@.to_set().contains(self.small@[i]));
                }
            } else {
                insert_decreasing(&mut self.large, id);
                assert forall|i: int| 0 <= i < self.large@.len() implies self.large@[i]
                    > DEFAULT_PAGE_CAP && self.large@[i] < self.max by {
                    assert(self.large@.to_set().contains(self.large@[i]));
                }
            }
            assert forall|x: usize| self.free().contains(x) <==> old(self).free().insert(
                id,
            ).contains(x) by {
                assert(self.small@.to_set().contains(x) <==> self.small@.contains(x));
                assert(self.large@.to_set().contains(x) <==> self.large@.contains(x));
            }
        }
    }
}

} // verus!
