use vstd::prelude::*;
use std::collections::BTreeMap;
use vstd::std_specs::btree::increasing_seq;
use crate::cell::UnsafeCell;
use crate::keys::{
    among_keys, lemma_among_keys_all, lemma_among_keys_fresh, lemma_among_keys_next,
    lemma_grown_contains,
};
use crate::order::lemma_increasing_keys;
use crate::thread::{ThreadHandle, ThreadState};
use crate::util::BoxTail;
use crate::{heap_wf, object_at, thread_at, ThreadLocal};

verus! {

broadcast use vstd::std_specs::btree::group_btree_axioms;

/// Where the slot of thread id `n` lies in a store whose pages hold `cap`
/// slots each: the page, then the place in the page. Page 0 is the primary
/// page, page `k > 0` is overflow page `k - 1`.
pub open spec fn spec_map_index(cap: nat, n: nat) -> (nat, nat)
    recommends
        cap > 0,
{
    (n / cap, n % cap)
}

/// Two ids never share a slot, and every id below `cap` lies in the primary
/// page.
pub proof fn lemma_map_index_injective(cap: nat, a: nat, b: nat)
    requires
        cap > 0,
    ensures
        spec_map_index(cap, a) == spec_map_index(cap, b) ==> a == b,
        spec_map_index(cap, a).1 < cap,
        spec_map_index(cap, a).0 == 0 <==> a < cap,
        spec_map_index(cap, a).0 <= a,
{
    assert(a == cap * (a / cap) + a % cap && a % cap < cap) by (nonlinear_arith)
        requires
            cap > 0,
    ;
    assert(b == cap * (b / cap) + b % cap) by (nonlinear_arith)
        requires
            cap > 0,
    ;
    assert(a / cap == 0 <==> a < cap) by (nonlinear_arith)
        requires
            cap > 0,
    ;
    assert(a / cap <= a) by (nonlinear_arith)
        requires
            cap > 0,
    ;
}

/// The page and the place in the page of the slot of thread id `n`, in a
/// store whose pages hold `cap` slots each.
pub fn map_index(cap: usize, n: usize) -> (r: (usize, usize))
    requires
        cap > 0,
    ensures
        (r.0 as nat, r.1 as nat) == spec_map_index(cap as nat, n as nat),
        r.1 < cap,
        r.0 == 0 <==> n < cap,
{
    proof {
        lemma_map_index_injective(cap as nat, n as nat, n as nat);
    }
    if n < cap {
        assert(n as nat % cap as nat == n) by (nonlinear_arith)
            requires
                n < cap,
        ;
        (0, n)
    } else {
        let i: usize = n / cap;
        let rem: usize = n % cap;
        (i, rem)
    }
}

/// The place of one slot in a store. It stands where a pointer to the slot
/// would, and stays good for as long as the store lives.
#[derive(Clone, Copy, Debug, PartialEq, Eq, Structural)]
pub struct SlotPtr {
    pub page: usize,
    pub index: usize,
}

/// The address of a container's thread registry. It names the container for
/// as long as the container lives.
#[derive(Clone, Copy, Debug, PartialEq, Eq, Hash, Structural)]
pub struct ThreadsRef {
    pub ptr: usize,
}

impl ThreadsRef {
    /// Strikes thread `id` from the writers of the container at this
    /// address. Where no container lives there, nothing happens.
    pub fn remove<T: Send + 'static>(&self, id: usize, heap: &mut Vec<Option<ThreadLocal<T>>>)
        requires
            heap_wf(old(heap)@),
        ensures
            heap_wf(final(heap)@),
            final(heap)@.len() == old(heap)@.len(),
            forall|c: usize| c != self.ptr ==> object_at(final(heap)@, c) == object_at(old(heap)@, c),
            match object_at(old(heap)@, self.ptr) {
                Some(obj) => {
                    &&& object_at(final(heap)@, self.ptr) is Some
                    &&& object_at(final(heap)@, self.ptr)->0@ == (StorageView {
                        threads: obj@.threads.remove(id),
                        ..obj@
                    })
                },
                None => final(heap)@ == old(heap)@,
            },
    {
        if self.ptr < heap.len() {
            match &mut heap[self.ptr] {
                Some(obj) => {
                    obj.storage_mut().remove_thread_handle(id);
                },
                None => {},
            }
        }
        proof {
            assert forall|c: usize| (#[trigger] object_at(heap@, c)) is Some implies object_at(
                heap@,
                c,
            )->0.wf() && object_at(heap@, c)->0@.at == c by {
                if c != self.ptr {
                    assert(object_at(heap@, c) == object_at(old(heap)@, c));
                }
            }
        }
    }
}

/// Every live thread that is registered as a writer of `pool` and holds a
/// destructor for it has that destructor pointing at its own slot.
pub open spec fn targets_own_slots<T>(pool: StorageView<T>, threads: Seq<Option<ThreadState>>) -> bool {
    forall|t: usize|
        pool.threads.contains(t) && (#[trigger] thread_at(threads, t)) is Some && thread_at(
            threads,
            t,
        )->0.list().contains_key(pool.at) ==> thread_at(threads, t)->0.list()[pool.at].ptr
            == pool.locate(t)
}

/// `v` is what thread `t` leaves behind in `pool` when the container goes:
/// the thread is a registered writer, still lives, holds a destructor for
/// the container, and `v` is in its slot.
pub open spec fn drop_releases<T>(
    pool: StorageView<T>,
    threads: Seq<Option<ThreadState>>,
    t: usize,
    v: T,
) -> bool {
    &&& pool.threads.contains(t)
    &&& thread_at(threads, t) is Some
    &&& thread_at(threads, t)->0.list().contains_key(pool.at)
    &&& pool.value(t) == Some(v)
}

/// One overflow page: a fixed run of slots.
pub struct Page<T> {
    ptr: Vec<UnsafeCell<Option<T>>>,
}

impl<T> Page<T> {
    pub closed spec fn slots(&self) -> Seq<UnsafeCell<Option<T>>> {
        self.ptr@
    }

    /// A page of `arr_len` empty slots.
    pub fn new(arr_len: usize) -> (page: Page<T>)
        ensures
            page.slots().len() == arr_len,
            forall|i: int| 0 <= i < arr_len ==> (#[trigger] page.slots()[i])@ is None,
    {
        let mut arr: Vec<UnsafeCell<Option<T>>> = Vec::new();
        let mut idx: usize = 0;
        while idx < arr_len
            invariant
                idx <= arr_len,
                arr@.len() == idx,
                forall|i: int| 0 <= i < idx ==> (#[trigger] arr@[i])@ is None,
            decreases arr_len - idx,
        {
            arr.push(UnsafeCell::new(None));
            idx += 1;
        }
        Page { ptr: arr }
    }
}

struct Inner<T> {
    at: ThreadsRef,
    threads: BTreeMap<usize, ThreadHandle>,
    fallback: Vec<Page<T>>,
}

/// The slot store of one container, together with the registry of the
/// threads that wrote into it.
///
/// The primary page lies in the same block as the registry; overflow pages
/// are added behind it as ids beyond the primary page turn up.
pub struct Storage<T> {
    inner: BoxTail<Inner<T>, UnsafeCell<Option<T>>>,
}

/// What a store holds, as plain mathematics.
#[verifier::ext_equal]
pub struct StorageView<T> {
    /// The address that names the container.
    pub at: usize,
    /// Slots per page.
    pub cap: nat,
    /// The occupied slots and what they hold.
    pub slots: Map<SlotPtr, T>,
    /// The ids of the threads registered as writers.
    pub threads: Set<usize>,
}

impl<T> StorageView<T> {
    /// The slot of thread `id`.
    pub open spec fn locate(self, id: usize) -> SlotPtr {
        let (page, index) = spec_map_index(self.cap, id as nat);
        SlotPtr { page: page as usize, index: index as usize }
    }

    /// Two threads never share a slot.
    pub proof fn lemma_locate_injective(self, a: usize, b: usize)
        requires
            self.cap > 0,
        ensures
            self.locate(a) == self.locate(b) ==> a == b,
    {
        let cap = self.cap;
        let x = a as nat;
        let y = b as nat;
        lemma_map_index_injective(cap, x, y);
        lemma_map_index_injective(cap, y, x);
        assert(x % cap <= x && y % cap <= y) by (nonlinear_arith)
            requires
                cap > 0,
        ;
    }

    /// What thread `id` has stored, if anything.
    pub open spec fn value(self, id: usize) -> Option<T> {
        self.slots.get(self.locate(id))
    }

    /// The store after thread `id` wrote `v` into its slot and was
    /// registered as a writer.
    pub open spec fn written(self, id: usize, v: T) -> StorageView<T> {
        StorageView {
            slots: self.slots.insert(self.locate(id), v),
            threads: self.threads.insert(id),
            ..self
        }
    }

    /// The store after the slot of thread `id` was emptied and the thread
    /// was struck from the writers.
    pub open spec fn cleared(self, id: usize) -> StorageView<T> {
        StorageView {
            slots: self.slots.remove(self.locate(id)),
            threads: self.threads.remove(id),
            ..self
        }
    }
}

impl<T> View for Storage<T> {
    type V = StorageView<T>;

    closed spec fn view(&self) -> StorageView<T> {
        StorageView {
            at: self.inner.value().at.ptr,
            cap: self.inner.tail().len(),
            slots: Map::new(|p: SlotPtr| self.cell(p) is Some, |p: SlotPtr| self.cell(p)->0),
            threads: self.inner.value().threads@.dom(),
        }
    }
}

impl<T> Storage<T> {
    /// What the cell at `p` holds; `None` also where there is no such cell.
    pub closed spec fn cell(&self, p: SlotPtr) -> Option<T> {
        if p.index < self.inner.tail().len() {
            if p.page == 0 {
                self.inner.tail()[p.index as int]@
            } else if p.page - 1 < self.inner.value().fallback@.len() {
                self.inner.value().fallback@[p.page - 1].slots()[p.index as int]@
            } else {
                None
            }
        } else {
            None
        }
    }

    /// The number of overflow pages.
    pub closed spec fn pages(&self) -> nat {
        self.inner.value().fallback@.len()
    }

    /// The number of overflow pages once thread `id` has a slot: as many as
    /// there are, or as many as it takes to reach the page of `id`.
    pub open spec fn pages_for(&self, id: usize) -> nat {
        if self@.locate(id).page > self.pages() {
            self@.locate(id).page as nat
        } else {
            self.pages()
        }
    }

    /// The store has a cell at `p`: in the primary page, or in an overflow
    /// page that was made.
    pub open spec fn has_slot(&self, p: SlotPtr) -> bool {
        p.index < self@.cap && p.page <= self.pages()
    }

    pub closed spec fn wf(&self) -> bool {
        &&& self.inner.tail().len() > 0
        &&& forall|i: int|
            0 <= i < self.inner.value().fallback@.len() ==> (
            #[trigger] self.inner.value().fallback@[i]).slots().len() == self.inner.tail().len()
        &&& forall|id: usize| #[trigger]
            self.inner.value().threads@.contains_key(id) ==> self.inner.value().threads@[id]
                == ThreadHandle(id)
    }

    /// A well-formed store has room in every page, and nothing lies outside
    /// its cells.
    pub proof fn lemma_wf(&self)
        requires
            self.wf(),
        ensures
            self@.cap > 0,
            forall|p: SlotPtr| self@.slots.contains_key(p) ==> self.has_slot(p),
    {
    }

    /// A store with `num` slots per page, all empty, for the container at
    /// address `at`.
    pub fn with_threads(num: usize, at: ThreadsRef) -> (pool: Storage<T>)
        requires
            num > 0,
        ensures
            pool.wf(),
            pool.pages() == 0,
            pool@ == (StorageView {
                at: at.ptr,
                cap: num as nat,
                slots: Map::<SlotPtr, T>::empty(),
                threads: Set::<usize>::empty(),
            }),
    {
        let init = || -> (cell: UnsafeCell<Option<T>>)
            ensures
                cell@ is None,
            { UnsafeCell::new(None) };
        let inner = BoxTail::new(
            Inner { at, threads: BTreeMap::new(), fallback: Vec::new() },
            num,
            init,
        );
        let pool = Storage { inner };
        pool
    }

    pub fn as_threads_ref(&self) -> (tr: ThreadsRef)
        ensures
            tr.ptr == self@.at,
    {
        self.inner.deref().at
    }

    /// Registers thread `id` as a writer. The handle has to lead to that
    /// thread.
    pub fn insert_thread_handle(&mut self, id: usize, handle: ThreadHandle)
        requires
            old(self).wf(),
            handle == ThreadHandle(id),
        ensures
            final(self).wf(),
            final(self)@ == (StorageView { threads: old(self)@.threads.insert(id), ..old(self)@ }),
            final(self).pages() == old(self).pages(),
    {
        let inner = self.inner.deref_mut();
        inner.threads.insert(id, handle);
    }

    /// Strikes thread `id` from the writers and hands back its handle, if
    /// it was registered.
    pub fn remove_thread_handle(&mut self, id: usize) -> (handle: Option<ThreadHandle>)
        requires
            old(self).wf(),
        ensures
            final(self).wf(),
            final(self)@ == (StorageView { threads: old(self)@.threads.remove(id), ..old(self)@ }),
            final(self).pages() == old(self).pages(),
            handle == if old(self)@.threads.contains(id) {
                Some(ThreadHandle(id))
            } else {
                None
            },
    {
        let inner = self.inner.deref_mut();
        let handle = inner.threads.remove(&id);
        handle
    }

    /// Takes the registry of writers out and leaves an empty one. What comes
    /// out maps every registered thread id to the handle of that thread.
    pub fn take_threads(&mut self) -> (threads: BTreeMap<usize, ThreadHandle>)
        requires
            old(self).wf(),
        ensures
            final(self).wf(),
            final(self)@ == (StorageView { threads: Set::<usize>::empty(), ..old(self)@ }),
            final(self).pages() == old(self).pages(),
            threads@.dom() == old(self)@.threads,
            forall|id: usize| threads@.contains_key(id) ==> threads@[id] == ThreadHandle(id),
    {
        let mut threads: BTreeMap<usize, ThreadHandle> = BTreeMap::new();
        let inner = self.inner.deref_mut();
        std::mem::swap(&mut inner.threads, &mut threads);
        threads
    }

    /// The container goes. Every thread that is registered as a writer and
    /// still lives forgets the container, and its slot here is emptied. The
    /// values that were in the slots are handed back, each with the id of
    /// the thread it belonged to, lowest id first.
    ///
    /// Every live writer's destructor for this container has to point at
    /// that writer's own slot.
    pub fn drop(self, threads: &mut Vec<Option<ThreadState>>) -> (dropped: Vec<(usize, T)>)
        requires
            self.wf(),
            targets_own_slots(self@, old(threads)@),
        ensures
            final(threads)@.len() == old(threads)@.len(),
            forall|t: usize|
                match #[trigger] thread_at(old(threads)@, t) {
                    Some(state) => {
                        &&& thread_at(final(threads)@, t) is Some
                        &&& thread_at(final(threads)@, t)->0.id() == state.id()
                        &&& thread_at(final(threads)@, t)->0.list() == if self@.threads.contains(t) {
                            state.list().remove(self@.at)
                        } else {
                            state.list()
                        }
                    },
                    None => thread_at(final(threads)@, t) is None,
                },
            forall|i: int, j: int| 0 <= i < j < dropped@.len() ==> dropped@[i].0 < dropped@[j].0,
            forall|t: usize, v: T|
                #![trigger dropped@.contains((t, v))]
                #![trigger drop_releases(self@, old(threads)@, t, v)]
                dropped@.contains((t, v)) <==> drop_releases(self@, old(threads)@, t, v),
    {
        let ghost view = self@;
        let mut pool = self;
        let tr = pool.as_threads_ref();
        let registry = pool.take_threads();
        let mut out: Vec<(usize, T)> = Vec::new();
        let ghost mut done: Set<usize> = Set::empty();
        for id in it: registry.keys()
            invariant
                it.seq().unref().to_set() == registry@.dom(),
                it.seq().no_duplicates(),
                increasing_seq(it.seq()),
                forall|k: usize| done.contains(k) <==> among_keys(it.seq(), it.index(), k),
                it.index() == it.seq().len() ==> done == registry@.dom(),
                registry@.dom() == view.threads,
                forall|id: usize| registry@.contains_key(id) ==> registry@[id] == ThreadHandle(id),
                targets_own_slots(view, old(threads)@),
                tr.ptr == view.at,
                view.cap > 0,
                pool.wf(),
                pool@.at == view.at,
                pool@.cap == view.cap,
                forall|t: usize| !done.contains(t) ==> pool@.value(t) == view.value(t),
                threads@.len() == old(threads)@.len(),
                forall|t: usize|
                    match #[trigger] thread_at(old(threads)@, t) {
                        Some(state) => {
                            &&& thread_at(threads@, t) is Some
                            &&& thread_at(threads@, t)->0.id() == state.id()
                            &&& thread_at(threads@, t)->0.list() == if done.contains(t) {
                                state.list().remove(view.at)
                            } else {
                                state.list()
                            }
                        },
                        None => thread_at(threads@, t) is None,
                    },
                forall|i: int| 0 <= i < out@.len() ==> done.contains(#[trigger] out@[i].0),
                forall|i: int, j: int| 0 <= i < j < out@.len() ==> out@[i].0 < out@[j].0,
                forall|t: usize, v: T|
                    #![trigger out@.contains((t, v))]
                    #![trigger drop_releases(view, old(threads)@, t, v)]
                    out@.contains((t, v)) <==> done.contains(t) && drop_releases(
                        view,
                        old(threads)@,
                        t,
                        v,
                    ),
        {
            let ghost n = it.index();
            let ghost out_before = out@;
            proof {
                lemma_among_keys_all(it.seq(), registry@.dom());
                lemma_among_keys_fresh(it.seq(), n);
                lemma_increasing_keys(it.seq());
                assert(!done.contains(*id));
                assert(forall|k: usize| done.contains(k) ==> k < *id);
                assert(thread_at(old(threads)@, *id) matches Some(state) ==> thread_at(
                    threads@,
                    *id,
                )->0.list() == state.list());
            }
            let handle = registry.get(id);
            if let Some(handle) = handle {
                if let Some(v) = handle.release(&tr, threads, &mut pool) {
                    out.push((*id, v));
                }
            }
            proof {
                done = done.insert(*id);
                assert(out@ == out_before || (out@.len() == out_before.len() + 1
                    && out@.drop_last() =~= out_before));
                lemma_among_keys_next(it.seq(), n);
                assert forall|t: usize| !done.contains(t) implies pool@.value(t) == view.value(
                    t,
                ) by {
                    view.lemma_locate_injective(t, *id);
                }
                assert forall|t: usize, v: T|
                    #![trigger out@.contains((t, v))]
                    #![trigger drop_releases(view, old(threads)@, t, v)]
                    out@.contains((t, v)) <==> done.contains(t) && drop_releases(
                        view,
                        old(threads)@,
                        t,
                        v,
                    ) by {
                    lemma_grown_contains(out_before, out@, (t, v));
                }
            }
        }
        out
    }

    /// What thread `id` has stored here, if anything. An id of the primary
    /// page is answered from that page alone.
    pub fn get(&self, id: usize) -> (r: Option<&T>)
        requires
            self.wf(),
        ensures
            r == match self@.value(id) {
                Some(v) => Some(&v),
                None => None,
            },
    {
        let inner = &self.inner;
        let (page_id, index) = map_index(inner.array_len(), id);
        if page_id == 0 {
            inner.array()[index].with(|obj: &Option<T>| -> (r: Option<&T>)
                ensures
                    r == match *obj {
                        Some(v) => Some(&v),
                        None => None,
                    },
                { obj.as_ref() })
        } else {
            Storage::or_get(inner.deref(), page_id, index)
        }
    }

    /// The slot of thread `id`, made if it was not there: overflow pages are
    /// added, empty, up to the one that holds it. No slot changes what it
    /// holds.
    pub fn get_or_new(&mut self, id: usize) -> (ptr: SlotPtr)
        requires
            old(self).wf(),
        ensures
            final(self).wf(),
            final(self)@ == old(self)@,
            ptr == old(self)@.locate(id),
            final(self).has_slot(ptr),
            final(self).pages() == old(self).pages_for(id),
    {
        let arr_len = self.inner.array_len();
        let (page_id, index) = map_index(arr_len, id);
        if page_id == 0 {
            SlotPtr { page: 0, index }
        } else {
            let ptr = Storage::or_new(self.inner.deref_mut(), arr_len, page_id, index);
            ptr
        }
    }

    fn or_new(inner: &mut Inner<T>, arr_len: usize, page_id: usize, index: usize) -> (ptr: SlotPtr)
        requires
            page_id > 0,
            forall|i: int|
                0 <= i < old(inner).fallback@.len() ==> (#[trigger] old(inner).fallback@[i]).slots().len()
                    == arr_len,
        ensures
            ptr == (SlotPtr { page: page_id, index }),
            final(inner).at == old(inner).at,
            final(inner).threads == old(inner).threads,
            final(inner).fallback@.len() == if page_id > old(inner).fallback@.len() {
                page_id as nat
            } else {
                old(inner).fallback@.len()
            },
            forall|i: int|
                0 <= i < old(inner).fallback@.len() ==> final(inner).fallback@[i] == old(
                    inner,
                ).fallback@[i],
            forall|i: int|
                old(inner).fallback@.len() <= i < final(inner).fallback@.len() ==> {
                    &&& (#[trigger] final(inner).fallback@[i]).slots().len() == arr_len
                    &&& forall|k: int|
                        0 <= k < arr_len ==> (#[trigger] final(inner).fallback@[i].slots()[k])@ is None
                },
    {
        let page_id = page_id - 1;
        while inner.fallback.len() <= page_id
            invariant
                inner.at == old(inner).at,
                inner.threads == old(inner).threads,
                inner.fallback@.len() >= old(inner).fallback@.len(),
                inner.fallback@.len() <= page_id + 1 || inner.fallback@.len() == old(
                    inner,
                ).fallback@.len(),
                forall|i: int|
                    0 <= i < old(inner).fallback@.len() ==> inner.fallback@[i] == old(
                        inner,
                    ).fallback@[i],
                forall|i: int|
                    old(inner).fallback@.len() <= i < inner.fallback@.len() ==> {
                        &&& (#[trigger] inner.fallback@[i]).slots().len() == arr_len
                        &&& forall|k: int|
                            0 <= k < arr_len ==> (#[trigger] inner.fallback@[i].slots()[k])@ is None
                    },
            decreases page_id + 1 - inner.fallback@.len(),
        {
            inner.fallback.push(Page::new(arr_len));
        }
        SlotPtr { page: page_id + 1, index }
    }

    /// Whether the store has a cell at `ptr`.
    pub fn is_slot(&self, ptr: SlotPtr) -> (b: bool)
        ensures
            b == self.has_slot(ptr),
    {
        ptr.index < self.inner.array_len() && ptr.page <= self.inner.deref().fallback.len()
    }

    /// The cell at `ptr`, for reading.
    pub fn slot(&self, ptr: SlotPtr) -> (cell: &UnsafeCell<Option<T>>)
        requires
            self.wf(),
            self.has_slot(ptr),
        ensures
            cell@ == self@.slots.get(ptr),
    {
        if ptr.page == 0 {
            &self.inner.array()[ptr.index]
        } else {
            &self.inner.deref().fallback[ptr.page - 1].ptr[ptr.index]
        }
    }

    /// The cell at `ptr`, for writing. What the caller leaves in it is what
    /// the store then holds there; nothing else changes.
    pub fn slot_mut(&mut self, ptr: SlotPtr) -> (cell: &mut UnsafeCell<Option<T>>)
        requires
            old(self).wf(),
            old(self).has_slot(ptr),
        ensures
            cell@ == old(self)@.slots.get(ptr),
            final(self).wf(),
            final(self)@ =~= (StorageView {
                slots: match final(cell)@ {
                    Some(v) => old(self)@.slots.insert(ptr, v),
                    None => old(self)@.slots.remove(ptr),
                },
                ..old(self)@
            }),
            final(self).pages() == old(self).pages(),
    {
        if ptr.page == 0 {
            self.inner.elem_mut(ptr.index)
        } else {
            &mut self.inner.deref_mut().fallback[ptr.page - 1].ptr[ptr.index]
        }
    }

    fn or_get(inner: &Inner<T>, page_id: usize, index: usize) -> (r: Option<&T>)
        requires
            page_id > 0,
            forall|i: int|
                0 <= i < inner.fallback@.len() ==> index < (#[trigger] inner.fallback@[i]).slots().len(),
        ensures
            r == if page_id - 1 < inner.fallback@.len() {
                match inner.fallback@[page_id - 1].slots()[index as int]@ {
                    Some(v) => Some(&v),
                    None => None,
                }
            } else {
                None
            },
    {
        let pages = &inner.fallback;
        if page_id - 1 < pages.len() {
            pages[page_id - 1].ptr[index].with(|obj: &Option<T>| -> (r: Option<&T>)
                ensures
                    r == match *obj {
                        Some(v) => Some(&v),
                        None => None,
                    },
                { obj.as_ref() })
        } else {
            None
        }
    }
}

} // verus!
