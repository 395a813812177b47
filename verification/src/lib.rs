//! Per-object thread-local storage: the verified core.
//!
//! A container gives every thread that touches it a slot of its own. The
//! slots belong to the container, not to the thread, and containers come and
//! go at run time. This crate holds the bookkeeping that makes that safe:
//! the allocator of dense thread ids, the paged slot store, the two
//! registries that link a thread to the containers it wrote into and a
//! container to the threads that wrote into it, and the cleanup that runs
//! when either side goes away first.
//!
//! Everything here is single-owner code over `&mut`; locks and thread-local
//! statics belong to the caller.
//!
//! * [`thread`] holds the id allocator, a thread's destructor list and the
//!   thread's side of the cleanup.
//! * [`page`] places thread ids in pages and holds the slot store with the
//!   container's side of the cleanup.
//! * [`ThreadLocal`] is one container; the calling thread is named by its
//!   [`thread::ThreadState`].
//! * [`runtime::Runtime`] puts allocator, threads and containers together,
//!   keeps the two registries in agreement with the slots through every
//!   step, and states what that agreement gives.

use vstd::prelude::*;
use vstd::pervasive::unreached;
use std::convert::Infallible;
use crate::page::{drop_releases, targets_own_slots, SlotPtr, Storage, StorageView, ThreadsRef};
use crate::thread::{Dtor, ThreadState};

pub mod cell;
pub mod keys;
pub mod order;
pub mod page;
pub mod runtime;
pub mod thread;
pub mod util;

verus! {

/// Number of slots in the primary page of a container built with
/// [`ThreadLocal::new`], and the bound that splits the id allocator's two
/// free lists.
pub const DEFAULT_PAGE_CAP: usize = 16;

/// The container that lives at address `c` of `heap`, if any.
pub open spec fn object_at<T: Send + 'static>(heap: Seq<Option<ThreadLocal<T>>>, c: usize) -> Option<
    ThreadLocal<T>,
> {
    if c < heap.len() {
        heap[c as int]
    } else {
        None
    }
}

/// Every container of `heap` is well formed and lives at the address it
/// carries.
pub open spec fn heap_wf<T: Send + 'static>(heap: Seq<Option<ThreadLocal<T>>>) -> bool {
    forall|c: usize| (#[trigger] object_at(heap, c)) matches Some(obj) ==> obj.wf() && obj@.at == c
}

/// The live thread with id `t` in `threads`, if any.
pub open spec fn thread_at(threads: Seq<Option<ThreadState>>, t: usize) -> Option<ThreadState> {
    if t < threads.len() {
        threads[t as int]
    } else {
        None
    }
}

/// A mark that the caller stands on a thread's stack. A reference handed
/// out by a container lives no longer than the borrow of the token that was
/// shown to get it.
pub struct StackToken {
    _marker: (),
}

impl StackToken {
    pub fn __private_new() -> StackToken {
        StackToken { _marker: () }
    }
}

/// Per-object thread-local storage: a container with one slot for every
/// thread that writes into it.
///
/// The calling thread is named by its [`ThreadState`]. A thread sees its own
/// slot and no other.
pub struct ThreadLocal<T: Send + 'static> {
    pool: Storage<T>,
}

impl<T: Send + 'static> View for ThreadLocal<T> {
    type V = StorageView<T>;

    open spec fn view(&self) -> StorageView<T> {
        self.pool()@
    }
}

impl<T: Send + 'static> ThreadLocal<T> {
    /// The store behind the container.
    pub closed spec fn pool(&self) -> Storage<T> {
        self.pool
    }

    pub open spec fn wf(&self) -> bool {
        self.pool().wf()
    }

    /// A container with [`DEFAULT_PAGE_CAP`] slots in its primary page, at
    /// address `at`.
    pub fn new(at: ThreadsRef) -> (tl: ThreadLocal<T>)
        ensures
            tl.wf(),
            tl.pool().pages() == 0,
            tl@ == (StorageView {
                at: at.ptr,
                cap: DEFAULT_PAGE_CAP as nat,
                slots: Map::<SlotPtr, T>::empty(),
                threads: Set::<usize>::empty(),
            }),
    {
        ThreadLocal::with_threads(DEFAULT_PAGE_CAP, at)
    }

    /// A container with `num` slots in its primary page, at address `at`.
    /// No thread has a value in it.
    pub fn with_threads(num: usize, at: ThreadsRef) -> (tl: ThreadLocal<T>)
        requires
            num > 0,
        ensures
            tl.wf(),
            tl.pool().pages() == 0,
            tl@ == (StorageView {
                at: at.ptr,
                cap: num as nat,
                slots: Map::<SlotPtr, T>::empty(),
                threads: Set::<usize>::empty(),
            }),
    {
        ThreadLocal { pool: Storage::with_threads(num, at) }
    }

    /// The store behind the container, for reading.
    pub fn storage(&self) -> (pool: &Storage<T>)
        ensures
            *pool == self.pool(),
    {
        &self.pool
    }

    /// The store behind the container, for writing.
    pub fn storage_mut(&mut self) -> (pool: &mut Storage<T>)
        ensures
            *pool == old(self).pool(),
            *final(pool) == final(self).pool(),
    {
        &mut self.pool
    }

    /// The container goes: see [`Storage::drop`].
    pub fn drop(self, threads: &mut Vec<Option<ThreadState>>) -> (dropped: Vec<(usize, T)>)
        requires
            self.wf(),
            targets_own_slots(self@, old(threads)@),
        ensures
            final(threads)@.len() == old(threads)@.len(),
            forall|t: usize|
                match #[trigger] thread_at(old(threads)@, t) {
                    Some(state) => {
                        &&& thread_at(final(threads)@, t) is Some
                        &&& thread_at(final(threads)@, t)->0.id() == state.id()
                        &&& thread_at(final(threads)@, t)->0.list() == if self@.threads.contains(t) {
                            state.list().remove(self@.at)
                        } else {
                            state.list()
                        }
                    },
                    None => thread_at(final(threads)@, t) is None,
                },
            forall|i: int, j: int| 0 <= i < j < dropped@.len() ==> dropped@[i].0 < dropped@[j].0,
            forall|t: usize, v: T|
                #![trigger dropped@.contains((t, v))]
                #![trigger drop_releases(self@, old(threads)@, t, v)]
                dropped@.contains((t, v)) <==> drop_releases(self@, old(threads)@, t, v),
    {
        self.pool.drop(threads)
    }

    /// The value of the calling thread, if it has one here.
    pub fn get<'stack>(&'stack self, _token: &'stack StackToken, thread: &ThreadState) -> (r:
        Option<&'stack T>)
        requires
            self.wf(),
        ensures
            r == match self@.value(thread.id()) {
                Some(v) => Some(&v),
                None => None,
            },
    {
        self.pool.get(crate::thread::get(thread))
    }

    /// The value of the calling thread, made by `init` if the thread has
    /// none here yet. A value that is there is handed back as it is, and
    /// `init` is not run.
    pub fn get_or_init<'stack, F>(
        &'stack mut self,
        token: &'stack StackToken,
        thread: &mut ThreadState,
        init: F,
    ) -> (r: &'stack T) where F: FnOnce() -> T
        requires
            old(self).wf(),
            old(self)@.value(old(thread).id()) is None ==> init.requires(()),
        ensures
            final(self).wf(),
            final(self).pool().pages() == old(self).pool().pages_for(old(thread).id()),
            final(thread).id() == old(thread).id(),
            final(self)@.value(old(thread).id()) == Some(*r),
            match old(self)@.value(old(thread).id()) {
                Some(v) => {
                    &&& *r == v
                    &&& final(self)@ == old(self)@
                    &&& final(thread).list() == old(thread).list()
                },
                None => {
                    &&& init.ensures((), *r)
                    &&& final(self)@ == old(self)@.written(old(thread).id(), *r)
                    &&& final(thread).list() == old(thread).list().insert(
                        old(self)@.at,
                        Dtor { ptr: old(self)@.locate(old(thread).id()) },
                    )
                },
            },
    {
        let ghost empty = self@.value(thread.id()) is None;
        let try_init = || -> (made: Result<T, Infallible>)
            requires
                empty,
                empty ==> init.requires(()),
            ensures
                made matches Ok(v) && init.ensures((), v),
            { Ok(init()) };
        match self.get_or_try_init::<_, Infallible>(token, thread, try_init) {
            Ok(val) => val,
            Err(_) => unreached(),
        }
    }

    /// The value of the calling thread, made by `init` if the thread has
    /// none here yet. Where `init` fails, its error is handed on, the slot
    /// stays empty and neither side records a link.
    pub fn get_or_try_init<'stack, F, E>(
        &'stack mut self,
        _token: &'stack StackToken,
        thread: &mut ThreadState,
        init: F,
    ) -> (r: Result<&'stack T, E>) where F: FnOnce() -> Result<T, E>
        requires
            old(self).wf(),
            old(self)@.value(old(thread).id()) is None ==> init.requires(()),
        ensures
            final(self).wf(),
            final(self).pool().pages() == old(self).pool().pages_for(old(thread).id()),
            final(thread).id() == old(thread).id(),
            match old(self)@.value(old(thread).id()) {
                Some(v) => {
                    &&& r == Ok::<&T, E>(&v)
                    &&& final(self)@ == old(self)@
                    &&& final(thread).list() == old(thread).list()
                },
                None => match r {
                    Ok(v) => {
                        &&& init.ensures((), Ok(*v))
                        &&& final(self)@ == old(self)@.written(old(thread).id(), *v)
                        &&& final(thread).list() == old(thread).list().insert(
                            old(self)@.at,
                            Dtor { ptr: old(self)@.locate(old(thread).id()) },
                        )
                    },
                    Err(e) => {
                        &&& init.ensures((), Err(e))
                        &&& final(self)@ == old(self)@
                        &&& final(thread).list() == old(thread).list()
                    },
                },
            },
    {
        let id = crate::thread::get(thread);
        let ptr = self.pool.get_or_new(id);
        let is_some = |val: &Option<T>| -> (b: bool)
            ensures
                b == val.is_some(),
            { val.is_some() };
        let occupied = self.pool.slot(ptr).with(is_some);
        if !occupied {
            match init() {
                Err(err) => {
                    return Err(err);
                },
                Ok(newval) => {
                    let put = |val: &mut Option<T>|
                        ensures
                            *final(val) == Some(newval),
                        { *val = Some(newval); };
                    self.pool.slot_mut(ptr).with_mut(put);
                    ThreadLocal::or_try(&mut self.pool, thread, id, ptr);
                },
            }
        }
        let as_ref = |val: &'stack Option<T>| -> (r: Option<&'stack T>)
            ensures
                r == match *val {
                    Some(v) => Some(&v),
                    None => None,
                },
            { val.as_ref() };
        let val = self.pool.slot(ptr).with(as_ref);
        Ok(val.unwrap())
    }

    /// Links the container and the thread to each other for the slot at
    /// `ptr`, which the thread has just filled.
    fn or_try(pool: &mut Storage<T>, thread: &mut ThreadState, id: usize, ptr: SlotPtr)
        requires
            old(pool).wf(),
            id == old(thread).id(),
        ensures
            final(pool).wf(),
            final(pool)@ == (StorageView { threads: old(pool)@.threads.insert(id), ..old(pool)@ }),
            final(pool).pages() == old(pool).pages(),
            final(thread).id() == old(thread).id(),
            final(thread).list() == old(thread).list().insert(old(pool)@.at, Dtor { ptr }),
    {
        let thread_handle = crate::thread::push(thread, pool.as_threads_ref(), ptr);
        pool.insert_thread_handle(id, thread_handle);
    }
}

} // verus!
