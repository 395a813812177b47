use vstd::prelude::*;
use vstd::pervasive::unreached;
use std::convert::Infallible;
use crate::page::{SlotPtr, StorageView, ThreadsRef};
use crate::thread::{is_least, ThreadIdPool, ThreadState};
use crate::{heap_wf, object_at, thread_at, StackToken, ThreadLocal};

verus! {

/// One process, as far as thread-local objects go: the id allocator, the
/// threads that live, and the containers that live, each container at an
/// address of its own.
///
/// Threads and containers come and go in any order. Whichever of the two
/// ends of a value goes first takes the value with it; the other end then
/// finds nothing left to do.
pub struct Runtime<T: Send + 'static> {
    ids: ThreadIdPool,
    threads: Vec<Option<ThreadState>>,
    heap: Vec<Option<ThreadLocal<T>>>,
}

/// What a process holds, as plain mathematics.
#[verifier::ext_equal]
pub struct RuntimeView<T> {
    /// The live threads by id, each with the addresses of the containers it
    /// holds a destructor for.
    pub threads: Map<usize, Set<usize>>,
    /// The live containers by address.
    pub objects: Map<usize, StorageView<T>>,
}

impl<T> RuntimeView<T> {
    /// What thread `t` has stored in the container at `c`, if anything.
    pub open spec fn value(self, c: usize, t: usize) -> Option<T> {
        if self.objects.contains_key(c) {
            self.objects[c].value(t)
        } else {
            None
        }
    }

    /// Thread `t` lives and holds a destructor for the container at `c`.
    pub open spec fn linked(self, t: usize, c: usize) -> bool {
        self.threads.contains_key(t) && self.threads[t].contains(c)
    }

    /// The container at `c` lives and has thread `t` among its writers.
    pub open spec fn registered(self, c: usize, t: usize) -> bool {
        self.objects.contains_key(c) && self.objects[c].threads.contains(t)
    }

    /// The two registries agree with the slots: a value lies in a slot
    /// exactly when the thread holds a destructor for the container, and
    /// exactly when the container has the thread among its writers; and no
    /// value lies in a slot that is no thread's.
    pub open spec fn wf(self) -> bool {
        &&& forall|c: usize| #[trigger]
            self.objects.contains_key(c) ==> self.objects[c].at == c && self.objects[c].cap > 0
        &&& forall|c: usize, t: usize|
            #![trigger self.value(c, t)]
            #![trigger self.linked(t, c)]
            self.value(c, t) is Some <==> self.linked(t, c)
        &&& forall|c: usize, t: usize|
            #![trigger self.registered(c, t)]
            #![trigger self.linked(t, c)]
            self.registered(c, t) <==> self.linked(t, c)
        &&& forall|c: usize, p: SlotPtr|
            self.objects.contains_key(c) && #[trigger] self.objects[c].slots.contains_key(p)
                ==> exists|t: usize| p == #[trigger] self.objects[c].locate(t)
    }

    /// What the end of thread `t` hands back: the values of the thread, by
    /// the address of the container that held them.
    pub open spec fn exit_drops(self, t: usize) -> Map<usize, T> {
        Map::new(|c: usize| self.value(c, t) is Some, |c: usize| self.value(c, t)->0)
    }

    /// What the end of the container at `c` hands back: the values in the
    /// container, by the id of the thread that stored them.
    pub open spec fn destroy_drops(self, c: usize) -> Map<usize, T> {
        Map::new(|t: usize| self.value(c, t) is Some, |t: usize| self.value(c, t)->0)
    }

    /// The process after a new thread `t` has started.
    pub open spec fn spawned(self, t: usize) -> RuntimeView<T> {
        RuntimeView { threads: self.threads.insert(t, Set::empty()), ..self }
    }

    /// The process after thread `t` has ended: it is gone, and so is what
    /// it had stored, in every container.
    pub open spec fn exited(self, t: usize) -> RuntimeView<T> {
        RuntimeView {
            threads: self.threads.remove(t),
            objects: self.objects.map_values(|o: StorageView<T>| o.cleared(t)),
        }
    }

    /// The process after an empty container with `cap` slots per page has
    /// been made at address `c`.
    pub open spec fn created(self, c: usize, cap: nat) -> RuntimeView<T> {
        RuntimeView {
            objects: self.objects.insert(
                c,
                StorageView {
                    at: c,
                    cap,
                    slots: Map::<SlotPtr, T>::empty(),
                    threads: Set::<usize>::empty(),
                },
            ),
            ..self
        }
    }

    /// The process after the container at `c` has gone: no thread holds a
    /// destructor for it any more.
    pub open spec fn destroyed(self, c: usize) -> RuntimeView<T> {
        RuntimeView {
            threads: self.threads.map_values(|held: Set<usize>| held.remove(c)),
            objects: self.objects.remove(c),
        }
    }

    /// The process after thread `t` has stored `v` in the container at `c`.
    pub open spec fn written(self, c: usize, t: usize, v: T) -> RuntimeView<T> {
        RuntimeView {
            threads: self.threads.insert(t, self.threads[t].insert(c)),
            objects: self.objects.insert(c, self.objects[c].written(t, v)),
        }
    }
}

impl<T> RuntimeView<T> {
    /// A thread sees its own slot and no other: what thread `a` stores in
    /// one container changes nothing that another thread `b` finds, there
    /// or in any other container.
    pub proof fn lemma_write_is_private(self, c: usize, a: usize, b: usize, v: T)
        requires
            self.wf(),
            self.objects.contains_key(c),
            a != b,
        ensures
            forall|d: usize| self.written(c, a, v).value(d, b) == self.value(d, b),
    {
        self.objects[c].lemma_locate_injective(a, b);
    }

    /// What a thread has stored is what it finds: after thread `t` stored
    /// `v` in the container at `c`, its value there is `v`, so that a second
    /// initialising read hands back `v` and runs no initialiser.
    pub proof fn lemma_written_is_found(self, c: usize, t: usize, v: T)
        requires
            self.objects.contains_key(c),
        ensures
            self.written(c, t, v).value(c, t) == Some(v),
    {
    }

    /// A container that was just made holds no value for any thread.
    pub proof fn lemma_created_is_empty(self, c: usize, cap: nat, t: usize)
        ensures
            self.created(c, cap).value(c, t) is None,
    {
    }

    /// A thread's end takes its values and no others: afterwards the thread
    /// has no value in any container, and every other thread finds what it
    /// found before.
    pub proof fn lemma_exit_takes_own_values(self, t: usize, c: usize, other: usize)
        requires
            self.wf(),
            other != t,
        ensures
            self.exited(t).value(c, t) is None,
            self.exited(t).value(c, other) == self.value(c, other),
    {
        if self.objects.contains_key(c) {
            self.objects[c].lemma_locate_injective(other, t);
        }
    }

    /// A container's end takes its values and no others: afterwards no
    /// thread has a value at its address, and every other container holds
    /// what it held before.
    pub proof fn lemma_destroy_takes_own_values(self, c: usize, d: usize, t: usize)
        requires
            d != c,
        ensures
            self.destroyed(c).value(c, t) is None,
            self.destroyed(c).value(d, t) == self.value(d, t),
    {
    }

    /// Thread first, container second. A value that thread `t` has in the
    /// container at `c` is handed back when the thread ends. When the
    /// container ends after that, it hands back what it would have handed
    /// back before, but for that value: nothing is handed back twice, and
    /// nothing is lost.
    pub proof fn lemma_exit_then_destroy(self, t: usize, c: usize)
        requires
            self.wf(),
        ensures
            self.exit_drops(t).get(c) == self.value(c, t),
            self.exited(t).destroy_drops(c) == self.destroy_drops(c).remove(t),
            !self.exited(t).registered(c, t),
            !self.exited(t).destroyed(c).linked(t, c),
    {
        assert forall|k: usize| self.exited(t).value(c, k) == if k == t {
            None
        } else {
            self.value(c, k)
        } by {
            if k != t {
                self.lemma_exit_takes_own_values(t, c, k);
            }
        }
        assert(self.exited(t).destroy_drops(c) =~= self.destroy_drops(c).remove(t));
    }

    /// Container first, thread second. A value that thread `t` has in the
    /// container at `c` is handed back when the container ends. When the
    /// thread ends after that, it hands back what it would have handed back
    /// before, but for that value: nothing is handed back twice, and
    /// nothing is lost.
    pub proof fn lemma_destroy_then_exit(self, c: usize, t: usize)
        requires
            self.wf(),
        ensures
            self.destroy_drops(c).get(t) == self.value(c, t),
            self.destroyed(c).exit_drops(t) == self.exit_drops(t).remove(c),
            !self.destroyed(c).linked(t, c),
            !self.destroyed(c).exited(t).registered(c, t),
    {
        assert(self.destroyed(c).exit_drops(t) =~= self.exit_drops(t).remove(c));
    }

    /// A thread's start keeps the registries in agreement with the slots.
    pub proof fn lemma_spawned_wf(self, t: usize)
        requires
            self.wf(),
            !self.threads.contains_key(t),
        ensures
            self.spawned(t).wf(),
    {
        let after = self.spawned(t);
        assert forall|d: usize, k: usize|
            #![trigger after.value(d, k)]
            #![trigger after.linked(k, d)]
            after.value(d, k) is Some <==> after.linked(k, d) by {
            assert(self.value(d, k) is Some <==> self.linked(k, d));
        }
        assert forall|d: usize, k: usize|
            #![trigger after.registered(d, k)]
            #![trigger after.linked(k, d)]
            after.registered(d, k) <==> after.linked(k, d) by {
            assert(self.registered(d, k) <==> self.linked(k, d));
        }
    }

    /// A thread's end keeps the registries in agreement with the slots.
    pub proof fn lemma_exited_wf(self, t: usize)
        requires
            self.wf(),
        ensures
            self.exited(t).wf(),
    {
        let after = self.exited(t);
        assert forall|d: usize, k: usize|
            #![trigger after.value(d, k)]
            #![trigger after.linked(k, d)]
            after.value(d, k) is Some <==> after.linked(k, d) by {
            assert(self.value(d, k) is Some <==> self.linked(k, d));
            if self.objects.contains_key(d) {
                self.objects[d].lemma_locate_injective(k, t);
            }
        }
        assert forall|d: usize, k: usize|
            #![trigger after.registered(d, k)]
            #![trigger after.linked(k, d)]
            after.registered(d, k) <==> after.linked(k, d) by {
            assert(self.registered(d, k) <==> self.linked(k, d));
        }
        assert forall|d: usize, p: SlotPtr|
            after.objects.contains_key(d) && #[trigger] after.objects[d].slots.contains_key(
                p,
            ) implies exists|k: usize| p == #[trigger] after.objects[d].locate(k) by {
            let k = choose|k: usize| p == #[trigger] self.objects[d].locate(k);
            assert(p == after.objects[d].locate(k));
        }
    }

    /// A new container keeps the registries in agreement with the slots.
    pub proof fn lemma_created_wf(self, c: usize, cap: nat)
        requires
            self.wf(),
            !self.objects.contains_key(c),
            cap > 0,
        ensures
            self.created(c, cap).wf(),
    {
        let after = self.created(c, cap);
        assert forall|d: usize, k: usize|
            #![trigger after.value(d, k)]
            #![trigger after.linked(k, d)]
            after.value(d, k) is Some <==> after.linked(k, d) by {
            assert(self.value(d, k) is Some <==> self.linked(k, d));
        }
        assert forall|d: usize, k: usize|
            #![trigger after.registered(d, k)]
            #![trigger after.linked(k, d)]
            after.registered(d, k) <==> after.linked(k, d) by {
            assert(self.value(d, k) is Some <==> self.linked(k, d));
        }
    }

    /// A container's end keeps the registries in agreement with the slots.
    pub proof fn lemma_destroyed_wf(self, c: usize)
        requires
            self.wf(),
        ensures
            self.destroyed(c).wf(),
    {
        let after = self.destroyed(c);
        assert forall|d: usize, k: usize|
            #![trigger after.value(d, k)]
            #![trigger after.linked(k, d)]
            after.value(d, k) is Some <==> after.linked(k, d) by {
            assert(self.value(d, k) is Some <==> self.linked(k, d));
        }
        assert forall|d: usize, k: usize|
            #![trigger after.registered(d, k)]
            #![trigger after.linked(k, d)]
            after.registered(d, k) <==> after.linked(k, d) by {
            assert(self.registered(d, k) <==> self.linked(k, d));
        }
    }

    /// A first write keeps the registries in agreement with the slots.
    pub proof fn lemma_written_wf(self, c: usize, t: usize, v: T)
        requires
            self.wf(),
            self.objects.contains_key(c),
            self.threads.contains_key(t),
            self.value(c, t) is None,
        ensures
            self.written(c, t, v).wf(),
    {
        let after = self.written(c, t, v);
        assert forall|d: usize, k: usize|
            #![trigger after.value(d, k)]
            #![trigger after.linked(k, d)]
            after.value(d, k) is Some <==> after.linked(k, d) by {
            assert(self.value(d, k) is Some <==> self.linked(k, d));
            if d == c {
                self.objects[c].lemma_locate_injective(k, t);
            }
        }
        assert forall|d: usize, k: usize|
            #![trigger after.registered(d, k)]
            #![trigger after.linked(k, d)]
            after.registered(d, k) <==> after.linked(k, d) by {
            assert(self.registered(d, k) <==> self.linked(k, d));
        }
        assert forall|d: usize, p: SlotPtr|
            after.objects.contains_key(d) && #[trigger] after.objects[d].slots.contains_key(
                p,
            ) implies exists|k: usize| p == #[trigger] after.objects[d].locate(k) by {
            if d == c && p == self.objects[c].locate(t) {
                assert(p == after.objects[d].locate(t));
            } else {
                let k = choose|k: usize| p == #[trigger] self.objects[d].locate(k);
                assert(p == after.objects[d].locate(k));
            }
        }
    }
}

impl<T: Send + 'static> View for Runtime<T> {
    type V = RuntimeView<T>;

    closed spec fn view(&self) -> RuntimeView<T> {
        RuntimeView {
            threads: Map::new(
                |t: usize| thread_at(self.threads@, t) is Some,
                |t: usize| thread_at(self.threads@, t)->0.list().dom(),
            ),
            objects: Map::new(
                |c: usize| object_at(self.heap@, c) is Some,
                |c: usize| object_at(self.heap@, c)->0@,
            ),
        }
    }
}

impl<T: Send + 'static> Runtime<T> {
    /// The id allocator of the process.
    pub closed spec fn ids(&self) -> ThreadIdPool {
        self.ids
    }

    pub closed spec fn wf(&self) -> bool {
        &&& self.ids.wf()
        &&& self.threads@.len() == self.ids.max()
        &&& forall|t: usize| (#[trigger] thread_at(self.threads@, t)) is Some <==> self.ids.is_allocated(t)
        &&& forall|t: usize| (#[trigger] thread_at(self.threads@, t)) matches Some(state) ==> state.id() == t
        &&& heap_wf(self.heap@)
        &&& self@.wf()
        &&& forall|t: usize, c: usize| #[trigger]
            self@.linked(t, c) ==> thread_at(self.threads@, t)->0.list()[c].ptr == self@.objects[c].locate(t)
    }

    /// What holds of every process: the registries agree with the slots,
    /// and the ids that are held are those of the live threads.
    pub proof fn lemma_wf(&self)
        requires
            self.wf(),
        ensures
            self@.wf(),
            self.ids().wf(),
            self.ids().allocated() == self@.threads.dom(),
    {
    }

    /// A process without threads and without containers.
    pub fn new() -> (rt: Runtime<T>)
        ensures
            rt.wf(),
            rt@ == (RuntimeView {
                threads: Map::<usize, Set<usize>>::empty(),
                objects: Map::<usize, StorageView<T>>::empty(),
            }),
            rt.ids().max() == 0,
            rt.ids().none_free(),
    {
        let rt = Runtime { ids: ThreadIdPool::new(), threads: Vec::new(), heap: Vec::new() };
        proof {
            rt.ids.lemma_free_below_max();
        }
        rt
    }

    /// Whether the allocator has run out of thread ids.
    pub fn is_full(&self) -> (full: bool)
        ensures
            full == !self.ids().can_alloc(),
    {
        self.ids.is_full()
    }

    /// Whether a thread with id `t` lives.
    pub fn has_thread(&self, t: usize) -> (live: bool)
        ensures
            live == self@.threads.contains_key(t),
    {
        t < self.threads.len() && self.threads[t].is_some()
    }

    /// Whether a container lives at `tr`.
    pub fn has_object(&self, tr: ThreadsRef) -> (live: bool)
        ensures
            live == self@.objects.contains_key(tr.ptr),
    {
        tr.ptr < self.heap.len() && self.heap[tr.ptr].is_some()
    }

    /// A thread starts. It gets the smallest id that was given back, or
    /// else the next new one, and has written nowhere yet.
    pub fn spawn(&mut self) -> (t: usize)
        requires
            old(self).wf(),
            old(self).ids().can_alloc(),
        ensures
            final(self).wf(),
            !old(self)@.threads.contains_key(t),
            final(self)@ == old(self)@.spawned(t),
            !old(self).ids().none_free() ==> {
                &&& is_least(old(self).ids().free(), t)
                &&& final(self).ids().free() == old(self).ids().free().remove(t)
                &&& final(self).ids().max() == old(self).ids().max()
            },
            old(self).ids().none_free() ==> {
                &&& t == old(self).ids().max()
                &&& final(self).ids().free() == old(self).ids().free()
                &&& final(self).ids().max() == old(self).ids().max() + 1
            },
    {
        proof {
            self.ids.lemma_free_below_max();
        }
        let state = ThreadState::new(&mut self.ids);
        let t = crate::thread::get(&state);
        if t < self.threads.len() {
            self.threads[t] = Some(state);
        } else {
            self.threads.push(Some(state));
        }
        proof {
            assert forall|k: usize| k != t implies thread_at(self.threads@, k) == thread_at(
                old(self).threads@,
                k,
            ) by {}
            assert(self@ == old(self)@.spawned(t));
            let before = old(self)@;
            let after = self@;
            before.lemma_spawned_wf(t);
            assert forall|k: usize, c: usize| #[trigger]
                after.linked(k, c) implies thread_at(self.threads@, k)->0.list()[c].ptr
                == after.objects[c].locate(k) by {
                assert(before.linked(k, c));
            }
        }
        t
    }

    /// A container is made, empty, with `num` slots in its primary page. It
    /// gets the lowest address at which no container lives.
    pub fn create(&mut self, num: usize) -> (tr: ThreadsRef)
        requires
            old(self).wf(),
            num > 0,
        ensures
            final(self).wf(),
            final(self).ids() == old(self).ids(),
            !old(self)@.objects.contains_key(tr.ptr),
            forall|c: usize| c < tr.ptr ==> old(self)@.objects.contains_key(c),
            final(self)@ == old(self)@.created(tr.ptr, num as nat),
    {
        let mut c: usize = 0;
        while c < self.heap.len() && self.heap[c].is_some()
            invariant
                c <= self.heap@.len(),
                self.heap@ == old(self).heap@,
                forall|k: usize| k < c ==> (#[trigger] object_at(self.heap@, k)) is Some,
            decreases self.heap@.len() - c,
        {
            c += 1;
        }
        let tr = ThreadsRef { ptr: c };
        let obj = ThreadLocal::with_threads(num, tr);
        if c < self.heap.len() {
            self.heap[c] = Some(obj);
        } else {
            self.heap.push(Some(obj));
        }
        proof {
            assert forall|k: usize| k != c implies object_at(self.heap@, k) == object_at(
                old(self).heap@,
                k,
            ) by {}
            assert(self@ == old(self)@.created(c, num as nat));
            let before = old(self)@;
            let after = self@;
            before.lemma_created_wf(c, num as nat);
            assert forall|t: usize, k: usize| #[trigger]
                after.linked(t, k) implies thread_at(self.threads@, t)->0.list()[k].ptr
                == after.objects[k].locate(t) by {
                assert(before.value(k, t) is Some <==> before.linked(t, k));
            }
        }
        tr
    }

    /// Thread `t` makes sure it has a value in the container at `tr`: where
    /// it has none, `init` is run and what it makes is stored.
    fn fill<F, E>(&mut self, tr: ThreadsRef, t: usize, init: F) -> (r: Result<(), E>) where
        F: FnOnce() -> Result<T, E>,

        requires
            old(self).wf(),
            old(self)@.objects.contains_key(tr.ptr),
            old(self)@.threads.contains_key(t),
            old(self)@.value(tr.ptr, t) is None ==> init.requires(()),
        ensures
            final(self).wf(),
            final(self).ids() == old(self).ids(),
            match old(self)@.value(tr.ptr, t) {
                Some(v) => r is Ok && final(self)@ == old(self)@,
                None => match r {
                    Ok(_) => exists|v: T|
                        {
                            &&& #[trigger] init.ensures((), Ok(v))
                            &&& final(self)@ == old(self)@.written(tr.ptr, t, v)
                        },
                    Err(e) => init.ensures((), Err(e)) && final(self)@ == old(self)@,
                },
            },
    {
        let token = StackToken::__private_new();
        let ghost before = self@;
        let ghost mut made: Option<T> = None;
        let r = match (&mut self.heap[tr.ptr], &mut self.threads[t]) {
            (Some(obj), Some(state)) => {
                match obj.get_or_try_init(&token, state, init) {
                    Ok(v) => {
                        proof {
                            made = Some(*v);
                        }
                        Ok(())
                    },
                    Err(e) => Err(e),
                }
            },
            _ => unreached(),
        };
        proof {
            let c = tr.ptr;
            let after = self@;
            assert forall|k: usize| k != c implies object_at(self.heap@, k) == object_at(
                old(self).heap@,
                k,
            ) by {}
            assert forall|k: usize| k != t implies thread_at(self.threads@, k) == thread_at(
                old(self).threads@,
                k,
            ) by {}
            if before.value(c, t) is Some || r is Err {
                assert(after == before);
            } else {
                let v = made->0;
                assert(after == before.written(c, t, v));
                before.lemma_written_wf(c, t, v);
                assert forall|k: usize, d: usize| #[trigger]
                    after.linked(k, d) implies thread_at(self.threads@, k)->0.list()[d].ptr
                    == after.objects[d].locate(k) by {
                    if !(k == t && d == c) {
                        assert(before.linked(k, d));
                    }
                }
            }
        }
        r
    }

    /// The value of thread `t` in the container at `tr`, made by `init` if
    /// the thread has none there yet. Where `init` fails, its error is
    /// handed on and nothing has changed.
    pub fn get_or_try_init<'a, F, E>(
        &'a mut self,
        token: &'a StackToken,
        tr: ThreadsRef,
        t: usize,
        init: F,
    ) -> (r: Result<&'a T, E>) where F: FnOnce() -> Result<T, E>
        requires
            old(self).wf(),
            old(self)@.objects.contains_key(tr.ptr),
            old(self)@.threads.contains_key(t),
            old(self)@.value(tr.ptr, t) is None ==> init.requires(()),
        ensures
            final(self).wf(),
            final(self).ids() == old(self).ids(),
            match old(self)@.value(tr.ptr, t) {
                Some(v) => r == Ok::<&T, E>(&v) && final(self)@ == old(self)@,
                None => match r {
                    Ok(v) => {
                        &&& init.ensures((), Ok(*v))
                        &&& final(self)@ == old(self)@.written(tr.ptr, t, *v)
                    },
                    Err(e) => init.ensures((), Err(e)) && final(self)@ == old(self)@,
                },
            },
    {
        match self.fill(tr, t, init) {
            Err(e) => Err(e),
            Ok(_) => {
                proof {
                    self.lemma_wf();
                    old(self).lemma_wf();
                }
                match self.get(token, tr, t) {
                    Some(v) => Ok(v),
                    None => unreached(),
                }
            },
        }
    }

    /// The value of thread `t` in the container at `tr`, made by `init` if
    /// the thread has none there yet. A value that is there is handed back
    /// as it is, and `init` is not run.
    pub fn get_or_init<'a, F>(
        &'a mut self,
        token: &'a StackToken,
        tr: ThreadsRef,
        t: usize,
        init: F,
    ) -> (r: &'a T) where F: FnOnce() -> T
        requires
            old(self).wf(),
            old(self)@.objects.contains_key(tr.ptr),
            old(self)@.threads.contains_key(t),
            old(self)@.value(tr.ptr, t) is None ==> init.requires(()),
        ensures
            final(self).wf(),
            final(self).ids() == old(self).ids(),
            final(self)@.value(tr.ptr, t) == Some(*r),
            match old(self)@.value(tr.ptr, t) {
                Some(v) => *r == v && final(self)@ == old(self)@,
                None => {
                    &&& init.ensures((), *r)
                    &&& final(self)@ == old(self)@.written(tr.ptr, t, *r)
                },
            },
    {
        let ghost empty = self@.value(tr.ptr, t) is None;
        let try_init = || -> (made: Result<T, Infallible>)
            requires
                empty,
                empty ==> init.requires(()),
            ensures
                made matches Ok(v) && init.ensures((), v),
            { Ok(init()) };
        proof {
            old(self).lemma_wf();
        }
        match self.get_or_try_init::<_, Infallible>(token, tr, t, try_init) {
            Ok(val) => val,
            Err(_) => unreached(),
        }
    }

    /// Thread `t` ends. What it had stored is taken out of every container
    /// and handed back, each value with the address of its container; the
    /// thread's id is free again. Where no such thread lives, nothing
    /// happens.
    pub fn exit(&mut self, t: usize) -> (dropped: Vec<(ThreadsRef, T)>)
        requires
            old(self).wf(),
        ensures
            final(self).wf(),
            final(self)@ == if old(self)@.threads.contains_key(t) {
                old(self)@.exited(t)
            } else {
                old(self)@
            },
            final(self).ids().max() == old(self).ids().max(),
            final(self).ids().free() == if old(self)@.threads.contains_key(t) {
                old(self).ids().free().insert(t)
            } else {
                old(self).ids().free()
            },
            forall|i: int, j: int| 0 <= i < j < dropped@.len() ==> dropped@[i].0 != dropped@[j].0,
            forall|tr: ThreadsRef, v: T|
                dropped@.contains((tr, v)) <==> old(self)@.exit_drops(t).contains_pair(tr.ptr, v),
    {
        let ghost before = self@;
        if t < self.threads.len() {
            let state = self.threads[t].take();
            match state {
                Some(state) => {
                    let dropped = state.drop(&mut self.ids, &mut self.heap);
                    proof {
                        let after = self@;
                        let list = state.list();
                        assert forall|k: usize| k != t implies thread_at(self.threads@, k)
                            == thread_at(old(self).threads@, k) by {}
                        assert forall|c: usize| #[trigger]
                            before.objects.contains_key(c) implies after.objects.contains_key(c)
                            && after.objects[c] == before.objects[c].cleared(t) by {
                            let obj = before.objects[c];
                            if !list.contains_key(c) {
                                assert(!before.linked(t, c));
                                assert(obj.slots.remove(obj.locate(t)) =~= obj.slots);
                                assert(obj.threads.remove(t) =~= obj.threads);
                            }
                        }
                        assert(after == before.exited(t));
                        before.lemma_exited_wf(t);
                        assert forall|k: usize, d: usize| #[trigger]
                            after.linked(k, d) implies thread_at(self.threads@, k)->0.list()[d].ptr
                            == after.objects[d].locate(k) by {
                            assert(before.value(d, k) is Some <==> before.linked(k, d));
                        }
                        assert forall|tr: ThreadsRef, v: T|
                            dropped@.contains((tr, v)) <==> before.exit_drops(t).contains_pair(
                                tr.ptr,
                                v,
                            ) by {
                            assert(before.value(tr.ptr, t) is Some <==> before.linked(t, tr.ptr));
                        }
                    }
                    dropped
                },
                None => {
                    proof {
                        assert(self.threads@ =~= old(self).threads@);
                        assert forall|c: usize| before.value(c, t) is None by {
                            assert(before.value(c, t) is Some <==> before.linked(t, c));
                        }
                    }
                    Vec::new()
                },
            }
        } else {
            proof {
                assert forall|c: usize| before.value(c, t) is None by {
                    assert(before.value(c, t) is Some <==> before.linked(t, c));
                }
            }
            Vec::new()
        }
    }

    /// The container at `tr` goes. What the threads had stored in it is
    /// taken out and handed back, each value with the id of its thread,
    /// lowest id first; no thread holds a destructor for the container any
    /// more. Where no container lives at `tr`, nothing happens.
    pub fn destroy(&mut self, tr: ThreadsRef) -> (dropped: Vec<(usize, T)>)
        requires
            old(self).wf(),
        ensures
            final(self).wf(),
            final(self).ids() == old(self).ids(),
            final(self)@ == if old(self)@.objects.contains_key(tr.ptr) {
                old(self)@.destroyed(tr.ptr)
            } else {
                old(self)@
            },
            forall|i: int, j: int| 0 <= i < j < dropped@.len() ==> dropped@[i].0 < dropped@[j].0,
            forall|t: usize, v: T|
                dropped@.contains((t, v)) <==> old(self)@.destroy_drops(tr.ptr).contains_pair(t, v),
    {
        let ghost before = self@;
        let c = tr.ptr;
        if c < self.heap.len() {
            let obj = self.heap[c].take();
            match obj {
                Some(obj) => {
                    proof {
                        assert forall|t: usize|
                            obj@.threads.contains(t) && (#[trigger] thread_at(
                                self.threads@,
                                t,
                            )) is Some && thread_at(self.threads@, t)->0.list().contains_key(
                                obj@.at,
                            ) implies thread_at(self.threads@, t)->0.list()[obj@.at].ptr
                            == obj@.locate(t) by {
                            assert(before.linked(t, c));
                        }
                    }
                    let dropped = obj.drop(&mut self.threads);
                    proof {
                        let after = self@;
                        let view = obj@;
                        assert forall|k: usize| k != c implies object_at(self.heap@, k)
                            == object_at(old(self).heap@, k) by {}
                        assert forall|t: usize| #[trigger]
                            before.threads.contains_key(t) implies after.threads.contains_key(t)
                            && after.threads[t] == before.threads[t].remove(c) by {
                            if !view.threads.contains(t) {
                                assert(!before.linked(t, c));
                            }
                        }
                        assert(after == before.destroyed(c));
                        before.lemma_destroyed_wf(c);
                        assert forall|t: usize| (#[trigger] thread_at(self.threads@, t)) is Some
                            <==> self.ids.is_allocated(t) by {
                            assert(thread_at(old(self).threads@, t) is Some
                                <==> thread_at(self.threads@, t) is Some);
                        }
                        assert forall|t: usize| (#[trigger] thread_at(
                            self.threads@,
                            t,
                        )) is Some implies thread_at(self.threads@, t)->0.id() == t by {
                            assert(thread_at(old(self).threads@, t) is Some);
                        }
                        assert forall|k: usize, d: usize| #[trigger]
                            after.linked(k, d) implies thread_at(self.threads@, k)->0.list()[d].ptr
                            == after.objects[d].locate(k) by {
                            assert(before.value(d, k) is Some <==> before.linked(k, d));
                        }
                    }
                    dropped
                },
                None => {
                    proof {
                        assert(self.heap@ =~= old(self).heap@);
                    }
                    Vec::new()
                },
            }
        } else {
            Vec::new()
        }
    }

    /// What thread `t` has stored in the container at `tr`, if anything.
    pub fn get<'a>(&'a self, token: &'a StackToken, tr: ThreadsRef, t: usize) -> (r: Option<&'a T>)
        requires
            self.wf(),
        ensures
            r == match self@.value(tr.ptr, t) {
                Some(v) => Some(&v),
                None => None,
            },
    {
        if tr.ptr < self.heap.len() && t < self.threads.len() {
            match (&self.heap[tr.ptr], &self.threads[t]) {
                (Some(obj), Some(state)) => obj.get(token, state),
                _ => None,
            }
        } else {
            None
        }
    }
}

} // verus!
