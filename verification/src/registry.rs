//! The fallback backend's registry: one process-wide mapping from thread
//! identity to that thread's slot.
//!
//! The portable backend keeps every thread's value in a single shared
//! registry, guarded by one global lock held by the caller around each
//! access. A thread identity is carried here as a plain `u64` token:
//! distinct live threads never share a token. Entries are inserted on a
//! thread's first touch and never removed — the registry only grows for
//! the life of the process, a deliberate leak-by-design trade-off of this
//! backend.
//!
//! The registry is represented as an association list whose keys are
//! distinct; its mathematical content is the map [`Registry::view`].

use vstd::prelude::*;

verus! {

/// One per-thread slot: the identity of the owning thread and the value
/// that only this thread ever observes.
pub struct Slot<T> {
    pub thread: u64,
    pub value: T,
}

/// The map described by an association list of slots: later entries would
/// shadow earlier ones, but a well-formed registry never has two slots for
/// one thread.
pub open spec fn map_of<T>(s: Seq<Slot<T>>) -> Map<u64, T>
    decreases s.len(),
{
    if s.len() == 0 {
        Map::empty()
    } else {
        map_of(s.drop_last()).insert(s.last().thread, s.last().value)
    }
}

/// No two slots belong to the same thread.
pub open spec fn distinct_threads<T>(s: Seq<Slot<T>>) -> bool {
    forall|i: int, j: int| 0 <= i < j < s.len() ==> s[i].thread != s[j].thread
}

/// The shared registry of per-thread slots.
pub struct Registry<T> {
    slots: Vec<Slot<T>>,
}

impl<T> View for Registry<T> {
    type V = Map<u64, T>;

    closed spec fn view(&self) -> Map<u64, T> {
        map_of(self.slots@)
    }
}

proof fn lemma_map_of_index<T>(s: Seq<Slot<T>>, i: int)
    requires
        distinct_threads(s),
        0 <= i < s.len(),
    ensures
        map_of(s).dom().contains(s[i].thread),
        map_of(s)[s[i].thread] == s[i].value,
    decreases s.len(),
{
    if i < s.len() - 1 {
        lemma_map_of_index(s.drop_last(), i);
    }
}

proof fn lemma_map_of_absent<T>(s: Seq<Slot<T>>, t: u64)
    requires
        forall|i: int| 0 <= i < s.len() ==> s[i].thread != t,
    ensures
        !map_of(s).dom().contains(t),
    decreases s.len(),
{
    if s.len() > 0 {
        lemma_map_of_absent(s.drop_last(), t);
    }
}

proof fn lemma_map_of_len<T>(s: Seq<Slot<T>>)
    requires
        distinct_threads(s),
    ensures
        map_of(s).dom().finite(),
        map_of(s).dom().len() == s.len(),
    decreases s.len(),
{
    if s.len() > 0 {
        lemma_map_of_len(s.drop_last());
        lemma_map_of_absent(s.drop_last(), s.last().thread);
    }
}

impl<T> Registry<T> {
    /// Every slot belongs to a different thread.
    pub closed spec fn wf(&self) -> bool {
        distinct_threads(self.slots@)
    }

    /// An empty registry: no thread has touched the cell yet.
    pub fn new() -> (r: Registry<T>)
        ensures
            r.wf(),
            r@ == Map::<u64, T>::empty(),
    {
        Registry { slots: Vec::new() }
    }

    /// The index of thread `t`'s slot, if that thread has one.
    fn find(&self, t: u64) -> (r: Option<usize>)
        requires
            self.wf(),
        ensures
            match r {
                Some(i) => i < self.slots@.len() && self.slots@[i as int].thread == t
                    && self@.dom().contains(t) && self@[t] == self.slots@[i as int].value,
                None => !self@.dom().contains(t),
            },
    {
        let n = self.slots.len();
        let mut i: usize = 0;
        while i < n
            invariant
                self.wf(),
                n == self.slots@.len(),
                i <= n,
                forall|j: int| 0 <= j < i ==> self.slots@[j].thread != t,
            decreases n - i,
        {
            if self.slots[i].thread == t {
                proof {
                    lemma_map_of_index(self.slots@, i as int);
                }
                return Some(i);
            }
            i = i + 1;
        }
        proof {
            lemma_map_of_absent(self.slots@, t);
        }
        None
    }

    /// Whether thread `t` already has a slot.
    pub fn contains(&self, t: u64) -> (r: bool)
        requires
            self.wf(),
        ensures
            r == self@.dom().contains(t),
    {
        self.find(t).is_some()
    }

    /// How many threads have a slot. The count never goes down: slots are
    /// never reclaimed by this backend.
    pub fn len(&self) -> (n: usize)
        requires
            self.wf(),
        ensures
            n == self@.dom().len(),
    {
        proof {
            lemma_map_of_len(self.slots@);
        }
        self.slots.len()
    }

    /// A borrow of thread `t`'s value, if that thread has a slot.
    pub fn lookup(&self, t: u64) -> (r: Option<&T>)
        requires
            self.wf(),
        ensures
            r.is_some() == self@.dom().contains(t),
            r matches Some(v) ==> *v == self@[t],
    {
        match self.find(t) {
            Some(i) => Some(&self.slots[i].value),
            None => None,
        }
    }

    /// Give thread `t` its slot, holding `v`. Only the first touch by a
    /// thread inserts; the keys stay distinct.
    pub fn insert_new(&mut self, t: u64, v: T)
        requires
            old(self).wf(),
            !old(self)@.dom().contains(t),
        ensures
            final(self).wf(),
            final(self)@ == old(self)@.insert(t, v),
    {
        proof {
            assert forall|i: int| 0 <= i < self.slots@.len() implies self.slots@[i].thread != t by {
                if self.slots@[i].thread == t {
                    lemma_map_of_index(self.slots@, i);
                }
            }
        }
        let ghost s0 = self.slots@;
        self.slots.push(Slot { thread: t, value: v });
        proof {
            assert(self.slots@.drop_last() =~= s0);
        }
    }

    /// The heart of the fallback backend: return thread `t`'s value,
    /// creating the slot with `init`'s result if this is `t`'s first
    /// touch. The initializer runs only on that first touch; an existing
    /// slot is returned untouched, and no other thread's slot changes
    /// either way.
    pub fn get_or_init<F: FnOnce() -> T>(&mut self, t: u64, init: F) -> (r: &T)
        requires
            old(self).wf(),
            call_requires(init, ()),
        ensures
            final(self).wf(),
            final(self)@.dom().contains(t),
            *r == final(self)@[t],
            old(self)@.dom().contains(t) ==> final(self)@ == old(self)@ && *r == old(self)@[t],
            !old(self)@.dom().contains(t) ==> call_ensures(init, (), *r)
                && final(self)@ == old(self)@.insert(t, *r),
    {
        match self.find(t) {
            Some(i) => &self.slots[i].value,
            None => {
                let v = init();
                self.insert_new(t, v);
                match self.find(t) {
                    Some(i) => &self.slots[i].value,
                    None => {
                        proof {
                            assert(false);
                        }
                        &self.slots[0].value
                    },
                }
            },
        }
    }

    /// Replace thread `t`'s value. Only `t`'s own slot changes: this is
    /// how a thread mutates its private value while holding the global
    /// lock.
    pub fn set(&mut self, t: u64, v: T)
        requires
            old(self).wf(),
            old(self)@.dom().contains(t),
        ensures
            final(self).wf(),
            final(self)@ == old(self)@.insert(t, v),
    {
        let ghost s0 = self.slots@;
        match self.find(t) {
            Some(i) => {
                self.slots[i].value = v;
                proof {
                    assert(distinct_threads(self.slots@));
                    lemma_map_of_set(s0, i as int, v);
                }
            },
            None => {
                proof {
                    assert(false);
                }
            },
        }
    }

    /// One access through the cell, as the public facade performs it: get
    /// or lazily create thread `t`'s value, then hand a borrow of it to
    /// `caller` and return whatever `caller` does. The borrow never
    /// outlives the call, and no other thread's slot is read or written.
    pub fn with<R, F: FnOnce() -> T, G: FnOnce(&T) -> R>(&mut self, t: u64, init: F, caller: G) -> (r: R)
        requires
            old(self).wf(),
            call_requires(init, ()),
            old(self)@.dom().contains(t) ==> call_requires(caller, (&old(self)@[t],)),
            !old(self)@.dom().contains(t) ==> forall|v: T|
                call_ensures(init, (), v) ==> call_requires(caller, (&v,)),
        ensures
            final(self).wf(),
            final(self)@.dom().contains(t),
            old(self)@.dom().contains(t) ==> final(self)@ == old(self)@,
            !old(self)@.dom().contains(t) ==> call_ensures(init, (), final(self)@[t])
                && final(self)@ == old(self)@.insert(t, final(self)@[t]),
            call_ensures(caller, (&final(self)@[t],), r),
    {
        let v = self.get_or_init(t, init);
        caller(v)
    }
}

proof fn lemma_map_of_set<T>(s: Seq<Slot<T>>, i: int, v: T)
    requires
        distinct_threads(s),
        0 <= i < s.len(),
    ensures
        map_of(s.update(i, Slot { thread: s[i].thread, value: v }))
            == map_of(s).insert(s[i].thread, v),
    decreases s.len(),
{
    let s2 = s.update(i, Slot { thread: s[i].thread, value: v });
    if i == s.len() - 1 {
        assert(s2.drop_last() =~= s.drop_last());
        assert(map_of(s2) =~= map_of(s).insert(s[i].thread, v));
    } else {
        lemma_map_of_set(s.drop_last(), i, v);
        assert(s2.drop_last() =~= s.drop_last().update(i, Slot { thread: s[i].thread, value: v }));
        lemma_map_of_absent_helper(s, i);
        assert(map_of(s2) =~= map_of(s).insert(s[i].thread, v));
    }
}

proof fn lemma_map_of_absent_helper<T>(s: Seq<Slot<T>>, i: int)
    requires
        distinct_threads(s),
        0 <= i < s.len() - 1,
    ensures
        s[i].thread != s.last().thread,
{
}

} // verus!
