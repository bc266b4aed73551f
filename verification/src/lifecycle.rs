//! The native backend's thread lifecycle: slots and their reclamation.
//!
//! The native backend keeps each thread's slot under an OS
//! thread-specific-data key. A thread that touches the cell gets a
//! heap-owned slot stored under the key; when that thread terminates, the
//! OS runs the registered destructor, which takes ownership of the slot
//! back and drops it — exactly once, on exactly the terminating thread. A
//! thread that never touched the cell stores nothing, and no destructor
//! runs for it.
//!
//! This module models one key's history as a sequence of events — a
//! thread touching the cell, a thread terminating — and proves the
//! reclamation contract over every well-formed history: the set of
//! reclaimed slots is exactly the set of threads that touched the cell
//! and then terminated, so each such thread is reclaimed once and no
//! other thread ever is. [`slot_action`] is the per-call decision the
//! backend makes from what the OS key holds for the calling thread.

use vstd::prelude::*;

verus! {

/// One observable event in a key's history.
pub enum ThreadEvent {
    /// Thread `thread` calls into the cell (and so owns a slot from then
    /// until it terminates).
    Touch { thread: u64 },
    /// Thread `thread` terminates; the OS runs the key's destructor if
    /// this thread holds a slot.
    Exit { thread: u64 },
}

/// The thread an event belongs to.
pub open spec fn thread_of(e: ThreadEvent) -> u64 {
    match e {
        ThreadEvent::Touch { thread } => thread,
        ThreadEvent::Exit { thread } => thread,
    }
}

/// The state of one key: which live threads hold a slot, and which
/// threads' slots the destructor has reclaimed.
pub struct KeyState {
    pub live: Set<u64>,
    pub reclaimed: Set<u64>,
}

/// Before any thread touches the cell: no slots, nothing reclaimed.
pub open spec fn initial() -> KeyState {
    KeyState { live: Set::empty(), reclaimed: Set::empty() }
}

/// What one event does to the key's state. A touch creates the calling
/// thread's slot if it has none; an exit moves the thread's slot — if it
/// ever made one — from live to reclaimed, and does nothing for a thread
/// that never touched the cell.
pub open spec fn step(s: KeyState, e: ThreadEvent) -> KeyState {
    match e {
        ThreadEvent::Touch { thread } => KeyState {
            live: s.live.insert(thread),
            reclaimed: s.reclaimed,
        },
        ThreadEvent::Exit { thread } => if s.live.contains(thread) {
            KeyState { live: s.live.remove(thread), reclaimed: s.reclaimed.insert(thread) }
        } else {
            s
        },
    }
}

/// A whole history of the key, event by event.
pub open spec fn run(s: KeyState, evs: Seq<ThreadEvent>) -> KeyState
    decreases evs.len(),
{
    if evs.len() == 0 {
        s
    } else {
        step(run(s, evs.drop_last()), evs.last())
    }
}

/// A history a real scheduler can produce: a terminated thread performs
/// no further event, so nothing of thread `t` — neither a touch nor a
/// second exit — follows an exit of `t`.
pub open spec fn wf_history(evs: Seq<ThreadEvent>) -> bool {
    forall|i: int, j: int|
        #![trigger evs[i], evs[j]]
        0 <= i < j < evs.len() && evs[i] is Exit ==> thread_of(evs[j]) != thread_of(evs[i])
}

/// The threads that touched the cell during a history.
pub open spec fn touched(evs: Seq<ThreadEvent>) -> Set<u64>
    decreases evs.len(),
{
    if evs.len() == 0 {
        Set::empty()
    } else {
        match evs.last() {
            ThreadEvent::Touch { thread } => touched(evs.drop_last()).insert(thread),
            ThreadEvent::Exit { .. } => touched(evs.drop_last()),
        }
    }
}

/// The threads that terminated during a history.
pub open spec fn exited(evs: Seq<ThreadEvent>) -> Set<u64>
    decreases evs.len(),
{
    if evs.len() == 0 {
        Set::empty()
    } else {
        match evs.last() {
            ThreadEvent::Touch { .. } => exited(evs.drop_last()),
            ThreadEvent::Exit { thread } => exited(evs.drop_last()).insert(thread),
        }
    }
}

proof fn lemma_exited_has_exit_event(evs: Seq<ThreadEvent>, t: u64)
    requires
        exited(evs).contains(t),
    ensures
        exists|i: int| 0 <= i < evs.len() && evs[i] == (ThreadEvent::Exit { thread: t }),
    decreases evs.len(),
{
    if evs.len() > 0 {
        match evs.last() {
            ThreadEvent::Exit { thread } => {
                if thread == t {
                    assert(evs[evs.len() - 1] == (ThreadEvent::Exit { thread: t }));
                } else {
                    lemma_exited_has_exit_event(evs.drop_last(), t);
                    let i = choose|i: int|
                        0 <= i < evs.drop_last().len() && evs.drop_last()[i] == (ThreadEvent::Exit {
                            thread: t,
                        });
                    assert(evs[i] == (ThreadEvent::Exit { thread: t }));
                }
            },
            ThreadEvent::Touch { .. } => {
                lemma_exited_has_exit_event(evs.drop_last(), t);
                let i = choose|i: int|
                    0 <= i < evs.drop_last().len() && evs.drop_last()[i] == (ThreadEvent::Exit {
                        thread: t,
                    });
                assert(evs[i] == (ThreadEvent::Exit { thread: t }));
            },
        }
    }
}

/// In a well-formed history whose last event belongs to thread `t`, no
/// earlier event is an exit of `t`.
proof fn lemma_no_exit_before_last(evs: Seq<ThreadEvent>)
    requires
        wf_history(evs),
        evs.len() > 0,
    ensures
        !exited(evs.drop_last()).contains(thread_of(evs.last())),
{
    let t = thread_of(evs.last());
    if exited(evs.drop_last()).contains(t) {
        lemma_exited_has_exit_event(evs.drop_last(), t);
        let i = choose|i: int|
            0 <= i < evs.drop_last().len() && evs.drop_last()[i] == (ThreadEvent::Exit {
                thread: t,
            });
        assert(evs[i] == (ThreadEvent::Exit { thread: t }));
        assert(thread_of(evs[evs.len() - 1]) != thread_of(evs[i]));
        assert(false);
    }
}

/// The shape of the key's state after any well-formed history: the
/// threads still holding a slot are those that touched the cell and have
/// not terminated, and the reclaimed slots are exactly those of threads
/// that touched the cell and then terminated.
pub proof fn lemma_state_characterization(evs: Seq<ThreadEvent>)
    requires
        wf_history(evs),
    ensures
        run(initial(), evs).live == touched(evs).difference(exited(evs)),
        run(initial(), evs).reclaimed == touched(evs).intersect(exited(evs)),
    decreases evs.len(),
{
    if evs.len() == 0 {
        assert(run(initial(), evs).live =~= touched(evs).difference(exited(evs)));
        assert(run(initial(), evs).reclaimed =~= touched(evs).intersect(exited(evs)));
    } else {
        let dl = evs.drop_last();
        assert(wf_history(dl)) by {
            assert forall|i: int, j: int|
                0 <= i < j < dl.len() && dl[i] is Exit implies thread_of(dl[j]) != thread_of(
                dl[i],
            ) by {
                assert(dl[i] == evs[i]);
                assert(dl[j] == evs[j]);
            }
        }
        lemma_state_characterization(dl);
        lemma_no_exit_before_last(evs);
        let t = thread_of(evs.last());
        match evs.last() {
            ThreadEvent::Touch { .. } => {
                assert(run(initial(), evs).live =~= touched(evs).difference(exited(evs)));
                assert(run(initial(), evs).reclaimed =~= touched(evs).intersect(exited(evs)));
            },
            ThreadEvent::Exit { .. } => {
                if run(initial(), dl).live.contains(t) {
                    assert(touched(dl).contains(t));
                    assert(run(initial(), evs).live =~= touched(evs).difference(exited(evs)));
                    assert(run(initial(), evs).reclaimed =~= touched(evs).intersect(exited(evs)));
                } else {
                    assert(!touched(dl).contains(t));
                    assert(run(initial(), evs).live =~= touched(evs).difference(exited(evs)));
                    assert(run(initial(), evs).reclaimed =~= touched(evs).intersect(exited(evs)));
                }
            },
        }
    }
}

/// Destructor firing: once every thread that touched the cell has
/// terminated (say, after all workers are joined), the destructor has
/// reclaimed exactly one slot per thread that touched the cell — no slot
/// is left live, no thread is reclaimed twice (the reclaimed threads form
/// a set), and no destructor ever ran for a thread that never touched the
/// cell.
pub proof fn lemma_destructor_fires(evs: Seq<ThreadEvent>)
    requires
        wf_history(evs),
        touched(evs).subset_of(exited(evs)),
    ensures
        run(initial(), evs).reclaimed == touched(evs),
        run(initial(), evs).live == Set::<u64>::empty(),
{
    lemma_state_characterization(evs);
    assert(touched(evs).intersect(exited(evs)) =~= touched(evs));
    assert(touched(evs).difference(exited(evs)) =~= Set::<u64>::empty());
}

/// What the native backend must do for the calling thread on one access.
#[derive(PartialEq, Eq, Structural, Clone, Copy, Debug)]
pub enum SlotAction {
    /// The OS key holds nothing for this thread yet: run the initializer
    /// once, move the result into a fresh heap slot, and store it under
    /// the key.
    Initialize,
    /// The key already holds this thread's slot: use it, without touching
    /// the initializer.
    Reuse,
}

/// The native backend's per-call decision, from whether the OS key holds
/// a slot for the calling thread: initialize exactly on the first touch,
/// reuse ever after.
pub fn slot_action(occupied: bool) -> (a: SlotAction)
    ensures
        a == SlotAction::Initialize <==> !occupied,
        a == SlotAction::Reuse <==> occupied,
{
    if occupied {
        SlotAction::Reuse
    } else {
        SlotAction::Initialize
    }
}

} // verus!
