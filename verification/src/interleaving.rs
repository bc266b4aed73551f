//! What any interleaving of threads does to the shared registry.
//!
//! The fallback backend serializes every access under one global lock, so
//! a whole multi-threaded execution is some sequence of atomic accesses:
//! `ops[i]` is the identity of the thread performing the `i`-th increment
//! through the cell. This module gives that semantics as a spec-level
//! state machine over unbounded integer counters and proves the cell's
//! guarantees over *every* such sequence: isolation, single
//! initialization, non-interference with untouched threads, and the
//! fallback backend's leak-by-design growth.
//!
//! [`lemma_increment_is_step`] ties the model to the executable code: one
//! call of [`crate::counter::increment`] performs exactly one [`step`].

use vstd::prelude::*;

use crate::counter::observed;

verus! {

/// A registry of `u32` counters, seen as unbounded integers.
pub open spec fn to_model(m: Map<u64, u32>) -> Map<u64, int> {
    m.map_values(|v: u32| v as int)
}

/// The counter thread `t` observes in model state `m` under a cell whose
/// initializer returns `v0`: its own slot, or `v0` before the first touch.
pub open spec fn base(m: Map<u64, int>, v0: int, t: u64) -> int {
    if m.dom().contains(t) {
        m[t]
    } else {
        v0
    }
}

/// One increment by thread `t`: lazily create the slot at `v0`, then add
/// one to it. No other slot changes.
pub open spec fn step(m: Map<u64, int>, v0: int, t: u64) -> Map<u64, int> {
    m.insert(t, base(m, v0, t) + 1)
}

/// An interleaved execution: the increments of all threads, in the order
/// the global lock admitted them.
pub open spec fn run(m: Map<u64, int>, v0: int, ops: Seq<u64>) -> Map<u64, int>
    decreases ops.len(),
{
    if ops.len() == 0 {
        m
    } else {
        step(run(m, v0, ops.drop_last()), v0, ops.last())
    }
}

/// How many of the interleaved increments thread `t` performed.
pub open spec fn count(ops: Seq<u64>, t: u64) -> nat
    decreases ops.len(),
{
    if ops.len() == 0 {
        0
    } else {
        count(ops.drop_last(), t) + if ops.last() == t {
            1nat
        } else {
            0nat
        }
    }
}

/// The executable increment realizes one model step: what
/// `crate::counter::increment` ensures of the registry is exactly
/// `step` on the registry's model.
pub proof fn lemma_increment_is_step(m: Map<u64, u32>, t: u64, v0: u32)
    requires
        observed(m, t, v0) < u32::MAX,
    ensures
        to_model(m.insert(t, (observed(m, t, v0) + 1) as u32)) == step(to_model(m), v0 as int, t),
{
    assert(to_model(m.insert(t, (observed(m, t, v0) + 1) as u32)) =~= step(
        to_model(m),
        v0 as int,
        t,
    ));
}

/// What one thread's counter reads after any interleaved run: its
/// starting value plus its own number of increments, whatever the other
/// threads did.
pub proof fn lemma_run_value(m: Map<u64, int>, v0: int, ops: Seq<u64>, t: u64)
    ensures
        run(m, v0, ops).dom().contains(t) <==> m.dom().contains(t) || count(ops, t) > 0,
        m.dom().contains(t) ==> run(m, v0, ops)[t] == m[t] + count(ops, t),
        !m.dom().contains(t) && count(ops, t) > 0 ==> run(m, v0, ops)[t] == v0 + count(ops, t),
    decreases ops.len(),
{
    if ops.len() > 0 {
        lemma_run_value(m, v0, ops.drop_last(), t);
    }
}

/// Isolation: starting with no slots, take any number of threads and any
/// interleaving of their increments. A thread that performed `n > 0`
/// increments observes exactly `v0 + n` — independent of how many other
/// threads ran and of how the operations interleaved.
pub proof fn lemma_isolation(v0: int, ops: Seq<u64>, t: u64)
    requires
        count(ops, t) > 0,
    ensures
        run(Map::<u64, int>::empty(), v0, ops).dom().contains(t),
        run(Map::<u64, int>::empty(), v0, ops)[t] == v0 + count(ops, t),
{
    lemma_run_value(Map::<u64, int>::empty(), v0, ops, t);
}

/// Non-interference: increments performed only by other threads leave
/// thread `t`'s slot exactly as it was — never created if absent,
/// unchanged if present.
pub proof fn lemma_non_interference(m: Map<u64, int>, v0: int, ops: Seq<u64>, t: u64)
    requires
        count(ops, t) == 0,
    ensures
        run(m, v0, ops).dom().contains(t) == m.dom().contains(t),
        m.dom().contains(t) ==> run(m, v0, ops)[t] == m[t],
{
    lemma_run_value(m, v0, ops, t);
}

/// How many of the increments in `ops` created thread `t`'s slot rather
/// than finding it already present.
pub open spec fn init_count(m: Map<u64, int>, v0: int, ops: Seq<u64>, t: u64) -> nat
    decreases ops.len(),
{
    if ops.len() == 0 {
        0
    } else {
        init_count(m, v0, ops.drop_last(), t) + if ops.last() == t && !run(
            m,
            v0,
            ops.drop_last(),
        ).dom().contains(t) {
            1nat
        } else {
            0nat
        }
    }
}

/// Single initialization: over any interleaved run, thread `t`'s slot is
/// created at most once — exactly once if the thread touches the cell at
/// all and had no slot to begin with, and never again afterwards, however
/// many more times it calls into the cell.
pub proof fn lemma_single_initialization(m: Map<u64, int>, v0: int, ops: Seq<u64>, t: u64)
    ensures
        init_count(m, v0, ops, t) <= 1,
        init_count(m, v0, ops, t) == if !m.dom().contains(t) && count(ops, t) > 0 {
            1nat
        } else {
            0nat
        },
    decreases ops.len(),
{
    if ops.len() > 0 {
        lemma_single_initialization(m, v0, ops.drop_last(), t);
        lemma_run_value(m, v0, ops.drop_last(), t);
    }
}

/// Leak by design: a run only ever adds slots. Afterwards the registry
/// holds exactly its old slots plus one per thread that touched the cell;
/// no slot is ever removed, in particular not when a thread exits.
pub proof fn lemma_leak_by_design(m: Map<u64, int>, v0: int, ops: Seq<u64>)
    ensures
        run(m, v0, ops).dom() == m.dom().union(ops.to_set()),
    decreases ops.len(),
{
    if ops.len() == 0 {
        assert(run(m, v0, ops).dom() =~= m.dom().union(ops.to_set()));
    } else {
        lemma_leak_by_design(m, v0, ops.drop_last());
        assert(ops =~= ops.drop_last().push(ops.last()));
        ops.drop_last().lemma_push_to_set_commute(ops.last());
        assert(run(m, v0, ops).dom() =~= m.dom().union(ops.to_set()));
    }
}

/// The concrete leak count: starting with no slots, after `n` distinct
/// threads have each touched the cell once, the registry holds exactly
/// `n` slots — and the count does not decrease merely because those
/// threads exited.
pub proof fn lemma_leak_count(v0: int, ops: Seq<u64>)
    requires
        ops.no_duplicates(),
    ensures
        run(Map::<u64, int>::empty(), v0, ops).dom().finite(),
        run(Map::<u64, int>::empty(), v0, ops).dom().len() == ops.len(),
{
    broadcast use vstd::seq_lib::seq_to_set_is_finite;

    lemma_leak_by_design(Map::<u64, int>::empty(), v0, ops);
    ops.unique_seq_to_set();
    assert(run(Map::<u64, int>::empty(), v0, ops).dom() =~= ops.to_set());
}

} // verus!
