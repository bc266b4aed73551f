//! The per-thread counter that the demonstration driver keeps in a cell.
//!
//! Each thread's slot holds one `u32` counter, created at `v0` on the
//! thread's first touch and private to that thread afterwards. The driver
//! increments the counter through the cell and finally reads it back;
//! both steps are plain computations on the registry and are verified
//! here. The shell around the library supplies the calling thread's
//! identity token and the lock that guards the registry.

use vstd::prelude::*;

use crate::registry::Registry;

verus! {

/// The counter value thread `t` observes under a cell whose initializer
/// returns `v0`: its own slot's value, or `v0` if it has not touched the
/// cell yet.
pub open spec fn observed(m: Map<u64, u32>, t: u64, v0: u32) -> u32 {
    if m.dom().contains(t) {
        m[t]
    } else {
        v0
    }
}

/// Add one to the calling thread's private counter, creating it at `v0`
/// on the thread's first touch. No other thread's slot is read or
/// written.
pub fn increment(reg: &mut Registry<u32>, t: u64, v0: u32)
    requires
        old(reg).wf(),
        observed(old(reg)@, t, v0) < u32::MAX,
    ensures
        final(reg).wf(),
        final(reg)@ == old(reg)@.insert(t, (observed(old(reg)@, t, v0) + 1) as u32),
{
    let ghost m0 = reg@;
    let init = move || -> (r: u32)
        ensures
            r == v0,
        { v0 };
    let cur: u32 = *reg.get_or_init(t, init);
    reg.set(t, cur + 1);
    proof {
        assert(reg@ =~= m0.insert(t, (observed(m0, t, v0) + 1) as u32));
    }
}

/// Read the calling thread's own counter, creating it at `v0` on a first
/// touch, exactly as the driver's final read-back does.
pub fn counter_value(reg: &mut Registry<u32>, t: u64, v0: u32) -> (r: u32)
    requires
        old(reg).wf(),
    ensures
        final(reg).wf(),
        r == observed(old(reg)@, t, v0),
        final(reg)@ == old(reg)@.insert(t, r),
{
    let ghost m0 = reg@;
    let init = move || -> (r: u32)
        ensures
            r == v0,
        { v0 };
    let r = *reg.get_or_init(t, init);
    proof {
        assert(reg@ =~= m0.insert(t, r));
    }
    r
}

} // verus!
