use tls_cell::counter_value;
use tls_cell::increment;
use tls_cell::registry::Registry;

// The driver's scenario: a cell whose initializer returns 0, four worker
// threads each incrementing their own counter 20 times, and the spawning
// thread reading its own counter afterwards. The fallback backend
// serializes all accesses under one lock, so any such execution is some
// interleaving of the workers' increments on the shared registry; thread
// identity tokens stand in for the threads here.
#[test]
fn four_workers_each_count_to_twenty() {
    let mut reg: Registry<u32> = Registry::new();
    let workers: [u64; 4] = [1, 2, 3, 4];
    // A round-robin interleaving of the four workers' increments.
    for _round in 0..20 {
        for &t in workers.iter() {
            increment(&mut reg, t, 0);
        }
    }
    for &t in workers.iter() {
        assert_eq!(counter_value(&mut reg, t, 0), 20);
    }
    // The spawning thread never incremented: it observes the initializer's
    // value, untouched by the workers.
    assert_eq!(counter_value(&mut reg, 0, 0), 0);
}

#[test]
fn isolation_holds_for_any_interleaving() {
    let mut reg: Registry<u32> = Registry::new();
    // An irregular interleaving: thread 1 increments 3 times, thread 2
    // increments 5 times.
    let ops: [u64; 8] = [2, 1, 2, 2, 1, 2, 1, 2];
    for &t in ops.iter() {
        increment(&mut reg, t, 10);
    }
    assert_eq!(counter_value(&mut reg, 1, 10), 13);
    assert_eq!(counter_value(&mut reg, 2, 10), 15);
}

#[test]
fn initializer_value_is_used_only_on_first_touch() {
    let mut reg: Registry<u32> = Registry::new();
    // First touch creates the slot at 7 and increments it.
    increment(&mut reg, 9, 7);
    // Later touches find the slot; the initializer value plays no part.
    increment(&mut reg, 9, 7);
    assert_eq!(counter_value(&mut reg, 9, 7), 9);
}

#[test]
fn untouched_thread_observes_the_initial_value() {
    let mut reg: Registry<u32> = Registry::new();
    increment(&mut reg, 1, 5);
    increment(&mut reg, 2, 5);
    // Thread 3 never touched the cell: it reads the initializer's value.
    assert_eq!(counter_value(&mut reg, 3, 5), 5);
}

#[test]
fn slots_accumulate_and_are_never_reclaimed() {
    let mut reg: Registry<u32> = Registry::new();
    // Five distinct threads each touch the cell once, then "terminate":
    // the fallback backend never removes their entries.
    for t in 1..=5u64 {
        increment(&mut reg, t, 0);
    }
    assert_eq!(reg.len(), 5);
    // Further touches by the same threads add nothing.
    for t in 1..=5u64 {
        increment(&mut reg, t, 0);
    }
    assert_eq!(reg.len(), 5);
}
