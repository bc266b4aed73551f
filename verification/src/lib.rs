//! A thread-local storage primitive, built without the language's own
//! `thread_local!` facility.
//!
//! Each thread that touches a cell gets its own lazily initialized value;
//! no value is ever shared between threads. Two backend strategies provide
//! the per-thread slots:
//!
//! - a native backend on top of an operating-system thread-specific-data
//!   key (`pthread_key_create` and friends), whose registered destructor
//!   reclaims a thread's slot when that thread terminates; and
//! - a portable fallback backend: one global, lock-guarded registry keyed
//!   by thread identity, which never reclaims slots (a deliberate
//!   leak-by-design trade-off).
//!
//! The verified core of both backends lives here: the registry that the
//! fallback backend locks ([`registry`]), the per-thread counter logic the
//! driver exercises ([`counter`]), and the semantic models under which the
//! isolation, single-initialization, non-interference, leak and
//! reclamation guarantees are proved ([`interleaving`], [`lifecycle`]).
//! The thin shells that Verus cannot see — the OS key calls, the global
//! mutex, thread spawning — live outside the library and only route plain
//! values into these functions.

pub mod counter;
pub mod interleaving;
pub mod lifecycle;
pub mod registry;

pub use counter::counter_value;
pub use counter::increment;
