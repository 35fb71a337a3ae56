//! A preemptive earliest-deadline-first scheduler core for a single-core
//! microcontroller with a nested vectored interrupt controller.
//!
//! The crate holds the scheduler's decisions as a state machine: what a
//! submission, a dispatcher entry and a dispatcher exit do to the shared
//! state, and which dispatcher interrupt has to be pended afterwards. Touching
//! the hardware (masking interrupts, pending a vector, reading the cycle
//! counter, calling the task) is left to the caller.

use vstd::prelude::*;

pub mod critical_section;
pub mod dispatchers;
pub mod edf;
pub mod parked;
pub mod scheduler;
pub mod slots;
pub mod task;
pub mod trace;

verus! {

/// A point in time, in ticks of the monotonic clock.
pub type Timestamp = u32;

/// A deadline, in ticks of the monotonic clock.
pub type Deadline = u32;

} // verus!
