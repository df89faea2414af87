//! Shared-counter demo: a fixed crew of workers each increments one shared
//! integer exactly once, and the final value is read only after every worker
//! has finished.
//!
//! A mutual-exclusion lock serializes the increments, so every schedule is
//! observationally one sequence of five increments of a counter that starts
//! at zero. This module verifies that serialized behaviour; a host program
//! may run the increments on real threads around a lock and obtains the same
//! final value.

use vstd::prelude::*;

verus! {

/// Number of workers the demo spawns.
pub const WORKER_COUNT: usize = 5;

/// One worker's critical section: the increment performed while the lock is
/// held.
pub fn increment(count: i32) -> (r: i32)
    requires
        count < i32::MAX,
    ensures
        r == count + 1,
{
    count + 1
}

/// Runs the serialized schedule of the demo: `WORKER_COUNT` increments of a
/// counter that starts at zero, one per worker, then reads the final value.
///
/// Mutual exclusion rules out lost updates, so the result equals the number
/// of workers on every execution.
pub fn shared_increment_demo() -> (r: i32)
    ensures
        r == WORKER_COUNT as i32,
{
    let mut count: i32 = 0;
    let mut spawned: usize = 0;
    while spawned < WORKER_COUNT
        invariant
            spawned <= WORKER_COUNT,
            count == spawned as i32,
        decreases WORKER_COUNT - spawned,
    {
        count = increment(count);
        spawned = spawned + 1;
    }
    count
}

} // verus!
