//! Thread-exit bookkeeping: a FIFO of exited (pid, tid) pairs, each
//! stamped with its exit time, drained once a grace period has passed.

use vstd::prelude::*;

verus! {

#[derive(Debug, Clone, Copy, PartialEq, Eq, Structural)]
pub struct DeleteTid {
    pub pid: u32,
    pub tid: u32,
    /// Exit wall time, nanoseconds since the Unix epoch.
    pub exit_time: u64,
}

impl Default for DeleteTid {
    fn default() -> (r: Self)
        ensures
            r == (DeleteTid { pid: 0u32, tid: 0u32, exit_time: 0u64 }),
    {
        DeleteTid { pid: 0, tid: 0, exit_time: 0 }
    }
}

} // verus!
