//! Waiting for something under a deadline: one look at a time.

use vstd::prelude::*;

verus! {

/// What to do after a look.
#[derive(Debug, Clone, Copy, PartialEq, Eq, Structural)]
pub enum WaitNext {
    /// What was waited for is there.
    Done,
    /// The deadline has passed.
    TimedOut,
    /// Look again; so much time is left.
    Again { left: u64 },
}

/// One look: whether the wait is over, on a clock whose unit is that of the
/// deadline. What is there in time counts, also at the deadline.
pub fn wait_step(now: u64, deadline: u64, done: bool) -> (r: WaitNext)
    ensures
        r == (if done {
            WaitNext::Done
        } else if now >= deadline {
            WaitNext::TimedOut
        } else {
            WaitNext::Again { left: (deadline - now) as u64 }
        }),
{
    if done {
        WaitNext::Done
    } else if now >= deadline {
        WaitNext::TimedOut
    } else {
        WaitNext::Again { left: deadline - now }
    }
}

} // verus!
