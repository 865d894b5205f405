//! Non-blocking connects for callers that wait for many session sockets at
//! once under one deadline. Nothing blocks; the caller retries a full queue
//! until its own deadline.

use vstd::prelude::*;

verus! {

/// How long to wait before a connect that found a full queue is tried again,
/// in milliseconds.
pub const RETRY_TICK: u64 = 10;

/// Microseconds in whole milliseconds, rounded up.
pub open spec fn ceil_ms(us: int) -> int {
    if us % 1000 == 0 {
        us / 1000
    } else {
        us / 1000 + 1
    }
}

/// How long to wait for the sockets, in milliseconds: until the deadline or
/// the next retry, whichever comes first, rounded up so that a remainder does
/// not become a busy spin. `None` when the deadline has passed.
pub fn poll_until(now: u64, deadline: u64, next_retry: Option<u64>) -> (r: Option<i32>)
    ensures
        match r {
            None => now >= deadline,
            Some(ms) => now < deadline && ({
                let wake = match next_retry {
                    Some(at) if at < deadline => at,
                    _ => deadline,
                };
                let us: int = if wake > now {
                    wake - now
                } else {
                    0
                };
                ms == (if ceil_ms(us) > i32::MAX {
                    i32::MAX as int
                } else {
                    ceil_ms(us)
                })
            }),
        },
{
    if now >= deadline {
        return None;
    }
    let mut wake: u64 = deadline;
    if let Some(at) = next_retry {
        if at < deadline {
            wake = at;
        }
    }
    let us: u64 = if wake > now {
        wake - now
    } else {
        0
    };
    let mut ms: u64 = us / 1000;
    if us % 1000 != 0 {
        ms = ms + 1;
    }
    if ms > i32::MAX as u64 {
        Some(i32::MAX)
    } else {
        Some(ms as i32)
    }
}

/// What is wrong with the path of a local socket: a zero inside it, or no room
/// for it in the address.
pub fn sockaddr_error(path: &[u8], room: usize) -> (r: Option<&'static str>)
    ensures
        match r {
            Some(text) => if path@.contains(0u8) {
                text@ == "paths must not contain interior null bytes"@
            } else {
                path@.len() >= room && text@ == "path must be shorter than SUN_LEN"@
            },
            None => !path@.contains(0u8) && path@.len() < room,
        },
{
    let mut i: usize = 0;
    while i < path.len()
        invariant
            i <= path@.len(),
            forall|j: int| 0 <= j < i ==> path@[j] != 0,
        decreases path.len() - i,
    {
        if path[i] == 0 {
            assert(path@.contains(0u8));
            return Some("paths must not contain interior null bytes");
        }
        i += 1;
    }
    if path.len() >= room {
        return Some("path must be shorter than SUN_LEN");
    }
    None
}

/// Rounding up to milliseconds gives the fewest whole ones that are not less.
pub proof fn law_rounding_up(us: int)
    requires
        us >= 0,
    ensures
        1000 * ceil_ms(us) >= us,
        1000 * (ceil_ms(us) - 1) < us,
        RETRY_TICK == 10,
{
}

} // verus!
