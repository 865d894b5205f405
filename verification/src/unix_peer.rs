//! The identity of the other end of a local socket, as the kernel vouches for
//! it. It stays bound to the connected socket, whatever becomes of its path.

use vstd::prelude::*;

verus! {

/// Process and user at the other end.
#[derive(Debug, Clone, Copy, PartialEq, Eq, Structural)]
pub struct PeerCredentials {
    pub pid: i32,
    pub uid: u32,
}

} // verus!
