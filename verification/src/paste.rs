//! Bracketed paste.

use vstd::prelude::*;

verus! {

/// What comes before pasted text.
pub const BRACKETED_PASTE_START: &'static str = "\x1b[200~";

/// What comes after pasted text.
pub const BRACKETED_PASTE_END: &'static str = "\x1b[201~";

} // verus!
