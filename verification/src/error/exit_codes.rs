//! Exit codes for the CLI.

use vstd::prelude::*;

verus! {

/// Success.
pub const SUCCESS: u8 = 0;

/// General error.
pub const ERROR: u8 = 1;

/// Conflict error (e.g., claim already held).
pub const CONFLICT: u8 = 2;

} // verus!
