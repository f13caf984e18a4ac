//! Flag constants that moderate POSIX-style classification.  The values
//! are combinable bit masks.

use vstd::prelude::*;

verus! {

/// Collapse runs of separators (reserved: accepted but not acted upon).
pub const IGNORE_SLASH_RUNS: i32 = 0x00000001;

/// Tolerate invalid characters (reserved: accepted but not acted upon).
pub const IGNORE_INVALID_CHARS: i32 = 0x00000002;

/// Recognise a leading `~` as marking a home-rooted path.
pub const RECOGNISE_TILDE_HOME: i32 = 0x00000004;

/// Treat the input as naming a directory (reserved: accepted but not
/// acted upon).
pub const ASSUME_DIRECTORY: i32 = 0x00000008;

} // verus!
