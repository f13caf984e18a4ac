//! Flag constants that moderate Windows-style classification.  The values
//! are combinable bit masks.  Note that `IGNORE_INVALID_CHARS` and
//! `IGNORE_INVALID_CHARS_IN_LONG_PATH` share one bit value: both names are
//! kept, and the aliasing is a known ambiguity of this flag set.

use vstd::prelude::*;

verus! {

/// Collapse runs of separators (reserved: accepted but not acted upon).
pub const IGNORE_SLASH_RUNS: i32 = 0x00000001;

/// Tolerate invalid characters (reserved: accepted but not acted upon).
pub const IGNORE_INVALID_CHARS: i32 = 0x00000002;

/// Recognise a leading `~` as marking a home-rooted path.
pub const RECOGNISE_TILDE_HOME: i32 = 0x00000004;

/// Tolerate invalid characters in long paths (reserved: accepted but not
/// acted upon; shares its value with `IGNORE_INVALID_CHARS`).
pub const IGNORE_INVALID_CHARS_IN_LONG_PATH: i32 = 0x00000002;

} // verus!
