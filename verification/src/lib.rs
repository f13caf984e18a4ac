//! Lexical path classification.
//!
//! Given a path string and a bitmask of parse flags, the classifiers in
//! [`unix`] and [`windows`] determine the path's root category (relative,
//! slash-rooted, drive-letter-rooted, home-rooted, ...) and decompose the
//! string into named, non-overlapping regions — root, directory, entry
//! name, stem, extension — expressed as offset/length pairs over the
//! characters of the original string.  Nothing is allocated, copied or
//! normalised; a [`common::PositionalSlice`] is only a back-reference into
//! the string it was derived from.

pub mod common;
pub mod unix;
pub mod windows;
