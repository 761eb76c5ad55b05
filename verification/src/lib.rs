//! A growable text container with small-string optimization.
//!
//! Text short enough to fit in the container's fixed footprint is stored
//! inline, with no heap allocation; longer text is transparently migrated to
//! a heap-backed buffer.  The two representations share a discriminant bit at
//! a common position, so the active form can be told apart without separate
//! tag storage.  The byte-level layout only makes sense on a 64-bit target,
//! which the crate assumes throughout.

pub mod encoding;
pub mod long_string;
pub mod raw_buf;
pub mod short_string;
pub mod sso_string;
pub mod unified_alloc;
