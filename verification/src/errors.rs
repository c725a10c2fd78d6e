//! The library's error values.

use vstd::prelude::*;

verus! {

/// The persisted document is not a well-formed XML document (for example an
/// empty file, or mismatched tags).
#[derive(Debug, Clone, Copy, PartialEq, Eq, Structural)]
pub struct DecodeError;

/// A task index is out of bounds for the current task list.
#[derive(Debug, Clone, Copy, PartialEq, Eq, Structural)]
pub struct IndexError;

} // verus!
