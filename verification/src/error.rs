use vstd::prelude::*;

verus! {

/// Why a path could not be resolved at one level of a route table.
#[derive(Debug, Clone, Copy, PartialEq, Eq, Structural)]
pub enum Error {
    /// The path began with a separator: only relative paths are resolved.
    InvalidPath,
    /// No pattern of this level matches the path.
    NotFound,
}

} // verus!
