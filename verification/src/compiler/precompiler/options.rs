//! Options of the precompiler.
use vstd::prelude::*;

verus! {

/// Options of the precompiler.
#[derive(Debug, Clone, Copy, PartialEq, Eq, Structural, Default)]
pub struct PrecompilerOptions {
    /// If enabled, all collected errors as well as the rich AST are returned if one or
    /// more errors occurred; otherwise only the first error is returned (fast failing).
    pub detailed_errors: bool,
}

} // verus!
