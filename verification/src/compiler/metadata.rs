//! Metadata that is passed down while compiling an expression.
use vstd::prelude::*;

verus! {

/// Where an expression is compiled.
#[derive(Debug, Clone, Copy, PartialEq, Eq, Structural)]
pub struct CompileMetadata {
    is_outer_context: bool,
}

impl CompileMetadata {
    /// Whether the expression is compiled in the outer context.
    pub closed spec fn outer_context(self) -> bool {
        self.is_outer_context
    }

    /// Metadata of the outer context.
    pub fn outer() -> (metadata: Self)
        ensures
            metadata.outer_context(),
    {
        CompileMetadata { is_outer_context: true }
    }

    /// Whether the expression is compiled in the outer context.
    pub fn is_outer_context(&self) -> (b: bool)
        ensures
            b == self.outer_context(),
    {
        self.is_outer_context
    }
}

impl Default for CompileMetadata {
    /// Metadata of an expression nested in another one.
    fn default() -> (metadata: Self)
        ensures
            !metadata.outer_context(),
    {
        CompileMetadata { is_outer_context: false }
    }
}

} // verus!
