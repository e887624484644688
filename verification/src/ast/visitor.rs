//! Visiting syntax trees.
use vstd::prelude::*;

verus! {

/// What a visitor does at a node.
#[derive(Debug)]
pub enum VisitAction<T> {
    /// Continue with the child nodes.
    VisitChildren,
    /// Skip the child nodes.
    SkipChildren,
    /// Replace the node, skipping its child nodes.
    Replace(T),
    /// Visit the child nodes, then replace the node.
    ReplaceRecurseChildNodes(T),
    /// Replace the node and visit the replacement.
    ReplaceRecurse(T),
    /// Turn the node into a no-op.
    ToNoop,
}

} // verus!
