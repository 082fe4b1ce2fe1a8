use vstd::prelude::*;

verus! {

/// Errors reported by the compute-function engine.
#[derive(Debug, Clone, Copy, PartialEq, Eq, Structural)]
pub enum ApplicationError {
    /// An invalid weight vector, or a child index beyond a node's arity.
    BadArg,
    /// A tree that still holds a placeholder was asked to become shader source.
    InvalidTreeState,
    /// A shader template without its substitution sentinel.
    TemplateError,
}

} // verus!
