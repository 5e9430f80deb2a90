//! The typed failures a selection request can end in. An attribute path
//! that is simply absent from the document is not an error: it yields an
//! empty result sequence.

use vstd::prelude::*;

verus! {

/// Every failure the selector can report to its caller.
#[derive(Clone, Copy, PartialEq, Eq, Structural, Debug)]
pub enum SelectError {
    /// The document does not conform to the host grammar; nothing can be
    /// selected against. Fatal to the whole session.
    ParseError,
    /// The attribute path is empty, or one of its segments cannot appear
    /// as an attribute name in the host grammar.
    InvalidAttributePath,
    /// The requested scope frames are not given strictly outer-to-inner.
    InvalidScopeOrdering,
    /// The requested value shape has no defined pattern.
    UnsupportedValueShape,
    /// The structurally built pattern was rejected at a lower level.
    /// The compiler only emits grammar-valid shapes, so no request
    /// produces it; it is kept as a distinct, explicit failure.
    PatternCompileError,
}

} // verus!
