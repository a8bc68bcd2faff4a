//! The compile-time error taxonomy. Every error aborts the invocation;
//! no partial output is ever produced alongside one.

use vstd::prelude::*;

verus! {

/// Why a compiler invocation was aborted.
#[derive(Clone, Copy, PartialEq, Eq, Structural, Debug)]
pub enum CompileError {
    /// The widget-description token structure is malformed.
    ParseError,
    /// A property expression does not parse as a valid expression.
    ExpressionAnalysisError,
    /// A required declaration is missing or duplicated, or a default
    /// cannot be resolved.
    CodegenPrecondition,
    /// The annotated definition holds a member of an unrecognized kind.
    UnsupportedConstruct,
}

impl DeepView for CompileError {
    type V = CompileError;

    open spec fn deep_view(&self) -> CompileError {
        *self
    }
}

} // verus!
