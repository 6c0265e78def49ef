//! The error taxonomy of the template engine.
//!
//! Every failure of a render call is one of these kinds; a render call
//! either produces the whole output or reports exactly one of them.

use vstd::prelude::*;

verus! {

/// A rendering failure. Each variant is a distinct detection condition;
/// a render call never emits partial output alongside one of these.
#[derive(Debug, Clone, Copy, PartialEq, Eq, Structural)]
pub enum RenderError {
    /// A code block was opened but never closed in the template text.
    Segmentation,
    /// A token stands where the value grammar forbids it: a variable or a
    /// filter in filter position, a logic keyword inside a value block, or
    /// a trailing pipe with no filter after it.
    Grammar,
    /// The referenced identifier is absent from the context.
    ContextLookup,
    /// The referenced identifier is present but its value is not a string.
    ValueType,
}

impl RenderError {
    /// A short human-readable description of the error kind.
    pub fn describe(&self) -> (r: &'static str)
        ensures
            r@ == spec_describe_error(*self),
    {
        match self {
            RenderError::Segmentation => "unterminated code block",
            RenderError::Grammar => "token in a position the value grammar forbids",
            RenderError::ContextLookup => "variable is not present in the context",
            RenderError::ValueType => "only string values are supported in the context",
        }
    }
}

/// The description text of each error kind.
pub open spec fn spec_describe_error(e: RenderError) -> Seq<char> {
    match e {
        RenderError::Segmentation => "unterminated code block"@,
        RenderError::Grammar => "token in a position the value grammar forbids"@,
        RenderError::ContextLookup => "variable is not present in the context"@,
        RenderError::ValueType => "only string values are supported in the context"@,
    }
}

} // verus!
