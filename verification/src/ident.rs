//! Function identity, dialect tag, source spans and block attributes.

use vstd::prelude::*;

verus! {

/// A span of byte offsets in some source file. The diagnostics collaborator
/// owns the mapping from spans to files; the IR only stores and forwards
/// spans.
#[derive(Clone, Copy, PartialEq, Eq, Structural, Hash, Debug)]
pub struct SourceSpan {
    pub start: usize,
    pub end: usize,
}

/// The span used when no source position is known.
pub const UNKNOWN_SPAN_INDEX: usize = usize::MAX;

impl SourceSpan {
    /// The distinguished unknown span.
    pub fn unknown() -> (r: SourceSpan)
        ensures
            r == SourceSpan::spec_unknown(),
    {
        SourceSpan { start: UNKNOWN_SPAN_INDEX, end: UNKNOWN_SPAN_INDEX }
    }

    pub open spec fn spec_unknown() -> SourceSpan {
        SourceSpan { start: UNKNOWN_SPAN_INDEX, end: UNKNOWN_SPAN_INDEX }
    }
}

/// Module, name and arity of a function.
#[derive(Clone, Debug)]
pub struct FunctionIdent {
    pub module: String,
    pub name: String,
    pub arity: usize,
}

/// The set of operations a front-end is permitted to emit. Dialects beyond
/// the normal one extend the IR through `OpKind::Dyn` and intrinsics.
#[derive(Clone, Copy, PartialEq, Eq, Structural, Debug)]
pub enum Dialect {
    Normal,
}

/// Keys of block attributes.
#[derive(Clone, Copy, PartialEq, Eq, Structural, Hash, Debug)]
pub enum AttributeKey {
    Continuation,
}

/// Values of block attributes.
#[derive(Clone, Copy, PartialEq, Eq, Structural, Debug)]
pub enum AttributeValue {
    Absent,
}

} // verus!
