//! Handle types for the per-function arenas.
//!
//! Every IR node is identified by a small dense index into an arena owned by
//! its `Function`. Handles are cheap to copy and compare; they never dangle
//! because arenas are append-only.

use vstd::prelude::*;

verus! {

/// A basic block / continuation.
#[derive(Clone, Copy, PartialEq, Eq, Structural, Hash, Debug)]
pub struct Block(pub usize);

/// An argument slot of a block.
#[derive(Clone, Copy, PartialEq, Eq, Structural, Hash, Debug)]
pub struct Argument(pub usize);

/// A reference to another function.
#[derive(Clone, Copy, PartialEq, Eq, Structural, Hash, Debug)]
pub struct FunRef(pub usize);

/// A pure value-producing operation.
#[derive(Clone, Copy, PartialEq, Eq, Structural, Hash, Debug)]
pub struct PrimOp(pub usize);

/// An SSA-like name: block, argument, constant or primop.
#[derive(Clone, Copy, PartialEq, Eq, Structural, Hash, Debug)]
pub struct Value(pub usize);

/// A de-duplicated constant term.
#[derive(Clone, Copy, PartialEq, Eq, Structural, Hash, Debug)]
pub struct Const(pub usize);

/// A de-duplicated source location (a stack of terminals).
#[derive(Clone, Copy, PartialEq, Eq, Structural, Hash, Debug)]
pub struct Location(pub usize);

/// One entry of a location: a single source position.
#[derive(Clone, Copy, PartialEq, Eq, Structural, Hash, Debug)]
pub struct LocationTerminal(pub usize);

/// The index reserved for a block handle that has not been assigned yet.
pub const BLOCK_RESERVED: usize = usize::MAX;

impl Default for Block {
    /// The default block handle is a reserved sentinel that no arena ever
    /// assigns.
    fn default() -> (r: Self)
        ensures
            r.0 == BLOCK_RESERVED,
    {
        Block(BLOCK_RESERVED)
    }
}

} // verus!
