//! Value and primop payload data.

use vstd::prelude::*;

use crate::entity::{Block, Const, Location, PrimOp, Value};

verus! {

/// What a value denotes.
#[derive(Clone, Copy, PartialEq, Eq, Structural, Debug)]
pub enum ValueKind {
    /// The value naming block `b` as a continuation.
    Block(Block),
    /// The n-th formal argument of a block.
    Argument(Block, usize),
    /// An interned constant.
    Const(Const),
    /// A pure value-level operation.
    PrimOp(PrimOp),
}

/// Kinds of pure value-producing operations.
#[derive(Clone, Copy, PartialEq, Eq, Structural, Debug)]
pub enum PrimOpKind {
    /// A tuple of values passed as one operand.
    ValueList,
    /// A tuple term.
    Tuple,
    /// A list cell term.
    ListCell,
    /// A binary arithmetic or comparison operation.
    BinOp(BinOp),
    /// A logical connective over boolean values.
    LogicOp(LogicOp),
    /// A capture of `module:function/arity` as a value.
    CaptureFunction,
}

#[derive(Clone, Copy, PartialEq, Eq, Structural, Debug)]
pub enum BinOp {
    Eq,
    Ne,
    Lt,
    Le,
    Gt,
    Ge,
}

#[derive(Clone, Copy, PartialEq, Eq, Structural, Debug)]
pub enum LogicOp {
    And,
    Or,
}

/// Arena payload of one value.
pub struct ValueData {
    pub kind: ValueKind,
    pub location: Option<Location>,
    /// Cache of the value itself followed by every value nested below it
    /// through primop operands, in visiting order. Maintained by the
    /// builder; `Function::wf` ties it to the operand closure.
    pub nested: Vec<Value>,
}

/// Arena payload of one primop.
pub struct PrimOpData {
    pub op: PrimOpKind,
    pub reads: Vec<Value>,
}

/// Element-wise comparison of two value handle lists.
pub fn value_vec_eq(a: &Vec<Value>, b: &Vec<Value>) -> (r: bool)
    ensures
        r == (a@ == b@),
{
    if a.len() != b.len() {
        proof {
            assert(a@.len() != b@.len());
        }
        return false;
    }
    let n = a.len();
    let mut i: usize = 0;
    while i < n
        invariant
            n == a@.len(),
            n == b@.len(),
            i <= n,
            forall|j: int| 0 <= j < i ==> a@[j] == b@[j],
        decreases n - i,
    {
        if a[i] != b[i] {
            return false;
        }
        i += 1;
    }
    proof {
        assert(a@ =~= b@);
    }
    true
}

} // verus!
