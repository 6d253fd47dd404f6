//! Terminator operations and their payload enums.

use vstd::prelude::*;

verus! {

/// How a call transfers control.
#[derive(Clone, Copy, PartialEq, Eq, Structural, Debug)]
pub enum CallKind {
    /// Reads `[callee, return_cont, except_cont, args...]`.
    Function,
    /// Reads `[target_cont, args...]`.
    ControlFlow,
}

/// Whether a map element insertion may overwrite an existing key.
#[derive(Clone, Copy, PartialEq, Eq, Structural, Debug)]
pub enum MapPutUpdate {
    Put,
    Update,
}

/// Basic type tests available to `MatchKind::Type`.
#[derive(Clone, Copy, PartialEq, Eq, Structural, Debug)]
pub enum BasicType {
    List,
    ListCell,
    Nil,
    Tuple(usize),
    Mapping,
    Number,
    Float,
    Integer,
    SmallInteger,
    BigInteger,
}

/// How one entry of a binary pattern consumes bits.
#[derive(Clone, Copy, PartialEq, Eq, Structural, Debug)]
pub enum BinaryEntrySpecifier {
    Integer { signed: bool, unit: usize },
    Bytes { unit: usize },
    Utf8,
}

/// One branch kind of a `Match` terminator.
#[derive(Clone, Copy, PartialEq, Eq, Structural, Debug)]
pub enum MatchKind {
    Value,
    Type(BasicType),
    Binary(BinaryEntrySpecifier),
    Tuple(usize),
    ListCell,
    MapItem,
    Wildcard,
}

/// The terminator installed at the end of a block.
#[derive(Clone, Debug)]
pub enum OpKind {
    Call(CallKind),
    /// Reads `[dest_value_list, selector, args_value_list_0, ...]`.
    Match { branches: Vec<MatchKind> },
    /// Reads `[true_cont, false_cont, value]` or
    /// `[true_cont, false_cont, other_cont, value]`.
    IfBool,
    /// Reads `[cont, value]`; passes the unpacked values to `cont`.
    UnpackValueList(usize),
    /// Reads `[ok_cont, fail_cont, map, key_0, value_0, ...]`.
    MapPut { action: MapPutUpdate },
    TraceCaptureRaw,
    TraceConstruct,
    Unreachable,
    /// A dialect-declared operation named by the intrinsic symbol.
    Intrinsic(String),
    /// An opaque dialect operation carrying its descriptor.
    Dyn(String),
}

/// Structural equality of two terminators.
pub open spec fn op_kind_eq(a: OpKind, b: OpKind) -> bool {
    match (a, b) {
        (OpKind::Call(x), OpKind::Call(y)) => x == y,
        (OpKind::Match { branches: x }, OpKind::Match { branches: y }) => x@ == y@,
        (OpKind::IfBool, OpKind::IfBool) => true,
        (OpKind::UnpackValueList(x), OpKind::UnpackValueList(y)) => x == y,
        (OpKind::MapPut { action: x }, OpKind::MapPut { action: y }) => x == y,
        (OpKind::TraceCaptureRaw, OpKind::TraceCaptureRaw) => true,
        (OpKind::TraceConstruct, OpKind::TraceConstruct) => true,
        (OpKind::Unreachable, OpKind::Unreachable) => true,
        (OpKind::Intrinsic(x), OpKind::Intrinsic(y)) => x@ == y@,
        (OpKind::Dyn(x), OpKind::Dyn(y)) => x@ == y@,
        _ => false,
    }
}

/// Executable structural comparison, matching `op_kind_eq`.
pub fn op_kind_eq_exec(a: &OpKind, b: &OpKind) -> (r: bool)
    ensures
        r == op_kind_eq(*a, *b),
{
    match (a, b) {
        (OpKind::Call(x), OpKind::Call(y)) => *x == *y,
        (OpKind::Match { branches: x }, OpKind::Match { branches: y }) => match_kinds_eq(x, y),
        (OpKind::IfBool, OpKind::IfBool) => true,
        (OpKind::UnpackValueList(x), OpKind::UnpackValueList(y)) => *x == *y,
        (OpKind::MapPut { action: x }, OpKind::MapPut { action: y }) => *x == *y,
        (OpKind::TraceCaptureRaw, OpKind::TraceCaptureRaw) => true,
        (OpKind::TraceConstruct, OpKind::TraceConstruct) => true,
        (OpKind::Unreachable, OpKind::Unreachable) => true,
        (OpKind::Intrinsic(x), OpKind::Intrinsic(y)) => *x == *y,
        (OpKind::Dyn(x), OpKind::Dyn(y)) => *x == *y,
        _ => false,
    }
}

/// Element-wise comparison of two branch lists.
pub fn match_kinds_eq(a: &Vec<MatchKind>, b: &Vec<MatchKind>) -> (r: bool)
    ensures
        r == (a@ == b@),
{
    if a.len() != b.len() {
        proof {
            assert(a@.len() != b@.len());
        }
        return false;
    }
    let n = a.len();
    let mut i: usize = 0;
    while i < n
        invariant
            n == a@.len(),
            n == b@.len(),
            i <= n,
            forall|j: int| 0 <= j < i ==> a@[j] == b@[j],
        decreases n - i,
    {
        if a[i] != b[i] {
            return false;
        }
        i += 1;
    }
    proof {
        assert(a@ =~= b@);
    }
    true
}

impl OpKind {
    /// Whether the terminator is a control-flow call, the shape every chain
    /// edge has.
    pub open spec fn is_flow_call(self) -> bool {
        self == OpKind::Call(CallKind::ControlFlow)
    }
}

/// A structural copy of a terminator, equal under `op_kind_eq`.
pub fn op_kind_clone(o: &OpKind) -> (r: OpKind)
    ensures
        op_kind_eq(r, *o),
{
    match o {
        OpKind::Call(k) => OpKind::Call(*k),
        OpKind::Match { branches } => {
            let n = branches.len();
            let mut bs: Vec<MatchKind> = Vec::new();
            let mut i: usize = 0;
            while i < n
                invariant
                    n == branches@.len(),
                    i <= n,
                    bs@.len() == i,
                    forall|j: int| 0 <= j < i ==> bs@[j] == branches@[j],
                decreases n - i,
            {
                bs.push(branches[i]);
                i += 1;
            }
            proof {
                assert(bs@ =~= branches@);
            }
            OpKind::Match { branches: bs }
        },
        OpKind::IfBool => OpKind::IfBool,
        OpKind::UnpackValueList(n) => OpKind::UnpackValueList(*n),
        OpKind::MapPut { action } => OpKind::MapPut { action: *action },
        OpKind::TraceCaptureRaw => OpKind::TraceCaptureRaw,
        OpKind::TraceConstruct => OpKind::TraceConstruct,
        OpKind::Unreachable => OpKind::Unreachable,
        OpKind::Intrinsic(s) => OpKind::Intrinsic(s.clone()),
        OpKind::Dyn(s) => OpKind::Dyn(s.clone()),
    }
}

} // verus!
