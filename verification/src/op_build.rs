//! Terminator constructors: thin layers over `block_set_op` that lay out
//! the reads as each operation kind dictates.

use vstd::prelude::*;

use crate::builder::{arenas_extend, primop_value_matches};
use crate::entity::{Block, Value};
use crate::fun::Function;
use crate::op::{op_kind_eq, op_kind_eq_exec, CallKind, MapPutUpdate, MatchKind, OpKind};
use crate::value::{BinOp, LogicOp, PrimOpKind, ValueKind};

verus! {

/// Everything outside the block arena is unchanged, and the block count is
/// the same.
pub open spec fn builder_frame(post: Function, pre: Function) -> bool {
    &&& post.values@ == pre.values@
    &&& post.primops@ == pre.primops@
    &&& post.locations == pre.locations
    &&& post.constant_container == pre.constant_container
    &&& post.constant_values@ == pre.constant_values@
    &&& post.entry_block == pre.entry_block
    &&& post.ident == pre.ident
    &&& post.n_blocks() == pre.n_blocks()
}

/// All blocks other than `b` are unchanged.
pub open spec fn blocks_same_except(post: Function, pre: Function, b: Block) -> bool {
    forall|b2: int|
        0 <= b2 < pre.n_blocks() && b2 != b.0 ==> #[trigger] post.blocks@[b2] == pre.blocks@[b2]
}

/// The block kept its arguments, location and value; only the terminator
/// changed.
pub open spec fn block_head_same(post: Function, pre: Function, b: Block) -> bool {
    &&& post.block_data(b).arguments@ == pre.block_data(b).arguments@
    &&& post.block_data(b).location == pre.block_data(b).location
    &&& post.block_data(b).value == pre.block_data(b).value
}

/// Append the elements of `src` to `dst`.
pub fn append_values(dst: &mut Vec<Value>, src: &Vec<Value>)
    ensures
        final(dst)@ == old(dst)@ + src@,
{
    let n = src.len();
    let mut i: usize = 0;
    while i < n
        invariant
            n == src@.len(),
            i <= n,
            dst@ == old(dst)@ + src@.take(i as int),
        decreases n - i,
    {
        dst.push(src[i]);
        proof {
            assert(dst@ =~= old(dst)@ + src@.take(i as int + 1));
        }
        i += 1;
    }
    proof {
        assert(src@.take(n as int) =~= src@);
    }
}

impl Function {
    /// Terminate `b` with a function call: reads are the callee, the return
    /// continuation, the exception continuation, then the arguments.
    pub fn op_call_function(
        &mut self,
        b: Block,
        callee: Value,
        ret: Value,
        thr: Value,
        args: &Vec<Value>,
    )
        requires
            old(self).wf(),
            old(self).valid_block(b),
            old(self).block_data(b).op is None,
            old(self).valid_value(callee),
            old(self).valid_value(ret),
            old(self).valid_value(thr),
            forall|i: int| 0 <= i < args@.len() ==> old(self).valid_value(#[trigger] args@[i]),
        ensures
            final(self).wf(),
            builder_frame(*final(self), *old(self)),
            blocks_same_except(*final(self), *old(self), b),
            block_head_same(*final(self), *old(self), b),
            final(self).block_data(b).op == Some(OpKind::Call(CallKind::Function)),
            final(self).block_data(b).reads@ == seq![callee, ret, thr] + args@,
    {
        let mut reads: Vec<Value> = Vec::new();
        reads.push(callee);
        reads.push(ret);
        reads.push(thr);
        append_values(&mut reads, args);
        proof {
            assert(reads@ =~= seq![callee, ret, thr] + args@);
        }
        self.block_set_op(b, OpKind::Call(CallKind::Function), reads);
    }

    /// Terminate `b` with a control-flow call: reads are the target
    /// continuation, then the arguments.
    pub fn op_call_flow(&mut self, b: Block, target: Value, args: &Vec<Value>)
        requires
            old(self).wf(),
            old(self).valid_block(b),
            old(self).block_data(b).op is None,
            old(self).valid_value(target),
            forall|i: int| 0 <= i < args@.len() ==> old(self).valid_value(#[trigger] args@[i]),
        ensures
            final(self).wf(),
            builder_frame(*final(self), *old(self)),
            blocks_same_except(*final(self), *old(self), b),
            block_head_same(*final(self), *old(self), b),
            final(self).block_data(b).op == Some(OpKind::Call(CallKind::ControlFlow)),
            final(self).block_data(b).reads@ == seq![target] + args@,
    {
        let mut reads: Vec<Value> = Vec::new();
        reads.push(target);
        append_values(&mut reads, args);
        proof {
            assert(reads@ =~= seq![target] + args@);
        }
        self.block_set_op(b, OpKind::Call(CallKind::ControlFlow), reads);
    }

    /// Terminate `b` with a two- or three-way boolean branch.
    pub fn op_if_bool(&mut self, b: Block, cond: Value, tru: Value, fal: Value, or: Option<Value>)
        requires
            old(self).wf(),
            old(self).valid_block(b),
            old(self).block_data(b).op is None,
            old(self).valid_value(cond),
            old(self).valid_value(tru),
            old(self).valid_value(fal),
            match or {
                Some(o) => old(self).valid_value(o),
                None => true,
            },
        ensures
            final(self).wf(),
            builder_frame(*final(self), *old(self)),
            blocks_same_except(*final(self), *old(self), b),
            block_head_same(*final(self), *old(self), b),
            final(self).block_data(b).op == Some(OpKind::IfBool),
            final(self).block_data(b).reads@ == match or {
                Some(o) => seq![tru, fal, o, cond],
                None => seq![tru, fal, cond],
            },
    {
        let mut reads: Vec<Value> = Vec::new();
        reads.push(tru);
        reads.push(fal);
        match or {
            Some(o) => {
                reads.push(o);
                reads.push(cond);
                proof {
                    assert(reads@ =~= seq![tru, fal, o, cond]);
                }
            },
            None => {
                reads.push(cond);
                proof {
                    assert(reads@ =~= seq![tru, fal, cond]);
                }
            },
        }
        self.block_set_op(b, OpKind::IfBool, reads);
    }

    /// Terminate `b` with a match: reads are the destination value list,
    /// the selector, then one argument value list per branch.
    pub fn op_match(
        &mut self,
        b: Block,
        branches: Vec<MatchKind>,
        dests: Value,
        selector: Value,
        branch_args: &Vec<Value>,
    )
        requires
            old(self).wf(),
            old(self).valid_block(b),
            old(self).block_data(b).op is None,
            old(self).valid_value(dests),
            old(self).valid_value(selector),
            forall|i: int|
                0 <= i < branch_args@.len() ==> old(self).valid_value(#[trigger] branch_args@[i]),
        ensures
            final(self).wf(),
            builder_frame(*final(self), *old(self)),
            blocks_same_except(*final(self), *old(self), b),
            block_head_same(*final(self), *old(self), b),
            final(self).block_data(b).op == (Some(OpKind::Match { branches })),
            final(self).block_data(b).reads@ == seq![dests, selector] + branch_args@,
    {
        let mut reads: Vec<Value> = Vec::new();
        reads.push(dests);
        reads.push(selector);
        append_values(&mut reads, branch_args);
        proof {
            assert(reads@ =~= seq![dests, selector] + branch_args@);
        }
        self.block_set_op(b, OpKind::Match { branches }, reads);
    }

    /// Terminate `b` by unpacking a value list into a continuation.
    pub fn op_unpack_value_list(&mut self, b: Block, n: usize, cont: Value, value: Value)
        requires
            old(self).wf(),
            old(self).valid_block(b),
            old(self).block_data(b).op is None,
            old(self).valid_value(cont),
            old(self).valid_value(value),
        ensures
            final(self).wf(),
            builder_frame(*final(self), *old(self)),
            blocks_same_except(*final(self), *old(self), b),
            block_head_same(*final(self), *old(self), b),
            final(self).block_data(b).op == Some(OpKind::UnpackValueList(n)),
            final(self).block_data(b).reads@ == seq![cont, value],
    {
        let mut reads: Vec<Value> = Vec::new();
        reads.push(cont);
        reads.push(value);
        proof {
            assert(reads@ =~= seq![cont, value]);
        }
        self.block_set_op(b, OpKind::UnpackValueList(n), reads);
    }

    /// Terminate `b` with an unreachable marker.
    pub fn op_unreachable(&mut self, b: Block)
        requires
            old(self).wf(),
            old(self).valid_block(b),
            old(self).block_data(b).op is None,
        ensures
            final(self).wf(),
            builder_frame(*final(self), *old(self)),
            blocks_same_except(*final(self), *old(self), b),
            block_head_same(*final(self), *old(self), b),
            final(self).block_data(b).op == Some(OpKind::Unreachable),
            final(self).block_data(b).reads@.len() == 0,
    {
        let reads: Vec<Value> = Vec::new();
        self.block_set_op(b, OpKind::Unreachable, reads);
    }

    /// Terminate `b` with a dialect intrinsic.
    pub fn op_intrinsic(&mut self, b: Block, name: String, args: &Vec<Value>)
        requires
            old(self).wf(),
            old(self).valid_block(b),
            old(self).block_data(b).op is None,
            forall|i: int| 0 <= i < args@.len() ==> old(self).valid_value(#[trigger] args@[i]),
        ensures
            final(self).wf(),
            builder_frame(*final(self), *old(self)),
            blocks_same_except(*final(self), *old(self), b),
            block_head_same(*final(self), *old(self), b),
            final(self).block_data(b).op == Some(OpKind::Intrinsic(name)),
            final(self).block_data(b).reads@ == args@,
    {
        let mut reads: Vec<Value> = Vec::new();
        append_values(&mut reads, args);
        proof {
            assert(reads@ =~= args@);
        }
        self.block_set_op(b, OpKind::Intrinsic(name), reads);
    }

    /// Terminate `b` with a raw trace capture feeding a continuation.
    pub fn op_trace_capture_raw(&mut self, b: Block, then: Value)
        requires
            old(self).wf(),
            old(self).valid_block(b),
            old(self).block_data(b).op is None,
            old(self).valid_value(then),
        ensures
            final(self).wf(),
            builder_frame(*final(self), *old(self)),
            blocks_same_except(*final(self), *old(self), b),
            block_head_same(*final(self), *old(self), b),
            final(self).block_data(b).op == Some(OpKind::TraceCaptureRaw),
            final(self).block_data(b).reads@ == seq![then],
    {
        let mut reads: Vec<Value> = Vec::new();
        reads.push(then);
        proof {
            assert(reads@ =~= seq![then]);
        }
        self.block_set_op(b, OpKind::TraceCaptureRaw, reads);
    }

    /// Terminate `b` by constructing a trace term for a continuation.
    pub fn op_trace_construct(&mut self, b: Block, cont: Value, capture: Value)
        requires
            old(self).wf(),
            old(self).valid_block(b),
            old(self).block_data(b).op is None,
            old(self).valid_value(cont),
            old(self).valid_value(capture),
        ensures
            final(self).wf(),
            builder_frame(*final(self), *old(self)),
            blocks_same_except(*final(self), *old(self), b),
            block_head_same(*final(self), *old(self), b),
            final(self).block_data(b).op == Some(OpKind::TraceConstruct),
            final(self).block_data(b).reads@ == seq![cont, capture],
    {
        let mut reads: Vec<Value> = Vec::new();
        reads.push(cont);
        reads.push(capture);
        proof {
            assert(reads@ =~= seq![cont, capture]);
        }
        self.block_set_op(b, OpKind::TraceConstruct, reads);
    }

    /// Terminate `b` with an opaque dialect operation.
    pub fn op_dyn(&mut self, b: Block, name: String, args: &Vec<Value>)
        requires
            old(self).wf(),
            old(self).valid_block(b),
            old(self).block_data(b).op is None,
            forall|i: int| 0 <= i < args@.len() ==> old(self).valid_value(#[trigger] args@[i]),
        ensures
            final(self).wf(),
            builder_frame(*final(self), *old(self)),
            blocks_same_except(*final(self), *old(self), b),
            block_head_same(*final(self), *old(self), b),
            final(self).block_data(b).op == Some(OpKind::Dyn(name)),
            final(self).block_data(b).reads@ == args@,
    {
        let mut reads: Vec<Value> = Vec::new();
        append_values(&mut reads, args);
        proof {
            assert(reads@ =~= args@);
        }
        self.block_set_op(b, OpKind::Dyn(name), reads);
    }

    /// Terminate `b` with a map insertion: reads are the success
    /// continuation, the failure continuation, the base map, then the
    /// key/value pairs interleaved.
    pub fn op_map_put(
        &mut self,
        b: Block,
        action: MapPutUpdate,
        ok: Value,
        fail: Value,
        map: Value,
        keys: &Vec<Value>,
        vals: &Vec<Value>,
    )
        requires
            old(self).wf(),
            old(self).valid_block(b),
            old(self).block_data(b).op is None,
            old(self).valid_value(ok),
            old(self).valid_value(fail),
            old(self).valid_value(map),
            keys@.len() == vals@.len(),
            forall|i: int| 0 <= i < keys@.len() ==> old(self).valid_value(#[trigger] keys@[i]),
            forall|i: int| 0 <= i < vals@.len() ==> old(self).valid_value(#[trigger] vals@[i]),
        ensures
            final(self).wf(),
            builder_frame(*final(self), *old(self)),
            blocks_same_except(*final(self), *old(self), b),
            block_head_same(*final(self), *old(self), b),
            final(self).block_data(b).op == (Some(OpKind::MapPut { action })),
            final(self).block_data(b).reads@.len() == 3 + 2 * keys@.len(),
            final(self).block_data(b).reads@[0] == ok,
            final(self).block_data(b).reads@[1] == fail,
            final(self).block_data(b).reads@[2] == map,
            forall|i: int|
                0 <= i < keys@.len() ==> final(self).block_data(b).reads@[3 + 2 * i]
                    == keys@[i] && final(self).block_data(b).reads@[4 + 2 * i] == vals@[i],
    {
        let mut reads: Vec<Value> = Vec::new();
        reads.push(ok);
        reads.push(fail);
        reads.push(map);
        let n = keys.len();
        let mut i: usize = 0;
        while i < n
            invariant
                n == keys@.len(),
                n == vals@.len(),
                i <= n,
                reads@.len() == 3 + 2 * i,
                reads@[0] == ok,
                reads@[1] == fail,
                reads@[2] == map,
                forall|j: int|
                    0 <= j < i ==> reads@[3 + 2 * j] == keys@[j] && reads@[4 + 2 * j] == vals@[j],
                forall|j: int| 0 <= j < n ==> old(self).valid_value(#[trigger] keys@[j]),
                forall|j: int| 0 <= j < n ==> old(self).valid_value(#[trigger] vals@[j]),
                forall|j: int| 0 <= j < reads@.len() ==> old(self).valid_value(#[trigger] reads@[j]),
            decreases n - i,
        {
            let ghost prev = reads@;
            reads.push(keys[i]);
            reads.push(vals[i]);
            proof {
                assert(reads@ == prev.push(keys@[i as int]).push(vals@[i as int]));
                assert(reads@[3 + 2 * (i as int)] == keys@[i as int]);
                assert(reads@[4 + 2 * (i as int)] == vals@[i as int]);
                assert forall|j: int|
                    0 <= j < reads@.len() implies old(self).valid_value(
                    #[trigger] reads@[j],
                ) by {
                    if j < prev.len() {
                        assert(reads@[j] == prev[j]);
                    }
                }
            }
            i += 1;
        }
        self.block_set_op(b, OpKind::MapPut { action }, reads);
    }

    /// The interned value of a primop with the given kind and operands.
    pub fn prim_intern(&mut self, op: PrimOpKind, reads: Vec<Value>) -> (r: Value)
        requires
            old(self).wf(),
            forall|i: int| 0 <= i < reads@.len() ==> old(self).valid_value(#[trigger] reads@[i]),
        ensures
            final(self).wf(),
            final(self).valid_value(r),
            primop_value_matches(*final(self), r, op, reads@),
            arenas_extend(*final(self), *old(self)),
            final(self).blocks@ == old(self).blocks@,
            final(self).graph == old(self).graph,
            final(self).locations == old(self).locations,
            final(self).constant_container == old(self).constant_container,
            final(self).constant_values@ == old(self).constant_values@,
            final(self).entry_block == old(self).entry_block,
            final(self).ident == old(self).ident,
            (exists|v: Value|
                old(self).valid_value(v) && #[trigger] primop_value_matches(
                    *old(self),
                    v,
                    op,
                    reads@,
                )) ==> *final(self) == *old(self),
    {
        let ghost pre = *self;
        let p = self.primop_get_or_insert(op, reads);
        let ghost mid = *self;
        let r = self.primop_value(p);
        proof {
            if exists|v: Value|
                pre.valid_value(v) && #[trigger] primop_value_matches(pre, v, op, reads@) {
                let vv = choose|v: Value|
                    pre.valid_value(v) && #[trigger] primop_value_matches(pre, v, op, reads@);
                assert(primop_value_matches(pre, vv, op, reads@));
                let p0 = pre.vkind(vv)->PrimOp_0;
                assert(pre.vkind(vv) == ValueKind::PrimOp(p0));
                assert(pre.primops@[p0.0 as int].op == op);
                assert(pre.primops@[p0.0 as int].reads@ == reads@);
                assert(mid == pre);
                assert(mid.primop_data(p).op == op && mid.primop_data(p).reads@ == reads@);
                assert(pre.primops_canonical());
                assert(pre.primops@[p0.0 as int].op == pre.primops@[p.0 as int].op
                    && pre.primops@[p0.0 as int].reads@ == pre.primops@[p.0 as int].reads@);
                assert(p0 == p);
                assert(pre.values@[vv.0 as int].kind == ValueKind::PrimOp(p));
                assert(*final(self) == *old(self));
            }
        }
        r
    }

    /// A value list bundling several values into one operand.
    pub fn prim_value_list(&mut self, elems: &Vec<Value>) -> (r: Value)
        requires
            old(self).wf(),
            forall|i: int| 0 <= i < elems@.len() ==> old(self).valid_value(#[trigger] elems@[i]),
        ensures
            final(self).wf(),
            final(self).valid_value(r),
            primop_value_matches(*final(self), r, PrimOpKind::ValueList, elems@),
            arenas_extend(*final(self), *old(self)),
            final(self).blocks@ == old(self).blocks@,
            final(self).graph == old(self).graph,
            final(self).locations == old(self).locations,
            final(self).constant_container == old(self).constant_container,
            final(self).entry_block == old(self).entry_block,
    {
        let mut rs: Vec<Value> = Vec::new();
        append_values(&mut rs, elems);
        proof {
            assert(rs@ =~= elems@);
        }
        self.prim_intern(PrimOpKind::ValueList, rs)
    }

    /// A tuple of values.
    pub fn prim_tuple(&mut self, elems: &Vec<Value>) -> (r: Value)
        requires
            old(self).wf(),
            forall|i: int| 0 <= i < elems@.len() ==> old(self).valid_value(#[trigger] elems@[i]),
        ensures
            final(self).wf(),
            final(self).valid_value(r),
            primop_value_matches(*final(self), r, PrimOpKind::Tuple, elems@),
            arenas_extend(*final(self), *old(self)),
            final(self).blocks@ == old(self).blocks@,
            final(self).graph == old(self).graph,
            final(self).locations == old(self).locations,
            final(self).constant_container == old(self).constant_container,
            final(self).entry_block == old(self).entry_block,
            (exists|v: Value|
                old(self).valid_value(v) && #[trigger] primop_value_matches(
                    *old(self),
                    v,
                    PrimOpKind::Tuple,
                    elems@,
                )) ==> *final(self) == *old(self),
    {
        let mut rs: Vec<Value> = Vec::new();
        append_values(&mut rs, elems);
        proof {
            assert(rs@ =~= elems@);
        }
        self.prim_intern(PrimOpKind::Tuple, rs)
    }

    /// A list cell of a head and a tail.
    pub fn prim_list_cell(&mut self, head: Value, tail: Value) -> (r: Value)
        requires
            old(self).wf(),
            old(self).valid_value(head),
            old(self).valid_value(tail),
        ensures
            final(self).wf(),
            final(self).valid_value(r),
            primop_value_matches(*final(self), r, PrimOpKind::ListCell, seq![head, tail]),
            arenas_extend(*final(self), *old(self)),
            final(self).blocks@ == old(self).blocks@,
            final(self).graph == old(self).graph,
            final(self).locations == old(self).locations,
            final(self).constant_container == old(self).constant_container,
            final(self).entry_block == old(self).entry_block,
    {
        let mut rs: Vec<Value> = Vec::new();
        rs.push(head);
        rs.push(tail);
        proof {
            assert(rs@ =~= seq![head, tail]);
        }
        self.prim_intern(PrimOpKind::ListCell, rs)
    }

    /// A binary operation over two values.
    pub fn prim_binop(&mut self, op: BinOp, lhs: Value, rhs: Value) -> (r: Value)
        requires
            old(self).wf(),
            old(self).valid_value(lhs),
            old(self).valid_value(rhs),
        ensures
            final(self).wf(),
            final(self).valid_value(r),
            primop_value_matches(*final(self), r, PrimOpKind::BinOp(op), seq![lhs, rhs]),
            arenas_extend(*final(self), *old(self)),
            final(self).blocks@ == old(self).blocks@,
            final(self).graph == old(self).graph,
            final(self).locations == old(self).locations,
            final(self).constant_container == old(self).constant_container,
            final(self).entry_block == old(self).entry_block,
    {
        let mut rs: Vec<Value> = Vec::new();
        rs.push(lhs);
        rs.push(rhs);
        proof {
            assert(rs@ =~= seq![lhs, rhs]);
        }
        self.prim_intern(PrimOpKind::BinOp(op), rs)
    }

    /// A logical connective over boolean values.
    pub fn prim_logic_op(&mut self, op: LogicOp, args: &Vec<Value>) -> (r: Value)
        requires
            old(self).wf(),
            forall|i: int| 0 <= i < args@.len() ==> old(self).valid_value(#[trigger] args@[i]),
        ensures
            final(self).wf(),
            final(self).valid_value(r),
            primop_value_matches(*final(self), r, PrimOpKind::LogicOp(op), args@),
            arenas_extend(*final(self), *old(self)),
            final(self).blocks@ == old(self).blocks@,
            final(self).graph == old(self).graph,
            final(self).locations == old(self).locations,
            final(self).constant_container == old(self).constant_container,
            final(self).entry_block == old(self).entry_block,
    {
        let mut rs: Vec<Value> = Vec::new();
        append_values(&mut rs, args);
        proof {
            assert(rs@ =~= args@);
        }
        self.prim_intern(PrimOpKind::LogicOp(op), rs)
    }

    /// A capture of `module:function/arity` as a callable value.
    pub fn prim_capture_function(&mut self, m: Value, f: Value, a: Value) -> (r: Value)
        requires
            old(self).wf(),
            old(self).valid_value(m),
            old(self).valid_value(f),
            old(self).valid_value(a),
        ensures
            final(self).wf(),
            final(self).valid_value(r),
            primop_value_matches(*final(self), r, PrimOpKind::CaptureFunction, seq![m, f, a]),
            arenas_extend(*final(self), *old(self)),
            final(self).blocks@ == old(self).blocks@,
            final(self).graph == old(self).graph,
            final(self).locations == old(self).locations,
            final(self).constant_container == old(self).constant_container,
            final(self).entry_block == old(self).entry_block,
    {
        let mut rs: Vec<Value> = Vec::new();
        rs.push(m);
        rs.push(f);
        rs.push(a);
        proof {
            assert(rs@ =~= seq![m, f, a]);
        }
        self.prim_intern(PrimOpKind::CaptureFunction, rs)
    }

    /// Whether the terminators of two blocks, possibly of two different
    /// functions, are structurally equal (reads aside).
    pub fn block_op_eq(&self, lb: Block, r_fun: &Function, rb: Block) -> (r: bool)
        requires
            self.valid_block(lb),
            r_fun.valid_block(rb),
            self.block_data(lb).op is Some,
            r_fun.block_data(rb).op is Some,
        ensures
            r == op_kind_eq(
                self.block_data(lb).op.unwrap(),
                r_fun.block_data(rb).op.unwrap(),
            ),
    {
        match (&self.blocks[lb.0].op, &r_fun.blocks[rb.0].op) {
            (Some(l), Some(rr)) => op_kind_eq_exec(l, rr),
            _ => false,
        }
    }
}

} // verus!
