//! Runtime re-checks of the graph invariant, and the laws the invariant
//! yields.

use vstd::prelude::*;

use crate::entity::{Block, Const, PrimOp, Value};
use crate::flow::{flow_preds, flow_succs};
use crate::fun::Function;
use crate::value::ValueKind;

verus! {

impl Function {
    /// Whether block `s` is named by the operand closure of some read of
    /// `b`, by exhaustive search over the cached closures.
    fn reads_target_find(&self, b: Block, s: usize) -> (r: bool)
        requires
            self.wf(),
            self.valid_block(b),
        ensures
            r == self.target_in_reads(b.0 as int, s),
    {
        let nr = self.blocks[b.0].reads.len();
        let mut i: usize = 0;
        while i < nr
            invariant
                self.wf(),
                self.valid_block(b),
                nr == self.block_data(b).reads@.len(),
                i <= nr,
                forall|i2: int, j2: int|
                    #![trigger self.nested_cache(self.block_data(b).reads@[i2])[j2]]
                    0 <= i2 < i && 0 <= j2 < self.nested_cache(
                        self.block_data(b).reads@[i2],
                    ).len() ==> self.vkind(self.nested_cache(self.block_data(b).reads@[i2])[j2])
                        != ValueKind::Block(Block(s)),
            decreases nr - i,
        {
            let rv = self.blocks[b.0].reads[i];
            proof {
                assert(self.block_entry_ok(b.0 as int, self.blocks@[b.0 as int]));
                assert(self.nested_entry_ok(rv.0 as int, self.values@[rv.0 as int]));
            }
            let m = self.values[rv.0].nested.len();
            let mut j: usize = 0;
            while j < m
                invariant
                    self.wf(),
                    self.valid_block(b),
                    nr == self.block_data(b).reads@.len(),
                    i < nr,
                    rv == self.block_data(b).reads@[i as int],
                    rv.0 < self.n_values(),
                    m == self.nested_cache(rv).len(),
                    j <= m,
                    forall|i2: int, j2: int|
                        #![trigger self.nested_cache(self.block_data(b).reads@[i2])[j2]]
                        0 <= i2 < i && 0 <= j2 < self.nested_cache(
                            self.block_data(b).reads@[i2],
                        ).len() ==> self.vkind(
                            self.nested_cache(self.block_data(b).reads@[i2])[j2],
                        ) != ValueKind::Block(Block(s)),
                    forall|j2: int|
                        0 <= j2 < j ==> self.vkind(#[trigger] self.nested_cache(rv)[j2])
                            != ValueKind::Block(Block(s)),
                decreases m - j,
            {
                let x = self.values[rv.0].nested[j];
                proof {
                    assert(self.nested_entry_ok(rv.0 as int, self.values@[rv.0 as int]));
                    assert(x.0 < self.n_values());
                }
                match self.values[x.0].kind {
                    ValueKind::Block(sb) => {
                        if sb.0 == s {
                            proof {
                                assert(self.vkind(self.nested_cache(
                                    self.block_data(b).reads@[i as int],
                                )[j as int]) == ValueKind::Block(Block(s)));
                            }
                            return true;
                        }
                    },
                    _ => {},
                }
                j += 1;
            }
            i += 1;
        }
        proof {
            if self.target_in_reads(b.0 as int, s) {
                let (i2, j2): (int, int) = choose|i2: int, j2: int|
                    #![trigger self.nested_cache(self.block_data(b).reads@[i2])[j2]]
                    0 <= i2 < self.block_data(b).reads@.len() && 0 <= j2 < self.nested_cache(
                        self.block_data(b).reads@[i2],
                    ).len() && self.vkind(self.nested_cache(self.block_data(b).reads@[i2])[j2])
                        == ValueKind::Block(Block(s));
                assert(false);
            }
        }
        false
    }

    /// Value `v` occurs in the operand closure of some terminator read of
    /// block `b`.
    pub open spec fn value_used_in(self, b: int, v: Value) -> bool {
        exists|i: int, j: int|
            #![trigger self.nested_cache(self.blocks@[b].reads@[i])[j]]
            0 <= i < self.blocks@[b].reads@.len() && 0 <= j < self.nested_cache(
                self.blocks@[b].reads@[i],
            ).len() && self.nested_cache(self.blocks@[b].reads@[i])[j] == v
    }

    /// Whether the terminator of `b` uses `v`, by exhaustive search over
    /// the cached operand closures.
    fn block_uses_value(&self, b: Block, v: Value) -> (r: bool)
        requires
            self.wf(),
            self.valid_block(b),
        ensures
            r == self.value_used_in(b.0 as int, v),
    {
        let nr = self.blocks[b.0].reads.len();
        let mut i: usize = 0;
        while i < nr
            invariant
                self.wf(),
                self.valid_block(b),
                nr == self.block_data(b).reads@.len(),
                i <= nr,
                forall|i2: int, j2: int|
                    #![trigger self.nested_cache(self.block_data(b).reads@[i2])[j2]]
                    0 <= i2 < i && 0 <= j2 < self.nested_cache(
                        self.block_data(b).reads@[i2],
                    ).len() ==> self.nested_cache(self.block_data(b).reads@[i2])[j2] != v,
            decreases nr - i,
        {
            let rv = self.blocks[b.0].reads[i];
            proof {
                assert(self.block_entry_ok(b.0 as int, self.blocks@[b.0 as int]));
                assert(self.nested_entry_ok(rv.0 as int, self.values@[rv.0 as int]));
            }
            let m = self.values[rv.0].nested.len();
            let mut j: usize = 0;
            while j < m
                invariant
                    self.wf(),
                    self.valid_block(b),
                    nr == self.block_data(b).reads@.len(),
                    i < nr,
                    rv == self.block_data(b).reads@[i as int],
                    rv.0 < self.n_values(),
                    m == self.nested_cache(rv).len(),
                    j <= m,
                    forall|i2: int, j2: int|
                        #![trigger self.nested_cache(self.block_data(b).reads@[i2])[j2]]
                        0 <= i2 < i && 0 <= j2 < self.nested_cache(
                            self.block_data(b).reads@[i2],
                        ).len() ==> self.nested_cache(self.block_data(b).reads@[i2])[j2] != v,
                    forall|j2: int|
                        0 <= j2 < j ==> #[trigger] self.nested_cache(rv)[j2] != v,
                decreases m - j,
            {
                let x = self.values[rv.0].nested[j];
                if x == v {
                    proof {
                        assert(self.nested_cache(self.block_data(b).reads@[i as int])[j as int]
                            == v);
                    }
                    return true;
                }
                j += 1;
            }
            i += 1;
        }
        proof {
            if self.value_used_in(b.0 as int, v) {
                let (i2, j2): (int, int) = choose|i2: int, j2: int|
                    #![trigger self.nested_cache(self.block_data(b).reads@[i2])[j2]]
                    0 <= i2 < self.block_data(b).reads@.len() && 0 <= j2 < self.nested_cache(
                        self.block_data(b).reads@[i2],
                    ).len() && self.nested_cache(self.block_data(b).reads@[i2])[j2] == v;
                assert(false);
            }
        }
        false
    }

    /// The blocks whose terminators use `v`, in ascending order. The use
    /// sets are not stored; they are recomputed from the forward edges.
    pub fn value_usages(&self, v: Value) -> (r: Vec<Block>)
        requires
            self.wf(),
            self.valid_value(v),
        ensures
            forall|k: int|
                0 <= k < r@.len() ==> (#[trigger] r@[k]).0 < self.n_blocks()
                    && self.value_used_in(r@[k].0 as int, v),
            forall|b: int|
                0 <= b < self.n_blocks() && self.value_used_in(b, v) ==> r@.contains(
                    Block(b as usize),
                ),
    {
        let n = self.blocks.len();
        let mut out: Vec<Block> = Vec::new();
        let mut b: usize = 0;
        while b < n
            invariant
                self.wf(),
                self.valid_value(v),
                n == self.n_blocks(),
                b <= n,
                forall|k: int|
                    0 <= k < out@.len() ==> (#[trigger] out@[k]).0 < n && self.value_used_in(
                        out@[k].0 as int,
                        v,
                    ),
                forall|b2: int|
                    0 <= b2 < b && self.value_used_in(b2, v) ==> out@.contains(
                        Block(b2 as usize),
                    ),
            decreases n - b,
        {
            let ghost out0 = out@;
            if self.block_uses_value(Block(b), v) {
                out.push(Block(b));
                proof {
                    assert forall|b2: int|
                        0 <= b2 < b + 1 && self.value_used_in(b2, v) implies out@.contains(
                        Block(b2 as usize),
                    ) by {
                        if b2 < b {
                            assert(out0.contains(Block(b2 as usize)));
                            let k = choose|k: int|
                                0 <= k < out0.len() && out0[k] == Block(b2 as usize);
                            assert(out@[k] == Block(b2 as usize));
                        } else {
                            assert(out@[out@.len() - 1] == Block(b2 as usize));
                        }
                    }
                }
            } else {
                proof {
                    assert forall|b2: int|
                        0 <= b2 < b + 1 && self.value_used_in(b2, v) implies out@.contains(
                        Block(b2 as usize),
                    ) by {
                        assert(b2 < b);
                    }
                }
            }
            b += 1;
        }
        out
    }

    /// Re-check the graph invariant around one block: every block the
    /// terminator names is recorded as a successor with a matching
    /// predecessor entry, and nothing else is recorded. Always succeeds on
    /// a well-formed function.
    pub fn graph_validate_block(&self, b: Block) -> (r: bool)
        requires
            self.wf(),
            self.valid_block(b),
        ensures
            r,
    {
        proof {
            assert(self.block_entry_ok(b.0 as int, self.blocks@[b.0 as int]));
            assert(flow_succs(self.graph, b.0 as int) == self.succ_set(b.0 as int));
            assert(flow_preds(self.graph, b.0 as int) == self.pred_set(b.0 as int));
        }
        // Every named target is recorded, with its back edge.
        let nr = self.blocks[b.0].reads.len();
        let mut i: usize = 0;
        while i < nr
            invariant
                self.wf(),
                self.valid_block(b),
                nr == self.block_data(b).reads@.len(),
                i <= nr,
            decreases nr - i,
        {
            let rv = self.blocks[b.0].reads[i];
            proof {
                assert(self.block_entry_ok(b.0 as int, self.blocks@[b.0 as int]));
                assert(self.nested_entry_ok(rv.0 as int, self.values@[rv.0 as int]));
            }
            let m = self.values[rv.0].nested.len();
            let mut j: usize = 0;
            while j < m
                invariant
                    self.wf(),
                    self.valid_block(b),
                    nr == self.block_data(b).reads@.len(),
                    i < nr,
                    rv == self.block_data(b).reads@[i as int],
                    rv.0 < self.n_values(),
                    m == self.nested_cache(rv).len(),
                    j <= m,
                decreases m - j,
            {
                let x = self.values[rv.0].nested[j];
                proof {
                    assert(self.nested_entry_ok(rv.0 as int, self.values@[rv.0 as int]));
                    assert(x.0 < self.n_values());
                }
                match self.values[x.0].kind {
                    ValueKind::Block(sb) => {
                        proof {
                            assert(self.value_kind_ok(x.0 as int, self.values@[x.0 as int].kind));
                            assert(self.vkind(self.nested_cache(
                                self.block_data(b).reads@[i as int],
                            )[j as int]) == ValueKind::Block(Block(sb.0)));
                            assert(self.target_in_reads(b.0 as int, sb.0));
                            assert(self.succ_set(b.0 as int).contains(sb.0));
                            assert(self.pred_set(sb.0 as int).contains(b.0));
                            assert(flow_succs(self.graph, b.0 as int) == self.succ_set(
                                b.0 as int,
                            ));
                            assert(flow_preds(self.graph, sb.0 as int) == self.pred_set(
                                sb.0 as int,
                            ));
                        }
                        let hs = self.graph.has_succ(b.0, sb.0);
                        let hp = self.graph.has_pred(sb.0, b.0);
                        if !hs || !hp {
                            return false;
                        }
                    },
                    _ => {},
                }
                j += 1;
            }
            i += 1;
        }
        // Every recorded successor is actually named by the reads.
        let succs = self.graph.succs_list(b.0);
        let ns = succs.len();
        let mut k: usize = 0;
        while k < ns
            invariant
                self.wf(),
                self.valid_block(b),
                ns == succs@.len(),
                k <= ns,
                succs@.to_set() == flow_succs(self.graph, b.0 as int),
            decreases ns - k,
        {
            let s = succs[k];
            proof {
                assert(succs@.contains(succs@[k as int]));
                assert(flow_succs(self.graph, b.0 as int).contains(s));
                assert(flow_succs(self.graph, b.0 as int) == self.succ_set(b.0 as int));
                assert(self.target_in_reads(b.0 as int, s));
            }
            if !self.reads_target_find(b, s) {
                return false;
            }
            k += 1;
        }
        // Every recorded predecessor records this block as a successor.
        let preds = self.graph.preds_list(b.0);
        let np = preds.len();
        let mut k2: usize = 0;
        while k2 < np
            invariant
                self.wf(),
                self.valid_block(b),
                np == preds@.len(),
                k2 <= np,
                preds@.to_set() == flow_preds(self.graph, b.0 as int),
            decreases np - k2,
        {
            let p = preds[k2];
            proof {
                assert(preds@.contains(preds@[k2 as int]));
                assert(flow_preds(self.graph, b.0 as int).contains(p));
                assert(flow_preds(self.graph, b.0 as int) == self.pred_set(b.0 as int));
                assert(self.pred_set(b.0 as int).contains(p));
                assert(p < self.n_blocks());
                assert(self.target_in_reads(p as int, b.0));
                assert(self.succ_set(p as int).contains(b.0));
                assert(flow_succs(self.graph, p as int) == self.succ_set(p as int));
            }
            if !self.graph.has_succ(p, b.0) {
                return false;
            }
            k2 += 1;
        }
        true
    }

    /// Re-check the graph invariant for the whole function. Always
    /// succeeds on a well-formed function: every builder operation keeps
    /// the invariant standing.
    pub fn graph_validate_global(&self) -> (r: bool)
        requires
            self.wf(),
        ensures
            r,
    {
        let n = self.blocks.len();
        let mut b: usize = 0;
        while b < n
            invariant
                self.wf(),
                n == self.n_blocks(),
                b <= n,
            decreases n - b,
        {
            if !self.graph_validate_block(Block(b)) {
                return false;
            }
            b += 1;
        }
        true
    }
}

/// The predecessor/successor sets are exactly the blocks the terminator
/// reads name: the one-step graph invariant, for every block of every
/// well-formed function.
pub proof fn lemma_graph_edges(f: Function, b: Block)
    requires
        f.wf(),
        f.valid_block(b),
    ensures
        flow_succs(f.graph, b.0 as int) == f.succ_set(b.0 as int),
        forall|s: usize|
            f.succ_set(b.0 as int).contains(s) ==> #[trigger] flow_preds(f.graph, s as int)
                .contains(b.0),
{
    assert forall|s: usize| f.succ_set(b.0 as int).contains(s) implies #[trigger] flow_preds(
        f.graph,
        s as int,
    ).contains(b.0) by {
        assert(f.target_in_reads(b.0 as int, s));
        let (i, j): (int, int) = choose|i: int, j: int|
            #![trigger f.nested_cache(f.blocks@[b.0 as int].reads@[i])[j]]
            0 <= i < f.blocks@[b.0 as int].reads@.len() && 0 <= j < f.nested_cache(
                f.blocks@[b.0 as int].reads@[i],
            ).len() && f.vkind(f.nested_cache(f.blocks@[b.0 as int].reads@[i])[j])
                == ValueKind::Block(Block(s));
        assert(f.block_entry_ok(b.0 as int, f.blocks@[b.0 as int]));
        let x = f.nested_cache(f.blocks@[b.0 as int].reads@[i])[j];
        assert(f.nested_entry_ok(
            f.blocks@[b.0 as int].reads@[i].0 as int,
            f.values@[f.blocks@[b.0 as int].reads@[i].0 as int],
        ));
        assert(x.0 < f.n_values());
        assert(f.value_kind_ok(x.0 as int, f.values@[x.0 as int].kind));
        assert(s < f.n_blocks());
        assert(f.pred_set(s as int).contains(b.0));
        assert(flow_preds(f.graph, s as int) == f.pred_set(s as int));
    }
}

/// Primops are canonical: equal kind and operands force equal handles.
pub proof fn lemma_primops_canonical(f: Function, p: PrimOp, q: PrimOp)
    requires
        f.wf(),
        f.valid_primop(p),
        f.valid_primop(q),
        f.primop_data(p).op == f.primop_data(q).op,
        f.primop_data(p).reads@ == f.primop_data(q).reads@,
    ensures
        p == q,
{
}

/// Constants are canonical: structurally equal terms share one handle.
pub proof fn lemma_consts_canonical(f: Function, c1: Const, c2: Const)
    requires
        f.wf(),
        f.constant_container.is_valid(c1),
        f.constant_container.is_valid(c2),
        crate::constant::const_kind_eq(
            f.constant_container.terms()[c1.0 as int],
            f.constant_container.terms()[c2.0 as int],
        ),
    ensures
        c1 == c2,
{
}

/// An argument value sits at exactly the slot its kind names: the value of
/// kind `Argument(b, n)` is `block_args(b)[n]`.
pub proof fn lemma_value_argument(f: Function, v: Value)
    requires
        f.wf(),
        f.valid_value(v),
        f.vkind(v) is Argument,
    ensures
        ({
            let b = f.vkind(v)->Argument_0;
            let n = f.vkind(v)->Argument_1;
            &&& b.0 < f.n_blocks()
            &&& n < f.block_data(b).arguments@.len()
            &&& f.block_data(b).arguments@[n as int] == v
        }),
{
    let b = f.vkind(v)->Argument_0;
    let n = f.vkind(v)->Argument_1;
    assert(f.value_kind_ok(v.0 as int, f.values@[v.0 as int].kind));
    assert(f.block_entry_ok(b.0 as int, f.blocks@[b.0 as int]));
    let w = f.block_data(b).arguments@[n as int];
    assert(f.vkind(w) == ValueKind::Argument(b, n));
    assert(f.vkind(w) == f.vkind(v));
    assert(w == v);
}

/// Two values denoting primops with equal kind and operands are the same
/// value: building the same primop twice hands back one handle.
pub proof fn lemma_primop_value_unique(
    f: Function,
    v1: Value,
    v2: Value,
    op: crate::value::PrimOpKind,
    reads: Seq<Value>,
)
    requires
        f.wf(),
        f.valid_value(v1),
        f.valid_value(v2),
        crate::builder::primop_value_matches(f, v1, op, reads),
        crate::builder::primop_value_matches(f, v2, op, reads),
    ensures
        v1 == v2,
{
    let p1 = f.vkind(v1)->PrimOp_0;
    let p2 = f.vkind(v2)->PrimOp_0;
    assert(f.primops@[p1.0 as int].op == f.primops@[p2.0 as int].op);
    assert(f.primops@[p1.0 as int].reads@ == f.primops@[p2.0 as int].reads@);
    assert(p1 == p2);
    assert(f.vkind(v1) == f.vkind(v2));
}

} // verus!
