//! Mutations that grow a function while keeping `Function::wf` intact.
//!
//! Every operation here leaves the structural invariant standing: argument
//! values match their slots, primops and constants stay canonical, and the
//! predecessor/successor sets always equal exactly what the terminator
//! reads dictate.

use vstd::prelude::*;

use crate::entity::{Block, Const, PrimOp, Value};
use crate::fun::{BlockData, Function};
use crate::value::{value_vec_eq, PrimOpData, PrimOpKind, ValueData, ValueKind};

verus! {

broadcast use vstd::seq_lib::lemma_seq_contains_after_push;

/// The value `r` denotes a primop with the given kind and operands.
pub open spec fn primop_value_matches(
    f: Function,
    r: Value,
    op: PrimOpKind,
    reads: Seq<Value>,
) -> bool {
    match f.vkind(r) {
        ValueKind::PrimOp(p) => p.0 < f.n_primops() && f.primop_data(p).op == op
            && f.primop_data(p).reads@ == reads,
        _ => false,
    }
}

/// Block `s` occurs as a `Block`-kind value in the operand closure of one
/// of the first `i` reads.
pub open spec fn targets_upto(f: Function, reads: Seq<Value>, i: int, s: usize) -> bool {
    exists|i2: int, j2: int|
        #![trigger f.nested_cache(reads[i2])[j2]]
        0 <= i2 < i && 0 <= j2 < f.nested_cache(reads[i2]).len() && f.vkind(
            f.nested_cache(reads[i2])[j2],
        ) == ValueKind::Block(Block(s))
}

/// The value and primop arenas of `post` extend those of `pre`: nothing
/// existing moved or changed.
pub open spec fn arenas_extend(post: Function, pre: Function) -> bool {
    &&& pre.n_values() <= post.n_values()
    &&& forall|i: int| 0 <= i < pre.n_values() ==> post.values@[i] == pre.values@[i]
    &&& pre.n_primops() <= post.n_primops()
    &&& forall|p: int| 0 <= p < pre.n_primops() ==> post.primops@[p] == pre.primops@[p]
}

pub proof fn lemma_arenas_extend_trans(a: Function, b: Function, c: Function)
    requires
        arenas_extend(b, a),
        arenas_extend(c, b),
    ensures
        arenas_extend(c, a),
{
    assert forall|i: int| 0 <= i < a.n_values() implies #[trigger] c.values@[i] == a.values@[i] by {
        assert(b.values@[i] == a.values@[i]);
    }
    assert forall|p: int| 0 <= p < a.n_primops() implies #[trigger] c.primops@[p]
        == a.primops@[p] by {
        assert(b.primops@[p] == a.primops@[p]);
    }
}

/// Growing the arenas never changes the operand closure of an existing
/// value.
pub proof fn lemma_is_nested_frame(pre: Function, post: Function, v: Value)
    requires
        arenas_extend(post, pre),
        pre.values_ordered(),
        post.values_ordered(),
        v.0 < pre.n_values(),
    ensures
        forall|x: Value| post.is_nested(x, v) == pre.is_nested(x, v),
    decreases v.0,
{
    assert(post.values@[v.0 as int] == pre.values@[v.0 as int]);
    assert(pre.value_kind_ok(v.0 as int, pre.values@[v.0 as int].kind));
    match pre.values@[v.0 as int].kind {
        ValueKind::PrimOp(p) => {
            assert(post.primops@[p.0 as int] == pre.primops@[p.0 as int]);
            let reads = pre.primops@[p.0 as int].reads@;
            assert forall|j: int| 0 <= j < reads.len() implies forall|x: Value|
                post.is_nested(x, #[trigger] reads[j]) == pre.is_nested(x, reads[j]) by {
                assert(reads[j].0 < v.0);
                assert(reads[j].0 < pre.n_values());
                lemma_is_nested_frame(pre, post, reads[j]);
            }
            assert forall|x: Value| post.is_nested(x, v) == pre.is_nested(x, v) by {
                if pre.is_nested(x, v) {
                    if x != v {
                        let j = choose|j: int|
                            0 <= j < reads.len() && pre.is_nested(x, #[trigger] reads[j]);
                        assert(post.is_nested(x, reads[j]));
                    }
                }
                if post.is_nested(x, v) {
                    if x != v {
                        let j = choose|j: int|
                            0 <= j < reads.len() && post.is_nested(x, #[trigger] reads[j]);
                        assert(pre.is_nested(x, reads[j]));
                    }
                }
            }
        },
        _ => {
            assert forall|x: Value| post.is_nested(x, v) == pre.is_nested(x, v) by {}
        },
    }
}

/// Growing the arenas, without touching a block's reads, never changes
/// which blocks its terminator targets.
pub proof fn lemma_targets_frame(pre: Function, post: Function, b: int)
    requires
        arenas_extend(post, pre),
        pre.nested_ok(),
        0 <= b < pre.n_blocks(),
        b < post.n_blocks(),
        post.blocks@[b].reads@ == pre.blocks@[b].reads@,
        forall|i: int|
            0 <= i < pre.blocks@[b].reads@.len() ==> (#[trigger] pre.blocks@[b].reads@[i]).0
                < pre.n_values(),
    ensures
        forall|s: usize| post.target_in_reads(b, s) == pre.target_in_reads(b, s),
{
    let reads = pre.blocks@[b].reads@;
    assert forall|i: int, j: int|
        0 <= i < reads.len() && 0 <= j < pre.nested_cache(reads[i]).len() implies (
    #[trigger] pre.nested_cache(reads[i])[j]).0 < pre.n_values() by {
        assert(pre.nested_entry_ok(reads[i].0 as int, pre.values@[reads[i].0 as int]));
    }
    assert forall|s: usize| post.target_in_reads(b, s) == pre.target_in_reads(b, s) by {
        if pre.target_in_reads(b, s) {
            let (i, j): (int, int) = choose|i: int, j: int|
                #![trigger pre.nested_cache(pre.blocks@[b].reads@[i])[j]]
                0 <= i < pre.blocks@[b].reads@.len() && 0 <= j < pre.nested_cache(
                    pre.blocks@[b].reads@[i],
                ).len() && pre.vkind(pre.nested_cache(pre.blocks@[b].reads@[i])[j])
                    == ValueKind::Block(Block(s));
            assert(post.nested_cache(post.blocks@[b].reads@[i]) == pre.nested_cache(reads[i]));
            assert(post.vkind(post.nested_cache(post.blocks@[b].reads@[i])[j])
                == ValueKind::Block(Block(s)));
            assert(post.target_in_reads(b, s));
        }
        if post.target_in_reads(b, s) {
            let (i, j): (int, int) = choose|i: int, j: int|
                #![trigger post.nested_cache(post.blocks@[b].reads@[i])[j]]
                0 <= i < post.blocks@[b].reads@.len() && 0 <= j < post.nested_cache(
                    post.blocks@[b].reads@[i],
                ).len() && post.vkind(post.nested_cache(post.blocks@[b].reads@[i])[j])
                    == ValueKind::Block(Block(s));
            assert(pre.nested_cache(pre.blocks@[b].reads@[i]) == post.nested_cache(reads[i]));
            assert(pre.vkind(pre.nested_cache(pre.blocks@[b].reads@[i])[j])
                == ValueKind::Block(Block(s)));
            assert(pre.target_in_reads(b, s));
        }
    }
}

/// Changing only the entry designation (or metadata outside the arenas)
/// keeps the structural invariant.
pub proof fn lemma_wf_same_arenas(pre: Function, post: Function)
    requires
        pre.wf(),
        post.values@ == pre.values@,
        post.primops@ == pre.primops@,
        post.blocks@ == pre.blocks@,
        post.graph == pre.graph,
        post.constant_container == pre.constant_container,
        post.constant_values@ == pre.constant_values@,
        post.locations == pre.locations,
        match post.entry_block {
            Some(e) => e.0 < post.n_blocks(),
            None => true,
        },
    ensures
        post.wf(),
{
    assert forall|i: int| 0 <= i < post.n_values() implies post.value_kind_ok(
        i,
        (#[trigger] post.values@[i]).kind,
    ) by {
        assert(pre.value_kind_ok(i, pre.values@[i].kind));
    }
    assert(post.values_ordered());
    assert forall|i: int| 0 <= i < post.n_values() implies post.nested_entry_ok(
        i,
        #[trigger] post.values@[i],
    ) by {
        lemma_is_nested_frame(pre, post, Value(i as usize));
        assert(pre.nested_entry_ok(i, pre.values@[i]));
    }
    assert(post.nested_ok());
    assert forall|bb: int| 0 <= bb < post.n_blocks() implies post.block_entry_ok(
        bb,
        #[trigger] post.blocks@[bb],
    ) by {
        assert(pre.block_entry_ok(bb, pre.blocks@[bb]));
    }
    assert(post.blocks_ok());
    assert forall|bb: int| 0 <= bb < post.n_blocks() implies #[trigger] crate::flow::flow_succs(
        post.graph,
        bb,
    ) == post.succ_set(bb) by {
        assert(pre.block_entry_ok(bb, pre.blocks@[bb]));
        lemma_targets_frame(pre, post, bb);
        assert(post.succ_set(bb) =~= pre.succ_set(bb));
    }
    assert forall|bb: int| 0 <= bb < post.n_blocks() implies #[trigger] crate::flow::flow_preds(
        post.graph,
        bb,
    ) == post.pred_set(bb) by {
        assert forall|p: usize| post.pred_set(bb).contains(p) == pre.pred_set(bb).contains(
            p,
        ) by {
            if (p as int) < post.n_blocks() {
                assert(pre.block_entry_ok(p as int, pre.blocks@[p as int]));
                lemma_targets_frame(pre, post, p as int);
            }
        }
        assert(post.pred_set(bb) =~= pre.pred_set(bb));
    }
    assert(post.flow_ok());
    assert(post.wf());
}

/// Growing only the location container keeps the structural invariant:
/// location validity is monotone in the container.
pub proof fn lemma_wf_locations_grow(pre: Function, post: Function)
    requires
        pre.wf(),
        post.values@ == pre.values@,
        post.primops@ == pre.primops@,
        post.blocks@ == pre.blocks@,
        post.graph == pre.graph,
        post.constant_container == pre.constant_container,
        post.constant_values@ == pre.constant_values@,
        post.locations.wf(),
        post.locations.extends(pre.locations),
        post.entry_block == pre.entry_block,
    ensures
        post.wf(),
{
    assert forall|i: int| 0 <= i < post.n_values() implies post.value_kind_ok(
        i,
        (#[trigger] post.values@[i]).kind,
    ) by {
        assert(pre.value_kind_ok(i, pre.values@[i].kind));
    }
    assert(post.values_ordered());
    assert forall|i: int| 0 <= i < post.n_values() implies post.nested_entry_ok(
        i,
        #[trigger] post.values@[i],
    ) by {
        lemma_is_nested_frame(pre, post, Value(i as usize));
        assert(pre.nested_entry_ok(i, pre.values@[i]));
    }
    assert(post.nested_ok());
    assert forall|bb: int| 0 <= bb < post.n_blocks() implies post.block_entry_ok(
        bb,
        #[trigger] post.blocks@[bb],
    ) by {
        assert(pre.block_entry_ok(bb, pre.blocks@[bb]));
        assert(pre.locations.is_valid(pre.blocks@[bb].location));
    }
    assert(post.blocks_ok());
    assert forall|bb: int| 0 <= bb < post.n_blocks() implies #[trigger] crate::flow::flow_succs(
        post.graph,
        bb,
    ) == post.succ_set(bb) by {
        assert(pre.block_entry_ok(bb, pre.blocks@[bb]));
        lemma_targets_frame(pre, post, bb);
        assert(post.succ_set(bb) =~= pre.succ_set(bb));
    }
    assert forall|bb: int| 0 <= bb < post.n_blocks() implies #[trigger] crate::flow::flow_preds(
        post.graph,
        bb,
    ) == post.pred_set(bb) by {
        assert forall|p: usize| post.pred_set(bb).contains(p) == pre.pred_set(bb).contains(
            p,
        ) by {
            if (p as int) < post.n_blocks() {
                assert(pre.block_entry_ok(p as int, pre.blocks@[p as int]));
                lemma_targets_frame(pre, post, p as int);
            }
        }
        assert(post.pred_set(bb) =~= pre.pred_set(bb));
    }
    assert(post.flow_ok());
    assert(post.wf());
}

/// When the value and primop arenas only grew and everything else stands
/// still, every old entry still satisfies its part of the invariant.
pub proof fn lemma_wf_frame_parts(pre: Function, post: Function)
    requires
        pre.wf(),
        arenas_extend(post, pre),
        post.blocks@ == pre.blocks@,
        post.graph == pre.graph,
        post.locations == pre.locations,
        post.values_ordered(),
    ensures
        forall|i: int|
            0 <= i < pre.n_values() ==> post.value_kind_ok(
                i,
                (#[trigger] post.values@[i]).kind,
            ),
        forall|i: int| 0 <= i < pre.n_values() ==> post.nested_entry_ok(i, #[trigger] post.values@[i]),
        post.blocks_ok(),
        post.flow_ok(),
        forall|i: int, j: int|
            0 <= i < pre.n_values() && 0 <= j < pre.n_values() && (#[trigger] post.values@[i]).kind
                == (#[trigger] post.values@[j]).kind ==> i == j,
{
    assert forall|i: int| 0 <= i < pre.n_values() implies post.value_kind_ok(
        i,
        (#[trigger] post.values@[i]).kind,
    ) by {
        assert(pre.value_kind_ok(i, pre.values@[i].kind));
    }
    assert forall|i: int| 0 <= i < pre.n_values() implies post.nested_entry_ok(
        i,
        #[trigger] post.values@[i],
    ) by {
        lemma_is_nested_frame(pre, post, Value(i as usize));
        assert(pre.nested_entry_ok(i, pre.values@[i]));
    }
    assert forall|bb: int| 0 <= bb < post.n_blocks() implies post.block_entry_ok(
        bb,
        #[trigger] post.blocks@[bb],
    ) by {
        assert(pre.block_entry_ok(bb, pre.blocks@[bb]));
    }
    assert(post.blocks_ok());
    assert forall|bb: int| 0 <= bb < post.n_blocks() implies #[trigger] crate::flow::flow_succs(
        post.graph,
        bb,
    ) == post.succ_set(bb) by {
        assert(pre.block_entry_ok(bb, pre.blocks@[bb]));
        lemma_targets_frame(pre, post, bb);
        assert(post.succ_set(bb) =~= pre.succ_set(bb));
    }
    assert forall|bb: int| 0 <= bb < post.n_blocks() implies #[trigger] crate::flow::flow_preds(
        post.graph,
        bb,
    ) == post.pred_set(bb) by {
        assert forall|p: usize| post.pred_set(bb).contains(p) == pre.pred_set(bb).contains(
            p,
        ) by {
            if (p as int) < post.n_blocks() {
                assert(pre.block_entry_ok(p as int, pre.blocks@[p as int]));
                lemma_targets_frame(pre, post, p as int);
            }
        }
        assert(post.pred_set(bb) =~= pre.pred_set(bb));
    }
    assert(post.flow_ok());
    assert forall|i: int, j: int|
        0 <= i < pre.n_values() && 0 <= j < pre.n_values() && (#[trigger] post.values@[i]).kind
            == (#[trigger] post.values@[j]).kind implies i == j by {
        assert(pre.values@[i].kind == pre.values@[j].kind);
    }
}

impl Function {
    /// Add a fresh block with no arguments and no terminator, allocating
    /// the value that denotes it.
    pub fn block_insert(&mut self) -> (r: Block)
        requires
            old(self).wf(),
            old(self).n_blocks() < 0xffff_ffff,
        ensures
            final(self).wf(),
            r == Block(old(self).n_blocks() as usize),
            final(self).n_blocks() == old(self).n_blocks() + 1,
            final(self).n_values() == old(self).n_values() + 1,
            final(self).n_primops() == old(self).n_primops(),
            arenas_extend(*final(self), *old(self)),
            forall|b: int|
                0 <= b < old(self).n_blocks() ==> #[trigger] final(self).blocks@[b]
                    == old(self).blocks@[b],
            final(self).block_data(r).op is None,
            final(self).block_data(r).arguments@.len() == 0,
            final(self).block_data(r).reads@.len() == 0,
            final(self).block_data(r).value == Value(old(self).n_values() as usize),
            final(self).vkind(final(self).block_data(r).value) == ValueKind::Block(r),
            final(self).entry_block == old(self).entry_block,
            final(self).constant_values@ == old(self).constant_values@,
            final(self).constant_container == old(self).constant_container,
            final(self).locations.extends(old(self).locations),
            final(self).ident == old(self).ident,
    {
        let ghost pre = *self;
        let b = Block(self.blocks.len());
        let loc = self.locations.location_empty();
        let v = Value(self.values.len());
        let mut nested: Vec<Value> = Vec::new();
        nested.push(v);
        self.values.push(ValueData { kind: ValueKind::Block(b), location: None, nested });
        self.blocks.push(
            BlockData {
                arguments: Vec::new(),
                op: None,
                reads: Vec::new(),
                location: loc,
                value: v,
            },
        );
        self.graph.push_block();
        proof {
            let post = *self;
            let nb = pre.n_blocks();
            let nv = pre.n_values();
            assert(post.values@ == pre.values@.push(post.values@[nv]));
            assert(post.blocks@ == pre.blocks@.push(post.blocks@[nb]));

            // Value kinds stay in range; the new value's block exists.
            assert forall|i: int| 0 <= i < post.n_values() implies post.value_kind_ok(
                i,
                (#[trigger] post.values@[i]).kind,
            ) by {
                if i < nv {
                    assert(pre.value_kind_ok(i, pre.values@[i].kind));
                }
            }
            assert(post.values_ordered());

            // Operand closures of old values are unchanged; the new value
            // nests only itself.
            assert forall|i: int| 0 <= i < post.n_values() implies post.nested_entry_ok(
                i,
                #[trigger] post.values@[i],
            ) by {
                if i < nv {
                    lemma_is_nested_frame(pre, post, Value(i as usize));
                    assert(pre.nested_entry_ok(i, pre.values@[i]));
                } else {
                    assert(post.values@[i].nested@ =~= seq![Value(i as usize)]);
                    assert forall|x: Value| #[trigger] post.is_nested(x, Value(i as usize))
                        implies post.values@[i].nested@.contains(x) by {
                        assert(x == Value(i as usize));
                        assert(post.values@[i].nested@[0] == x);
                    }
                }
            }
            assert(post.nested_ok());

            // Kinds stay unique: no old value denotes the new block.
            assert forall|i: int, j: int|
                0 <= i < post.n_values() && 0 <= j < post.n_values()
                    && (#[trigger] post.values@[i]).kind == (#[trigger] post.values@[j]).kind
                implies i == j by {
                if i < nv && j == nv {
                    assert(pre.value_kind_ok(i, pre.values@[i].kind));
                } else if i == nv && j < nv {
                    assert(pre.value_kind_ok(j, pre.values@[j].kind));
                }
            }
            assert(post.kinds_unique());

            // Per-block facts carry over; the new block is empty.
            assert forall|bb: int| 0 <= bb < post.n_blocks() implies post.block_entry_ok(
                bb,
                #[trigger] post.blocks@[bb],
            ) by {
                if bb < nb {
                    assert(pre.block_entry_ok(bb, pre.blocks@[bb]));
                }
            }
            assert(post.blocks_ok());

            // The flow sets of old blocks are unchanged and still match;
            // the new block has no reads and no incoming edges.
            assert forall|bb: int| 0 <= bb < post.n_blocks() implies #[trigger] crate::flow::flow_succs(
                post.graph,
                bb,
            ) == post.succ_set(bb) by {
                if bb < nb {
                    assert(pre.block_entry_ok(bb, pre.blocks@[bb]));
                    lemma_targets_frame(pre, post, bb);
                    assert(crate::flow::flow_succs(post.graph, bb) == crate::flow::flow_succs(
                        pre.graph,
                        bb,
                    ));
                    assert(post.succ_set(bb) =~= pre.succ_set(bb));
                } else {
                    assert forall|s: usize| !post.target_in_reads(bb, s) by {
                        assert(post.blocks@[bb].reads@.len() == 0);
                    }
                    assert(post.succ_set(bb) =~= Set::<usize>::empty());
                }
            }
            assert forall|bb: int| 0 <= bb < post.n_blocks() implies #[trigger] crate::flow::flow_preds(
                post.graph,
                bb,
            ) == post.pred_set(bb) by {
                assert forall|p: usize| post.pred_set(bb).contains(p) == pre.pred_set(
                    bb,
                ).contains(p) || bb == nb by {
                    if (p as int) < nb {
                        assert(pre.block_entry_ok(p as int, pre.blocks@[p as int]));
                        lemma_targets_frame(pre, post, p as int);
                    } else if p as int == nb {
                        assert(post.blocks@[p as int].reads@.len() == 0);
                        assert(!post.target_in_reads(p as int, bb as usize));
                    }
                }
                if bb < nb {
                    assert(post.pred_set(bb) =~= pre.pred_set(bb));
                } else {
                    assert forall|p: usize| !post.pred_set(bb).contains(p) by {
                        if (p as int) < nb {
                            if post.target_in_reads(p as int, bb as usize) {
                                assert(pre.block_entry_ok(p as int, pre.blocks@[p as int]));
                                lemma_targets_frame(pre, post, p as int);
                                assert(pre.target_in_reads(p as int, bb as usize));
                                let (i, j): (int, int) = choose|i: int, j: int|
                                    #![trigger pre.nested_cache(pre.blocks@[p as int].reads@[i])[j]]
                                    0 <= i < pre.blocks@[p as int].reads@.len() && 0 <= j
                                        < pre.nested_cache(pre.blocks@[p as int].reads@[i]).len()
                                        && pre.vkind(
                                        pre.nested_cache(pre.blocks@[p as int].reads@[i])[j],
                                    ) == ValueKind::Block(Block(bb as usize));
                                let x = pre.nested_cache(pre.blocks@[p as int].reads@[i])[j];
                                assert(pre.nested_entry_ok(
                                    pre.blocks@[p as int].reads@[i].0 as int,
                                    pre.values@[pre.blocks@[p as int].reads@[i].0 as int],
                                ));
                                assert(x.0 < pre.n_values());
                                assert(pre.value_kind_ok(x.0 as int, pre.values@[x.0 as int].kind));
                                assert(false);
                            }
                        } else if p as int == nb {
                            assert(post.blocks@[p as int].reads@.len() == 0);
                        }
                    }
                    assert(post.pred_set(bb) =~= Set::<usize>::empty());
                }
            }
            assert(post.flow_ok());

            // Constant values are untouched.
            assert forall|v2: int|
                0 <= v2 < post.n_values() && ((#[trigger] post.values@[v2]).kind is Const)
                implies post.constant_values@.contains(Value(v2 as usize)) by {
                if v2 < nv {
                    assert(pre.values@[v2].kind is Const);
                }
            }
            assert(post.constant_values_ok());
            assert(post.wf());
        }
        b
    }

    /// Append a formal argument to a block, allocating its value.
    pub fn block_arg_insert(&mut self, b: Block) -> (r: Value)
        requires
            old(self).wf(),
            old(self).valid_block(b),
        ensures
            final(self).wf(),
            r == Value(old(self).n_values() as usize),
            final(self).n_values() == old(self).n_values() + 1,
            final(self).n_blocks() == old(self).n_blocks(),
            final(self).n_primops() == old(self).n_primops(),
            arenas_extend(*final(self), *old(self)),
            final(self).vkind(r) == ValueKind::Argument(
                b,
                old(self).block_data(b).arguments@.len() as usize,
            ),
            final(self).block_data(b).arguments@ == old(self).block_data(b).arguments@.push(r),
            final(self).block_data(b).op == old(self).block_data(b).op,
            final(self).block_data(b).reads@ == old(self).block_data(b).reads@,
            final(self).block_data(b).value == old(self).block_data(b).value,
            final(self).block_data(b).location == old(self).block_data(b).location,
            forall|b2: int|
                0 <= b2 < old(self).n_blocks() && b2 != b.0 ==> #[trigger] final(self).blocks@[b2]
                    == old(self).blocks@[b2],
            final(self).entry_block == old(self).entry_block,
            final(self).constant_values@ == old(self).constant_values@,
            final(self).constant_container == old(self).constant_container,
            final(self).locations == old(self).locations,
            final(self).ident == old(self).ident,
    {
        let ghost pre = *self;
        let n = self.blocks[b.0].arguments.len();
        let v = Value(self.values.len());
        let mut nested: Vec<Value> = Vec::new();
        nested.push(v);
        self.values.push(ValueData { kind: ValueKind::Argument(b, n), location: None, nested });
        self.blocks[b.0].arguments.push(v);
        proof {
            let post = *self;
            let nv = pre.n_values();
            assert(post.values@ == pre.values@.push(post.values@[nv]));
            assert(pre.block_entry_ok(b.0 as int, pre.blocks@[b.0 as int]));

            assert forall|i: int| 0 <= i < post.n_values() implies post.value_kind_ok(
                i,
                (#[trigger] post.values@[i]).kind,
            ) by {
                if i < nv {
                    assert(pre.value_kind_ok(i, pre.values@[i].kind));
                    match pre.values@[i].kind {
                        ValueKind::Argument(b2, n2) => {
                            if b2 == b {
                                assert(post.blocks@[b.0 as int].arguments@.len()
                                    == pre.blocks@[b.0 as int].arguments@.len() + 1);
                            }
                        },
                        _ => {},
                    }
                }
            }
            assert(post.values_ordered());

            assert forall|i: int| 0 <= i < post.n_values() implies post.nested_entry_ok(
                i,
                #[trigger] post.values@[i],
            ) by {
                if i < nv {
                    lemma_is_nested_frame(pre, post, Value(i as usize));
                    assert(pre.nested_entry_ok(i, pre.values@[i]));
                } else {
                    assert(post.values@[i].nested@ =~= seq![Value(i as usize)]);
                    assert forall|x: Value| #[trigger] post.is_nested(x, Value(i as usize))
                        implies post.values@[i].nested@.contains(x) by {
                        assert(x == Value(i as usize));
                        assert(post.values@[i].nested@[0] == x);
                    }
                }
            }
            assert(post.nested_ok());

            // No old value is the argument at the new position.
            assert forall|i: int, j: int|
                0 <= i < post.n_values() && 0 <= j < post.n_values()
                    && (#[trigger] post.values@[i]).kind == (#[trigger] post.values@[j]).kind
                implies i == j by {
                if i < nv && j == nv {
                    assert(pre.value_kind_ok(i, pre.values@[i].kind));
                } else if i == nv && j < nv {
                    assert(pre.value_kind_ok(j, pre.values@[j].kind));
                }
            }
            assert(post.kinds_unique());

            assert forall|bb: int| 0 <= bb < post.n_blocks() implies post.block_entry_ok(
                bb,
                #[trigger] post.blocks@[bb],
            ) by {
                assert(pre.block_entry_ok(bb, pre.blocks@[bb]));
                if bb == b.0 {
                    let args = post.blocks@[bb].arguments@;
                    assert(args == pre.blocks@[bb].arguments@.push(Value(nv as usize)));
                    assert forall|i: int| 0 <= i < args.len() implies (#[trigger] args[i]).0
                        < post.n_values() && post.vkind(args[i]) == ValueKind::Argument(
                        Block(bb as usize),
                        i as usize,
                    ) by {
                        if i < args.len() - 1 {
                            assert(args[i] == pre.blocks@[bb].arguments@[i]);
                        }
                    }
                }
            }
            assert(post.blocks_ok());

            assert forall|bb: int| 0 <= bb < post.n_blocks() implies #[trigger] crate::flow::flow_succs(
                post.graph,
                bb,
            ) == post.succ_set(bb) by {
                assert(pre.block_entry_ok(bb, pre.blocks@[bb]));
                lemma_targets_frame(pre, post, bb);
                assert(post.succ_set(bb) =~= pre.succ_set(bb));
            }
            assert forall|bb: int| 0 <= bb < post.n_blocks() implies #[trigger] crate::flow::flow_preds(
                post.graph,
                bb,
            ) == post.pred_set(bb) by {
                assert forall|p: usize| post.pred_set(bb).contains(p) == pre.pred_set(
                    bb,
                ).contains(p) by {
                    if (p as int) < post.n_blocks() {
                        assert(pre.block_entry_ok(p as int, pre.blocks@[p as int]));
                        lemma_targets_frame(pre, post, p as int);
                    }
                }
                assert(post.pred_set(bb) =~= pre.pred_set(bb));
            }
            assert(post.flow_ok());

            assert forall|v2: int|
                0 <= v2 < post.n_values() && ((#[trigger] post.values@[v2]).kind is Const)
                implies post.constant_values@.contains(Value(v2 as usize)) by {
                if v2 < nv {
                    assert(pre.values@[v2].kind is Const);
                }
            }
            assert(post.constant_values_ok());
            assert(post.wf());
        }
        v
    }

    /// Set the entry block.
    pub fn block_set_entry(&mut self, b: Block)
        requires
            old(self).wf(),
            old(self).valid_block(b),
        ensures
            final(self).wf(),
            *final(self) == (Function { entry_block: Some(b), ..*old(self) }),
    {
        let ghost pre = *self;
        self.entry_block = Some(b);
        proof {
            lemma_wf_same_arenas(pre, *self);
        }
    }

    /// Overwrite a block's location.
    pub fn block_set_location(&mut self, b: Block, loc: crate::entity::Location)
        requires
            old(self).wf(),
            old(self).valid_block(b),
            old(self).locations.is_valid(loc),
        ensures
            final(self).wf(),
            final(self).block_data(b).location == loc,
            final(self).block_data(b).op == old(self).block_data(b).op,
            final(self).block_data(b).reads@ == old(self).block_data(b).reads@,
            final(self).block_data(b).arguments@ == old(self).block_data(b).arguments@,
            final(self).block_data(b).value == old(self).block_data(b).value,
            forall|b2: int|
                0 <= b2 < old(self).n_blocks() && b2 != b.0 ==> #[trigger] final(self).blocks@[b2]
                    == old(self).blocks@[b2],
            final(self).values@ == old(self).values@,
            final(self).primops@ == old(self).primops@,
            final(self).n_blocks() == old(self).n_blocks(),
            final(self).graph == old(self).graph,
            final(self).locations == old(self).locations,
            final(self).entry_block == old(self).entry_block,
            final(self).constant_values@ == old(self).constant_values@,
            final(self).constant_container == old(self).constant_container,
            final(self).ident == old(self).ident,
    {
        let ghost pre = *self;
        self.blocks[b.0].location = loc;
        proof {
            let post = *self;
            assert forall|i: int| 0 <= i < post.n_values() implies post.value_kind_ok(
                i,
                (#[trigger] post.values@[i]).kind,
            ) by {
                assert(pre.value_kind_ok(i, pre.values@[i].kind));
                match pre.values@[i].kind {
                    ValueKind::Argument(b2, n2) => {
                        assert(post.blocks@[b2.0 as int].arguments@
                            == pre.blocks@[b2.0 as int].arguments@);
                    },
                    _ => {},
                }
            }
            assert(post.values_ordered());
            assert forall|i: int| 0 <= i < post.n_values() implies post.nested_entry_ok(
                i,
                #[trigger] post.values@[i],
            ) by {
                lemma_is_nested_frame(pre, post, Value(i as usize));
                assert(pre.nested_entry_ok(i, pre.values@[i]));
            }
            assert(post.nested_ok());
            assert forall|bb: int| 0 <= bb < post.n_blocks() implies post.block_entry_ok(
                bb,
                #[trigger] post.blocks@[bb],
            ) by {
                assert(pre.block_entry_ok(bb, pre.blocks@[bb]));
            }
            assert(post.blocks_ok());
            assert forall|bb: int| 0 <= bb < post.n_blocks() implies #[trigger] crate::flow::flow_succs(
                post.graph,
                bb,
            ) == post.succ_set(bb) by {
                assert(pre.block_entry_ok(bb, pre.blocks@[bb]));
                lemma_targets_frame(pre, post, bb);
                assert(post.succ_set(bb) =~= pre.succ_set(bb));
            }
            assert forall|bb: int| 0 <= bb < post.n_blocks() implies #[trigger] crate::flow::flow_preds(
                post.graph,
                bb,
            ) == post.pred_set(bb) by {
                assert forall|p: usize| post.pred_set(bb).contains(p) == pre.pred_set(
                    bb,
                ).contains(p) by {
                    if (p as int) < post.n_blocks() {
                        assert(pre.block_entry_ok(p as int, pre.blocks@[p as int]));
                        lemma_targets_frame(pre, post, p as int);
                    }
                }
                assert(post.pred_set(bb) =~= pre.pred_set(bb));
            }
            assert(post.flow_ok());
            assert(post.wf());
        }
    }

    /// The interned value of the given kind, when one exists.
    pub fn value_get(&self, kind: ValueKind) -> (r: Option<Value>)
        ensures
            match r {
                Some(v) => self.valid_value(v) && self.vkind(v) == kind,
                None => forall|i: int|
                    0 <= i < self.n_values() ==> (#[trigger] self.values@[i]).kind != kind,
            },
    {
        let n = self.values.len();
        let mut i: usize = 0;
        while i < n
            invariant
                n == self.n_values(),
                i <= n,
                forall|j: int| 0 <= j < i ==> (#[trigger] self.values@[j]).kind != kind,
            decreases n - i,
        {
            if self.values[i].kind == kind {
                return Some(Value(i));
            }
            i += 1;
        }
        None
    }

    /// Intern a constant term, handing back its canonical handle.
    pub fn cons_intern(&mut self, k: crate::constant::ConstKind) -> (r: Const)
        requires
            old(self).wf(),
            crate::constant::const_kind_bounded(k, old(self).constant_container.len()),
        ensures
            final(self).wf(),
            final(self).constant_container.is_valid(r),
            crate::constant::const_kind_eq(
                final(self).constant_container.terms()[r.0 as int],
                k,
            ),
            final(self).values@ == old(self).values@,
            final(self).primops@ == old(self).primops@,
            final(self).blocks@ == old(self).blocks@,
            final(self).graph == old(self).graph,
            final(self).locations == old(self).locations,
            final(self).constant_values@ == old(self).constant_values@,
            final(self).entry_block == old(self).entry_block,
            final(self).ident == old(self).ident,
            final(self).constant_container.extends_terms(old(self).constant_container),
    {
        let ghost pre = *self;
        let r = self.constant_container.intern(k);
        proof {
            let post = *self;
            assert forall|i: int| 0 <= i < post.n_values() implies post.value_kind_ok(
                i,
                (#[trigger] post.values@[i]).kind,
            ) by {
                assert(pre.value_kind_ok(i, pre.values@[i].kind));
            }
            assert(post.values_ordered());
            lemma_wf_frame_parts(pre, post);
            assert(post.nested_ok());
            assert(post.kinds_unique());
            assert(post.constant_values_ok());
            assert(post.wf());
        }
        r
    }

    /// The interned value for a constant, creating it on first use.
    pub fn const_value(&mut self, c: Const) -> (r: Value)
        requires
            old(self).wf(),
            old(self).constant_container.is_valid(c),
        ensures
            final(self).wf(),
            final(self).valid_value(r),
            final(self).vkind(r) == ValueKind::Const(c),
            arenas_extend(*final(self), *old(self)),
            final(self).n_values() <= old(self).n_values() + 1,
            final(self).primops@ == old(self).primops@,
            final(self).blocks@ == old(self).blocks@,
            final(self).graph == old(self).graph,
            final(self).locations == old(self).locations,
            final(self).constant_container == old(self).constant_container,
            final(self).entry_block == old(self).entry_block,
            final(self).ident == old(self).ident,
            (exists|i: int|
                0 <= i < old(self).n_values() && (#[trigger] old(self).values@[i]).kind
                    == ValueKind::Const(c)) ==> *final(self) == *old(self),
    {
        match self.value_get(ValueKind::Const(c)) {
            Some(v) => v,
            None => {
                let ghost pre = *self;
                let v = Value(self.values.len());
                let mut nested: Vec<Value> = Vec::new();
                nested.push(v);
                self.values.push(
                    ValueData { kind: ValueKind::Const(c), location: None, nested },
                );
                self.constant_values.push(v);
                proof {
                    let post = *self;
                    let nv = pre.n_values();
                    assert(post.values@ == pre.values@.push(post.values@[nv]));
                    assert forall|i: int| 0 <= i < post.n_values() implies post.value_kind_ok(
                        i,
                        (#[trigger] post.values@[i]).kind,
                    ) by {
                        if i < nv {
                            assert(pre.value_kind_ok(i, pre.values@[i].kind));
                        }
                    }
                    assert(post.values_ordered());
                    lemma_wf_frame_parts(pre, post);
                    assert forall|i: int| 0 <= i < post.n_values() implies post.nested_entry_ok(
                        i,
                        #[trigger] post.values@[i],
                    ) by {
                        if i == nv {
                            assert(post.values@[i].nested@ =~= seq![Value(i as usize)]);
                            assert forall|x: Value| #[trigger] post.is_nested(x, Value(i as usize))
                                implies post.values@[i].nested@.contains(x) by {
                                assert(x == Value(i as usize));
                                assert(post.values@[i].nested@[0] == x);
                            }
                        }
                    }
                    assert(post.nested_ok());
                    assert forall|i: int, j: int|
                        0 <= i < post.n_values() && 0 <= j < post.n_values()
                            && (#[trigger] post.values@[i]).kind == (
                        #[trigger] post.values@[j]).kind implies i == j by {}
                    assert(post.kinds_unique());
                    // The new value joins the constant list exactly once.
                    assert(post.constant_values@ == pre.constant_values@.push(Value(nv as usize)));
                    assert forall|v2: int|
                        0 <= v2 < post.n_values() && ((#[trigger] post.values@[v2]).kind is Const)
                        implies post.constant_values@.contains(Value(v2 as usize)) by {
                        if v2 < nv {
                            assert(pre.values@[v2].kind is Const);
                            assert(pre.constant_values@.contains(Value(v2 as usize)));
                        } else {
                            assert(post.constant_values@[post.constant_values@.len() - 1]
                                == Value(v2 as usize));
                        }
                    }
                    assert forall|i: int, j: int|
                        0 <= i < post.constant_values@.len() && 0 <= j
                            < post.constant_values@.len() && (#[trigger] post.constant_values@[i])
                            == (#[trigger] post.constant_values@[j]) implies i == j by {
                        let last = pre.constant_values@.len() as int;
                        if i == last && j < last {
                            assert(pre.constant_values@[j].0 < nv);
                        } else if j == last && i < last {
                            assert(pre.constant_values@[i].0 < nv);
                        }
                    }
                    assert(post.constant_values_ok());
                    assert(post.wf());
                }
                v
            },
        }
    }

    /// The canonical primop for a kind and operand list, appending a new
    /// entry only when none exists.
    pub(crate) fn primop_get_or_insert(&mut self, op: PrimOpKind, reads: Vec<Value>) -> (r: PrimOp)
        requires
            old(self).wf(),
            forall|i: int| 0 <= i < reads@.len() ==> (#[trigger] reads@[i]).0 < old(self).n_values(),
        ensures
            final(self).wf(),
            final(self).valid_primop(r),
            final(self).primop_data(r).op == op,
            final(self).primop_data(r).reads@ == reads@,
            final(self).values@ == old(self).values@,
            final(self).blocks@ == old(self).blocks@,
            final(self).graph == old(self).graph,
            final(self).locations == old(self).locations,
            final(self).constant_container == old(self).constant_container,
            final(self).constant_values@ == old(self).constant_values@,
            final(self).entry_block == old(self).entry_block,
            final(self).ident == old(self).ident,
            arenas_extend(*final(self), *old(self)),
            (exists|p: int|
                0 <= p < old(self).n_primops() && (#[trigger] old(self).primops@[p]).op == op
                    && old(self).primops@[p].reads@ == reads@) ==> *final(self) == *old(self),
    {
        let n = self.primops.len();
        let mut i: usize = 0;
        while i < n
            invariant
                *self == *old(self),
                self.wf(),
                n == self.n_primops(),
                i <= n,
                forall|j: int|
                    0 <= j < i ==> !((#[trigger] self.primops@[j]).op == op
                        && self.primops@[j].reads@ == reads@),
            decreases n - i,
        {
            if self.primops[i].op == op && value_vec_eq(&self.primops[i].reads, &reads) {
                return PrimOp(i);
            }
            i += 1;
        }
        let ghost pre = *self;
        let r = PrimOp(n);
        self.primops.push(PrimOpData { op, reads });
        proof {
            let post = *self;
            assert(post.primops@ == pre.primops@.push(post.primops@[n as int]));
            assert forall|i2: int| 0 <= i2 < post.n_values() implies post.value_kind_ok(
                i2,
                (#[trigger] post.values@[i2]).kind,
            ) by {
                assert(pre.value_kind_ok(i2, pre.values@[i2].kind));
            }
            assert(post.values_ordered());
            lemma_wf_frame_parts(pre, post);
            assert(post.nested_ok());
            assert(post.kinds_unique());
            assert(post.constant_values_ok());
            assert forall|p: int, q: int|
                0 <= p < post.n_primops() && 0 <= q < post.n_primops()
                    && (#[trigger] post.primops@[p]).op == (#[trigger] post.primops@[q]).op
                    && post.primops@[p].reads@ == post.primops@[q].reads@ implies p == q by {
                if p == n as int && q < n as int {
                    assert(!(pre.primops@[q].op == op && pre.primops@[q].reads@ == reads@));
                } else if q == n as int && p < n as int {
                    assert(!(pre.primops@[p].op == op && pre.primops@[p].reads@ == reads@));
                }
            }
            assert(post.primops_canonical());
            assert(post.wf());
        }
        r
    }

    /// The interned value of a primop, creating it (and its nested-value
    /// cache) on first use.
    pub(crate) fn primop_value(&mut self, p: PrimOp) -> (r: Value)
        requires
            old(self).wf(),
            old(self).valid_primop(p),
        ensures
            final(self).wf(),
            final(self).valid_value(r),
            final(self).vkind(r) == ValueKind::PrimOp(p),
            arenas_extend(*final(self), *old(self)),
            final(self).n_values() <= old(self).n_values() + 1,
            final(self).primops@ == old(self).primops@,
            final(self).blocks@ == old(self).blocks@,
            final(self).graph == old(self).graph,
            final(self).locations == old(self).locations,
            final(self).constant_container == old(self).constant_container,
            final(self).constant_values@ == old(self).constant_values@,
            final(self).entry_block == old(self).entry_block,
            final(self).ident == old(self).ident,
            (exists|i: int|
                0 <= i < old(self).n_values() && (#[trigger] old(self).values@[i]).kind
                    == ValueKind::PrimOp(p)) ==> *final(self) == *old(self),
    {
        match self.value_get(ValueKind::PrimOp(p)) {
            Some(v) => v,
            None => {
                let ghost pre = *self;
                let v = Value(self.values.len());
                let mut nested: Vec<Value> = Vec::new();
                nested.push(v);
                proof {
                    assert(pre.primops_canonical());
                    assert forall|x: Value| nested@.contains(x) implies x == v by {}
                }
                let nreads = self.primops[p.0].reads.len();
                let mut i: usize = 0;
                while i < nreads
                    invariant
                        *self == pre,
                        pre.wf(),
                        p.0 < pre.n_primops(),
                        v == Value(pre.n_values() as usize),
                        nreads == pre.primops@[p.0 as int].reads@.len(),
                        forall|k: int|
                            0 <= k < nreads ==> (#[trigger] pre.primops@[p.0 as int].reads@[k]).0
                                < pre.n_values(),
                        i <= nreads,
                        nested@.len() >= 1,
                        nested@[0] == v,
                        forall|x: Value|
                            nested@.contains(x) <==> (x == v || exists|i2: int|
                                0 <= i2 < i && pre.is_nested(
                                    x,
                                    #[trigger] pre.primops@[p.0 as int].reads@[i2],
                                )),
                    decreases nreads - i,
                {
                    let rv = self.primops[p.0].reads[i];
                    let m = self.values[rv.0].nested.len();
                    proof {
                        assert(pre.nested_entry_ok(rv.0 as int, pre.values@[rv.0 as int]));
                    }
                    let mut j: usize = 0;
                    while j < m
                        invariant
                            *self == pre,
                            pre.wf(),
                            p.0 < pre.n_primops(),
                            v == Value(pre.n_values() as usize),
                            nreads == pre.primops@[p.0 as int].reads@.len(),
                            i < nreads,
                            rv == pre.primops@[p.0 as int].reads@[i as int],
                            rv.0 < pre.n_values(),
                            m == pre.nested_cache(rv).len(),
                            j <= m,
                            nested@.len() >= 1,
                            nested@[0] == v,
                            forall|x: Value|
                                nested@.contains(x) <==> (x == v || (exists|i2: int|
                                    0 <= i2 < i && pre.is_nested(
                                        x,
                                        #[trigger] pre.primops@[p.0 as int].reads@[i2],
                                    )) || (exists|j2: int|
                                    0 <= j2 < j && x == pre.nested_cache(rv)[j2])),
                        decreases m - j,
                    {
                        nested.push(self.values[rv.0].nested[j]);
                        j += 1;
                    }
                    proof {
                        assert(pre.nested_entry_ok(rv.0 as int, pre.values@[rv.0 as int]));
                        assert forall|x: Value|
                            nested@.contains(x) <==> (x == v || exists|i2: int|
                                0 <= i2 < i + 1 && pre.is_nested(
                                    x,
                                    #[trigger] pre.primops@[p.0 as int].reads@[i2],
                                )) by {
                            if nested@.contains(x) && x != v {
                                if exists|j2: int| 0 <= j2 < m && x == pre.nested_cache(rv)[j2] {
                                    assert(pre.nested_cache(rv).contains(x));
                                    assert(pre.is_nested(x, rv));
                                }
                            }
                            if x != v && exists|i2: int|
                                0 <= i2 < i + 1 && pre.is_nested(
                                    x,
                                    #[trigger] pre.primops@[p.0 as int].reads@[i2],
                                ) {
                                let i2 = choose|i2: int|
                                    0 <= i2 < i + 1 && pre.is_nested(
                                        x,
                                        #[trigger] pre.primops@[p.0 as int].reads@[i2],
                                    );
                                if i2 == i {
                                    assert(pre.nested_cache(rv).contains(x));
                                    let j2 = choose|j2: int|
                                        0 <= j2 < pre.nested_cache(rv).len() && pre.nested_cache(
                                            rv,
                                        )[j2] == x;
                                    assert(nested@.contains(x));
                                }
                            }
                        }
                    }
                    i += 1;
                }
                self.values.push(
                    ValueData { kind: ValueKind::PrimOp(p), location: None, nested },
                );
                proof {
                    let post = *self;
                    let nv = pre.n_values();
                    assert(post.values@ == pre.values@.push(post.values@[nv]));
                    assert forall|i2: int| 0 <= i2 < post.n_values() implies post.value_kind_ok(
                        i2,
                        (#[trigger] post.values@[i2]).kind,
                    ) by {
                        if i2 < nv {
                            assert(pre.value_kind_ok(i2, pre.values@[i2].kind));
                        }
                    }
                    assert(post.values_ordered());
                    lemma_wf_frame_parts(pre, post);
                    assert forall|i2: int| 0 <= i2 < post.n_values() implies post.nested_entry_ok(
                        i2,
                        #[trigger] post.values@[i2],
                    ) by {
                        if i2 == nv {
                            let vv = Value(i2 as usize);
                            let reads = pre.primops@[p.0 as int].reads@;
                            assert forall|k: int|
                                0 <= k < reads.len() implies forall|x: Value|
                                post.is_nested(x, #[trigger] reads[k]) == pre.is_nested(
                                    x,
                                    reads[k],
                                ) by {
                                lemma_is_nested_frame(pre, post, reads[k]);
                            }
                            assert forall|x: Value| #[trigger] post.is_nested(x, vv)
                                implies post.values@[i2].nested@.contains(x) by {
                                if x != vv {
                                    let k = choose|k: int|
                                        0 <= k < reads.len() && post.is_nested(
                                            x,
                                            #[trigger] reads[k],
                                        );
                                    assert(pre.is_nested(x, reads[k]));
                                }
                            }
                            assert forall|k: int|
                                0 <= k < post.values@[i2].nested@.len() implies (
                            #[trigger] post.values@[i2].nested@[k]).0 < post.n_values()
                                && post.is_nested(post.values@[i2].nested@[k], vv) by {
                                let x = post.values@[i2].nested@[k];
                                assert(post.values@[i2].nested@.contains(x));
                                if x != vv {
                                    let k2 = choose|k2: int|
                                        0 <= k2 < reads.len() && pre.is_nested(
                                            x,
                                            #[trigger] reads[k2],
                                        );
                                    assert(pre.nested_entry_ok(
                                        reads[k2].0 as int,
                                        pre.values@[reads[k2].0 as int],
                                    ));
                                    assert(pre.nested_cache(reads[k2]).contains(x));
                                    assert(post.is_nested(x, reads[k2]));
                                }
                            }
                        }
                    }
                    assert(post.nested_ok());
                    assert forall|i2: int, j2: int|
                        0 <= i2 < post.n_values() && 0 <= j2 < post.n_values()
                            && (#[trigger] post.values@[i2]).kind == (
                        #[trigger] post.values@[j2]).kind implies i2 == j2 by {}
                    assert(post.kinds_unique());
                    assert forall|v2: int|
                        0 <= v2 < post.n_values() && ((#[trigger] post.values@[v2]).kind is Const)
                        implies post.constant_values@.contains(Value(v2 as usize)) by {
                        if v2 < nv {
                            assert(pre.values@[v2].kind is Const);
                        }
                    }
                    assert(post.constant_values_ok());
                    assert(post.wf());
                }
                v
            },
        }
    }

    /// Install a terminator on a block that has none, recording every
    /// successor edge the reads dictate and the matching predecessor
    /// entries.
    pub fn block_set_op(&mut self, b: Block, op: crate::op::OpKind, reads: Vec<Value>)
        requires
            old(self).wf(),
            old(self).valid_block(b),
            old(self).block_data(b).op is None,
            forall|i: int| 0 <= i < reads@.len() ==> (#[trigger] reads@[i]).0 < old(self).n_values(),
        ensures
            final(self).wf(),
            final(self).block_data(b).op == Some(op),
            final(self).block_data(b).reads@ == reads@,
            final(self).block_data(b).arguments@ == old(self).block_data(b).arguments@,
            final(self).block_data(b).location == old(self).block_data(b).location,
            final(self).block_data(b).value == old(self).block_data(b).value,
            forall|b2: int|
                0 <= b2 < old(self).n_blocks() && b2 != b.0 ==> #[trigger] final(self).blocks@[b2]
                    == old(self).blocks@[b2],
            final(self).n_blocks() == old(self).n_blocks(),
            final(self).values@ == old(self).values@,
            final(self).primops@ == old(self).primops@,
            final(self).locations == old(self).locations,
            final(self).constant_container == old(self).constant_container,
            final(self).constant_values@ == old(self).constant_values@,
            final(self).entry_block == old(self).entry_block,
            final(self).ident == old(self).ident,
    {
        let ghost pre = *self;
        // Phase one: collect every block named in the operand closures.
        let mut targets: Vec<usize> = Vec::new();
        let nr = reads.len();
        let mut i: usize = 0;
        while i < nr
            invariant
                *self == pre,
                pre.wf(),
                b.0 < pre.n_blocks(),
                nr == reads@.len(),
                forall|k: int| 0 <= k < nr ==> (#[trigger] reads@[k]).0 < pre.n_values(),
                i <= nr,
                forall|k: int| 0 <= k < targets@.len() ==> (#[trigger] targets@[k]) < pre.n_blocks(),
                forall|t: usize| targets@.contains(t) <==> targets_upto(pre, reads@, i as int, t),
            decreases nr - i,
        {
            let rv = reads[i];
            proof {
                assert(pre.nested_entry_ok(rv.0 as int, pre.values@[rv.0 as int]));
            }
            let m = self.values[rv.0].nested.len();
            let mut j: usize = 0;
            while j < m
                invariant
                    *self == pre,
                    pre.wf(),
                    b.0 < pre.n_blocks(),
                    nr == reads@.len(),
                    forall|k: int| 0 <= k < nr ==> (#[trigger] reads@[k]).0 < pre.n_values(),
                    i < nr,
                    rv == reads@[i as int],
                    rv.0 < pre.n_values(),
                    m == pre.nested_cache(rv).len(),
                    j <= m,
                    forall|k: int|
                        0 <= k < targets@.len() ==> (#[trigger] targets@[k]) < pre.n_blocks(),
                    forall|t: usize|
                        targets@.contains(t) <==> (targets_upto(pre, reads@, i as int, t) || (
                        exists|j2: int|
                            0 <= j2 < j && pre.vkind(#[trigger] pre.nested_cache(rv)[j2])
                                == ValueKind::Block(Block(t)))),
                decreases m - j,
            {
                let x = self.values[rv.0].nested[j];
                proof {
                    assert(pre.nested_entry_ok(rv.0 as int, pre.values@[rv.0 as int]));
                    assert(x.0 < pre.n_values());
                }
                let ghost prev = targets@;
                match self.values[x.0].kind {
                    ValueKind::Block(sb) => {
                        proof {
                            assert(pre.value_kind_ok(x.0 as int, pre.values@[x.0 as int].kind));
                        }
                        targets.push(sb.0);
                        proof {
                            assert(targets@ == prev.push(sb.0));
                            assert forall|t: usize|
                                targets@.contains(t) <==> (targets_upto(pre, reads@, i as int, t)
                                    || (exists|j2: int|
                                    0 <= j2 < j + 1 && pre.vkind(
                                        #[trigger] pre.nested_cache(rv)[j2],
                                    ) == ValueKind::Block(Block(t)))) by {
                                if targets@.contains(t) {
                                    if t == sb.0 {
                                        assert(pre.vkind(pre.nested_cache(rv)[j as int])
                                            == ValueKind::Block(Block(t)));
                                    }
                                }
                                if targets_upto(pre, reads@, i as int, t) {
                                    assert(prev.contains(t));
                                }
                                if exists|j2: int|
                                    0 <= j2 < j + 1 && pre.vkind(
                                        #[trigger] pre.nested_cache(rv)[j2],
                                    ) == ValueKind::Block(Block(t)) {
                                    let j2 = choose|j2: int|
                                        0 <= j2 < j + 1 && pre.vkind(
                                            #[trigger] pre.nested_cache(rv)[j2],
                                        ) == ValueKind::Block(Block(t));
                                    if j2 < j {
                                        assert(prev.contains(t));
                                    } else {
                                        assert(t == sb.0);
                                    }
                                }
                            }
                        }
                    },
                    _ => {
                        proof {
                            assert forall|t: usize|
                                targets@.contains(t) <==> (targets_upto(pre, reads@, i as int, t)
                                    || (exists|j2: int|
                                    0 <= j2 < j + 1 && pre.vkind(
                                        #[trigger] pre.nested_cache(rv)[j2],
                                    ) == ValueKind::Block(Block(t)))) by {
                                if exists|j2: int|
                                    0 <= j2 < j + 1 && pre.vkind(
                                        #[trigger] pre.nested_cache(rv)[j2],
                                    ) == ValueKind::Block(Block(t)) {
                                    let j2 = choose|j2: int|
                                        0 <= j2 < j + 1 && pre.vkind(
                                            #[trigger] pre.nested_cache(rv)[j2],
                                        ) == ValueKind::Block(Block(t));
                                    assert(j2 < j);
                                }
                            }
                        }
                    },
                }
                j += 1;
            }
            proof {
                assert forall|t: usize|
                    targets@.contains(t) <==> targets_upto(pre, reads@, i + 1, t) by {
                    if targets@.contains(t) {
                        if !targets_upto(pre, reads@, i as int, t) {
                            let j2 = choose|j2: int|
                                0 <= j2 < m && pre.vkind(#[trigger] pre.nested_cache(rv)[j2])
                                    == ValueKind::Block(Block(t));
                            assert(0 <= i < i + 1 && 0 <= j2 < pre.nested_cache(
                                reads@[i as int],
                            ).len() && pre.vkind(pre.nested_cache(reads@[i as int])[j2])
                                == ValueKind::Block(Block(t)));
                        }
                    }
                    if targets_upto(pre, reads@, i + 1, t) {
                        let (i2, j2): (int, int) = choose|i2: int, j2: int|
                            #![trigger pre.nested_cache(reads@[i2])[j2]]
                            0 <= i2 < i + 1 && 0 <= j2 < pre.nested_cache(reads@[i2]).len()
                                && pre.vkind(pre.nested_cache(reads@[i2])[j2])
                                == ValueKind::Block(Block(t));
                        if i2 == i {
                            assert(pre.vkind(pre.nested_cache(rv)[j2])
                                == ValueKind::Block(Block(t)));
                        } else {
                            assert(targets_upto(pre, reads@, i as int, t));
                        }
                    }
                }
            }
            i += 1;
        }
        // Phase two: install the terminator and record the edges.
        self.blocks[b.0].op = Some(op);
        self.blocks[b.0].reads = reads;
        let ghost mid = *self;
        proof {
            assert(pre.block_entry_ok(b.0 as int, pre.blocks@[b.0 as int]));
            assert(pre.blocks@[b.0 as int].reads@.len() == 0);
            assert forall|s: usize| !pre.target_in_reads(b.0 as int, s) by {}
            assert forall|s: int| 0 <= s < pre.n_blocks() implies !crate::flow::flow_preds(
                pre.graph,
                s,
            ).contains(b.0) by {
                assert(crate::flow::flow_preds(pre.graph, s) == pre.pred_set(s));
            }
        }
        let nt = targets.len();
        let mut k: usize = 0;
        while k < nt
            invariant
                self.blocks@ == mid.blocks@,
                self.values@ == mid.values@,
                self.primops@ == mid.primops@,
                self.constant_container == mid.constant_container,
                self.constant_values@ == mid.constant_values@,
                self.locations == mid.locations,
                self.entry_block == mid.entry_block,
                self.ident == mid.ident,
                self.span == mid.span,
                self.dialect == mid.dialect,
                pre.wf(),
                b.0 < pre.n_blocks(),
                pre.n_blocks() == self.n_blocks(),
                pre.n_blocks() <= 0xffff_ffff,
                crate::flow::flow_len(self.graph) == pre.n_blocks(),
                nt == targets@.len(),
                k <= nt,
                forall|k2: int|
                    0 <= k2 < targets@.len() ==> (#[trigger] targets@[k2]) < pre.n_blocks(),
                crate::flow::flow_succs(self.graph, b.0 as int) == targets@.take(
                    k as int,
                ).to_set(),
                forall|b2: int|
                    0 <= b2 < pre.n_blocks() && b2 != b.0 ==> #[trigger] crate::flow::flow_succs(
                        self.graph,
                        b2,
                    ) == crate::flow::flow_succs(pre.graph, b2),
                forall|s: int|
                    0 <= s < pre.n_blocks() ==> #[trigger] crate::flow::flow_preds(self.graph, s)
                        == if targets@.take(k as int).to_set().contains(s as usize) {
                        crate::flow::flow_preds(pre.graph, s).insert(b.0)
                    } else {
                        crate::flow::flow_preds(pre.graph, s)
                    },
            decreases nt - k,
        {
            let t = targets[k];
            let ghost gpre = self.graph;
            self.graph.add_succ(b.0, t);
            self.graph.add_pred(t, b.0);
            proof {
                assert(targets@.take(k + 1) =~= targets@.take(k as int).push(t));
                assert forall|u: usize| targets@.take(k + 1).to_set().contains(u)
                    <==> (targets@.take(k as int).to_set().contains(u) || u == t) by {}
                assert(crate::flow::flow_succs(self.graph, b.0 as int) =~= targets@.take(
                    k + 1,
                ).to_set());
                assert forall|s: int| 0 <= s < pre.n_blocks() implies #[trigger] crate::flow::flow_preds(
                    self.graph,
                    s,
                ) == if targets@.take(k + 1).to_set().contains(s as usize) {
                    crate::flow::flow_preds(pre.graph, s).insert(b.0)
                } else {
                    crate::flow::flow_preds(pre.graph, s)
                } by {
                    if s == t as int {
                        if targets@.take(k as int).to_set().contains(t) {
                            assert(crate::flow::flow_preds(gpre, s) == crate::flow::flow_preds(
                                pre.graph,
                                s,
                            ).insert(b.0));
                            assert(crate::flow::flow_preds(pre.graph, s).insert(b.0).insert(b.0)
                                =~= crate::flow::flow_preds(pre.graph, s).insert(b.0));
                        }
                    }
                }
            }
            k += 1;
        }
        proof {
            let post = *self;
            assert(targets@.take(nt as int) =~= targets@);

            // The recorded successor set is exactly what the new reads
            // dictate.
            assert(post.blocks@[b.0 as int].reads@ == reads@);
            assert(post.values@ == pre.values@);
            assert forall|s: usize| post.target_in_reads(b.0 as int, s) <==> targets@.to_set()
                .contains(s) by {
                if post.target_in_reads(b.0 as int, s) {
                    let (i2, j2): (int, int) = choose|i2: int, j2: int|
                        #![trigger post.nested_cache(post.blocks@[b.0 as int].reads@[i2])[j2]]
                        0 <= i2 < post.blocks@[b.0 as int].reads@.len() && 0 <= j2
                            < post.nested_cache(post.blocks@[b.0 as int].reads@[i2]).len()
                            && post.vkind(
                            post.nested_cache(post.blocks@[b.0 as int].reads@[i2])[j2],
                        ) == ValueKind::Block(Block(s));
                    assert(reads@[i2].0 < pre.n_values());
                    assert(pre.nested_cache(reads@[i2]) == post.nested_cache(
                        post.blocks@[b.0 as int].reads@[i2],
                    ));
                    assert(0 <= i2 < nr && 0 <= j2 < pre.nested_cache(reads@[i2]).len()
                        && pre.vkind(pre.nested_cache(reads@[i2])[j2]) == ValueKind::Block(
                        Block(s),
                    ));
                    assert(targets_upto(pre, reads@, nr as int, s));
                    assert(targets@.contains(s));
                }
                if targets@.to_set().contains(s) {
                    assert(targets@.contains(s));
                    assert(targets_upto(pre, reads@, nr as int, s));
                    let (i2, j2): (int, int) = choose|i2: int, j2: int|
                        #![trigger pre.nested_cache(reads@[i2])[j2]]
                        0 <= i2 < nr && 0 <= j2 < pre.nested_cache(reads@[i2]).len()
                            && pre.vkind(pre.nested_cache(reads@[i2])[j2]) == ValueKind::Block(
                            Block(s),
                        );
                    assert(reads@[i2].0 < pre.n_values());
                    assert(post.nested_cache(post.blocks@[b.0 as int].reads@[i2])
                        == pre.nested_cache(reads@[i2]));
                    assert(0 <= i2 < post.blocks@[b.0 as int].reads@.len() && 0 <= j2
                        < post.nested_cache(post.blocks@[b.0 as int].reads@[i2]).len()
                        && post.vkind(post.nested_cache(post.blocks@[b.0 as int].reads@[i2])[j2])
                        == ValueKind::Block(Block(s)));
                    assert(post.target_in_reads(b.0 as int, s));
                }
            }

            assert forall|i2: int| 0 <= i2 < post.n_values() implies post.value_kind_ok(
                i2,
                (#[trigger] post.values@[i2]).kind,
            ) by {
                assert(pre.value_kind_ok(i2, pre.values@[i2].kind));
                match pre.values@[i2].kind {
                    ValueKind::Argument(b2, n2) => {
                        assert(post.blocks@[b2.0 as int].arguments@ == pre.blocks@[b2.0 as
                            int].arguments@);
                    },
                    _ => {},
                }
            }
            assert(post.values_ordered());
            assert forall|i2: int| 0 <= i2 < post.n_values() implies post.nested_entry_ok(
                i2,
                #[trigger] post.values@[i2],
            ) by {
                lemma_is_nested_frame(pre, post, Value(i2 as usize));
                assert(pre.nested_entry_ok(i2, pre.values@[i2]));
            }
            assert(post.nested_ok());
            assert(post.kinds_unique());
            assert(post.primops_canonical());

            assert forall|bb: int| 0 <= bb < post.n_blocks() implies post.block_entry_ok(
                bb,
                #[trigger] post.blocks@[bb],
            ) by {
                assert(pre.block_entry_ok(bb, pre.blocks@[bb]));
                if bb == b.0 {
                    assert(post.blocks@[bb].arguments@ == pre.blocks@[bb].arguments@);
                }
            }
            assert(post.blocks_ok());

            assert forall|bb: int| 0 <= bb < post.n_blocks() implies #[trigger] crate::flow::flow_succs(
                post.graph,
                bb,
            ) == post.succ_set(bb) by {
                if bb == b.0 {
                    assert(post.succ_set(bb) =~= targets@.to_set());
                } else {
                    assert(pre.block_entry_ok(bb, pre.blocks@[bb]));
                    lemma_targets_frame(pre, post, bb);
                    assert(post.succ_set(bb) =~= pre.succ_set(bb));
                }
            }
            assert forall|bb: int| 0 <= bb < post.n_blocks() implies #[trigger] crate::flow::flow_preds(
                post.graph,
                bb,
            ) == post.pred_set(bb) by {
                assert forall|p: usize| post.pred_set(bb).contains(p) <==> (pre.pred_set(
                    bb,
                ).contains(p) || (p == b.0 && targets@.to_set().contains(bb as usize))) by {
                    if (p as int) < post.n_blocks() && p != b.0 {
                        assert(pre.block_entry_ok(p as int, pre.blocks@[p as int]));
                        lemma_targets_frame(pre, post, p as int);
                    }
                    if p == b.0 {
                        assert(!pre.target_in_reads(b.0 as int, bb as usize));
                    }
                }
                assert(crate::flow::flow_preds(pre.graph, bb) == pre.pred_set(bb));
                if targets@.to_set().contains(bb as usize) {
                    assert(post.pred_set(bb) =~= pre.pred_set(bb).insert(b.0));
                } else {
                    assert(post.pred_set(bb) =~= pre.pred_set(bb));
                }
            }
            assert(post.flow_ok());
            assert(post.constant_values_ok());
            assert(post.wf());
        }
    }

    /// Remove a block's terminator, detaching every edge it dictated.
    pub fn block_clear(&mut self, b: Block)
        requires
            old(self).wf(),
            old(self).valid_block(b),
        ensures
            final(self).wf(),
            final(self).block_data(b).op is None,
            final(self).block_data(b).reads@.len() == 0,
            final(self).block_data(b).arguments@ == old(self).block_data(b).arguments@,
            final(self).block_data(b).location == old(self).block_data(b).location,
            final(self).block_data(b).value == old(self).block_data(b).value,
            forall|b2: int|
                0 <= b2 < old(self).n_blocks() && b2 != b.0 ==> #[trigger] final(self).blocks@[b2]
                    == old(self).blocks@[b2],
            final(self).n_blocks() == old(self).n_blocks(),
            final(self).values@ == old(self).values@,
            final(self).primops@ == old(self).primops@,
            final(self).locations == old(self).locations,
            final(self).constant_container == old(self).constant_container,
            final(self).constant_values@ == old(self).constant_values@,
            final(self).entry_block == old(self).entry_block,
            final(self).ident == old(self).ident,
    {
        let ghost pre = *self;
        let succs = self.graph.succs_list(b.0);
        let ns = succs.len();
        let mut k: usize = 0;
        while k < ns
            invariant
                self.blocks@ == pre.blocks@,
                self.values@ == pre.values@,
                self.primops@ == pre.primops@,
                self.constant_container == pre.constant_container,
                self.constant_values@ == pre.constant_values@,
                self.locations == pre.locations,
                self.entry_block == pre.entry_block,
                self.ident == pre.ident,
                self.span == pre.span,
                self.dialect == pre.dialect,
                pre.wf(),
                b.0 < pre.n_blocks(),
                crate::flow::flow_len(self.graph) == pre.n_blocks(),
                ns == succs@.len(),
                k <= ns,
                succs@.to_set() == crate::flow::flow_succs(pre.graph, b.0 as int),
                forall|i: int, j: int| 0 <= i < j < succs@.len() ==> succs@[i] < succs@[j],
                forall|b2: int|
                    0 <= b2 < pre.n_blocks() ==> #[trigger] crate::flow::flow_succs(
                        self.graph,
                        b2,
                    ) == crate::flow::flow_succs(pre.graph, b2),
                forall|s: int|
                    0 <= s < pre.n_blocks() ==> #[trigger] crate::flow::flow_preds(self.graph, s)
                        == if succs@.take(k as int).to_set().contains(s as usize) {
                        crate::flow::flow_preds(pre.graph, s).remove(b.0)
                    } else {
                        crate::flow::flow_preds(pre.graph, s)
                    },
            decreases ns - k,
        {
            let t = succs[k];
            proof {
                assert(succs@.contains(succs@[k as int]));
                assert(crate::flow::flow_succs(pre.graph, b.0 as int).contains(t));
                assert(pre.succ_set(b.0 as int).contains(t));
                assert(t < pre.n_blocks());
            }
            self.graph.remove_pred(t, b.0);
            proof {
                assert(succs@.take(k + 1) =~= succs@.take(k as int).push(t));
                assert forall|u: usize| succs@.take(k + 1).to_set().contains(u)
                    <==> (succs@.take(k as int).to_set().contains(u) || u == t) by {}
                assert forall|s: int| 0 <= s < pre.n_blocks() implies #[trigger] crate::flow::flow_preds(
                    self.graph,
                    s,
                ) == if succs@.take(k + 1).to_set().contains(s as usize) {
                    crate::flow::flow_preds(pre.graph, s).remove(b.0)
                } else {
                    crate::flow::flow_preds(pre.graph, s)
                } by {
                    if s == t as int {
                        if succs@.take(k as int).to_set().contains(t) {
                            assert(crate::flow::flow_preds(pre.graph, s).remove(b.0).remove(b.0)
                                =~= crate::flow::flow_preds(pre.graph, s).remove(b.0));
                        }
                    }
                }
            }
            k += 1;
        }
        self.graph.clear_succs(b.0);
        self.blocks[b.0].op = None;
        self.blocks[b.0].reads = Vec::new();
        proof {
            let post = *self;
            assert(succs@.take(ns as int) =~= succs@);

            assert forall|i2: int| 0 <= i2 < post.n_values() implies post.value_kind_ok(
                i2,
                (#[trigger] post.values@[i2]).kind,
            ) by {
                assert(pre.value_kind_ok(i2, pre.values@[i2].kind));
                match pre.values@[i2].kind {
                    ValueKind::Argument(b2, n2) => {
                        assert(post.blocks@[b2.0 as int].arguments@ == pre.blocks@[b2.0 as
                            int].arguments@);
                    },
                    _ => {},
                }
            }
            assert(post.values_ordered());
            assert forall|i2: int| 0 <= i2 < post.n_values() implies post.nested_entry_ok(
                i2,
                #[trigger] post.values@[i2],
            ) by {
                lemma_is_nested_frame(pre, post, Value(i2 as usize));
                assert(pre.nested_entry_ok(i2, pre.values@[i2]));
            }
            assert(post.nested_ok());
            assert(post.kinds_unique());
            assert(post.primops_canonical());
            assert forall|bb: int| 0 <= bb < post.n_blocks() implies post.block_entry_ok(
                bb,
                #[trigger] post.blocks@[bb],
            ) by {
                assert(pre.block_entry_ok(bb, pre.blocks@[bb]));
                if bb == b.0 {
                    assert(post.blocks@[bb].arguments@ == pre.blocks@[bb].arguments@);
                    assert(post.blocks@[bb].reads@.len() == 0);
                }
            }
            assert(post.blocks_ok());

            assert forall|s: usize| !post.target_in_reads(b.0 as int, s) by {
                assert(post.blocks@[b.0 as int].reads@.len() == 0);
            }
            assert forall|bb: int| 0 <= bb < post.n_blocks() implies #[trigger] crate::flow::flow_succs(
                post.graph,
                bb,
            ) == post.succ_set(bb) by {
                if bb == b.0 {
                    assert(post.succ_set(bb) =~= Set::<usize>::empty());
                } else {
                    assert(pre.block_entry_ok(bb, pre.blocks@[bb]));
                    lemma_targets_frame(pre, post, bb);
                    assert(crate::flow::flow_succs(post.graph, bb) == crate::flow::flow_succs(
                        pre.graph,
                        bb,
                    ));
                    assert(post.succ_set(bb) =~= pre.succ_set(bb));
                }
            }
            assert forall|bb: int| 0 <= bb < post.n_blocks() implies #[trigger] crate::flow::flow_preds(
                post.graph,
                bb,
            ) == post.pred_set(bb) by {
                assert forall|p: usize| post.pred_set(bb).contains(p) <==> (pre.pred_set(
                    bb,
                ).contains(p) && p != b.0) by {
                    if (p as int) < post.n_blocks() && p != b.0 {
                        assert(pre.block_entry_ok(p as int, pre.blocks@[p as int]));
                        lemma_targets_frame(pre, post, p as int);
                    }
                }
                assert(crate::flow::flow_preds(pre.graph, bb) == pre.pred_set(bb));
                if succs@.to_set().contains(bb as usize) {
                    assert(post.pred_set(bb) =~= pre.pred_set(bb).remove(b.0));
                } else {
                    assert(!pre.target_in_reads(b.0 as int, bb as usize)) by {
                        assert(crate::flow::flow_succs(pre.graph, b.0 as int) == pre.succ_set(
                            b.0 as int,
                        ));
                    }
                    assert(post.pred_set(bb) =~= pre.pred_set(bb));
                }
            }
            assert(post.flow_ok());
            assert(post.constant_values_ok());
            assert(post.wf());
        }
    }
}

} // verus!
