//! Control-flow analyses: reachability over the live-block graph and
//! classification of chain edges.

use vstd::prelude::*;

use crate::entity::{Block, Value};
use crate::flow::flow_succs;
use crate::fun::Function;
use crate::op::{CallKind, OpKind};
use crate::value::ValueKind;

verus! {

broadcast use vstd::seq_lib::lemma_seq_contains_after_push;

impl Function {
    /// A value is chain-safe for block `b` when its operand tree mentions
    /// no block and no argument of any block but `b`: passing it along a
    /// control-flow call is a pure renaming of `b`'s frame.
    pub open spec fn chain_safe(self, b: int, v: Value) -> bool {
        forall|k: int|
            0 <= k < self.nested_cache(v).len() ==> match self.vkind(
                #[trigger] self.nested_cache(v)[k],
            ) {
                ValueKind::Block(_) => false,
                ValueKind::Argument(b2, _) => b2.0 == b,
                _ => true,
            }
    }

    /// The target of a chain edge: a control-flow call to a block, all of
    /// whose arguments are chain-safe.
    pub open spec fn chain_edge_target_spec(self, b: int) -> Option<Block> {
        let d = self.blocks@[b];
        if d.op == Some(OpKind::Call(CallKind::ControlFlow)) && d.reads@.len() >= 1 && (
        self.vkind(d.reads@[0]) is Block) && (forall|i: int|
            1 <= i < d.reads@.len() ==> self.chain_safe(b, #[trigger] d.reads@[i])) {
            Some(self.vkind(d.reads@[0])->Block_0)
        } else {
            None
        }
    }

    /// Whether `v` is chain-safe for `b`, by scanning its cached closure.
    pub fn chain_safe_exec(&self, b: Block, v: Value) -> (r: bool)
        requires
            self.wf(),
            self.valid_value(v),
        ensures
            r == self.chain_safe(b.0 as int, v),
    {
        proof {
            assert(self.nested_entry_ok(v.0 as int, self.values@[v.0 as int]));
        }
        let m = self.values[v.0].nested.len();
        let mut k: usize = 0;
        while k < m
            invariant
                self.wf(),
                self.valid_value(v),
                m == self.nested_cache(v).len(),
                k <= m,
                forall|k2: int|
                    0 <= k2 < k ==> match self.vkind(#[trigger] self.nested_cache(v)[k2]) {
                        ValueKind::Block(_) => false,
                        ValueKind::Argument(b2, _) => b2.0 == b.0,
                        _ => true,
                    },
            decreases m - k,
        {
            let x = self.values[v.0].nested[k];
            proof {
                assert(self.nested_entry_ok(v.0 as int, self.values@[v.0 as int]));
                assert(x.0 < self.n_values());
            }
            match self.values[x.0].kind {
                ValueKind::Block(_) => {
                    return false;
                },
                ValueKind::Argument(b2, _) => {
                    if b2.0 != b.0 {
                        return false;
                    }
                },
                _ => {},
            }
            k += 1;
        }
        true
    }

    /// Classify the terminator of `b`, handing back the block a chain edge
    /// jumps to.
    pub fn chain_edge_target(&self, b: Block) -> (r: Option<Block>)
        requires
            self.wf(),
            self.valid_block(b),
        ensures
            r == self.chain_edge_target_spec(b.0 as int),
            match r {
                Some(t) => t.0 < self.n_blocks(),
                None => true,
            },
    {
        let is_flow = match &self.blocks[b.0].op {
            Some(OpKind::Call(CallKind::ControlFlow)) => true,
            _ => false,
        };
        if !is_flow {
            return None;
        }
        let nr = self.blocks[b.0].reads.len();
        if nr == 0 {
            return None;
        }
        proof {
            assert(self.block_entry_ok(b.0 as int, self.blocks@[b.0 as int]));
        }
        let first = self.blocks[b.0].reads[0];
        let t = match self.values[first.0].kind {
            ValueKind::Block(t) => t,
            _ => {
                return None;
            },
        };
        let mut i: usize = 1;
        while i < nr
            invariant
                self.wf(),
                self.valid_block(b),
                nr == self.block_data(b).reads@.len(),
                1 <= i <= nr,
                forall|i2: int|
                    1 <= i2 < i ==> self.chain_safe(b.0 as int, #[trigger] self.block_data(
                        b,
                    ).reads@[i2]),
            decreases nr - i,
        {
            let rv = self.blocks[b.0].reads[i];
            proof {
                assert(self.block_entry_ok(b.0 as int, self.blocks@[b.0 as int]));
            }
            if !self.chain_safe_exec(b, rv) {
                return None;
            }
            i += 1;
        }
        proof {
            assert(self.value_kind_ok(first.0 as int, self.values@[first.0 as int].kind));
        }
        Some(t)
    }

    /// The block reached after `k` chain edges from `b`: each step follows
    /// the single target of a chain-edge terminator, and stops (with
    /// nothing) as soon as a block without a chain edge is hit.
    pub open spec fn chain_walk(self, b: int, k: nat) -> Option<Block>
        decreases k,
    {
        if k == 0 {
            Some(Block(b as usize))
        } else {
            match self.chain_walk(b, (k - 1) as nat) {
                Some(c) => self.chain_edge_target_spec(c.0 as int),
                None => None,
            }
        }
    }

    /// The chain edge of `b`, if any, passes exactly one argument per
    /// formal of its target.
    pub open spec fn chain_step_arity_ok(self, b: int) -> bool {
        match self.chain_edge_target_spec(b) {
            Some(t) => self.blocks@[b].reads@.len() == self.blocks@[t.0 as int].arguments@.len()
                + 1,
            None => true,
        }
    }

    /// Starting at `b`, the chain never leaves chain edges within one more
    /// step than there are blocks, and every step matches arities: the
    /// chain closes into a side-effect-free cycle.
    pub open spec fn chain_all_cyclic(self, b: int) -> bool {
        forall|k: nat|
            k <= self.n_blocks() + 1 ==> match #[trigger] self.chain_walk(b, k) {
                Some(c) => c.0 < self.n_blocks() && (self.chain_edge_target_spec(c.0 as int)
                    is Some) && self.chain_step_arity_ok(c.0 as int),
                None => false,
            }
    }

    /// There is a path of at most `k` successor edges from `a` to `b`.
    pub open spec fn reaches_in(self, a: int, b: int, k: nat) -> bool
        decreases k,
    {
        a == b || (k > 0 && exists|m: usize|
            #[trigger] flow_succs(self.graph, a).contains(m) && self.reaches_in(
                m as int,
                b,
                (k - 1) as nat,
            ))
    }

    /// `b` is reachable from `a` along recorded successor edges.
    pub open spec fn spec_reachable(self, a: int, b: int) -> bool {
        exists|k: nat| self.reaches_in(a, b, k)
    }

    /// The blocks reachable from the entry along recorded successor edges.
    pub fn reachable_blocks(&self) -> (r: Vec<bool>)
        requires
            self.wf(),
            self.entry_block is Some,
        ensures
            r@.len() == self.n_blocks(),
            r@[self.entry_block.unwrap().0 as int],
            forall|b: int, s: usize|
                0 <= b < r@.len() && r@[b] && #[trigger] flow_succs(self.graph, b).contains(s)
                    ==> r@[s as int],
            forall|b: int|
                0 <= b < r@.len() && r@[b] ==> self.spec_reachable(
                    self.entry_block.unwrap().0 as int,
                    b,
                ),
    {
        self.reachable_from(self.block_entry())
    }

    /// The blocks reachable from `start` along recorded successor edges.
    /// The result marks `start` and is closed under successors; every
    /// marked block is valid.
    pub fn reachable_from(&self, start: Block) -> (r: Vec<bool>)
        requires
            self.wf(),
            self.valid_block(start),
        ensures
            r@.len() == self.n_blocks(),
            r@[start.0 as int],
            forall|b: int, s: usize|
                0 <= b < r@.len() && r@[b] && #[trigger] flow_succs(self.graph, b).contains(s)
                    ==> r@[s as int],
            forall|b: int| 0 <= b < r@.len() && r@[b] ==> self.spec_reachable(start.0 as int, b),
    {
        let n = self.blocks.len();
        let mut marked: Vec<bool> = Vec::new();
        let mut i: usize = 0;
        while i < n
            invariant
                i <= n,
                marked@.len() == i,
                forall|j: int| 0 <= j < i ==> !marked@[j],
            decreases n - i,
        {
            marked.push(false);
            i += 1;
        }
        let entry = start;
        let mut stack: Vec<usize> = Vec::new();
        marked[entry.0] = true;
        stack.push(entry.0);
        let ghost mut mset: Set<int> = Set::<int>::empty().insert(entry.0 as int);
        proof {
            vstd::set_lib::lemma_int_range(0, n as int);
            assert(mset.subset_of(vstd::set_lib::set_int_range(0, n as int)));
            vstd::set_lib::lemma_len_subset(
                mset,
                vstd::set_lib::set_int_range(0, n as int),
            );
            assert(stack@[0] == entry.0);
            assert(stack@.contains(entry.0));
            assert(self.reaches_in(start.0 as int, start.0 as int, 0));
            assert(self.spec_reachable(start.0 as int, start.0 as int));
            assert forall|j: int, s: usize|
                0 <= j < n && marked@[j] && !stack@.contains(j as usize)
                    && #[trigger] flow_succs(self.graph, j).contains(s) implies marked@[s as int] by {
                assert(j == entry.0 as int);
                assert(false);
            }
        }
        while stack.len() > 0
            invariant
                self.wf(),
                self.valid_block(start),
                n == self.n_blocks(),
                marked@.len() == n,
                marked@[start.0 as int],
                mset.finite(),
                mset.subset_of(vstd::set_lib::set_int_range(0, n as int)),
                mset.len() <= n,
                forall|j: int| 0 <= j < n ==> (marked@[j] <==> mset.contains(j)),
                forall|k: int| 0 <= k < stack@.len() ==> (#[trigger] stack@[k]) < n,
                forall|k: int| 0 <= k < stack@.len() ==> marked@[#[trigger] stack@[k] as int],
                forall|k1: int, k2: int|
                    0 <= k1 < k2 < stack@.len() ==> stack@[k1] != stack@[k2],
                forall|j: int, s: usize|
                    0 <= j < n && marked@[j] && !stack@.contains(j as usize)
                        && #[trigger] flow_succs(self.graph, j).contains(s) ==> marked@[s as int],
                forall|j: int|
                    0 <= j < n && marked@[j] ==> self.spec_reachable(start.0 as int, j),
            decreases n - mset.len(), stack@.len(),
        {
            let ghost stack0 = stack@;
            let ghost mset0 = mset;
            let b = stack.pop().unwrap();
            proof {
                assert(stack@ =~= stack0.take(stack0.len() - 1));
                assert(stack0[stack0.len() - 1] == b);
                assert forall|j: usize| j != b && !stack@.contains(j) implies !stack0.contains(
                    j,
                ) by {
                    if stack0.contains(j) {
                        let kk = choose|kk: int| 0 <= kk < stack0.len() && stack0[kk] == j;
                        assert(kk < stack0.len() - 1);
                        assert(stack@[kk] == j);
                    }
                }
                assert(!stack@.contains(b)) by {
                    if stack@.contains(b) {
                        let kk = choose|kk: int| 0 <= kk < stack@.len() && stack@[kk] == b;
                        assert(stack0[kk] == b);
                        assert(stack0[stack0.len() - 1] == b);
                    }
                }
            }
            let succs = self.graph.succs_list(b);
            let ns = succs.len();
            let mut k: usize = 0;
            while k < ns
                invariant
                    self.wf(),
                    self.valid_block(start),
                    n == self.n_blocks(),
                    b < n,
                    marked@.len() == n,
                    marked@[start.0 as int],
                    marked@[b as int],
                    mset.finite(),
                    mset.subset_of(vstd::set_lib::set_int_range(0, n as int)),
                    mset.len() <= n,
                    forall|j: int| 0 <= j < n ==> (marked@[j] <==> mset.contains(j)),
                    forall|k2: int| 0 <= k2 < stack@.len() ==> (#[trigger] stack@[k2]) < n,
                    forall|k2: int| 0 <= k2 < stack@.len() ==> marked@[#[trigger] stack@[k2] as int],
                    forall|k1: int, k2: int|
                        0 <= k1 < k2 < stack@.len() ==> stack@[k1] != stack@[k2],
                    !stack@.contains(b),
                    ns == succs@.len(),
                    k <= ns,
                    succs@.to_set() == flow_succs(self.graph, b as int),
                    forall|k2: int| 0 <= k2 < k ==> marked@[#[trigger] succs@[k2] as int],
                    forall|j: int, s: usize|
                        0 <= j < n && j != b && marked@[j] && !stack@.contains(j as usize)
                            && #[trigger] flow_succs(self.graph, j).contains(s) ==> marked@[s as int],
                    forall|j: int|
                        0 <= j < n && marked@[j] ==> self.spec_reachable(start.0 as int, j),
                    forall|j: usize| stack0.take(stack0.len() - 1).contains(j) ==> stack@.contains(j),
                    mset0.subset_of(mset),
                    mset0.len() <= mset.len(),
                    stack@.len() <= (stack0.len() - 1) + (mset.len() - mset0.len()),
                decreases ns - k,
            {
                let s = succs[k];
                proof {
                    assert(succs@.contains(succs@[k as int]));
                    assert(flow_succs(self.graph, b as int).contains(s));
                    assert(flow_succs(self.graph, b as int) == self.succ_set(b as int));
                    assert(self.succ_set(b as int).contains(s));
                    assert(s < n);
                }
                let ghost marked0 = marked@;
                if !marked[s] {
                    let ghost stack_pre = stack@;
                    marked[s] = true;
                    stack.push(s);
                    proof {
                        assert(marked@ == marked0.update(s as int, true));
                        assert(stack@[stack@.len() - 1] == s);
                        assert(stack@.contains(s));
                        assert(marked0[b as int]);
                        assert(self.spec_reachable(start.0 as int, b as int));
                        let k = choose|k: nat| self.reaches_in(start.0 as int, b as int, k);
                        lemma_reach_step(*self, start.0 as int, b as int, s, k);
                        assert(self.reaches_in(start.0 as int, s as int, (k + 1) as nat));
                        assert(self.spec_reachable(start.0 as int, s as int));
                        assert forall|j: int|
                            0 <= j < n && marked@[j] implies self.spec_reachable(
                            start.0 as int,
                            j,
                        ) by {
                            if j != s as int {
                                assert(marked0[j]);
                            }
                        }
                        assert(!mset.contains(s as int));
                        mset = mset.insert(s as int);
                        vstd::set_lib::lemma_int_range(0, n as int);
                        assert(mset.subset_of(vstd::set_lib::set_int_range(0, n as int)));
                        vstd::set_lib::lemma_len_subset(
                            mset,
                            vstd::set_lib::set_int_range(0, n as int),
                        );
                        assert forall|j: usize|
                            stack0.take(stack0.len() - 1).contains(j) implies stack@.contains(
                            j,
                        ) by {
                            assert(stack_pre.contains(j));
                            let kk = choose|kk: int|
                                0 <= kk < stack_pre.len() && stack_pre[kk] == j;
                            assert(stack@[kk] == j);
                        }
                        assert forall|k1: int, k2: int|
                            0 <= k1 < k2 < stack@.len() implies stack@[k1] != stack@[k2] by {
                            if k2 == stack@.len() - 1 {
                                assert(stack@[k2] == s);
                                assert(marked@[stack_pre[k1] as int]);
                            }
                        }
                    }
                }
                proof {
                    assert(marked@[s as int]);
                    assert forall|k2: int| 0 <= k2 <= k as int implies marked@[
                        #[trigger] succs@[k2] as int
                    ] by {
                        assert(succs@.contains(succs@[k2]));
                        assert(flow_succs(self.graph, b as int).contains(succs@[k2]));
                        assert(flow_succs(self.graph, b as int) == self.succ_set(b as int));
                        assert(self.succ_set(b as int).contains(succs@[k2]));
                        assert(succs@[k2] < n);
                        if k2 < k as int {
                            assert(marked0[succs@[k2] as int]);
                        } else {
                            assert(succs@[k2] == s);
                        }
                    }
                }
                k += 1;
            }
            proof {
                // Every successor of the popped block is now marked.
                assert forall|s: usize|
                    #[trigger] flow_succs(self.graph, b as int).contains(s) implies marked@[s as int] by {
                    assert(succs@.to_set().contains(s));
                    assert(succs@.contains(s));
                    let kk = choose|kk: int| 0 <= kk < succs@.len() && succs@[kk] == s;
                    assert(marked@[succs@[kk] as int]);
                }
                assert forall|j: int, s: usize|
                    0 <= j < n && marked@[j] && !stack@.contains(j as usize)
                        && #[trigger] flow_succs(self.graph, j).contains(s) implies marked@[s as int] by {
                    if j != b {
                        if stack0.take(stack0.len() - 1).contains(j as usize) {
                            assert(stack@.contains(j as usize));
                        }
                    }
                }
            }
        }
        proof {
            assert forall|b: int, s: usize|
                0 <= b < marked@.len() && marked@[b] && #[trigger] flow_succs(
                    self.graph,
                    b,
                ).contains(s) implies marked@[s as int] by {
                assert(!stack@.contains(b as usize));
            }
        }
        marked
    }
}

impl Function {
    /// Whether `x` is an argument value read (possibly nested) by the
    /// terminator of `b` and not defined by `b` itself.
    pub open spec fn foreign_arg_read(self, b: int, x: Value) -> bool {
        &&& x.0 < self.n_values()
        &&& self.vkind(x) is Argument
        &&& !(self.vkind(x)->Argument_0.0 == b)
        &&& exists|i: int, j: int|
            #![trigger self.nested_cache(self.blocks@[b].reads@[i])[j]]
            0 <= i < self.blocks@[b].reads@.len() && 0 <= j < self.nested_cache(
                self.blocks@[b].reads@[i],
            ).len() && self.nested_cache(self.blocks@[b].reads@[i])[j] == x
    }

    /// The dataflow equations of liveness hold of the table: whatever is
    /// live at a successor and not defined here is live here, and every
    /// foreign argument the terminator reads is live here.
    pub open spec fn live_closed(self, live: Seq<Vec<bool>>) -> bool {
        &&& forall|b: int, x: int, sx: usize|
            0 <= b < live.len() && 0 <= x < self.n_values() && #[trigger] flow_succs(
                self.graph,
                b,
            ).contains(sx) && (sx as int) < live.len() && live[sx as int]@[x] && !(match self.vkind(
                Value(x as usize),
            ) {
                ValueKind::Argument(db, _) => db.0 == b,
                _ => false,
            }) ==> #[trigger] live[b]@[x]
        &&& forall|b: int, x: Value|
            0 <= b < live.len() && #[trigger] self.foreign_arg_read(b, x) ==> live[b]@[x.0 as int]
    }

    /// Live argument values per block: the backward-dataflow fixpoint of
    /// "read here or live in a successor, and not defined here". The
    /// second result reports that the fixpoint was reached; on it the
    /// returned sets are closed under the dataflow equations.
    pub fn live_values(&self) -> (r: (Vec<Vec<bool>>, bool))
        requires
            self.wf(),
            self.n_blocks() < 0x0010_0000,
            self.n_values() < 0x0fff_ffff,
        ensures
            r.0@.len() == self.n_blocks(),
            forall|b: int| 0 <= b < r.0@.len() ==> (#[trigger] r.0@[b])@.len() == self.n_values(),
            // Only foreign argument values are ever reported live.
            forall|b: int, x: int|
                0 <= b < r.0@.len() && 0 <= x < self.n_values() && (#[trigger] r.0@[b]@[x])
                    ==> (self.vkind(Value(x as usize)) is Argument) && self.vkind(
                    Value(x as usize),
                )->Argument_0.0 != b,
            // On convergence the table solves the dataflow equations.
            r.1 ==> self.live_closed(r.0@),
    {
        let nb = self.blocks.len();
        let nv = self.values.len();
        let mut live: Vec<Vec<bool>> = Vec::new();
        let mut b: usize = 0;
        while b < nb
            invariant
                b <= nb,
                live@.len() == b,
                forall|k: int| 0 <= k < b ==> (#[trigger] live@[k])@.len() == nv,
                forall|k: int, x: int|
                    0 <= k < b && 0 <= x < nv ==> !(#[trigger] live@[k]@[x]),
            decreases nb - b,
        {
            let mut row: Vec<bool> = Vec::new();
            let mut x: usize = 0;
            while x < nv
                invariant
                    x <= nv,
                    row@.len() == x,
                    forall|k: int| 0 <= k < x ==> !(#[trigger] row@[k]),
                decreases nv - x,
            {
                row.push(false);
                x += 1;
            }
            live.push(row);
            b += 1;
        }
        proof {
            assert(nb < 0x0010_0000);
            assert(nv < 0x0fff_ffff);
            assert((nb as u64) * (nv as u64) < 0x0010_0000u64 * 0x0fff_ffff) by (nonlinear_arith)
                requires
                    nb < 0x0010_0000,
                    nv < 0x0fff_ffff,
            ;
        }
        let bound: u64 = (nb as u64) * (nv as u64) + 1;
        let mut round: u64 = 0;
        let mut converged = false;
        while round < bound && !converged
            invariant
                self.wf(),
                nb == self.n_blocks(),
                nv == self.n_values(),
                round <= bound,
                live@.len() == nb,
                forall|k: int| 0 <= k < nb ==> (#[trigger] live@[k])@.len() == nv,
                forall|k: int, x: int|
                    0 <= k < nb && 0 <= x < nv && (#[trigger] live@[k]@[x]) ==> (self.vkind(
                        Value(x as usize),
                    ) is Argument) && self.vkind(Value(x as usize))->Argument_0.0 != k,
                converged ==> self.live_closed(live@),
            decreases bound - round, (if converged {
                0int
            } else {
                1int
            }),
        {
            let mut changed = false;
            let mut b2: usize = 0;
            while b2 < nb
                invariant
                    self.wf(),
                    nb == self.n_blocks(),
                    nv == self.n_values(),
                    b2 <= nb,
                    live@.len() == nb,
                    forall|k: int| 0 <= k < nb ==> (#[trigger] live@[k])@.len() == nv,
                    forall|k: int, x: int|
                        0 <= k < nb && 0 <= x < nv && (#[trigger] live@[k]@[x]) ==> (self.vkind(
                            Value(x as usize),
                        ) is Argument) && self.vkind(Value(x as usize))->Argument_0.0 != k,
                    // An unchanged sweep witnesses the equations at every
                    // block already visited.
                    !changed ==> forall|b3: int, x: int, sx: usize|
                        0 <= b3 < b2 && 0 <= x < nv && #[trigger] flow_succs(
                            self.graph,
                            b3,
                        ).contains(sx) && (sx as int) < nb && live@[sx as int]@[x] && !(match
                            self.vkind(Value(x as usize)) {
                            ValueKind::Argument(db, _) => db.0 == b3,
                            _ => false,
                        }) ==> #[trigger] live@[b3]@[x],
                    !changed ==> forall|b3: int, x: Value|
                        0 <= b3 < b2 && #[trigger] self.foreign_arg_read(b3, x) ==> live@[b3]@[x.0
                            as int],
                decreases nb - b2,
            {
                let ghost live_b0 = live@;
                let ghost chb = changed;
                // Pull in everything live at a successor.
                let succs = self.graph.succs_list(b2);
                let ns = succs.len();
                let mut k: usize = 0;
                while k < ns
                    invariant
                        self.wf(),
                        nb == self.n_blocks(),
                        nv == self.n_values(),
                        b2 < nb,
                        ns == succs@.len(),
                        succs@.to_set() == flow_succs(self.graph, b2 as int),
                        k <= ns,
                        live@.len() == nb,
                        forall|k2: int| 0 <= k2 < nb ==> (#[trigger] live@[k2])@.len() == nv,
                        forall|k2: int, x: int|
                            0 <= k2 < nb && 0 <= x < nv && (#[trigger] live@[k2]@[x]) ==> (
                            self.vkind(Value(x as usize)) is Argument) && self.vkind(
                                Value(x as usize),
                            )->Argument_0.0 != k2,
                        chb ==> changed,
                        !changed ==> live@ == live_b0,
                        !changed ==> forall|k2: int, x: int|
                            #![trigger live@[succs@[k2] as int]@[x]]
                            0 <= k2 < k && 0 <= x < nv && live@[succs@[k2] as int]@[x] && !(match
                                self.vkind(Value(x as usize)) {
                                ValueKind::Argument(db, _) => db.0 == b2,
                                _ => false,
                            }) ==> live@[b2 as int]@[x] || !(succs@[k2] < nb),
                    decreases ns - k,
                {
                    let sx = succs[k];
                    proof {
                        assert(succs@.contains(succs@[k as int]));
                        assert(flow_succs(self.graph, b2 as int).contains(sx));
                        assert(flow_succs(self.graph, b2 as int) == self.succ_set(b2 as int));
                        assert(self.succ_set(b2 as int).contains(sx));
                        assert(sx < nb);
                    }
                    let ghost chk = changed;
                    let mut x2: usize = 0;
                    while x2 < nv
                        invariant
                            self.wf(),
                            nb == self.n_blocks(),
                            nv == self.n_values(),
                            b2 < nb,
                            sx < nb,
                            x2 <= nv,
                            chk ==> changed,
                            chb ==> chk,
                            live@.len() == nb,
                            forall|k2: int| 0 <= k2 < nb ==> (#[trigger] live@[k2])@.len() == nv,
                            forall|k2: int, x: int|
                                0 <= k2 < nb && 0 <= x < nv && (#[trigger] live@[k2]@[x]) ==> (
                                self.vkind(Value(x as usize)) is Argument) && self.vkind(
                                    Value(x as usize),
                                )->Argument_0.0 != k2,
                            !changed ==> live@ == live_b0,
                            !changed ==> forall|x: int|
                                #![trigger live@[sx as int]@[x]]
                                0 <= x < x2 && live@[sx as int]@[x] && !(match self.vkind(
                                    Value(x as usize),
                                ) {
                                    ValueKind::Argument(db, _) => db.0 == b2,
                                    _ => false,
                                }) ==> live@[b2 as int]@[x],
                        decreases nv - x2,
                    {
                        if live[sx][x2] && !live[b2][x2] {
                            // Live at the successor and not defined here.
                            let defined_here = match self.values[x2].kind {
                                ValueKind::Argument(db, _) => db.0 == b2,
                                _ => false,
                            };
                            if !defined_here {
                                live[b2][x2] = true;
                                changed = true;
                            }
                        }
                        x2 += 1;
                    }
                    proof {
                        if !changed {
                            assert forall|k2: int, x: int|
                                #![trigger live@[succs@[k2] as int]@[x]]
                                0 <= k2 < k + 1 && 0 <= x < nv && live@[succs@[k2] as int]@[x]
                                    && !(match self.vkind(Value(x as usize)) {
                                    ValueKind::Argument(db, _) => db.0 == b2,
                                    _ => false,
                                }) implies live@[b2 as int]@[x] || !(succs@[k2] < nb) by {
                                if k2 == k as int {
                                    assert(succs@[k2] == sx);
                                    assert(live@[sx as int]@[x]);
                                }
                            }
                        }
                    }
                    k += 1;
                }
                // Mark the foreign argument values the terminator reads.
                let nr = self.blocks[b2].reads.len();
                let mut i: usize = 0;
                while i < nr
                    invariant
                        self.wf(),
                        nb == self.n_blocks(),
                        nv == self.n_values(),
                        b2 < nb,
                        nr == self.block_data(Block(b2)).reads@.len(),
                        i <= nr,
                        live@.len() == nb,
                        forall|k2: int| 0 <= k2 < nb ==> (#[trigger] live@[k2])@.len() == nv,
                        forall|k2: int, x: int|
                            0 <= k2 < nb && 0 <= x < nv && (#[trigger] live@[k2]@[x]) ==> (
                            self.vkind(Value(x as usize)) is Argument) && self.vkind(
                                Value(x as usize),
                            )->Argument_0.0 != k2,
                        chb ==> changed,
                        !changed ==> live@ == live_b0,
                        !changed ==> forall|k2: int, x: int|
                            #![trigger live@[succs@[k2] as int]@[x]]
                            0 <= k2 < succs@.len() && 0 <= x < nv && live@[succs@[k2] as
                                int]@[x] && !(match self.vkind(Value(x as usize)) {
                                ValueKind::Argument(db, _) => db.0 == b2,
                                _ => false,
                            }) ==> live@[b2 as int]@[x] || !(succs@[k2] < nb),
                        !changed ==> forall|i2: int, j2: int|
                            #![trigger self.nested_cache(self.block_data(Block(b2)).reads@[i2])[j2]]
                            0 <= i2 < i && 0 <= j2 < self.nested_cache(
                                self.block_data(Block(b2)).reads@[i2],
                            ).len() && (match self.vkind(
                                self.nested_cache(self.block_data(Block(b2)).reads@[i2])[j2],
                            ) {
                                ValueKind::Argument(db, _) => db.0 != b2,
                                _ => false,
                            }) ==> live@[b2 as int]@[self.nested_cache(
                                self.block_data(Block(b2)).reads@[i2],
                            )[j2].0 as int],
                    decreases nr - i,
                {
                    proof {
                        assert(self.block_entry_ok(b2 as int, self.blocks@[b2 as int]));
                    }
                    let rv = self.blocks[b2].reads[i];
                    proof {
                        assert(self.nested_entry_ok(rv.0 as int, self.values@[rv.0 as int]));
                    }
                    let m = self.values[rv.0].nested.len();
                    let ghost chi = changed;
                    let mut j: usize = 0;
                    while j < m
                        invariant
                            self.wf(),
                            nb == self.n_blocks(),
                            nv == self.n_values(),
                            b2 < nb,
                            i < nr,
                            chi ==> changed,
                            chb ==> chi,
                            nr == self.block_data(Block(b2)).reads@.len(),
                            rv == self.block_data(Block(b2)).reads@[i as int],
                            rv.0 < nv,
                            m == self.nested_cache(rv).len(),
                            j <= m,
                            live@.len() == nb,
                            forall|k2: int| 0 <= k2 < nb ==> (#[trigger] live@[k2])@.len() == nv,
                            forall|k2: int, x: int|
                                0 <= k2 < nb && 0 <= x < nv && (#[trigger] live@[k2]@[x]) ==> (
                                self.vkind(Value(x as usize)) is Argument) && self.vkind(
                                    Value(x as usize),
                                )->Argument_0.0 != k2,
                            !changed ==> live@ == live_b0,
                            !changed ==> forall|k2: int, x: int|
                                        #![trigger live@[succs@[k2] as int]@[x]]
                                    0 <= k2 < succs@.len() && 0 <= x < nv && live@[succs@[k2] as
                                        int]@[x] && !(match self.vkind(Value(x as usize)) {
                                        ValueKind::Argument(db, _) => db.0 == b2,
                                        _ => false,
                                    }) ==> live@[b2 as int]@[x] || !(succs@[k2] < nb),
                            !changed ==> forall|i2: int, j2: int|
                                #![trigger self.nested_cache(self.block_data(Block(b2)).reads@[i2])[j2]]
                                0 <= i2 < i && 0 <= j2 < self.nested_cache(
                                    self.block_data(Block(b2)).reads@[i2],
                                ).len() && (match self.vkind(
                                    self.nested_cache(self.block_data(Block(b2)).reads@[i2])[j2],
                                ) {
                                    ValueKind::Argument(db, _) => db.0 != b2,
                                    _ => false,
                                }) ==> live@[b2 as int]@[self.nested_cache(
                                    self.block_data(Block(b2)).reads@[i2],
                                )[j2].0 as int],
                            !changed ==> forall|j2: int|
                                0 <= j2 < j && (match self.vkind(
                                    #[trigger] self.nested_cache(rv)[j2],
                                ) {
                                    ValueKind::Argument(db, _) => db.0 != b2,
                                    _ => false,
                                }) ==> live@[b2 as int]@[self.nested_cache(rv)[j2].0 as int],
                        decreases m - j,
                    {
                        let xv = self.values[rv.0].nested[j];
                        proof {
                            assert(self.nested_entry_ok(rv.0 as int, self.values@[rv.0 as int]));
                            assert(xv.0 < nv);
                        }
                        match self.values[xv.0].kind {
                            ValueKind::Argument(db, _) => {
                                if db.0 != b2 && !live[b2][xv.0] {
                                    live[b2][xv.0] = true;
                                    changed = true;
                                }
                            },
                            _ => {},
                        }
                        j += 1;
                    }
                    proof {
                        if !changed {
                            assert forall|i2: int, j2: int|
                                #![trigger self.nested_cache(self.block_data(Block(b2)).reads@[i2])[j2]]
                                0 <= i2 < i + 1 && 0 <= j2 < self.nested_cache(
                                    self.block_data(Block(b2)).reads@[i2],
                                ).len() && (match self.vkind(
                                    self.nested_cache(self.block_data(Block(b2)).reads@[i2])[j2],
                                ) {
                                    ValueKind::Argument(db, _) => db.0 != b2,
                                    _ => false,
                                }) implies live@[b2 as int]@[self.nested_cache(
                                self.block_data(Block(b2)).reads@[i2],
                            )[j2].0 as int] by {}
                        }
                    }
                    i += 1;
                }
                proof {
                    if !changed {
                        // This block's equations are witnessed by the
                        // unchanged sweep; earlier blocks' carry over since
                        // nothing moved.
                        assert forall|b3: int, x: int, sx2: usize|
                            0 <= b3 < b2 + 1 && 0 <= x < nv && #[trigger] flow_succs(
                                self.graph,
                                b3,
                            ).contains(sx2) && (sx2 as int) < nb && live@[sx2 as int]@[x] && !(
                            match self.vkind(Value(x as usize)) {
                                ValueKind::Argument(db, _) => db.0 == b3,
                                _ => false,
                            }) implies #[trigger] live@[b3]@[x] by {
                            if b3 == b2 as int {
                                assert(flow_succs(self.graph, b2 as int) == self.succ_set(
                                    b2 as int,
                                ));
                                assert(succs@.to_set().contains(sx2));
                                assert(succs@.contains(sx2));
                                let k2 = choose|k2: int|
                                    0 <= k2 < succs@.len() && succs@[k2] == sx2;
                                assert(live@[succs@[k2] as int]@[x]);
                            }
                        }
                        assert forall|b3: int, x: Value|
                            0 <= b3 < b2 + 1 && #[trigger] self.foreign_arg_read(b3, x)
                            implies live@[b3]@[x.0 as int] by {
                            if b3 == b2 as int {
                                let (i2, j2): (int, int) = choose|i2: int, j2: int|
                                    #![trigger self.nested_cache(self.blocks@[b3].reads@[i2])[j2]]
                                    0 <= i2 < self.blocks@[b3].reads@.len() && 0 <= j2
                                        < self.nested_cache(self.blocks@[b3].reads@[i2]).len()
                                        && self.nested_cache(self.blocks@[b3].reads@[i2])[j2]
                                        == x;
                                assert(self.vkind(x) is Argument);
                                assert(self.vkind(x)->Argument_0.0 != b3);
                            }
                        }
                    }
                }
                b2 += 1;
            }
            if !changed {
                converged = true;
                proof {
                    assert(self.live_closed(live@));
                }
            }
            round += 1;
        }
        (live, converged)
    }

}


/// Extending a path by one recorded successor edge keeps it a path.
pub proof fn lemma_reach_step(f: Function, a: int, b: int, s: usize, k: nat)
    requires
        f.reaches_in(a, b, k),
        flow_succs(f.graph, b).contains(s),
    ensures
        f.reaches_in(a, s as int, (k + 1) as nat),
    decreases k,
{
    if a == b {
        assert(f.reaches_in(s as int, s as int, k));
        assert(flow_succs(f.graph, a).contains(s) && f.reaches_in(s as int, s as int, k));
        assert(f.reaches_in(a, s as int, (k + 1) as nat));
    } else {
        let m = choose|m: usize|
            #[trigger] flow_succs(f.graph, a).contains(m) && f.reaches_in(
                m as int,
                b,
                (k - 1) as nat,
            );
        lemma_reach_step(f, m as int, b, s, (k - 1) as nat);
        assert(flow_succs(f.graph, a).contains(m) && f.reaches_in(m as int, s as int, k));
    }
}

/// Any marking that contains the start and is closed under recorded
/// successor edges covers every reachable block: together with the
/// converse clause of `reachable_from`, the marking is exactly the
/// reachable set.
pub proof fn lemma_reachable_is_marked(f: Function, marks: Seq<bool>, a: int, b: int, k: nat)
    requires
        f.wf(),
        marks.len() == f.n_blocks(),
        0 <= a < f.n_blocks(),
        marks[a],
        forall|j: int, s: usize|
            0 <= j < marks.len() && marks[j] && #[trigger] flow_succs(f.graph, j).contains(s)
                ==> marks[s as int],
        f.reaches_in(a, b, k),
        0 <= b < f.n_blocks(),
    ensures
        marks[b],
    decreases k,
{
    if a != b {
        let m = choose|m: usize|
            #[trigger] flow_succs(f.graph, a).contains(m) && f.reaches_in(
                m as int,
                b,
                (k - 1) as nat,
            );
        assert(flow_succs(f.graph, a) == f.succ_set(a));
        assert(f.succ_set(a).contains(m));
        assert(marks[m as int]);
        lemma_reachable_is_marked(f, marks, m as int, b, (k - 1) as nat);
    }
}

} // verus!
