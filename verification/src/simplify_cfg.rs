//! The CFG simplification pass: collapses chains of trivial control-flow
//! calls by inlining the chain's target into each entry block, redirects
//! pure forwarders to their target, rewrites chains that close into a
//! cycle to a sleep-forever intrinsic, and finally rebuilds the function
//! through the mangler when any value was renamed.
//!
//! Rewrites are conservative: a chain whose target captures chain-bound
//! values inside a continuation block, or whose target reads values the
//! entry's frame cannot name, is left as it stands.

use vstd::prelude::*;

use crate::builder::{arenas_extend, lemma_arenas_extend_trans};
use crate::entity::{Block, Value};
use crate::fun::Function;
use crate::mangle::Mangler;
use crate::op::{op_kind_clone, CallKind, OpKind};
use crate::op_build::append_values;
use crate::value::ValueKind;
use vstd::string::StringExecFns;

verus! {

/// A pass over one function at a time.
pub trait FunctionPass {
    fn name(&self) -> String;

    fn run_function_pass(&mut self, f: &mut Function)
        requires
            old(f).wf(),
            old(f).entry_block is Some,
            old(f).n_blocks() < 0x0010_0000,
        ensures
            final(f).wf(),
            final(f).entry_block is Some,
    ;
}

/// Substitute a value through a rename map inside one function: a mapped
/// value is replaced outright; a primop is rebuilt over its substituted
/// operands and re-interned, so de-duplication is preserved.
fn psubst(f: &mut Function, map: &Vec<Option<Value>>, v: Value) -> (r: Value)
    requires
        old(f).wf(),
        old(f).valid_value(v),
        forall|i: int|
            0 <= i < map@.len() ==> match #[trigger] map@[i] {
                Some(w) => w.0 < old(f).n_values(),
                None => true,
            },
    ensures
        final(f).wf(),
        final(f).valid_value(r),
        arenas_extend(*final(f), *old(f)),
        final(f).blocks@ == old(f).blocks@,
        final(f).graph == old(f).graph,
        final(f).locations == old(f).locations,
        final(f).constant_container == old(f).constant_container,
        final(f).constant_values@ == old(f).constant_values@,
        final(f).entry_block == old(f).entry_block,
        final(f).ident == old(f).ident,
    decreases v.0,
{
    if v.0 < map.len() {
        match map[v.0] {
            Some(w) => {
                return w;
            },
            None => {},
        }
    }
    match f.values[v.0].kind {
        ValueKind::PrimOp(p) => {
            proof {
                assert(f.value_kind_ok(v.0 as int, f.values@[v.0 as int].kind));
            }
            let op = f.primops[p.0].op;
            let nr = f.primops[p.0].reads.len();
            let mut nreads: Vec<Value> = Vec::new();
            let mut j: usize = 0;
            while j < nr
                invariant
                    f.wf(),
                    v.0 < f.n_values(),
                    f.values@[v.0 as int].kind == ValueKind::PrimOp(p),
                    p.0 < f.n_primops(),
                    nr == f.primops@[p.0 as int].reads@.len(),
                    forall|k: int|
                        0 <= k < nr ==> (#[trigger] f.primops@[p.0 as int].reads@[k]).0 < v.0,
                    forall|i: int|
                        0 <= i < map@.len() ==> match #[trigger] map@[i] {
                            Some(w) => w.0 < old(f).n_values(),
                            None => true,
                        },
                    arenas_extend(*f, *old(f)),
                    f.blocks@ == old(f).blocks@,
                    f.graph == old(f).graph,
                    f.locations == old(f).locations,
                    f.constant_container == old(f).constant_container,
                    f.constant_values@ == old(f).constant_values@,
                    f.entry_block == old(f).entry_block,
                    f.ident == old(f).ident,
                    j <= nr,
                    nreads@.len() == j,
                    forall|k: int| 0 <= k < j ==> (#[trigger] nreads@[k]).0 < f.n_values(),
                decreases nr - j,
            {
                let rv = f.primops[p.0].reads[j];
                proof {
                    assert(rv.0 < v.0);
                }
                let ghost f_it = *f;
                let w = psubst(f, map, rv);
                proof {
                    lemma_arenas_extend_trans(*old(f), f_it, *f);
                }
                nreads.push(w);
                j += 1;
            }
            let ghost f_bi = *f;
            let r2 = f.prim_intern(op, nreads);
            proof {
                lemma_arenas_extend_trans(*old(f), f_bi, *f);
            }
            r2
        },
        _ => v,
    }
}

/// Whether none of the operand closures of `reads` mentions an
/// argument value: such a read list is position-independent.
fn reads_argument_free(f: &Function, b: Block) -> (r: bool)
    requires
        f.wf(),
        f.valid_block(b),
{
    let nr = f.blocks[b.0].reads.len();
    let mut i: usize = 0;
    while i < nr
        invariant
            f.wf(),
            f.valid_block(b),
            nr == f.block_data(b).reads@.len(),
            i <= nr,
        decreases nr - i,
    {
        let rv = f.blocks[b.0].reads[i];
        proof {
            assert(f.block_entry_ok(b.0 as int, f.blocks@[b.0 as int]));
            assert(f.nested_entry_ok(rv.0 as int, f.values@[rv.0 as int]));
        }
        let m = f.values[rv.0].nested.len();
        let mut j: usize = 0;
        while j < m
            invariant
                f.wf(),
                rv.0 < f.n_values(),
                m == f.nested_cache(rv).len(),
                j <= m,
            decreases m - j,
        {
            let x = f.values[rv.0].nested[j];
            proof {
                assert(f.nested_entry_ok(rv.0 as int, f.values@[rv.0 as int]));
                assert(x.0 < f.n_values());
            }
            match f.values[x.0].kind {
                ValueKind::Argument(_, _) => {
                    return false;
                },
                _ => {},
            }
            j += 1;
        }
        i += 1;
    }
    true
}

/// Whether inlining the target's terminator under the rename map is safe:
/// every argument the terminator reads is covered by the map, and no
/// block reachable through a continuation operand reads a renamed value.
fn chain_rewrite_safe(f: &Function, rho: &Vec<Option<Value>>, t: Block) -> (r: bool)
    requires
        f.wf(),
        f.valid_block(t),
{
    let nr = f.blocks[t.0].reads.len();
    let mut i: usize = 0;
    while i < nr
        invariant
            f.wf(),
            f.valid_block(t),
            nr == f.block_data(t).reads@.len(),
            i <= nr,
        decreases nr - i,
    {
        let rv = f.blocks[t.0].reads[i];
        proof {
            assert(f.block_entry_ok(t.0 as int, f.blocks@[t.0 as int]));
            assert(f.nested_entry_ok(rv.0 as int, f.values@[rv.0 as int]));
        }
        let m = f.values[rv.0].nested.len();
        let mut j: usize = 0;
        while j < m
            invariant
                f.wf(),
                f.valid_block(t),
                rv.0 < f.n_values(),
                m == f.nested_cache(rv).len(),
                j <= m,
            decreases m - j,
        {
            let x = f.values[rv.0].nested[j];
            proof {
                assert(f.nested_entry_ok(rv.0 as int, f.values@[rv.0 as int]));
                assert(x.0 < f.n_values());
            }
            match f.values[x.0].kind {
                ValueKind::Argument(_, _) => {
                    // The argument must be renamed into the entry's frame.
                    if !(x.0 < rho.len() && matches!(rho[x.0], Some(_))) {
                        return false;
                    }
                },
                ValueKind::Block(bv) => {
                    proof {
                        assert(f.value_kind_ok(x.0 as int, f.values@[x.0 as int].kind));
                    }
                    // No block reachable through this continuation may read
                    // a renamed value.
                    let reach = f.reachable_from(bv);
                    let mut y: usize = 0;
                    while y < reach.len()
                        invariant
                            f.wf(),
                            reach@.len() == f.n_blocks(),
                            y <= reach@.len(),
                        decreases reach@.len() - y,
                    {
                        if reach[y] {
                            if block_reads_renamed(f, Block(y), rho) {
                                return false;
                            }
                        }
                        y += 1;
                    }
                },
                _ => {},
            }
            j += 1;
        }
        i += 1;
    }
    true
}

/// Whether the block's terminator reads any renamed value, anywhere in
/// its operand closures.
fn block_reads_renamed(f: &Function, b: Block, rho: &Vec<Option<Value>>) -> (r: bool)
    requires
        f.wf(),
        f.valid_block(b),
{
    let nr = f.blocks[b.0].reads.len();
    let mut i: usize = 0;
    while i < nr
        invariant
            f.wf(),
            f.valid_block(b),
            nr == f.block_data(b).reads@.len(),
            i <= nr,
        decreases nr - i,
    {
        let rv = f.blocks[b.0].reads[i];
        proof {
            assert(f.block_entry_ok(b.0 as int, f.blocks@[b.0 as int]));
            assert(f.nested_entry_ok(rv.0 as int, f.values@[rv.0 as int]));
        }
        let m = f.values[rv.0].nested.len();
        let mut j: usize = 0;
        while j < m
            invariant
                f.wf(),
                rv.0 < f.n_values(),
                m == f.nested_cache(rv).len(),
                j <= m,
            decreases m - j,
        {
            let x = f.values[rv.0].nested[j];
            proof {
                assert(f.nested_entry_ok(rv.0 as int, f.values@[rv.0 as int]));
            }
            if x.0 < rho.len() {
                if matches!(rho[x.0], Some(_)) {
                    return true;
                }
            }
            j += 1;
        }
        i += 1;
    }
    false
}

/// The cleanup pass: inlines chains of trivial continuations, forwards
/// pure renamings, and dissolves side-effect-free cycles.
pub struct SimplifyCfgPass {
    pub mangler: Mangler,
}

impl SimplifyCfgPass {
    pub fn new() -> (r: SimplifyCfgPass)
        ensures
            r.mangler.renames_view().len() == 0,
    {
        SimplifyCfgPass { mangler: Mangler::new() }
    }

    /// Rewrite one entry block of a chain: follow the chain to its target
    /// while composing the renames each edge induces, then either inline
    /// the target's terminator, redirect a pure forwarder, or terminate a
    /// cycle entry with the sleep-forever intrinsic.
    /// The analysis tables describe `f`: each entry is the block's chain
    /// target under `chain_edge_target_spec`, and the recorded argument
    /// list has one entry per read past the target.
    pub open spec fn tables_tied(
        f: Function,
        chain_tgt: Seq<Option<Block>>,
        chain_args: Seq<Vec<Value>>,
    ) -> bool {
        &&& forall|i: int| 0 <= i < chain_tgt.len() ==> #[trigger] chain_tgt[i]
            == f.chain_edge_target_spec(i)
        &&& forall|i: int|
            0 <= i < chain_tgt.len() && (#[trigger] chain_tgt[i]) is Some ==> chain_args[i]@.len()
                + 1 == f.blocks@[i].reads@.len()
    }

    /// The block's terminator is the sleep-forever intrinsic with no
    /// operands.
    pub open spec fn sleeps_forever(f: Function, b: Block) -> bool {
        &&& (match f.block_data(b).op {
            Some(OpKind::Intrinsic(nm)) => nm@ == "receive_wait_forever"@,
            _ => false,
        })
        &&& f.block_data(b).reads@.len() == 0
    }

    fn process_entry(
        &mut self,
        f: &mut Function,
        chain_tgt: &Vec<Option<Block>>,
        chain_args: &Vec<Vec<Value>>,
        b: Block,
    )
        requires
            old(f).wf(),
            old(f).valid_block(b),
            old(f).entry_block is Some,
            old(f).n_blocks() < 0x0010_0000,
            chain_tgt@.len() == old(f).n_blocks(),
            chain_args@.len() == old(f).n_blocks(),
            chain_tgt@[b.0 as int] is Some,
            forall|i: int|
                0 <= i < chain_tgt@.len() ==> match #[trigger] chain_tgt@[i] {
                    Some(t) => t.0 < old(f).n_blocks(),
                    None => true,
                },
            forall|i: int, j: int|
                0 <= i < chain_args@.len() && 0 <= j < chain_args@[i].len() ==> (
                #[trigger] chain_args@[i][j]).0 < old(f).n_values(),
            forall|i: int|
                0 <= i < old(self).mangler.renames_view().len() ==> match #[trigger] old(self).mangler.renames_view()[i] {
                    Some(w) => w.0 < old(f).n_values(),
                    None => true,
                },
        ensures
            final(f).wf(),
            final(f).entry_block == old(f).entry_block,
            final(f).n_blocks() == old(f).n_blocks(),
            arenas_extend(*final(f), *old(f)),
            final(f).locations.extends(old(f).locations),
            final(f).constant_container.extends_terms(old(f).constant_container),
            final(f).ident == old(f).ident,
            forall|b2: int|
                0 <= b2 < old(f).n_blocks() && b2 != b.0 ==> #[trigger] final(f).blocks@[b2]
                    == old(f).blocks@[b2],
            forall|i: int|
                0 <= i < final(self).mangler.renames_view().len() ==> match #[trigger] final(self).mangler.renames_view()[i] {
                    Some(w) => w.0 < final(f).n_values(),
                    None => true,
                },
            // A chain that closes into a cycle puts its entry to sleep.
            (SimplifyCfgPass::tables_tied(*old(f), chain_tgt@, chain_args@) && old(
                f,
            ).chain_all_cyclic(b.0 as int)) ==> SimplifyCfgPass::sleeps_forever(*final(f), b),
    {
        let ghost f0 = *f;
        let ghost tied = SimplifyCfgPass::tables_tied(f0, chain_tgt@, chain_args@);
        let n = f.blocks.len();
        let nvals0 = f.values.len();
        let mut rho: Vec<Option<Value>> = Vec::new();
        let mut z: usize = 0;
        while z < nvals0
            invariant
                *f == f0,
                z <= nvals0,
                rho@.len() == z,
                forall|i: int| 0 <= i < z ==> (#[trigger] rho@[i]) is None,
            decreases nvals0 - z,
        {
            rho.push(None);
            z += 1;
        }
        let mut cur: Block = b;
        let mut steps: usize = 0;
        let mut target: Option<Block> = None;
        let mut failed = false;
        while steps <= n && target.is_none() && !failed
            invariant
                f.wf(),
                f0.wf(),
                n == f0.n_blocks(),
                n == f.n_blocks(),
                n < 0x0010_0000,
                nvals0 == f0.n_values(),
                b.0 < n,
                cur.0 < n,
                steps <= n + 1,
                chain_tgt@.len() == n,
                chain_args@.len() == n,
                forall|i: int|
                    0 <= i < chain_tgt@.len() ==> match #[trigger] chain_tgt@[i] {
                        Some(t) => t.0 < n,
                        None => true,
                    },
                forall|i: int, j: int|
                    0 <= i < chain_args@.len() && 0 <= j < chain_args@[i].len() ==> (
                    #[trigger] chain_args@[i][j]).0 < nvals0,
                target is None && !failed ==> chain_tgt@[cur.0 as int] is Some,
                match target {
                    Some(t) => t.0 < n && chain_tgt@[t.0 as int] is None,
                    None => true,
                },
                tied == SimplifyCfgPass::tables_tied(f0, chain_tgt@, chain_args@),
                tied && target is None && !failed ==> f0.chain_walk(b.0 as int, steps as nat)
                    == Some(cur),
                tied && f0.chain_all_cyclic(b.0 as int) ==> !failed && target is None,
                rho@.len() == nvals0,
                forall|i: int|
                    0 <= i < rho@.len() ==> match #[trigger] rho@[i] {
                        Some(w) => w.0 < f.n_values(),
                        None => true,
                    },
                arenas_extend(*f, f0),
                f.blocks@ == f0.blocks@,
                f.graph == f0.graph,
                f.locations == f0.locations,
                f.constant_container == f0.constant_container,
                f.entry_block == f0.entry_block,
                f.ident == f0.ident,
            decreases n + 1 - steps, (if failed || target is Some {
                0int
            } else {
                1int
            }),
        {
            let t = chain_tgt[cur.0].unwrap();
            let args = &chain_args[cur.0];
            let na = args.len();
            if na != f.blocks[t.0].arguments.len() {
                failed = true;
                proof {
                    if tied && f0.chain_all_cyclic(b.0 as int) {
                        assert(f0.chain_walk(b.0 as int, steps as nat) == Some(cur));
                        assert(f0.chain_step_arity_ok(cur.0 as int));
                        assert(f0.chain_edge_target_spec(cur.0 as int) == Some(t));
                        assert(chain_args@[cur.0 as int]@.len() + 1 == f0.blocks@[cur.0 as
                            int].reads@.len());
                        assert(false);
                    }
                }
            } else {
                let mut i: usize = 0;
                while i < na
                    invariant
                        f.wf(),
                        f0.wf(),
                        n == f.n_blocks(),
                        nvals0 == f0.n_values(),
                        t.0 < n,
                        cur.0 < n,
                        chain_args@.len() == n,
                        na == chain_args@[cur.0 as int].len(),
                        na == f.block_data(t).arguments@.len(),
                        forall|i2: int, j: int|
                            0 <= i2 < chain_args@.len() && 0 <= j < chain_args@[i2].len() ==> (
                            #[trigger] chain_args@[i2][j]).0 < nvals0,
                        i <= na,
                        rho@.len() == nvals0,
                        forall|i2: int|
                            0 <= i2 < rho@.len() ==> match #[trigger] rho@[i2] {
                                Some(w) => w.0 < f.n_values(),
                                None => true,
                            },
                        arenas_extend(*f, f0),
                        f.blocks@ == f0.blocks@,
                        f.graph == f0.graph,
                        f.locations == f0.locations,
                        f.constant_container == f0.constant_container,
                        f.entry_block == f0.entry_block,
                        f.ident == f0.ident,
                    decreases na - i,
                {
                    let av = chain_args[cur.0][i];
                    proof {
                        assert(av.0 < nvals0);
                        assert(av.0 < f.n_values());
                    }
                    let ghost f_it = *f;
                    let w = psubst(f, &rho, av);
                    proof {
                        lemma_arenas_extend_trans(f0, f_it, *f);
                    }
                    let fv = f.blocks[t.0].arguments[i];
                    if fv.0 < rho.len() {
                        rho[fv.0] = Some(w);
                    }
                    i += 1;
                }
                if chain_tgt[t.0].is_none() {
                    target = Some(t);
                    proof {
                        if tied && f0.chain_all_cyclic(b.0 as int) {
                            assert(f0.chain_walk(b.0 as int, steps as nat) == Some(cur));
                            assert(f0.chain_walk(b.0 as int, (steps + 1) as nat) == Some(t));
                            assert(f0.chain_edge_target_spec(t.0 as int) is Some);
                            assert(false);
                        }
                    }
                } else {
                    proof {
                        if tied {
                            assert(f0.chain_walk(b.0 as int, steps as nat) == Some(cur));
                            assert(f0.chain_walk(b.0 as int, (steps + 1) as nat)
                                == f0.chain_edge_target_spec(cur.0 as int));
                        }
                    }
                    cur = t;
                    steps += 1;
                }
            }
        }
        if failed {
            return;
        }
        match target {
            None => {
                // The walk ran out of distinct blocks: the chain closes
                // into a cycle with no side effects. Entries sleep forever.
                proof {
                    assert(f.wf());
                    assert(b.0 < f.n_blocks());
                }
                f.block_clear(b);
                let name = String::from_str("receive_wait_forever");
                let no_args: Vec<Value> = Vec::new();
                f.op_intrinsic(b, name, &no_args);
            },
            Some(t) => {
                if t.0 == b.0 {
                    return;
                }
                let has_op = match &f.blocks[t.0].op {
                    Some(_) => true,
                    None => false,
                };
                if !has_op {
                    return;
                }
                // A pure forwarder is skipped entirely: every reference to
                // it can point at the target instead.
                let is_entry_block = match f.entry_block {
                    Some(e) => e.0 == b.0,
                    None => false,
                };
                let direct = match chain_tgt[b.0] {
                    Some(t0) => t0.0 == t.0,
                    None => false,
                };
                if !is_entry_block && direct && crate::value::value_vec_eq(
                    &chain_args[b.0],
                    &f.blocks[b.0].arguments,
                ) {
                    let from = f.block_value(b);
                    let to = f.block_value(t);
                    self.mangler.add_rename(from, to);
                    return;
                }
                if !chain_rewrite_safe(f, &rho, t) {
                    return;
                }
                // Inline the target's terminator into the entry,
                // substituting the composed renames and stacking the
                // entry's location on the target's.
                let nr = f.blocks[t.0].reads.len();
                let mut nreads: Vec<Value> = Vec::new();
                let mut j: usize = 0;
                while j < nr
                    invariant
                        f.wf(),
                        f0.wf(),
                        n == f.n_blocks(),
                        t.0 < n,
                        b.0 < n,
                        nr == f.block_data(t).reads@.len(),
                        j <= nr,
                        nreads@.len() == j,
                        forall|k: int| 0 <= k < j ==> (#[trigger] nreads@[k]).0 < f.n_values(),
                        rho@.len() == nvals0,
                        forall|i2: int|
                            0 <= i2 < rho@.len() ==> match #[trigger] rho@[i2] {
                                Some(w) => w.0 < f.n_values(),
                                None => true,
                            },
                        arenas_extend(*f, f0),
                        f.blocks@ == f0.blocks@,
                        f.graph == f0.graph,
                        f.locations == f0.locations,
                        f.constant_container == f0.constant_container,
                        f.entry_block == f0.entry_block,
                        f.ident == f0.ident,
                    decreases nr - j,
                {
                    let rv = f.blocks[t.0].reads[j];
                    proof {
                        assert(f.block_entry_ok(t.0 as int, f.blocks@[t.0 as int]));
                    }
                    let ghost f_it = *f;
                    let w = psubst(f, &rho, rv);
                    proof {
                        lemma_arenas_extend_trans(f0, f_it, *f);
                    }
                    nreads.push(w);
                    j += 1;
                }
                let oc = match &f.blocks[t.0].op {
                    Some(o) => op_kind_clone(o),
                    None => OpKind::Unreachable,
                };
                let tl = f.block_location(t);
                let el = f.block_location(b);
                let ghost f_cl = *f;
                let loc = f.locations.concat_locations(tl, el);
                proof {
                    crate::builder::lemma_wf_locations_grow(f_cl, *f);
                }
                f.block_clear(b);
                f.block_set_op(b, oc, nreads);
                f.block_set_location(b, loc);
            },
        }
    }
}

impl FunctionPass for SimplifyCfgPass {
    fn name(&self) -> String {
        String::from_str("simplify_cfg")
    }

    fn run_function_pass(&mut self, f: &mut Function) {
        self.simplify_cfg(f);
    }
}

impl SimplifyCfgPass {
    /// Run the whole pass: analyze chains, rewrite every chain entry,
    /// forward parameterless static call targets, and mangle when any
    /// value was renamed.
    pub fn simplify_cfg(&mut self, f: &mut Function)
        requires
            old(f).wf(),
            old(f).entry_block is Some,
            old(f).n_blocks() < 0x0010_0000,
        ensures
            final(f).wf(),
            final(f).entry_block is Some,
            arenas_extend(*final(f), *old(f)),
            final(f).ident == old(f).ident,
            // An empty chain leaves its target untouched: a block that is
            // not a chain edge is never modified.
            forall|b2: int|
                0 <= b2 < old(f).n_blocks() && old(f).chain_edge_target_spec(b2) is None
                    ==> #[trigger] final(f).blocks@[b2] == old(f).blocks@[b2],
            // A function whose entry chain closes into a side-effect-free
            // cycle ends up sleeping forever.
            old(f).chain_all_cyclic(old(f).entry_block.unwrap().0 as int)
                ==> SimplifyCfgPass::sleeps_forever(
                *final(f),
                final(f).entry_block.unwrap(),
            ),
    {
        let ghost f0 = *f;
        let ghost cyc = f0.chain_all_cyclic(f0.entry_block.unwrap().0 as int);
        self.mangler.start();
        let entry = f.block_entry();
        let n = f.blocks.len();
        let reach = f.reachable_blocks();
        // Classify every block once, against the unrewritten function.
        let mut chain_tgt: Vec<Option<Block>> = Vec::new();
        let mut chain_args: Vec<Vec<Value>> = Vec::new();
        let mut i: usize = 0;
        while i < n
            invariant
                f.wf(),
                *f == f0,
                f0.entry_block is Some,
                n == f.n_blocks(),
                i <= n,
                chain_tgt@.len() == i,
                chain_args@.len() == i,
                forall|k: int|
                    0 <= k < i ==> #[trigger] chain_tgt@[k] == f0.chain_edge_target_spec(k),
                forall|k: int|
                    0 <= k < i ==> match #[trigger] chain_tgt@[k] {
                        Some(t) => t.0 < n,
                        None => true,
                    },
                forall|k: int, j: int|
                    0 <= k < i && 0 <= j < chain_args@[k].len() ==> (
                    #[trigger] chain_args@[k][j]).0 < f0.n_values(),
                forall|k: int|
                    0 <= k < i && (#[trigger] chain_tgt@[k]) is Some ==> chain_args@[k]@.len() + 1
                        == f0.blocks@[k].reads@.len(),
            decreases n - i,
        {
            let bt = f.chain_edge_target(Block(i));
            chain_tgt.push(bt);
            let mut args: Vec<Value> = Vec::new();
            match bt {
                Some(_) => {
                    let nr = f.blocks[i].reads.len();
                    let mut j: usize = 1;
                    proof {
                        assert(f.chain_edge_target_spec(i as int) is Some);
                        assert(nr >= 1);
                    }
                    while j < nr
                        invariant
                            f.wf(),
                            i < f.n_blocks(),
                            nr == f.block_data(Block(i)).reads@.len(),
                            nr >= 1,
                            1 <= j <= nr,
                            args@.len() == j - 1,
                            forall|k: int|
                                0 <= k < args@.len() ==> (#[trigger] args@[k]).0 < f.n_values(),
                        decreases nr - j,
                    {
                        proof {
                            assert(f.block_entry_ok(i as int, f.blocks@[i as int]));
                        }
                        args.push(f.blocks[i].reads[j]);
                        j += 1;
                    }
                },
                None => {},
            }
            chain_args.push(args);
            i += 1;
        }
        // The function entry is itself a chain entry whenever it carries a
        // chain edge; rewrite it first.
        proof {
            assert(*f == f0);
            if cyc {
                assert(f0.chain_walk(entry.0 as int, 0) == Some(entry));
                assert(f0.chain_edge_target_spec(entry.0 as int) is Some);
            }
        }
        if matches!(chain_tgt[entry.0], Some(_)) {
            proof {
                assert(SimplifyCfgPass::tables_tied(f0, chain_tgt@, chain_args@));
            }
            self.process_entry(f, &chain_tgt, &chain_args, entry);
        }
        let ghost f_h = *f;
        proof {
            if cyc {
                assert(SimplifyCfgPass::sleeps_forever(*f, entry));
            }
        }
        // Rewrite every other chain entry: a chain block with a
        // predecessor outside every chain.
        let mut b: usize = 0;
        while b < n
            invariant
                f.wf(),
                f0.wf(),
                f0.entry_block is Some,
                f.entry_block == f0.entry_block,
                entry.0 < n,
                n == f0.n_blocks(),
                n == f.n_blocks(),
                n < 0x0010_0000,
                b <= n,
                chain_tgt@.len() == n,
                chain_args@.len() == n,
                cyc == f0.chain_all_cyclic(f0.entry_block.unwrap().0 as int),
                entry == f0.entry_block.unwrap(),
                cyc ==> SimplifyCfgPass::sleeps_forever(*f, entry),
                forall|k: int|
                    0 <= k < n ==> #[trigger] chain_tgt@[k] == f0.chain_edge_target_spec(k),
                forall|k: int|
                    0 <= k < n ==> match #[trigger] chain_tgt@[k] {
                        Some(t) => t.0 < n,
                        None => true,
                    },
                forall|k: int, j: int|
                    0 <= k < n && 0 <= j < chain_args@[k].len() ==> (
                    #[trigger] chain_args@[k][j]).0 < f0.n_values(),
                arenas_extend(*f, f0),
                f.locations.extends(f0.locations),
                f.constant_container.extends_terms(f0.constant_container),
                f.ident == f0.ident,
                forall|b2: int|
                    0 <= b2 < n && chain_tgt@[b2] is None ==> #[trigger] f.blocks@[b2]
                        == f0.blocks@[b2],
                forall|i2: int|
                    0 <= i2 < self.mangler.renames_view().len() ==> match
                        #[trigger] self.mangler.renames_view()[i2] {
                        Some(w) => w.0 < f.n_values(),
                        None => true,
                    },
            decreases n - b,
        {
            let is_chain = matches!(chain_tgt[b], Some(_));
            if is_chain && b != entry.0 {
                let mut has_outside_pred = false;
                {
                    let preds = f.graph.preds_list(b);
                    let np = preds.len();
                    let mut k: usize = 0;
                    while k < np
                        invariant
                            chain_tgt@.len() == n,
                            np == preds@.len(),
                            k <= np,
                        decreases np - k,
                    {
                        let p = preds[k];
                        if p < n {
                            if matches!(chain_tgt[p], None) {
                                has_outside_pred = true;
                            }
                        }
                        k += 1;
                    }
                }
                if has_outside_pred {
                    let ghost f_it = *f;
                    self.process_entry(f, &chain_tgt, &chain_args, Block(b));
                    proof {
                        lemma_arenas_extend_trans(f0, f_it, *f);
                        crate::location::lemma_locations_extends_trans(
                            f0.locations,
                            f_it.locations,
                            f.locations,
                        );
                        crate::constant::lemma_extends_terms_trans(
                            f0.constant_container,
                            f_it.constant_container,
                            f.constant_container,
                        );
                        assert forall|b2: int|
                            0 <= b2 < n && chain_tgt@[b2] is None implies #[trigger] f.blocks@[b2]
                            == f0.blocks@[b2] by {
                            assert(f_it.blocks@[b2] == f0.blocks@[b2]);
                            assert(b2 != b as int);
                        }
                        if cyc {
                            assert(f.blocks@[entry.0 as int] == f_it.blocks@[entry.0 as int]);
                            assert(SimplifyCfgPass::sleeps_forever(*f, entry));
                        }
                    }
                }
            }
            b += 1;
        }
        // Forward parameterless static-call targets: a reachable block with
        // no formals whose call reads no argument values is copied once,
        // and every reference to it is renamed to the copy.
        let mut t: usize = 0;
        while t < n
            invariant
                f.wf(),
                f0.wf(),
                f0.entry_block is Some,
                f.entry_block == f0.entry_block,
                n == f0.n_blocks(),
                n <= f.n_blocks(),
                f.n_blocks() <= n + t,
                t <= n,
                n < 0x0010_0000,
                entry.0 < n,
                reach@.len() == n,
                chain_tgt@.len() == n,
                cyc == f0.chain_all_cyclic(f0.entry_block.unwrap().0 as int),
                entry == f0.entry_block.unwrap(),
                cyc ==> SimplifyCfgPass::sleeps_forever(*f, entry),
                forall|k: int|
                    0 <= k < n ==> #[trigger] chain_tgt@[k] == f0.chain_edge_target_spec(k),
                arenas_extend(*f, f0),
                f.locations.extends(f0.locations),
                f.constant_container.extends_terms(f0.constant_container),
                f.ident == f0.ident,
                forall|b2: int|
                    0 <= b2 < n && chain_tgt@[b2] is None ==> #[trigger] f.blocks@[b2]
                        == f0.blocks@[b2],
                forall|i2: int|
                    0 <= i2 < self.mangler.renames_view().len() ==> match
                        #[trigger] self.mangler.renames_view()[i2] {
                        Some(w) => w.0 < f.n_values(),
                        None => true,
                    },
            decreases n - t,
        {
            let eligible = reach[t] && t != entry.0 && matches!(chain_tgt[t], None) && matches!(
                &f.blocks[t].op,
                Some(OpKind::Call(CallKind::Function)),
            ) && f.blocks[t].arguments.len() == 0 && reads_argument_free(f, Block(t));
            if eligible {
                let preds = f.graph.preds_list(t);
                if preds.len() > 0 {
                    proof {
                        assert(f.n_blocks() <= n + t);
                        assert(f.n_blocks() < 0xffff_ffff);
                    }
                    let ghost f_it = *f;
                    let tl = f.block_location(Block(t));
                    let loc = if preds.len() == 1 {
                        let p = preds[0];
                        proof {
                            assert(preds@.contains(preds@[0]));
                            assert(preds@.to_set().contains(p));
                            assert(crate::flow::flow_preds(f.graph, t as int).contains(p));
                            assert(crate::flow::flow_preds(f.graph, t as int) == f.pred_set(
                                t as int,
                            ));
                            assert(f.pred_set(t as int).contains(p));
                            assert(p < f.n_blocks());
                        }
                        proof {
                            assert(f.block_entry_ok(p as int, f.blocks@[p as int]));
                        }
                        let pl = f.block_location(Block(p));
                        let ghost f_cl = *f;
                        let l2 = f.locations.concat_locations(tl, pl);
                        proof {
                            crate::builder::lemma_wf_locations_grow(f_cl, *f);
                        }
                        l2
                    } else {
                        tl
                    };
                    proof {
                        assert(f.locations.is_valid(loc));
                    }
                    let nb = f.block_insert();
                    let mut rcopy: Vec<Value> = Vec::new();
                    append_values(&mut rcopy, &f.blocks[t].reads);
                    let oc = match &f.blocks[t].op {
                        Some(o) => op_kind_clone(o),
                        None => OpKind::Unreachable,
                    };
                    proof {
                        assert(f.block_entry_ok(t as int, f.blocks@[t as int]));
                        assert(f.locations.is_valid(loc));
                    }
                    f.block_set_op(nb, oc, rcopy);
                    f.block_set_location(nb, loc);
                    let from = f.block_value(Block(t));
                    let to = f.block_value(nb);
                    self.mangler.add_rename(from, to);
                    proof {
                        lemma_arenas_extend_trans(f0, f_it, *f);
                        crate::location::lemma_locations_extends_trans(
                            f0.locations,
                            f_it.locations,
                            f.locations,
                        );
                        assert forall|b2: int|
                            0 <= b2 < n && chain_tgt@[b2] is None implies #[trigger] f.blocks@[b2]
                            == f0.blocks@[b2] by {
                            assert(f_it.blocks@[b2] == f0.blocks@[b2]);
                        }
                        if cyc {
                            assert(f.blocks@[entry.0 as int] == f_it.blocks@[entry.0 as int]);
                            assert(SimplifyCfgPass::sleeps_forever(*f, entry));
                        }
                    }
                }
            }
            t += 1;
        }
        // Apply the accumulated renames by rebuilding from the entry.
        if self.mangler.renames_len() > 0 {
            proof {
                assert(2 * f.n_blocks() < 0xffff_ffff);
            }
            let ghost f_it = *f;
            let ne = self.mangler.run(f, entry);
            f.block_set_entry(ne);
            proof {
                lemma_arenas_extend_trans(f0, f_it, *f);
                assert forall|b2: int|
                    0 <= b2 < n && chain_tgt@[b2] is None implies #[trigger] f.blocks@[b2]
                    == f0.blocks@[b2] by {
                    assert(f_it.blocks@[b2] == f0.blocks@[b2]);
                }
                if cyc {
                    // The copy of a sleeping entry sleeps too: the mangler
                    // carries the terminator's kind and operand count over.
                    assert(SimplifyCfgPass::sleeps_forever(f_it, entry));
                    assert(f_it.block_data(entry).op is Some);
                    let o = f_it.block_data(entry).op.unwrap();
                    assert(f.block_data(ne).op is Some);
                    let o2 = f.block_data(ne).op.unwrap();
                    assert(crate::op::op_kind_eq(o2, o));
                    assert(SimplifyCfgPass::sleeps_forever(*f, ne));
                }
            }
        } else {
            proof {
                if cyc {
                    assert(SimplifyCfgPass::sleeps_forever(*f, entry));
                }
            }
        }
    }
}

} // verus!
