//! The mangler: rebuilds a function from a start block, copying every
//! reachable block under a fresh identity and substituting values through
//! a rename map. Primops are re-interned, so de-duplication survives the
//! rewrite; blocks and values that are no longer referenced are simply not
//! copied.

use vstd::prelude::*;

use crate::entity::{Block, Value};
use crate::fun::Function;
use crate::op::op_kind_clone;
use crate::value::ValueKind;

verus! {

broadcast use vstd::seq_lib::lemma_seq_contains_after_push;

/// Working state of one mangler run: which old block maps to which copy,
/// and which copies still await their terminator.
struct MangleState {
    /// For each block that existed when the run started: its copy, once
    /// one was made.
    bmap: Vec<Option<Block>>,
    /// Copies whose terminator has not been filled in yet, as pairs of the
    /// old and the new block index.
    pending: Vec<(usize, usize)>,
    /// The set of old block indices already copied.
    shelled: Ghost<Set<int>>,
    /// How many values existed when the run started.
    nv0: Ghost<int>,
}

/// The mangler state is consistent with the function.
spec fn st_ok(st: MangleState, f: Function) -> bool {
    &&& 2 * st.bmap@.len() < 0xffff_ffff
    &&& st.nv0@ <= f.n_values()
    &&& forall|i: int|
        0 <= i < st.bmap@.len() ==> match #[trigger] st.bmap@[i] {
            Some(nb) => nb.0 < f.n_blocks() && nb.0 >= st.bmap@.len()
                && f.block_data(nb).arguments@.len() == f.block_data(
                Block(i as usize),
            ).arguments@.len(),
            None => true,
        }
    &&& forall|k: int|
        0 <= k < st.pending@.len() ==> (#[trigger] st.pending@[k]).0 < st.bmap@.len() && st.pending@[
            k
        ].1 < f.n_blocks() && st.pending@[k].1 >= st.bmap@.len()
    &&& st.shelled@.finite()
    &&& st.shelled@.subset_of(vstd::set_lib::set_int_range(0, st.bmap@.len() as int))
    &&& st.shelled@.len() <= st.bmap@.len()
    &&& forall|i: int|
        0 <= i < st.bmap@.len() ==> (st.shelled@.contains(i) <==> (#[trigger] st.bmap@[i]) is Some)
    &&& f.n_blocks() == st.bmap@.len() + st.shelled@.len()
    &&& forall|i: int|
        0 <= i < st.nv0@ ==> match (#[trigger] f.values@[i]).kind {
            ValueKind::Block(c) => c.0 < st.bmap@.len(),
            ValueKind::Argument(c, _) => c.0 < st.bmap@.len(),
            _ => true,
        }
}

/// The state anchors (map length and value count) are unchanged and the
/// copied set only grew.
spec fn st_extends(post: MangleState, pre: MangleState) -> bool {
    &&& post.bmap@.len() == pre.bmap@.len()
    &&& post.nv0@ == pre.nv0@
    &&& pre.shelled@.subset_of(post.shelled@)
    &&& pre.shelled@.len() <= post.shelled@.len()
    &&& forall|i: int|
        0 <= i < pre.bmap@.len() && (#[trigger] pre.bmap@[i]) is Some ==> post.bmap@[i]
            == pre.bmap@[i]
    &&& pre.pending@.len() <= post.pending@.len()
    &&& post.pending@.len() - pre.pending@.len() <= post.shelled@.len() - pre.shelled@.len()
    &&& forall|k: int|
        0 <= k < pre.pending@.len() ==> #[trigger] post.pending@[k] == pre.pending@[k]
}

/// The function grew without touching what existed: old blocks, values and
/// primops are all unchanged.
pub open spec fn fun_grows(post: Function, pre: Function) -> bool {
    &&& crate::builder::arenas_extend(post, pre)
    &&& pre.n_blocks() <= post.n_blocks()
    &&& forall|b: int| 0 <= b < pre.n_blocks() ==> #[trigger] post.blocks@[b] == pre.blocks@[b]
    &&& post.locations.extends(pre.locations)
    &&& post.constant_container.extends_terms(pre.constant_container)
    &&& post.entry_block == pre.entry_block
    &&& post.ident == pre.ident
}

pub proof fn lemma_fun_grows_refl(a: Function)
    ensures
        fun_grows(a, a),
{
}

pub proof fn lemma_fun_grows_trans(a: Function, b: Function, c: Function)
    requires
        fun_grows(b, a),
        fun_grows(c, b),
    ensures
        fun_grows(c, a),
{
    assert forall|i: int| 0 <= i < a.n_values() implies #[trigger] c.values@[i] == a.values@[i] by {
        assert(b.values@[i] == a.values@[i]);
    }
    assert forall|p: int| 0 <= p < a.n_primops() implies #[trigger] c.primops@[p]
        == a.primops@[p] by {
        assert(b.primops@[p] == a.primops@[p]);
    }
    assert forall|bb: int| 0 <= bb < a.n_blocks() implies #[trigger] c.blocks@[bb]
        == a.blocks@[bb] by {
        assert(b.blocks@[bb] == a.blocks@[bb]);
    }
    assert forall|i: int|
        0 <= i < a.locations.n_locations() implies #[trigger] c.locations.locations@[i].terminals@
        == a.locations.locations@[i].terminals@ by {
        assert(b.locations.locations@[i].terminals@ == a.locations.locations@[i].terminals@);
    }
    assert forall|i: int|
        0 <= i < a.locations.n_terminals() implies #[trigger] c.locations.terminals@[i]
        == a.locations.terminals@[i] by {
        assert(b.locations.terminals@[i] == a.locations.terminals@[i]);
    }
    assert forall|i: int|
        0 <= i < a.constant_container.len() implies #[trigger] c.constant_container.terms()[i]
        == a.constant_container.terms()[i] by {
        assert(b.constant_container.terms()[i] == a.constant_container.terms()[i]);
    }
}

proof fn lemma_st_extends_trans(a: MangleState, b: MangleState, c: MangleState)
    requires
        st_extends(b, a),
        st_extends(c, b),
    ensures
        st_extends(c, a),
{
    assert forall|i: int|
        0 <= i < a.bmap@.len() && (#[trigger] a.bmap@[i]) is Some implies c.bmap@[i]
        == a.bmap@[i] by {
        assert(b.bmap@[i] == a.bmap@[i]);
    }
    assert forall|k: int| 0 <= k < a.pending@.len() implies #[trigger] c.pending@[k]
        == a.pending@[k] by {
        assert(b.pending@[k] == a.pending@[k]);
    }
}

/// Get the copy of old block `c`, creating an argument-for-argument shell
/// (with no terminator yet) on first demand.
fn ensure_shell(f: &mut Function, st: &mut MangleState, c: usize) -> (nb: Block)
    requires
        old(f).wf(),
        st_ok(*old(st), *old(f)),
        c < old(st).bmap@.len(),
    ensures
        final(f).wf(),
        st_ok(*final(st), *final(f)),
        st_extends(*final(st), *old(st)),
        fun_grows(*final(f), *old(f)),
        final(st).bmap@[c as int] == Some(nb),
        nb.0 < final(f).n_blocks(),
        final(f).block_data(nb).arguments@.len() == final(f).block_data(
            Block(c),
        ).arguments@.len(),
        old(st).bmap@[c as int] is None ==> final(f).block_data(nb).op is None,
{
    match st.bmap[c] {
        Some(nb) => {
            proof {
                assert(st.shelled@.contains(c as int));
            }
            nb
        },
        None => {
            proof {
                assert(f.n_blocks() < 0xffff_ffff);
            }
            let nb = f.block_insert();
            let na = f.blocks[c].arguments.len();
            let mut i: usize = 0;
            while i < na
                invariant
                    f.wf(),
                    st_ok(*old(st), *old(f)),
                    c < old(st).bmap@.len(),
                    nb.0 < f.n_blocks(),
                    na == old(f).block_data(Block(c)).arguments@.len(),
                    fun_grows(*f, *old(f)),
                    f.n_blocks() == old(f).n_blocks() + 1,
                    i <= na,
                    f.block_data(nb).arguments@.len() == i,
                    f.block_data(nb).op is None,
                    nb.0 >= old(f).n_blocks(),
                decreases na - i,
            {
                let _ = f.block_arg_insert(nb);
                i += 1;
            }
            st.bmap[c] = Some(nb);
            st.pending.push((c, nb.0));
            proof {
                st.shelled@ = st.shelled@.insert(c as int);
                vstd::set_lib::lemma_int_range(0, st.bmap@.len() as int);
                assert(st.shelled@.subset_of(
                    vstd::set_lib::set_int_range(0, st.bmap@.len() as int),
                ));
                vstd::set_lib::lemma_len_subset(
                    st.shelled@,
                    vstd::set_lib::set_int_range(0, st.bmap@.len() as int),
                );
                assert(!old(st).shelled@.contains(c as int));
                assert(st.shelled@.len() == old(st).shelled@.len() + 1);
                assert(st_ok(*st, *f));
            }
            nb
        },
    }
}

/// Substitute a value for the copy under construction: apply the rename
/// map once, then redirect block and argument values to the copied blocks
/// and rebuild primops over the substituted operands.
fn msubst(
    f: &mut Function,
    st: &mut MangleState,
    renames: &Vec<Option<Value>>,
    v: Value,
) -> (r: Value)
    requires
        old(f).wf(),
        st_ok(*old(st), *old(f)),
        v.0 < old(st).nv0@,
        forall|i: int|
            0 <= i < renames@.len() ==> match #[trigger] renames@[i] {
                Some(w) => w.0 < old(st).nv0@,
                None => true,
            },
    ensures
        final(f).wf(),
        st_ok(*final(st), *final(f)),
        st_extends(*final(st), *old(st)),
        fun_grows(*final(f), *old(f)),
        final(f).valid_value(r),
    decreases v.0,
{
    let u = if v.0 < renames.len() {
        match renames[v.0] {
            Some(w) => w,
            None => v,
        }
    } else {
        v
    };
    let hopped = u.0 != v.0;
    match f.values[u.0].kind {
        ValueKind::Block(c) => {
            let nb = ensure_shell(f, st, c.0);
            f.block_value(nb)
        },
        ValueKind::Argument(c, n) => {
            proof {
                assert(f.value_kind_ok(u.0 as int, f.values@[u.0 as int].kind));
            }
            let nb = ensure_shell(f, st, c.0);
            if n < f.blocks[nb.0].arguments.len() {
                proof {
                    assert(f.block_entry_ok(nb.0 as int, f.blocks@[nb.0 as int]));
                }
                f.blocks[nb.0].arguments[n]
            } else {
                // An argument slot beyond the copy's arity cannot arise on
                // a well-formed function; keep the original value.
                u
            }
        },
        ValueKind::Const(_) => u,
        ValueKind::PrimOp(p) => {
            if hopped {
                // A renamed value stands for itself in the new frame.
                u
            } else {
                proof {
                    assert(f.value_kind_ok(v.0 as int, f.values@[v.0 as int].kind));
                }
                let op = f.primops[p.0].op;
                let nr = f.primops[p.0].reads.len();
                let mut nreads: Vec<Value> = Vec::new();
                let ghost f_loop0 = *f;
                let mut j: usize = 0;
                while j < nr
                    invariant
                        f.wf(),
                        st_ok(*st, *f),
                        st_extends(*st, *old(st)),
                        fun_grows(*f, *old(f)),
                        v.0 < old(st).nv0@,
                        v.0 < f.n_values(),
                        f.values@[v.0 as int].kind == ValueKind::PrimOp(p),
                        p.0 < f.n_primops(),
                        nr == f.primops@[p.0 as int].reads@.len(),
                        forall|k: int|
                            0 <= k < nr ==> (#[trigger] f.primops@[p.0 as int].reads@[k]).0 < v.0,
                        forall|i: int|
                            0 <= i < renames@.len() ==> match #[trigger] renames@[i] {
                                Some(w) => w.0 < old(st).nv0@,
                                None => true,
                            },
                        j <= nr,
                        nreads@.len() == j,
                        forall|k: int| 0 <= k < j ==> (#[trigger] nreads@[k]).0 < f.n_values(),
                    decreases nr - j,
                {
                    let rv = f.primops[p.0].reads[j];
                    proof {
                        assert(rv.0 < v.0);
                        assert(rv.0 < st.nv0@);
                    }
                    let ghost f_it = *f;
                    let ghost st_it = *st;
                    let w = msubst(f, st, renames, rv);
                    proof {
                        lemma_fun_grows_trans(*old(f), f_it, *f);
                        lemma_st_extends_trans(*old(st), st_it, *st);
                    }
                    nreads.push(w);
                    j += 1;
                }
                let ghost f_bi = *f;
                let r2 = f.prim_intern(op, nreads);
                proof {
                    lemma_fun_grows_refl(*f);
                    assert(fun_grows(*f, f_bi));
                    lemma_fun_grows_trans(*old(f), f_bi, *f);
                }
                r2
            }
        },
    }
}

/// A whole-function rewriter: rebuilds the graph reachable from a start
/// block, substituting values through a rename map.
pub struct Mangler {
    pub renames: Vec<Option<Value>>,
}

impl Mangler {
    /// The rename table, keyed by the index of the value to replace.
    pub open spec fn renames_view(self) -> Seq<Option<Value>> {
        self.renames@
    }

    pub fn new() -> (r: Mangler)
        ensures
            r.renames_view().len() == 0,
    {
        Mangler { renames: Vec::new() }
    }

    /// Forget all renames.
    pub fn start(&mut self)
        ensures
            final(self).renames_view().len() == 0,
    {
        self.renames.clear();
    }

    /// How many slots the rename table has.
    pub fn renames_len(&self) -> (r: usize)
        ensures
            r == self.renames_view().len(),
    {
        self.renames.len()
    }

    /// Record that every occurrence of `from` is to be replaced by `to`.
    pub fn add_rename(&mut self, from: Value, to: Value)
        ensures
            final(self).renames_view().len() >= old(self).renames_view().len(),
            from.0 < final(self).renames_view().len(),
            final(self).renames_view()[from.0 as int] == Some(to),
            forall|i: int|
                0 <= i < final(self).renames_view().len() && i != from.0
                    ==> #[trigger] final(self).renames_view()[i] == (if i < old(
                    self,
                ).renames_view().len() {
                    old(self).renames_view()[i]
                } else {
                    None
                }),
    {
        while self.renames.len() <= from.0
            invariant
                old(self).renames_view().len() <= self.renames@.len(),
                forall|i: int|
                    0 <= i < self.renames@.len() ==> #[trigger] self.renames@[i] == (if i < old(
                        self,
                    ).renames_view().len() {
                        old(self).renames_view()[i]
                    } else {
                        None
                    }),
            decreases from.0 + 1 - self.renames@.len(),
        {
            self.renames.push(None);
        }
        self.renames[from.0] = Some(to);
    }

    /// Fill one copied block: substitute the source block's reads through
    /// the rename map and install a structural copy of its terminator,
    /// carrying the source's location over.
    fn fill_copy(
        &self,
        f: &mut Function,
        st: &mut MangleState,
        ob: usize,
        nb: Block,
        Ghost(f0): Ghost<Function>,
    )
        requires
            old(f).wf(),
            f0.wf(),
            st_ok(*old(st), *old(f)),
            fun_grows(*old(f), f0),
            old(st).bmap@.len() == f0.n_blocks(),
            old(st).nv0@ == f0.n_values(),
            ob < old(st).bmap@.len(),
            nb.0 < old(f).n_blocks(),
            nb.0 >= old(st).bmap@.len(),
            old(f).block_data(nb).op is None,
            forall|i: int|
                0 <= i < self.renames_view().len() ==> match #[trigger] self.renames_view()[i] {
                    Some(w) => w.0 < old(st).nv0@,
                    None => true,
                },
        ensures
            final(f).wf(),
            st_ok(*final(st), *final(f)),
            st_extends(*final(st), *old(st)),
            fun_grows(*final(f), f0),
            forall|b2: int|
                0 <= b2 < old(f).n_blocks() && b2 != nb.0 ==> #[trigger] final(f).blocks@[b2]
                    == old(f).blocks@[b2],
            final(f).block_data(nb).arguments@ == old(f).block_data(nb).arguments@,
            final(f).block_data(nb).value == old(f).block_data(nb).value,
            match f0.blocks@[ob as int].op {
                Some(o) => final(f).block_data(nb).op is Some && crate::op::op_kind_eq(
                    final(f).block_data(nb).op.unwrap(),
                    o,
                ) && final(f).block_data(nb).reads@.len() == f0.blocks@[ob as int].reads@.len()
                    && final(f).block_data(nb).location == f0.blocks@[ob as int].location,
                None => final(f).block_data(nb).op is None,
            },
    {
        let ghost st_pre = *st;
        proof {
            assert(f.blocks@[ob as int] == f0.blocks@[ob as int]);
            lemma_fun_grows_refl(*f);
        }
        let has_op = match &f.blocks[ob].op {
            Some(_) => true,
            None => false,
        };
        if !has_op {
            return ;
        }
        let nr = f.blocks[ob].reads.len();
        let mut nreads: Vec<Value> = Vec::new();
        let mut j: usize = 0;
        while j < nr
            invariant
                f.wf(),
                st_ok(*st, *f),
                st_extends(*st, st_pre),
                st.bmap@.len() == st_pre.bmap@.len(),
                ob < st.bmap@.len(),
                st.bmap@.len() == f0.n_blocks(),
                fun_grows(*f, *old(f)),
                fun_grows(*old(f), f0),
                st.nv0@ == f0.n_values(),
                f0.wf(),
                old(f).n_blocks() <= f.n_blocks(),
                f.blocks@[ob as int] == f0.blocks@[ob as int],
                nr == f0.blocks@[ob as int].reads@.len(),
                forall|k: int|
                    0 <= k < nr ==> (#[trigger] f0.blocks@[ob as int].reads@[k]).0
                        < f0.n_values(),
                forall|i2: int|
                    0 <= i2 < self.renames_view().len() ==> match
                        #[trigger] self.renames_view()[i2] {
                        Some(w) => w.0 < st.nv0@,
                        None => true,
                    },
                j <= nr,
                nreads@.len() == j,
                forall|k: int| 0 <= k < j ==> (#[trigger] nreads@[k]).0 < f.n_values(),
            decreases nr - j,
        {
            let rv = f.blocks[ob].reads[j];
            proof {
                assert(f.blocks@[ob as int] == f0.blocks@[ob as int]);
                assert(rv.0 < f0.n_values());
                assert(rv.0 < st.nv0@);
            }
            let ghost f_it = *f;
            let ghost st_it = *st;
            let w = msubst(f, st, &self.renames, rv);
            proof {
                lemma_fun_grows_trans(*old(f), f_it, *f);
                lemma_st_extends_trans(st_pre, st_it, *st);
            }
            nreads.push(w);
            j += 1;
        }
        let oc = match &f.blocks[ob].op {
            Some(o) => op_kind_clone(o),
            None => crate::op::OpKind::Unreachable,
        };
        proof {
            assert(f.blocks@[nb.0 as int] == old(f).blocks@[nb.0 as int]);
            assert(f.block_data(nb).op is None);
        }
        let ghost f_le = *f;
        proof {
            lemma_fun_grows_trans(f0, *old(f), f_le);
        }
        f.block_set_op(nb, oc, nreads);
        let loc = f.block_location(Block(ob));
        f.block_set_location(nb, loc);
        proof {
            assert(fun_grows(*f, f0)) by {
                assert(f.values@ == f_le.values@);
                assert(f.primops@ == f_le.primops@);
                assert(f.locations == f_le.locations);
                assert(f.constant_container == f_le.constant_container);
                assert(crate::builder::arenas_extend(*f, f0)) by {
                    assert forall|i2: int| 0 <= i2 < f0.n_values() implies #[trigger] f.values@[i2]
                        == f0.values@[i2] by {
                        assert(f_le.values@[i2] == f0.values@[i2]);
                    }
                    assert forall|p2: int|
                        0 <= p2 < f0.n_primops() implies #[trigger] f.primops@[p2]
                        == f0.primops@[p2] by {
                        assert(f_le.primops@[p2] == f0.primops@[p2]);
                    }
                }
                assert forall|b2: int| 0 <= b2 < f0.n_blocks() implies #[trigger] f.blocks@[b2]
                    == f0.blocks@[b2] by {
                    assert(b2 != nb.0);
                    assert(f.blocks@[b2] == f_le.blocks@[b2]);
                    assert(f_le.blocks@[b2] == f0.blocks@[b2]);
                }
            }
            assert(st_ok(*st, *f));
        }
    }

    /// Process every pending copy but the one for `skip`, whose block is
    /// left exactly as it stands. New copies demanded along the way are
    /// processed too; the queue is empty on return.
    fn drain_pending(
        &self,
        f: &mut Function,
        st: &mut MangleState,
        skip: usize,
        Ghost(f0): Ghost<Function>,
    )
        requires
            old(f).wf(),
            f0.wf(),
            st_ok(*old(st), *old(f)),
            fun_grows(*old(f), f0),
            old(st).bmap@.len() == f0.n_blocks(),
            old(st).nv0@ == f0.n_values(),
            skip < old(f).n_blocks(),
            forall|i: int|
                0 <= i < self.renames_view().len() ==> match #[trigger] self.renames_view()[i] {
                    Some(w) => w.0 < old(st).nv0@,
                    None => true,
                },
        ensures
            final(f).wf(),
            st_ok(*final(st), *final(f)),
            final(st).bmap@.len() == old(st).bmap@.len(),
            final(st).nv0@ == old(st).nv0@,
            final(st).pending@.len() == 0,
            fun_grows(*final(f), f0),
            old(f).n_blocks() <= final(f).n_blocks(),
            final(f).blocks@[skip as int] == old(f).blocks@[skip as int],
            forall|i: int|
                0 <= i < old(st).bmap@.len() && (#[trigger] old(st).bmap@[i]) is Some
                    ==> final(st).bmap@[i] == old(st).bmap@[i],
    {
        let ghost st_in = *st;
        let nb0 = st.bmap.len();
        while st.pending.len() > 0
            invariant
                f.wf(),
                f0.wf(),
                nb0 == st.bmap@.len(),
                nb0 == f0.n_blocks(),
                st_ok(*st, *f),
                st.nv0@ == f0.n_values(),
                fun_grows(*f, f0),
                old(f).n_blocks() <= f.n_blocks(),
                skip < old(f).n_blocks(),
                f.blocks@[skip as int] == old(f).blocks@[skip as int],
                st_in.bmap@.len() == nb0,
                forall|i: int|
                    0 <= i < nb0 && (#[trigger] st_in.bmap@[i]) is Some ==> st.bmap@[i]
                        == st_in.bmap@[i],
                forall|i2: int|
                    0 <= i2 < self.renames_view().len() ==> match
                        #[trigger] self.renames_view()[i2] {
                        Some(w) => w.0 < st.nv0@,
                        None => true,
                    },
            decreases nb0 - st.shelled@.len(), st.pending@.len(),
        {
            let ghost st0 = *st;
            let (ob, nbi) = st.pending.pop().unwrap();
            proof {
                assert(st0.pending@[st0.pending@.len() - 1] == (ob, nbi));
                assert(ob < st.bmap@.len());
                assert(nbi < f.n_blocks());
                assert(nbi >= st.bmap@.len());
                assert(st_ok(*st, *f));
            }
            if nbi != skip {
                let nb = Block(nbi);
                let already = match &f.blocks[nbi].op {
                    Some(_) => true,
                    None => false,
                };
                if !already {
                    let ghost f_pre = *f;
                    let ghost st_pre = *st;
                    proof {
                        assert(f.blocks@[ob as int] == f0.blocks@[ob as int]);
                    }
                    self.fill_copy(f, st, ob, nb, Ghost(f0));
                    proof {
                        assert(f.blocks@[skip as int] == f_pre.blocks@[skip as int]);
                        assert forall|i2: int|
                            0 <= i2 < nb0 && (#[trigger] st_in.bmap@[i2]) is Some
                            implies st.bmap@[i2] == st_in.bmap@[i2] by {
                            assert(st_pre.bmap@[i2] == st_in.bmap@[i2]);
                        }
                    }
                }
            }
            proof {
                assert(st_ok(*st, *f));
            }
        }
    }

    /// Rebuild the function from `entry`, returning the copy of the entry
    /// block. Every block reachable from the entry through the substituted
    /// references is copied exactly once; everything that existed before
    /// the run is left in place untouched. The returned block is an
    /// argument-for-argument, terminator-for-terminator copy of the entry:
    /// same arity, a structurally equal terminator over substituted reads
    /// of the same count, and the same location. A rename applies once,
    /// and its replacement stands as given: a caller whose renames chain
    /// through one another closes the chain before the run, so that the
    /// map stays acyclic.
    pub fn run(&mut self, f: &mut Function, entry: Block) -> (r: Block)
        requires
            old(f).wf(),
            old(f).valid_block(entry),
            2 * old(f).n_blocks() < 0xffff_ffff,
            forall|i: int|
                0 <= i < old(self).renames_view().len() ==> match #[trigger] old(
                    self,
                ).renames_view()[i] {
                    Some(w) => w.0 < old(f).n_values(),
                    None => true,
                },
        ensures
            final(f).wf(),
            final(f).valid_block(r),
            fun_grows(*final(f), *old(f)),
            final(self).renames_view() == old(self).renames_view(),
            final(f).block_data(r).arguments@.len() == old(f).block_data(entry).arguments@.len(),
            match old(f).block_data(entry).op {
                Some(o) => final(f).block_data(r).op is Some && crate::op::op_kind_eq(
                    final(f).block_data(r).op.unwrap(),
                    o,
                ) && final(f).block_data(r).reads@.len() == old(f).block_data(
                    entry,
                ).reads@.len() && final(f).block_data(r).location == old(f).block_data(
                    entry,
                ).location,
                None => final(f).block_data(r).op is None,
            },
    {
        let ghost f0 = *f;
        let nb0 = f.blocks.len();
        let mut bmap: Vec<Option<Block>> = Vec::new();
        let mut i: usize = 0;
        while i < nb0
            invariant
                i <= nb0,
                bmap@.len() == i,
                forall|j: int| 0 <= j < i ==> (#[trigger] bmap@[j]) is None,
            decreases nb0 - i,
        {
            bmap.push(None);
            i += 1;
        }
        let mut st = MangleState {
            bmap,
            pending: Vec::new(),
            shelled: Ghost(Set::<int>::empty()),
            nv0: Ghost(f.values.len() as int),
        };
        proof {
            vstd::set_lib::lemma_int_range(0, nb0 as int);
            assert forall|ii: int|
                0 <= ii < st.bmap@.len() implies (st.shelled@.contains(ii) <==> (
            #[trigger] st.bmap@[ii]) is Some) by {}
            assert forall|ii: int|
                0 <= ii < st.nv0@ implies match (#[trigger] f.values@[ii]).kind {
                ValueKind::Block(c) => c.0 < st.bmap@.len(),
                ValueKind::Argument(c, _) => c.0 < st.bmap@.len(),
                _ => true,
            } by {
                assert(f.value_kind_ok(ii, f.values@[ii].kind));
            }
            assert(st_ok(st, *f));
            assert(st.nv0@ == f0.n_values());
            assert(self.renames@ == old(self).renames_view());
            assert forall|i2: int|
                0 <= i2 < self.renames@.len() implies match #[trigger] self.renames@[i2] {
                Some(w) => w.0 < st.nv0@,
                None => true,
            } by {
                assert(self.renames@[i2] == old(self).renames_view()[i2]);
            }
            lemma_fun_grows_refl(*f);
        }
        let ghost st_init = st;
        let e2 = ensure_shell(f, &mut st, entry.0);
        let ghost f_sh = *f;
        proof {
            assert(st_init.bmap@[entry.0 as int] is None);
            assert(f_sh.block_data(e2).op is None);
        }
        self.drain_pending(f, &mut st, e2.0, Ghost(f0));
        proof {
            assert(f.blocks@[e2.0 as int] == f_sh.blocks@[e2.0 as int]);
            assert(f.block_data(e2).op is None);
            assert(st.bmap@[entry.0 as int] == Some(e2));
        }
        let has = match &f.blocks[entry.0].op {
            Some(_) => true,
            None => false,
        };
        if has {
            let ghost f_dr = *f;
            proof {
                assert(f.blocks@[entry.0 as int] == f0.blocks@[entry.0 as int]);
            }
            self.fill_copy(f, &mut st, entry.0, e2, Ghost(f0));
            let ghost f_fl = *f;
            self.drain_pending(f, &mut st, e2.0, Ghost(f0));
            proof {
                assert(f.blocks@[e2.0 as int] == f_fl.blocks@[e2.0 as int]);
            }
        }
        proof {
            assert(st_ok(st, *f));
            assert(st.bmap@[entry.0 as int] == Some(e2));
            assert(f.block_data(e2).arguments@.len() == f.block_data(entry).arguments@.len());
            assert(f.blocks@[entry.0 as int] == f0.blocks@[entry.0 as int]);
        }
        e2
    }
}

} // verus!
