//! Structural isomorphism of two functions: equality up to the
//! renumbering of arena handles, checked by a parallel walk from both
//! entry blocks.

use vstd::prelude::*;

use crate::constant::{ConstantContainer, ConstKind};
use crate::entity::{Block, Const, Value};
use crate::fun::Function;
use crate::op::op_kind_eq_exec;
use crate::value::ValueKind;

verus! {

broadcast use vstd::seq_lib::lemma_seq_contains_after_push;

/// Structural equality of two constant terms held in two different
/// containers, compared by recursive descent.
pub fn const_deep_eq(ca: &ConstantContainer, c1: Const, cb: &ConstantContainer, c2: Const) -> (r:
    bool)
    requires
        ca.wf(),
        cb.wf(),
        ca.is_valid(c1),
        cb.is_valid(c2),
    decreases c1.0,
{
    proof {
        assert(crate::constant::const_kind_bounded(ca.terms()[c1.0 as int], c1.0 as int));
        assert(crate::constant::const_kind_bounded(cb.terms()[c2.0 as int], c2.0 as int));
    }
    let k1 = ca.const_kind(c1);
    let k2 = cb.const_kind(c2);
    match (k1, k2) {
        (ConstKind::Atom(x), ConstKind::Atom(y)) => *x == *y,
        (ConstKind::Integer(x), ConstKind::Integer(y)) => *x == *y,
        (ConstKind::Nil, ConstKind::Nil) => true,
        (ConstKind::Tuple(xs), ConstKind::Tuple(ys)) => {
            if xs.len() != ys.len() {
                return false;
            }
            let n = xs.len();
            let mut i: usize = 0;
            while i < n
                invariant
                    ca.wf(),
                    cb.wf(),
                    c1.0 < ca.len(),
                    c2.0 < cb.len(),
                    n == xs@.len(),
                    n == ys@.len(),
                    forall|k: int| 0 <= k < n ==> (#[trigger] xs@[k]).0 < c1.0,
                    forall|k: int| 0 <= k < n ==> (#[trigger] ys@[k]).0 < cb.len(),
                    i <= n,
                decreases n - i,
            {
                if !const_deep_eq(ca, xs[i], cb, ys[i]) {
                    return false;
                }
                i += 1;
            }
            true
        },
        (ConstKind::ListCell(h1, t1), ConstKind::ListCell(h2, t2)) => {
            const_deep_eq(ca, *h1, cb, *h2) && const_deep_eq(ca, *t1, cb, *t2)
        },
        (ConstKind::Mapping(k1s, v1s), ConstKind::Mapping(k2s, v2s)) => {
            if k1s.len() != k2s.len() || v1s.len() != v2s.len() {
                return false;
            }
            let n = k1s.len();
            let mut i: usize = 0;
            while i < n
                invariant
                    ca.wf(),
                    cb.wf(),
                    c1.0 < ca.len(),
                    c2.0 < cb.len(),
                    n == k1s@.len(),
                    n == k2s@.len(),
                    forall|k: int| 0 <= k < n ==> (#[trigger] k1s@[k]).0 < c1.0,
                    forall|k: int| 0 <= k < n ==> (#[trigger] k2s@[k]).0 < cb.len(),
                    i <= n,
                decreases n - i,
            {
                if !const_deep_eq(ca, k1s[i], cb, k2s[i]) {
                    return false;
                }
                i += 1;
            }
            let m = v1s.len();
            let mut i2: usize = 0;
            while i2 < m
                invariant
                    ca.wf(),
                    cb.wf(),
                    c1.0 < ca.len(),
                    c2.0 < cb.len(),
                    m == v1s@.len(),
                    m == v2s@.len(),
                    forall|k: int| 0 <= k < m ==> (#[trigger] v1s@[k]).0 < c1.0,
                    forall|k: int| 0 <= k < m ==> (#[trigger] v2s@[k]).0 < cb.len(),
                    i2 <= m,
                decreases m - i2,
            {
                if !const_deep_eq(ca, v1s[i2], cb, v2s[i2]) {
                    return false;
                }
                i2 += 1;
            }
            true
        },
        (ConstKind::Binary(x), ConstKind::Binary(y)) => crate::constant::byte_vec_eq(x, y),
        _ => false,
    }
}

/// The pairing state of one isomorphism check.
struct IsoState {
    /// Value of the first function -> its mate in the second.
    v12: Vec<Option<Value>>,
    /// Value of the second function -> its mate in the first.
    v21: Vec<Option<Value>>,
    /// Block pairs whose bodies still await comparison.
    queue: Vec<(usize, usize)>,
    /// Blocks of the first function already paired.
    bdone: Vec<Option<Block>>,
}

spec fn iso_ok(st: IsoState, f1: Function, f2: Function) -> bool {
    &&& st.v12@.len() == f1.n_values()
    &&& st.v21@.len() == f2.n_values()
    &&& st.bdone@.len() == f1.n_blocks()
    &&& forall|i: int|
        0 <= i < st.v12@.len() ==> match #[trigger] st.v12@[i] {
            Some(w) => w.0 < f2.n_values(),
            None => true,
        }
    &&& forall|i: int|
        0 <= i < st.v21@.len() ==> match #[trigger] st.v21@[i] {
            Some(w) => w.0 < f1.n_values(),
            None => true,
        }
    &&& forall|i: int|
        0 <= i < st.bdone@.len() ==> match #[trigger] st.bdone@[i] {
            Some(b2) => b2.0 < f2.n_blocks(),
            None => true,
        }
    &&& forall|k: int|
        0 <= k < st.queue@.len() ==> (#[trigger] st.queue@[k]).0 < f1.n_blocks() && st.queue@[k].1
            < f2.n_blocks()
}

/// Try to pair two blocks; blocks already paired must be paired with each
/// other.
fn pair_blocks(st: &mut IsoState, f1: &Function, f2: &Function, b1: Block, b2: Block) -> (r: bool)
    requires
        f1.wf(),
        f2.wf(),
        iso_ok(*old(st), *f1, *f2),
        b1.0 < f1.n_blocks(),
        b2.0 < f2.n_blocks(),
    ensures
        iso_ok(*final(st), *f1, *f2),
        final(st).queue@.len() <= old(st).queue@.len() + 1,
        final(st).v12@ == old(st).v12@,
        final(st).v21@ == old(st).v21@,
        final(st).bdone@.len() == old(st).bdone@.len(),
        forall|i: int|
            0 <= i < old(st).bdone@.len() && (#[trigger] old(st).bdone@[i]) is Some
                ==> final(st).bdone@[i] == old(st).bdone@[i],
        r ==> final(st).bdone@[b1.0 as int] == Some(b2),
{
    match st.bdone[b1.0] {
        Some(mate) => mate.0 == b2.0,
        None => {
            st.bdone[b1.0] = Some(b2);
            st.queue.push((b1.0, b2.0));
            true
        },
    }
}

/// Try to pair two values, descending through primop operands. A value
/// already paired must be paired with the same mate.
fn pair_values(st: &mut IsoState, f1: &Function, f2: &Function, v1: Value, v2: Value) -> (r: bool)
    requires
        f1.wf(),
        f2.wf(),
        iso_ok(*old(st), *f1, *f2),
        v1.0 < f1.n_values(),
        v2.0 < f2.n_values(),
    ensures
        iso_ok(*final(st), *f1, *f2),
        final(st).bdone@.len() == old(st).bdone@.len(),
        forall|i: int|
            0 <= i < old(st).bdone@.len() && (#[trigger] old(st).bdone@[i]) is Some
                ==> final(st).bdone@[i] == old(st).bdone@[i],
    decreases v1.0,
{
    match st.v12[v1.0] {
        Some(mate) => {
            return mate.0 == v2.0;
        },
        None => {},
    }
    match st.v21[v2.0] {
        Some(_) => {
            return false;
        },
        None => {},
    }
    st.v12[v1.0] = Some(v2);
    st.v21[v2.0] = Some(v1);
    match (f1.values[v1.0].kind, f2.values[v2.0].kind) {
        (ValueKind::Block(b1), ValueKind::Block(b2)) => {
            proof {
                assert(f1.value_kind_ok(v1.0 as int, f1.values@[v1.0 as int].kind));
                assert(f2.value_kind_ok(v2.0 as int, f2.values@[v2.0 as int].kind));
            }
            pair_blocks(st, f1, f2, b1, b2)
        },
        (ValueKind::Argument(b1, n1), ValueKind::Argument(b2, n2)) => {
            proof {
                assert(f1.value_kind_ok(v1.0 as int, f1.values@[v1.0 as int].kind));
                assert(f2.value_kind_ok(v2.0 as int, f2.values@[v2.0 as int].kind));
            }
            n1 == n2 && pair_blocks(st, f1, f2, b1, b2)
        },
        (ValueKind::Const(c1), ValueKind::Const(c2)) => {
            proof {
                assert(f1.value_kind_ok(v1.0 as int, f1.values@[v1.0 as int].kind));
                assert(f2.value_kind_ok(v2.0 as int, f2.values@[v2.0 as int].kind));
            }
            const_deep_eq(&f1.constant_container, c1, &f2.constant_container, c2)
        },
        (ValueKind::PrimOp(p1), ValueKind::PrimOp(p2)) => {
            proof {
                assert(f1.value_kind_ok(v1.0 as int, f1.values@[v1.0 as int].kind));
                assert(f2.value_kind_ok(v2.0 as int, f2.values@[v2.0 as int].kind));
            }
            if !(f1.primops[p1.0].op == f2.primops[p2.0].op) {
                return false;
            }
            let n1r = f1.primops[p1.0].reads.len();
            let n2r = f2.primops[p2.0].reads.len();
            if n1r != n2r {
                return false;
            }
            let mut j: usize = 0;
            while j < n1r
                invariant
                    f1.wf(),
                    f2.wf(),
                    iso_ok(*st, *f1, *f2),
                    v1.0 < f1.n_values(),
                    p1.0 < f1.n_primops(),
                    p2.0 < f2.n_primops(),
                    f1.values@[v1.0 as int].kind == ValueKind::PrimOp(p1),
                    n1r == f1.primops@[p1.0 as int].reads@.len(),
                    n1r == f2.primops@[p2.0 as int].reads@.len(),
                    forall|k: int|
                        0 <= k < n1r ==> (#[trigger] f1.primops@[p1.0 as int].reads@[k]).0 < v1.0,
                    forall|k: int|
                        0 <= k < n1r ==> (#[trigger] f2.primops@[p2.0 as int].reads@[k]).0
                            < f2.n_values(),
                    j <= n1r,
                    st.bdone@.len() == old(st).bdone@.len(),
                    forall|i: int|
                        0 <= i < old(st).bdone@.len() && (#[trigger] old(st).bdone@[i]) is Some
                            ==> st.bdone@[i] == old(st).bdone@[i],
                decreases n1r - j,
            {
                let r1 = f1.primops[p1.0].reads[j];
                let r2 = f2.primops[p2.0].reads[j];
                proof {
                    assert(r1.0 < v1.0);
                    assert(f1.primops_canonical());
                }
                if !pair_values(st, f1, f2, r1, r2) {
                    return false;
                }
                j += 1;
            }
            true
        },
        _ => false,
    }
}

/// Whether two functions are isomorphic: equal up to the renumbering of
/// their arena handles, with matching terminators, operand structure,
/// constants and location spans, starting from their entry blocks.
///
/// This checker is itself the definition of isomorphism the round-trip
/// tests use; it carries no contract relating it to a separate
/// specification.
pub fn fn_isomorphic(f1: &Function, f2: &Function) -> (r: bool)
    requires
        f1.wf(),
        f2.wf(),
        f1.entry_block is Some,
        f2.entry_block is Some,
{
    let n1 = f1.blocks.len();
    let n2 = f2.blocks.len();
    let mut st = IsoState {
        v12: Vec::new(),
        v21: Vec::new(),
        queue: Vec::new(),
        bdone: Vec::new(),
    };
    let mut i: usize = 0;
    let nv1 = f1.values.len();
    while i < nv1
        invariant
            i <= nv1,
            st.v12@.len() == i,
            st.v21@.len() == 0,
            st.queue@.len() == 0,
            st.bdone@.len() == 0,
            forall|k: int| 0 <= k < i ==> (#[trigger] st.v12@[k]) is None,
        decreases nv1 - i,
    {
        st.v12.push(None);
        i += 1;
    }
    let nv2 = f2.values.len();
    let mut i2: usize = 0;
    while i2 < nv2
        invariant
            i2 <= nv2,
            st.v12@.len() == nv1,
            st.v21@.len() == i2,
            st.queue@.len() == 0,
            st.bdone@.len() == 0,
            forall|k: int| 0 <= k < nv1 ==> (#[trigger] st.v12@[k]) is None,
            forall|k: int| 0 <= k < i2 ==> (#[trigger] st.v21@[k]) is None,
        decreases nv2 - i2,
    {
        st.v21.push(None);
        i2 += 1;
    }
    let mut i3: usize = 0;
    while i3 < n1
        invariant
            i3 <= n1,
            st.v12@.len() == nv1,
            st.v21@.len() == nv2,
            st.queue@.len() == 0,
            st.bdone@.len() == i3,
            forall|k: int| 0 <= k < nv1 ==> (#[trigger] st.v12@[k]) is None,
            forall|k: int| 0 <= k < nv2 ==> (#[trigger] st.v21@[k]) is None,
            forall|k: int| 0 <= k < i3 ==> (#[trigger] st.bdone@[k]) is None,
        decreases n1 - i3,
    {
        st.bdone.push(None);
        i3 += 1;
    }
    let e1 = f1.block_entry();
    let e2 = f2.block_entry();
    if !pair_blocks(&mut st, f1, f2, e1, e2) {
        return false;
    }
    let mut processed: usize = 0;
    while st.queue.len() > 0
        invariant
            f1.wf(),
            f2.wf(),
            iso_ok(st, *f1, *f2),
            processed <= n1,
            n1 == f1.n_blocks(),
        decreases n1 + 1 - processed,
    {
        let (b1i, b2i) = st.queue.pop().unwrap();
        if processed >= n1 {
            // More pairs than blocks exist cannot arise; bail out to stay
            // within bounds.
            return false;
        }
        processed += 1;
        let b1 = Block(b1i);
        let b2 = Block(b2i);
        // Argument lists pair index-wise.
        let na1 = f1.blocks[b1i].arguments.len();
        let na2 = f2.blocks[b2i].arguments.len();
        if na1 != na2 {
            return false;
        }
        let mut a: usize = 0;
        while a < na1
            invariant
                f1.wf(),
                f2.wf(),
                iso_ok(st, *f1, *f2),
                b1i < f1.n_blocks(),
                b2i < f2.n_blocks(),
                na1 == f1.block_data(Block(b1i)).arguments@.len(),
                na1 == f2.block_data(Block(b2i)).arguments@.len(),
                a <= na1,
            decreases na1 - a,
        {
            proof {
                assert(f1.block_entry_ok(b1i as int, f1.blocks@[b1i as int]));
                assert(f2.block_entry_ok(b2i as int, f2.blocks@[b2i as int]));
            }
            let a1 = f1.blocks[b1i].arguments[a];
            let a2 = f2.blocks[b2i].arguments[a];
            if !pair_values(&mut st, f1, f2, a1, a2) {
                return false;
            }
            a += 1;
        }
        // Terminators must agree in kind, operand structure and location
        // spans.
        match (&f1.blocks[b1i].op, &f2.blocks[b2i].op) {
            (None, None) => {},
            (Some(o1), Some(o2)) => {
                if !op_kind_eq_exec(o1, o2) {
                    return false;
                }
                let nr1 = f1.blocks[b1i].reads.len();
                let nr2 = f2.blocks[b2i].reads.len();
                if nr1 != nr2 {
                    return false;
                }
                let mut jr: usize = 0;
                while jr < nr1
                    invariant
                        f1.wf(),
                        f2.wf(),
                        iso_ok(st, *f1, *f2),
                        b1i < f1.n_blocks(),
                        b2i < f2.n_blocks(),
                        nr1 == f1.block_data(Block(b1i)).reads@.len(),
                        nr1 == f2.block_data(Block(b2i)).reads@.len(),
                        jr <= nr1,
                    decreases nr1 - jr,
                {
                    proof {
                        assert(f1.block_entry_ok(b1i as int, f1.blocks@[b1i as int]));
                        assert(f2.block_entry_ok(b2i as int, f2.blocks@[b2i as int]));
                    }
                    let r1 = f1.blocks[b1i].reads[jr];
                    let r2 = f2.blocks[b2i].reads[jr];
                    if !pair_values(&mut st, f1, f2, r1, r2) {
                        return false;
                    }
                    jr += 1;
                }
            },
            _ => {
                return false;
            },
        }
        let l1 = f1.block_locations(b1);
        let l2 = f2.block_locations(b2);
        if !span_vec_eq(&l1, &l2) {
            return false;
        }
    }
    true
}

/// Element-wise comparison of two span lists.
fn span_vec_eq(a: &Vec<crate::ident::SourceSpan>, b: &Vec<crate::ident::SourceSpan>) -> (r: bool)
    ensures
        r == (a@ == b@),
{
    if a.len() != b.len() {
        proof {
            assert(a@.len() != b@.len());
        }
        return false;
    }
    let n = a.len();
    let mut i: usize = 0;
    while i < n
        invariant
            n == a@.len(),
            n == b@.len(),
            i <= n,
            forall|j: int| 0 <= j < i ==> a@[j] == b@[j],
        decreases n - i,
    {
        if !(a[i] == b[i]) {
            return false;
        }
        i += 1;
    }
    proof {
        assert(a@ =~= b@);
    }
    true
}

} // verus!
