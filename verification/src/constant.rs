//! De-duplicated constant terms.
//!
//! Constants form trees: a tuple constant holds handles to its element
//! constants. The container interns every term, so structurally equal
//! constants always share one handle, and a child handle is always smaller
//! than its parent's.

use vstd::prelude::*;

use crate::entity::Const;

verus! {

/// One constant term. Children are handles into the same container.
#[derive(Clone, Debug)]
pub enum ConstKind {
    Atom(String),
    Integer(i64),
    Nil,
    Tuple(Vec<Const>),
    ListCell(Const, Const),
    Mapping(Vec<Const>, Vec<Const>),
    Binary(Vec<u8>),
}

/// Structural equality of two terms whose children are already canonical
/// handles of one container.
pub open spec fn const_kind_eq(a: ConstKind, b: ConstKind) -> bool {
    match (a, b) {
        (ConstKind::Atom(x), ConstKind::Atom(y)) => x@ == y@,
        (ConstKind::Integer(x), ConstKind::Integer(y)) => x == y,
        (ConstKind::Nil, ConstKind::Nil) => true,
        (ConstKind::Tuple(x), ConstKind::Tuple(y)) => x@ == y@,
        (ConstKind::ListCell(xh, xt), ConstKind::ListCell(yh, yt)) => xh == yh && xt == yt,
        (ConstKind::Mapping(xk, xv), ConstKind::Mapping(yk, yv)) => xk@ == yk@ && xv@ == yv@,
        (ConstKind::Binary(x), ConstKind::Binary(y)) => x@ == y@,
        _ => false,
    }
}

pub proof fn lemma_const_kind_eq_sym(a: ConstKind, b: ConstKind)
    ensures
        const_kind_eq(a, b) == const_kind_eq(b, a),
{
}

/// Every child handle a term mentions is below `bound`.
pub open spec fn const_kind_bounded(k: ConstKind, bound: int) -> bool {
    match k {
        ConstKind::Atom(_) => true,
        ConstKind::Integer(_) => true,
        ConstKind::Nil => true,
        ConstKind::Tuple(elems) => forall|i: int|
            0 <= i < elems@.len() ==> (#[trigger] elems@[i]).0 < bound,
        ConstKind::ListCell(h, t) => h.0 < bound && t.0 < bound,
        ConstKind::Mapping(keys, vals) => (forall|i: int|
            0 <= i < keys@.len() ==> (#[trigger] keys@[i]).0 < bound) && (forall|i: int|
            0 <= i < vals@.len() ==> (#[trigger] vals@[i]).0 < bound),
        ConstKind::Binary(_) => true,
    }
}

/// The arena of interned constant terms of one function.
pub struct ConstantContainer {
    pub consts: Vec<ConstKind>,
}

impl ConstantContainer {
    pub open spec fn terms(self) -> Seq<ConstKind> {
        self.consts@
    }

    pub open spec fn len(self) -> int {
        self.consts@.len() as int
    }

    pub open spec fn is_valid(self, c: Const) -> bool {
        c.0 < self.len()
    }

    /// Well-formed: children precede parents, and no two distinct handles
    /// hold structurally equal terms.
    pub open spec fn wf(self) -> bool {
        &&& forall|i: int|
            0 <= i < self.len() ==> const_kind_bounded(#[trigger] self.terms()[i], i)
        &&& forall|i: int, j: int|
            0 <= i < self.len() && 0 <= j < self.len() && const_kind_eq(
                self.terms()[i],
                self.terms()[j],
            ) ==> i == j
    }

    pub fn new() -> (r: ConstantContainer)
        ensures
            r.wf(),
            r.len() == 0,
    {
        ConstantContainer { consts: Vec::new() }
    }

    pub fn const_kind(&self, c: Const) -> (r: &ConstKind)
        requires
            self.is_valid(c),
        ensures
            *r == self.terms()[c.0 as int],
    {
        &self.consts[c.0]
    }

    /// The container of `self` extends that of `other`: every existing
    /// term is unchanged.
    pub open spec fn extends_terms(self, other: ConstantContainer) -> bool {
        other.len() <= self.len() && forall|i: int|
            0 <= i < other.len() ==> #[trigger] self.terms()[i] == other.terms()[i]
    }

    /// Some handle already holds a term structurally equal to `k`.
    pub open spec fn has(self, k: ConstKind) -> bool {
        exists|i: int| 0 <= i < self.len() && const_kind_eq(self.terms()[i], k)
    }

    /// Intern a term: return the existing handle when an equal term is
    /// already present, else append. Either way the returned handle's term
    /// is structurally equal to `k`.
    pub fn intern(&mut self, k: ConstKind) -> (r: Const)
        requires
            old(self).wf(),
            const_kind_bounded(k, old(self).len()),
        ensures
            final(self).wf(),
            final(self).is_valid(r),
            const_kind_eq(final(self).terms()[r.0 as int], k),
            old(self).has(k) ==> *final(self) == *old(self),
            !old(self).has(k) ==> final(self).terms() == old(self).terms().push(k) && r.0
                == old(self).len(),
    {
        let n = self.consts.len();
        let mut i: usize = 0;
        while i < n
            invariant
                *self == *old(self),
                n == self.len(),
                self.wf(),
                i <= n,
                const_kind_bounded(k, n as int),
                forall|j: int| 0 <= j < i ==> !const_kind_eq(self.terms()[j], k),
            decreases n - i,
        {
            if const_kind_eq_exec(&self.consts[i], &k) {
                return Const(i);
            }
            i += 1;
        }
        self.consts.push(k);
        proof {
            let m = self.len();
            assert(self.terms() == old(self).terms().push(k));
            assert(self.terms()[m - 1] == k);
            assert forall|i2: int, j2: int|
                0 <= i2 < m && 0 <= j2 < m && const_kind_eq(
                    self.terms()[i2],
                    self.terms()[j2],
                ) implies i2 == j2 by {
                if i2 == m - 1 && j2 < m - 1 {
                    lemma_const_kind_eq_sym(self.terms()[i2], self.terms()[j2]);
                    assert(!const_kind_eq(self.terms()[j2], k));
                }
            }
        }
        Const(n)
    }
}

/// Executable structural comparison, matching `const_kind_eq`.
pub fn const_kind_eq_exec(a: &ConstKind, b: &ConstKind) -> (r: bool)
    ensures
        r == const_kind_eq(*a, *b),
{
    match (a, b) {
        (ConstKind::Atom(x), ConstKind::Atom(y)) => *x == *y,
        (ConstKind::Integer(x), ConstKind::Integer(y)) => *x == *y,
        (ConstKind::Nil, ConstKind::Nil) => true,
        (ConstKind::Tuple(x), ConstKind::Tuple(y)) => const_vec_eq(x, y),
        (ConstKind::ListCell(xh, xt), ConstKind::ListCell(yh, yt)) => xh.0 == yh.0 && xt.0
            == yt.0,
        (ConstKind::Mapping(xk, xv), ConstKind::Mapping(yk, yv)) => const_vec_eq(xk, yk) && const_vec_eq(
            xv,
            yv,
        ),
        (ConstKind::Binary(x), ConstKind::Binary(y)) => byte_vec_eq(x, y),
        _ => false,
    }
}

/// Element-wise comparison of two handle lists.
pub fn const_vec_eq(a: &Vec<Const>, b: &Vec<Const>) -> (r: bool)
    ensures
        r == (a@ == b@),
{
    if a.len() != b.len() {
        proof {
            assert(a@.len() != b@.len());
        }
        return false;
    }
    let n = a.len();
    let mut i: usize = 0;
    while i < n
        invariant
            n == a@.len(),
            n == b@.len(),
            i <= n,
            forall|j: int| 0 <= j < i ==> a@[j] == b@[j],
        decreases n - i,
    {
        if a[i].0 != b[i].0 {
            return false;
        }
        i += 1;
    }
    proof {
        assert(a@ =~= b@);
    }
    true
}

/// Element-wise comparison of two byte strings.
pub fn byte_vec_eq(a: &Vec<u8>, b: &Vec<u8>) -> (r: bool)
    ensures
        r == (a@ == b@),
{
    if a.len() != b.len() {
        proof {
            assert(a@.len() != b@.len());
        }
        return false;
    }
    let n = a.len();
    let mut i: usize = 0;
    while i < n
        invariant
            n == a@.len(),
            n == b@.len(),
            i <= n,
            forall|j: int| 0 <= j < i ==> a@[j] == b@[j],
        decreases n - i,
    {
        if a[i] != b[i] {
            return false;
        }
        i += 1;
    }
    proof {
        assert(a@ =~= b@);
    }
    true
}

/// Extension of constant containers is transitive.
pub proof fn lemma_extends_terms_trans(
    a: ConstantContainer,
    b: ConstantContainer,
    c: ConstantContainer,
)
    requires
        b.extends_terms(a),
        c.extends_terms(b),
    ensures
        c.extends_terms(a),
{
    assert forall|i: int| 0 <= i < a.len() implies #[trigger] c.terms()[i] == a.terms()[i] by {
        assert(b.terms()[i] == a.terms()[i]);
    }
}

} // verus!
