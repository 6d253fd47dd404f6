//! Predecessor/successor book-keeping sets, one pair per block.
//!
//! The sets are B-tree sets of `cranelift_bforest`, which pools all tree
//! nodes of one function in a single forest. Verus cannot look inside the
//! forest, so the whole table is one opaque struct, and what each set holds
//! is named by the uninterpreted functions `flow_preds` and `flow_succs`.
//! Every method is a trusted wrapper around one `cranelift_bforest::Set`
//! operation and states how it changes the named contents, including that
//! the sets of all other blocks stay as they were.

use vstd::prelude::*;

verus! {

/// The predecessor and successor sets of every block of one function.
#[verifier::external_body]
pub struct FlowSets {
    forest: cranelift_bforest::SetForest<u32>,
    preds: Vec<cranelift_bforest::Set<u32>>,
    succs: Vec<cranelift_bforest::Set<u32>>,
}

/// The block indices recorded as predecessors of block `b`.
pub uninterp spec fn flow_preds(g: FlowSets, b: int) -> Set<usize>;

/// The block indices recorded as successors of block `b`.
pub uninterp spec fn flow_succs(g: FlowSets, b: int) -> Set<usize>;

/// How many blocks the table covers.
pub uninterp spec fn flow_len(g: FlowSets) -> int;

impl FlowSets {
    /// Relies on `cranelift_bforest::SetForest::new` and `Vec::new`: an
    /// empty table covering no blocks.
    #[verifier::external_body]
    pub fn new() -> (r: FlowSets)
        ensures
            flow_len(r) == 0,
    {
        FlowSets {
            forest: cranelift_bforest::SetForest::new(),
            preds: Vec::new(),
            succs: Vec::new(),
        }
    }

    /// Relies on `cranelift_bforest::Set::new`: a fresh set is empty.
    /// Extends the table by one block with empty sets, leaving all existing
    /// sets as they were.
    #[verifier::external_body]
    pub fn push_block(&mut self)
        ensures
            flow_len(*final(self)) == flow_len(*old(self)) + 1,
            flow_preds(*final(self), flow_len(*old(self))) == Set::<usize>::empty(),
            flow_succs(*final(self), flow_len(*old(self))) == Set::<usize>::empty(),
            forall|b: int|
                0 <= b < flow_len(*old(self)) ==> #[trigger] flow_preds(*final(self), b)
                    == flow_preds(*old(self), b),
            forall|b: int|
                0 <= b < flow_len(*old(self)) ==> #[trigger] flow_succs(*final(self), b)
                    == flow_succs(*old(self), b),
    {
        self.preds.push(cranelift_bforest::Set::new());
        self.succs.push(cranelift_bforest::Set::new());
    }

    /// Relies on `cranelift_bforest::Set::insert`: inserting adds exactly
    /// the given key to the one set; other sets share the forest but their
    /// nodes are untouched.
    #[verifier::external_body]
    pub fn add_succ(&mut self, b: usize, s: usize)
        requires
            0 <= b < flow_len(*old(self)),
            0 <= s < flow_len(*old(self)),
            flow_len(*old(self)) <= 0xffff_ffff,
        ensures
            flow_len(*final(self)) == flow_len(*old(self)),
            flow_succs(*final(self), b as int) == flow_succs(*old(self), b as int).insert(s),
            forall|b2: int|
                0 <= b2 < flow_len(*old(self)) && b2 != b ==> #[trigger] flow_succs(
                    *final(self),
                    b2,
                ) == flow_succs(*old(self), b2),
            forall|b2: int|
                0 <= b2 < flow_len(*old(self)) ==> #[trigger] flow_preds(*final(self), b2)
                    == flow_preds(*old(self), b2),
    {
        self.succs[b].insert(s as u32, &mut self.forest, &());
    }

    /// Relies on `cranelift_bforest::Set::insert`, as `add_succ` does, for
    /// the predecessor side.
    #[verifier::external_body]
    pub fn add_pred(&mut self, b: usize, p: usize)
        requires
            0 <= b < flow_len(*old(self)),
            0 <= p < flow_len(*old(self)),
            flow_len(*old(self)) <= 0xffff_ffff,
        ensures
            flow_len(*final(self)) == flow_len(*old(self)),
            flow_preds(*final(self), b as int) == flow_preds(*old(self), b as int).insert(p),
            forall|b2: int|
                0 <= b2 < flow_len(*old(self)) && b2 != b ==> #[trigger] flow_preds(
                    *final(self),
                    b2,
                ) == flow_preds(*old(self), b2),
            forall|b2: int|
                0 <= b2 < flow_len(*old(self)) ==> #[trigger] flow_succs(*final(self), b2)
                    == flow_succs(*old(self), b2),
    {
        self.preds[b].insert(p as u32, &mut self.forest, &());
    }

    /// Relies on `cranelift_bforest::Set::remove`: removing takes exactly
    /// the given key out of the one set.
    #[verifier::external_body]
    pub fn remove_pred(&mut self, b: usize, p: usize)
        requires
            0 <= b < flow_len(*old(self)),
            p < 0x1_0000_0000,
        ensures
            flow_len(*final(self)) == flow_len(*old(self)),
            flow_preds(*final(self), b as int) == flow_preds(*old(self), b as int).remove(p),
            forall|b2: int|
                0 <= b2 < flow_len(*old(self)) && b2 != b ==> #[trigger] flow_preds(
                    *final(self),
                    b2,
                ) == flow_preds(*old(self), b2),
            forall|b2: int|
                0 <= b2 < flow_len(*old(self)) ==> #[trigger] flow_succs(*final(self), b2)
                    == flow_succs(*old(self), b2),
    {
        self.preds[b].remove(p as u32, &mut self.forest, &());
    }

    /// Relies on `cranelift_bforest::Set::clear`: the one set becomes
    /// empty and its tree nodes return to the forest's free list.
    #[verifier::external_body]
    pub fn clear_succs(&mut self, b: usize)
        requires
            0 <= b < flow_len(*old(self)),
        ensures
            flow_len(*final(self)) == flow_len(*old(self)),
            flow_succs(*final(self), b as int) == Set::<usize>::empty(),
            forall|b2: int|
                0 <= b2 < flow_len(*old(self)) && b2 != b ==> #[trigger] flow_succs(
                    *final(self),
                    b2,
                ) == flow_succs(*old(self), b2),
            forall|b2: int|
                0 <= b2 < flow_len(*old(self)) ==> #[trigger] flow_preds(*final(self), b2)
                    == flow_preds(*old(self), b2),
    {
        let set = &mut self.succs[b];
        set.clear(&mut self.forest);
    }

    /// Relies on `cranelift_bforest::Set::contains`.
    #[verifier::external_body]
    pub fn has_succ(&self, b: usize, s: usize) -> (r: bool)
        requires
            0 <= b < flow_len(*self),
            flow_len(*self) <= 0xffff_ffff,
            s < 0x1_0000_0000,
        ensures
            r == flow_succs(*self, b as int).contains(s),
    {
        self.succs[b].contains(s as u32, &self.forest, &())
    }

    /// Relies on `cranelift_bforest::Set::contains`.
    #[verifier::external_body]
    pub fn has_pred(&self, b: usize, p: usize) -> (r: bool)
        requires
            0 <= b < flow_len(*self),
            flow_len(*self) <= 0xffff_ffff,
            p < 0x1_0000_0000,
        ensures
            r == flow_preds(*self, b as int).contains(p),
    {
        self.preds[b].contains(p as u32, &self.forest, &())
    }

    /// Relies on `cranelift_bforest::Set::iter`: an in-order B-tree walk
    /// yields every element exactly once, in strictly ascending order.
    #[verifier::external_body]
    pub fn succs_list(&self, b: usize) -> (r: Vec<usize>)
        requires
            0 <= b < flow_len(*self),
        ensures
            r@.to_set() == flow_succs(*self, b as int),
            forall|i: int, j: int| 0 <= i < j < r@.len() ==> r@[i] < r@[j],
    {
        self.succs[b].iter(&self.forest).map(|x| x as usize).collect()
    }

    /// Relies on `cranelift_bforest::Set::iter`, as `succs_list` does, for
    /// the predecessor side.
    #[verifier::external_body]
    pub fn preds_list(&self, b: usize) -> (r: Vec<usize>)
        requires
            0 <= b < flow_len(*self),
        ensures
            r@.to_set() == flow_preds(*self, b as int),
            forall|i: int, j: int| 0 <= i < j < r@.len() ==> r@[i] < r@[j],
    {
        self.preds[b].iter(&self.forest).map(|x| x as usize).collect()
    }
}

} // verus!
