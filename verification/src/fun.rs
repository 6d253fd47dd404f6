//! The function graph: blocks, values, primops, constants, locations and
//! the predecessor/successor book-keeping, with the structural invariant
//! that ties them together.

use vstd::prelude::*;

use crate::constant::{ConstKind, ConstantContainer};
use crate::entity::{Block, Const, Location, PrimOp, Value};
use crate::flow::{flow_len, flow_preds, flow_succs, FlowSets};
use crate::ident::{Dialect, FunctionIdent, SourceSpan};
use crate::location::LocationContainer;
use crate::op::OpKind;
use crate::value::{PrimOpData, PrimOpKind, ValueData, ValueKind};

verus! {

/// Arena payload of one block.
pub struct BlockData {
    /// The formal arguments, in order; entry `n` has kind `Argument(b, n)`.
    pub arguments: Vec<Value>,
    /// The terminator, if one was installed.
    pub op: Option<OpKind>,
    /// The values the terminator consumes, in the layout its kind dictates.
    pub reads: Vec<Value>,
    pub location: Location,
    /// The value of kind `Block(b)` that denotes this block.
    pub value: Value,
}

/// A function: arenas of IR nodes plus an entry block.
pub struct Function {
    pub ident: FunctionIdent,
    pub span: SourceSpan,
    pub dialect: Dialect,
    pub entry_block: Option<Block>,
    pub blocks: Vec<BlockData>,
    pub values: Vec<ValueData>,
    pub primops: Vec<PrimOpData>,
    pub constant_container: ConstantContainer,
    /// Every value whose kind is `Const`, in creation order.
    pub constant_values: Vec<Value>,
    pub locations: LocationContainer,
    /// The predecessor/successor sets, kept exactly in step with the
    /// terminator reads.
    pub graph: FlowSets,
}

impl Function {
    pub open spec fn n_blocks(self) -> int {
        self.blocks@.len() as int
    }

    pub open spec fn n_values(self) -> int {
        self.values@.len() as int
    }

    pub open spec fn n_primops(self) -> int {
        self.primops@.len() as int
    }

    pub open spec fn valid_block(self, b: Block) -> bool {
        b.0 < self.n_blocks()
    }

    pub open spec fn valid_value(self, v: Value) -> bool {
        v.0 < self.n_values()
    }

    pub open spec fn valid_primop(self, p: PrimOp) -> bool {
        p.0 < self.n_primops()
    }

    pub open spec fn vkind(self, v: Value) -> ValueKind {
        self.values@[v.0 as int].kind
    }

    pub open spec fn block_data(self, b: Block) -> BlockData {
        self.blocks@[b.0 as int]
    }

    pub open spec fn primop_data(self, p: PrimOp) -> PrimOpData {
        self.primops@[p.0 as int]
    }

    /// The cached nested-value list of `v`: `v` itself followed by every
    /// value reachable through primop operands.
    pub open spec fn nested_cache(self, v: Value) -> Seq<Value> {
        self.values@[v.0 as int].nested@
    }

    /// Value kinds are in range, and a primop operand always has a smaller
    /// index than the value of the primop that reads it. The ordering makes
    /// the operand graph a DAG by construction.
    pub open spec fn values_ordered(self) -> bool {
        forall|i: int|
            0 <= i < self.n_values() ==> self.value_kind_ok(i, (#[trigger] self.values@[i]).kind)
    }

    pub open spec fn value_kind_ok(self, i: int, kind: ValueKind) -> bool {
        match kind {
            ValueKind::Block(b) => b.0 < self.n_blocks(),
            ValueKind::Argument(b, n) => b.0 < self.n_blocks() && n < self.blocks@[b.0 as int]
                .arguments@.len(),
            ValueKind::Const(c) => self.constant_container.is_valid(c),
            ValueKind::PrimOp(p) => p.0 < self.n_primops() && forall|j: int|
                0 <= j < self.primops@[p.0 as int].reads@.len() ==> (#[trigger] self.primops@[p.0
                    as int].reads@[j]).0 < i,
        }
    }

    /// `x` occurs in the operand tree rooted at `v` (including `v` itself).
    pub open spec fn is_nested(self, x: Value, v: Value) -> bool
        decreases v.0 when self.values_ordered() && v.0 < self.n_values()
    {
        x == v || match self.values@[v.0 as int].kind {
            ValueKind::PrimOp(p) => exists|j: int|
                0 <= j < self.primops@[p.0 as int].reads@.len() && self.is_nested(
                    x,
                    #[trigger] self.primops@[p.0 as int].reads@[j],
                ),
            _ => false,
        }
    }

    /// Every value's cached nested list holds exactly its operand closure,
    /// with the value itself first.
    pub open spec fn nested_ok(self) -> bool {
        forall|i: int|
            0 <= i < self.n_values() ==> self.nested_entry_ok(i, #[trigger] self.values@[i])
    }

    pub open spec fn nested_entry_ok(self, i: int, d: ValueData) -> bool {
        &&& d.nested@.len() >= 1
        &&& d.nested@[0] == Value(i as usize)
        &&& forall|j: int|
            0 <= j < d.nested@.len() ==> (#[trigger] d.nested@[j]).0 < self.n_values()
                && self.is_nested(d.nested@[j], Value(i as usize))
        &&& forall|x: Value|
            #[trigger] self.is_nested(x, Value(i as usize)) ==> d.nested@.contains(x)
    }

    /// Value locations point into the location container.
    pub open spec fn value_locations_ok(self) -> bool {
        forall|i: int|
            0 <= i < self.n_values() ==> match (#[trigger] self.values@[i]).location {
                Some(l) => self.locations.is_valid(l),
                None => true,
            }
    }

    /// No two values share a kind: interning makes kinds canonical.
    pub open spec fn kinds_unique(self) -> bool {
        forall|i: int, j: int|
            0 <= i < self.n_values() && 0 <= j < self.n_values() && (#[trigger] self.values@[i]).kind
                == (#[trigger] self.values@[j]).kind ==> i == j
    }

    /// No two primops share kind and operands: primops are canonical.
    pub open spec fn primops_canonical(self) -> bool {
        &&& forall|p: int, j: int|
            0 <= p < self.n_primops() && 0 <= j < self.primops@[p].reads@.len()
                ==> (#[trigger] self.primops@[p].reads@[j]).0 < self.n_values()
        &&& forall|p: int, q: int|
            0 <= p < self.n_primops() && 0 <= q < self.n_primops()
                && (#[trigger] self.primops@[p]).op == (#[trigger] self.primops@[q]).op
                && self.primops@[p].reads@ == self.primops@[q].reads@ ==> p == q
    }

    /// Per-block structural facts: argument values carry the matching
    /// `Argument` kinds, reads are valid, a block without a terminator reads
    /// nothing, and the block's own value has kind `Block(b)`.
    pub open spec fn blocks_ok(self) -> bool {
        forall|b: int|
            0 <= b < self.n_blocks() ==> self.block_entry_ok(b, #[trigger] self.blocks@[b])
    }

    pub open spec fn block_entry_ok(self, b: int, d: BlockData) -> bool {
        &&& forall|i: int|
            0 <= i < d.arguments@.len() ==> (#[trigger] d.arguments@[i]).0 < self.n_values()
                && self.vkind(d.arguments@[i]) == ValueKind::Argument(Block(b as usize), i as usize)
        &&& forall|i: int|
            0 <= i < d.reads@.len() ==> (#[trigger] d.reads@[i]).0 < self.n_values()
        &&& d.op is None ==> d.reads@.len() == 0
        &&& self.locations.is_valid(d.location)
        &&& d.value.0 < self.n_values()
        &&& self.vkind(d.value) == ValueKind::Block(Block(b as usize))
    }

    /// Block `s` occurs as a `Block`-kind value in the operand closure of
    /// some terminator read of block `b`: the defining condition for the
    /// successor edge `b -> s`.
    pub open spec fn target_in_reads(self, b: int, s: usize) -> bool {
        exists|i: int, j: int|
            #![trigger self.nested_cache(self.blocks@[b].reads@[i])[j]]
            0 <= i < self.blocks@[b].reads@.len() && 0 <= j < self.nested_cache(
                self.blocks@[b].reads@[i],
            ).len() && self.vkind(self.nested_cache(self.blocks@[b].reads@[i])[j])
                == ValueKind::Block(Block(s))
    }

    /// The successor set dictated by the reads of block `b`.
    pub open spec fn succ_set(self, b: int) -> Set<usize> {
        Set::new(|s: usize| self.target_in_reads(b, s))
    }

    /// The predecessor set dictated by the reads of all blocks.
    pub open spec fn pred_set(self, b: int) -> Set<usize> {
        Set::new(|p: usize| p < self.n_blocks() && self.target_in_reads(p as int, b as usize))
    }

    /// The recorded sets equal the sets the reads dictate.
    pub open spec fn flow_ok(self) -> bool {
        &&& flow_len(self.graph) == self.n_blocks()
        &&& self.n_blocks() <= 0xffff_ffff
        &&& forall|b: int|
            0 <= b < self.n_blocks() ==> #[trigger] flow_succs(self.graph, b) == self.succ_set(b)
        &&& forall|b: int|
            0 <= b < self.n_blocks() ==> #[trigger] flow_preds(self.graph, b) == self.pred_set(b)
    }

    /// The list of `Const`-kind values is exactly the set of such values,
    /// without duplicates.
    pub open spec fn constant_values_ok(self) -> bool {
        &&& forall|i: int|
            0 <= i < self.constant_values@.len() ==> (#[trigger] self.constant_values@[i]).0
                < self.n_values() && (self.vkind(self.constant_values@[i]) is Const)
        &&& forall|v: int|
            0 <= v < self.n_values() && ((#[trigger] self.values@[v]).kind is Const)
                ==> self.constant_values@.contains(Value(v as usize))
        &&& forall|i: int, j: int|
            0 <= i < self.constant_values@.len() && 0 <= j < self.constant_values@.len()
                && (#[trigger] self.constant_values@[i]) == (#[trigger] self.constant_values@[j])
                ==> i == j
    }

    /// The structural invariant every builder operation preserves.
    pub open spec fn wf(self) -> bool {
        &&& self.values_ordered()
        &&& self.nested_ok()
        &&& self.value_locations_ok()
        &&& self.kinds_unique()
        &&& self.primops_canonical()
        &&& self.blocks_ok()
        &&& self.flow_ok()
        &&& self.constant_container.wf()
        &&& self.constant_values_ok()
        &&& self.locations.wf()
        &&& match self.entry_block {
            Some(e) => e.0 < self.n_blocks(),
            None => true,
        }
    }

    /// A fresh function: empty arenas and no entry block.
    pub fn new(span: SourceSpan, ident: FunctionIdent) -> (r: Function)
        ensures
            r.wf(),
            r.n_blocks() == 0,
            r.n_values() == 0,
            r.n_primops() == 0,
            r.entry_block is None,
            r.ident == ident,
            r.span == span,
            r.constant_container.len() == 0,
            r.constant_values@.len() == 0,
            r.locations.n_locations() == 0,
            r.locations.n_terminals() == 0,
    {
        Function {
            ident,
            span,
            dialect: Dialect::Normal,
            entry_block: None,
            blocks: Vec::new(),
            values: Vec::new(),
            primops: Vec::new(),
            constant_container: ConstantContainer::new(),
            constant_values: Vec::new(),
            locations: LocationContainer::new(),
            graph: FlowSets::new(),
        }
    }

    pub fn ident(&self) -> (r: &FunctionIdent)
        ensures
            *r == self.ident,
    {
        &self.ident
    }

    pub fn span(&self) -> (r: SourceSpan)
        ensures
            r == self.span,
    {
        self.span
    }

    pub fn dialect(&self) -> (r: Dialect)
        ensures
            r == self.dialect,
    {
        self.dialect
    }

    pub fn cons(&self) -> (r: &ConstantContainer)
        ensures
            *r == self.constant_container,
    {
        &self.constant_container
    }

    pub fn const_kind(&self, c: Const) -> (r: &ConstKind)
        requires
            self.constant_container.is_valid(c),
        ensures
            *r == self.constant_container.terms()[c.0 as int],
    {
        self.constant_container.const_kind(c)
    }

    /// The entry block; a function under construction may not have one yet.
    pub fn block_entry(&self) -> (r: Block)
        requires
            self.entry_block is Some,
        ensures
            Some(r) == self.entry_block,
    {
        self.entry_block.unwrap()
    }

    pub fn entry_arg_num(&self) -> (r: usize)
        requires
            self.wf(),
            self.entry_block is Some,
        ensures
            r == self.block_data(self.entry_block.unwrap()).arguments@.len(),
    {
        let e = self.block_entry();
        self.blocks[e.0].arguments.len()
    }

    pub fn value_kind(&self, v: Value) -> (r: ValueKind)
        requires
            self.valid_value(v),
        ensures
            r == self.vkind(v),
    {
        self.values[v.0].kind
    }

    /// The defining block and position, when the value is an argument.
    pub fn value_argument(&self, v: Value) -> (r: Option<(Block, usize)>)
        requires
            self.valid_value(v),
        ensures
            r == match self.vkind(v) {
                ValueKind::Argument(b, n) => Some((b, n)),
                _ => None::<(Block, usize)>,
            },
    {
        match self.values[v.0].kind {
            ValueKind::Argument(b, n) => Some((b, n)),
            _ => None,
        }
    }

    pub fn value_block(&self, v: Value) -> (r: Option<Block>)
        requires
            self.valid_value(v),
        ensures
            r == match self.vkind(v) {
                ValueKind::Block(b) => Some(b),
                _ => None::<Block>,
            },
    {
        match self.values[v.0].kind {
            ValueKind::Block(b) => Some(b),
            _ => None,
        }
    }

    pub fn value_const(&self, v: Value) -> (r: Option<Const>)
        requires
            self.valid_value(v),
        ensures
            r == match self.vkind(v) {
                ValueKind::Const(c) => Some(c),
                _ => None::<Const>,
            },
    {
        match self.values[v.0].kind {
            ValueKind::Const(c) => Some(c),
            _ => None,
        }
    }

    pub fn value_primop(&self, v: Value) -> (r: Option<PrimOp>)
        requires
            self.valid_value(v),
        ensures
            r == match self.vkind(v) {
                ValueKind::PrimOp(p) => Some(p),
                _ => None::<PrimOp>,
            },
    {
        match self.values[v.0].kind {
            ValueKind::PrimOp(p) => Some(p),
            _ => None,
        }
    }

    pub fn value_is_constant(&self, v: Value) -> (r: bool)
        requires
            self.valid_value(v),
        ensures
            r == (self.vkind(v) is Const),
    {
        match self.values[v.0].kind {
            ValueKind::Const(_) => true,
            _ => false,
        }
    }

    /// Every `Const`-kind value, in creation order.
    pub fn iter_constants(&self) -> (r: &Vec<Value>)
        ensures
            r@ == self.constant_values@,
    {
        &self.constant_values
    }

    /// The source spans of the value's location, when it has one.
    pub fn value_locations(&self, v: Value) -> (r: Option<Vec<SourceSpan>>)
        requires
            self.wf(),
            self.valid_value(v),
        ensures
            match self.values@[v.0 as int].location {
                Some(l) => r is Some && r.unwrap()@ == self.locations.spans_of(l),
                None => r is None,
            },
    {
        match self.values[v.0].location {
            Some(l) => Some(self.locations.lookup(l)),
            None => None,
        }
    }

    /// How many values `v` stands for when used as an argument bundle: the
    /// operand count of a `ValueList` primop, one for anything else.
    pub open spec fn spec_value_list_length(self, v: Value) -> int {
        match self.vkind(v) {
            ValueKind::PrimOp(p) => if self.primop_data(p).op == PrimOpKind::ValueList {
                self.primop_data(p).reads@.len() as int
            } else {
                1
            },
            _ => 1,
        }
    }

    pub fn value_list_length(&self, v: Value) -> (r: usize)
        requires
            self.wf(),
            self.valid_value(v),
        ensures
            r == self.spec_value_list_length(v),
    {
        match self.values[v.0].kind {
            ValueKind::PrimOp(p) => {
                if matches!(self.primops[p.0].op, PrimOpKind::ValueList) {
                    self.primops[p.0].reads.len()
                } else {
                    1
                }
            },
            _ => 1,
        }
    }

    /// The n-th element of the bundle `v` stands for: the n-th operand of a
    /// `ValueList` primop, or `v` itself at position zero otherwise.
    pub open spec fn spec_value_list_get_n(self, v: Value, n: int) -> Option<Value> {
        match self.vkind(v) {
            ValueKind::PrimOp(p) => if self.primop_data(p).op == PrimOpKind::ValueList {
                if 0 <= n < self.primop_data(p).reads@.len() {
                    Some(self.primop_data(p).reads@[n])
                } else {
                    None
                }
            } else {
                if n == 0 {
                    Some(v)
                } else {
                    None
                }
            },
            _ => if n == 0 {
                Some(v)
            } else {
                None
            },
        }
    }

    pub fn value_list_get_n(&self, v: Value, n: usize) -> (r: Option<Value>)
        requires
            self.wf(),
            self.valid_value(v),
        ensures
            r == self.spec_value_list_get_n(v, n as int),
    {
        match self.values[v.0].kind {
            ValueKind::PrimOp(p) => {
                if matches!(self.primops[p.0].op, PrimOpKind::ValueList) {
                    if n < self.primops[p.0].reads.len() {
                        return Some(self.primops[p.0].reads[n]);
                    } else {
                        return None;
                    }
                }
            },
            _ => {},
        }
        if n == 0 {
            Some(v)
        } else {
            None
        }
    }

    pub fn primop_kind(&self, p: PrimOp) -> (r: PrimOpKind)
        requires
            self.valid_primop(p),
        ensures
            r == self.primop_data(p).op,
    {
        self.primops[p.0].op
    }

    pub fn primop_reads(&self, p: PrimOp) -> (r: &Vec<Value>)
        requires
            self.valid_primop(p),
        ensures
            r@ == self.primop_data(p).reads@,
    {
        &self.primops[p.0].reads
    }

    /// The value itself and every value nested below it through primop
    /// operands, in visiting order. The contract fixes the head element
    /// and the membership of the list; the visiting order past the head
    /// is not part of the contract.
    pub fn value_walk_nested_values(&self, v: Value) -> (r: &Vec<Value>)
        requires
            self.wf(),
            self.valid_value(v),
        ensures
            r@ == self.nested_cache(v),
            forall|x: Value| r@.contains(x) <==> self.is_nested(x, v),
    {
        proof {
            assert(self.nested_entry_ok(v.0 as int, self.values@[v.0 as int]));
        }
        &self.values[v.0].nested
    }

    pub fn block_arg_n(&self, b: Block, n: usize) -> (r: Option<Value>)
        requires
            self.wf(),
            self.valid_block(b),
        ensures
            r == if n < self.block_data(b).arguments@.len() {
                Some(self.block_data(b).arguments@[n as int])
            } else {
                None::<Value>
            },
    {
        if n < self.blocks[b.0].arguments.len() {
            Some(self.blocks[b.0].arguments[n])
        } else {
            None
        }
    }

    pub fn block_kind(&self, b: Block) -> (r: &Option<OpKind>)
        requires
            self.valid_block(b),
        ensures
            *r == self.block_data(b).op,
    {
        &self.blocks[b.0].op
    }

    pub fn block_location(&self, b: Block) -> (r: Location)
        requires
            self.valid_block(b),
        ensures
            r == self.block_data(b).location,
    {
        self.blocks[b.0].location
    }

    pub fn block_locations(&self, b: Block) -> (r: Vec<SourceSpan>)
        requires
            self.wf(),
            self.valid_block(b),
        ensures
            r@ == self.locations.spans_of(self.block_data(b).location),
    {
        self.locations.lookup(self.blocks[b.0].location)
    }

    pub fn block_args(&self, b: Block) -> (r: &Vec<Value>)
        requires
            self.valid_block(b),
        ensures
            r@ == self.block_data(b).arguments@,
    {
        &self.blocks[b.0].arguments
    }

    pub fn block_reads(&self, b: Block) -> (r: &Vec<Value>)
        requires
            self.valid_block(b),
        ensures
            r@ == self.block_data(b).reads@,
    {
        &self.blocks[b.0].reads
    }

    /// The value that denotes `b` as a continuation.
    pub fn block_value(&self, b: Block) -> (r: Value)
        requires
            self.wf(),
            self.valid_block(b),
        ensures
            self.valid_value(r),
            self.vkind(r) == ValueKind::Block(b),
    {
        proof {
            assert(self.block_entry_ok(b.0 as int, self.blocks@[b.0 as int]));
        }
        self.blocks[b.0].value
    }

    /// Every value nested below the operands of a primop, in visiting
    /// order.
    pub fn primop_walk_nested_values(&self, p: PrimOp) -> (r: Vec<Value>)
        requires
            self.wf(),
            self.valid_primop(p),
        ensures
            forall|i: int| 0 <= i < r@.len() ==> self.valid_value(#[trigger] r@[i]),
            forall|i: int, x: Value|
                0 <= i < self.primop_data(p).reads@.len() && #[trigger] self.is_nested(
                    x,
                    self.primop_data(p).reads@[i],
                ) ==> r@.contains(x),
    {
        let nr = self.primops[p.0].reads.len();
        let mut out: Vec<Value> = Vec::new();
        let mut i: usize = 0;
        while i < nr
            invariant
                self.wf(),
                self.valid_primop(p),
                nr == self.primop_data(p).reads@.len(),
                i <= nr,
                forall|k: int| 0 <= k < out@.len() ==> self.valid_value(#[trigger] out@[k]),
                forall|i2: int, x: Value|
                    0 <= i2 < i && #[trigger] self.is_nested(x, self.primop_data(p).reads@[i2])
                        ==> out@.contains(x),
            decreases nr - i,
        {
            proof {
                assert(self.primops_canonical());
            }
            let rv = self.primops[p.0].reads[i];
            proof {
                assert(self.nested_entry_ok(rv.0 as int, self.values@[rv.0 as int]));
            }
            let ghost out0 = out@;
            let m = self.values[rv.0].nested.len();
            let mut j: usize = 0;
            while j < m
                invariant
                    self.wf(),
                    rv.0 < self.n_values(),
                    m == self.nested_cache(rv).len(),
                    j <= m,
                    out0.len() <= out@.len(),
                    forall|k: int| 0 <= k < out0.len() ==> out@[k] == out0[k],
                    forall|k: int| 0 <= k < out@.len() ==> self.valid_value(#[trigger] out@[k]),
                    forall|j2: int| 0 <= j2 < j ==> out@.contains(#[trigger] self.nested_cache(rv)[j2]),
                decreases m - j,
            {
                let x = self.values[rv.0].nested[j];
                proof {
                    assert(self.nested_entry_ok(rv.0 as int, self.values@[rv.0 as int]));
                }
                let ghost prev = out@;
                out.push(x);
                proof {
                    assert forall|j2: int|
                        0 <= j2 < j + 1 implies out@.contains(
                        #[trigger] self.nested_cache(rv)[j2],
                    ) by {
                        if j2 < j {
                            let k = choose|k: int|
                                0 <= k < prev.len() && prev[k] == self.nested_cache(rv)[j2];
                            assert(out@[k] == self.nested_cache(rv)[j2]);
                        } else {
                            assert(out@[out@.len() - 1] == x);
                        }
                    }
                }
                j += 1;
            }
            proof {
                assert forall|i2: int, x: Value|
                    0 <= i2 < i + 1 && #[trigger] self.is_nested(
                        x,
                        self.primop_data(p).reads@[i2],
                    ) implies out@.contains(x) by {
                    if i2 < i {
                        let k = choose|k: int| 0 <= k < out0.len() && out0[k] == x;
                        assert(out@[k] == x);
                    } else {
                        assert(self.nested_entry_ok(rv.0 as int, self.values@[rv.0 as int]));
                        assert(self.values@[rv.0 as int].nested@.contains(x));
                        let j2 = choose|j2: int|
                            0 <= j2 < self.nested_cache(rv).len() && self.nested_cache(rv)[j2]
                                == x;
                        assert(out@.contains(self.nested_cache(rv)[j2]));
                    }
                }
            }
            i += 1;
        }
        out
    }

    /// Every value nested below the terminator reads of a block, in
    /// visiting order.
    pub fn block_walk_nested_values(&self, b: Block) -> (r: Vec<Value>)
        requires
            self.wf(),
            self.valid_block(b),
        ensures
            forall|i: int| 0 <= i < r@.len() ==> self.valid_value(#[trigger] r@[i]),
            forall|i: int, x: Value|
                0 <= i < self.block_data(b).reads@.len() && #[trigger] self.is_nested(
                    x,
                    self.block_data(b).reads@[i],
                ) ==> r@.contains(x),
    {
        let nr = self.blocks[b.0].reads.len();
        let mut out: Vec<Value> = Vec::new();
        let mut i: usize = 0;
        while i < nr
            invariant
                self.wf(),
                self.valid_block(b),
                nr == self.block_data(b).reads@.len(),
                i <= nr,
                forall|k: int| 0 <= k < out@.len() ==> self.valid_value(#[trigger] out@[k]),
                forall|i2: int, x: Value|
                    0 <= i2 < i && #[trigger] self.is_nested(x, self.block_data(b).reads@[i2])
                        ==> out@.contains(x),
            decreases nr - i,
        {
            proof {
                assert(self.block_entry_ok(b.0 as int, self.blocks@[b.0 as int]));
            }
            let rv = self.blocks[b.0].reads[i];
            proof {
                assert(self.nested_entry_ok(rv.0 as int, self.values@[rv.0 as int]));
            }
            let ghost out0 = out@;
            let m = self.values[rv.0].nested.len();
            let mut j: usize = 0;
            while j < m
                invariant
                    self.wf(),
                    rv.0 < self.n_values(),
                    m == self.nested_cache(rv).len(),
                    j <= m,
                    out0.len() <= out@.len(),
                    forall|k: int| 0 <= k < out0.len() ==> out@[k] == out0[k],
                    forall|k: int| 0 <= k < out@.len() ==> self.valid_value(#[trigger] out@[k]),
                    forall|j2: int| 0 <= j2 < j ==> out@.contains(#[trigger] self.nested_cache(rv)[j2]),
                decreases m - j,
            {
                let x = self.values[rv.0].nested[j];
                proof {
                    assert(self.nested_entry_ok(rv.0 as int, self.values@[rv.0 as int]));
                }
                let ghost prev = out@;
                out.push(x);
                proof {
                    assert forall|j2: int|
                        0 <= j2 < j + 1 implies out@.contains(
                        #[trigger] self.nested_cache(rv)[j2],
                    ) by {
                        if j2 < j {
                            let k = choose|k: int|
                                0 <= k < prev.len() && prev[k] == self.nested_cache(rv)[j2];
                            assert(out@[k] == self.nested_cache(rv)[j2]);
                        } else {
                            assert(out@[out@.len() - 1] == x);
                        }
                    }
                }
                j += 1;
            }
            proof {
                assert forall|i2: int, x: Value|
                    0 <= i2 < i + 1 && #[trigger] self.is_nested(
                        x,
                        self.block_data(b).reads@[i2],
                    ) implies out@.contains(x) by {
                    if i2 < i {
                        let k = choose|k: int| 0 <= k < out0.len() && out0[k] == x;
                        assert(out@[k] == x);
                    } else {
                        assert(self.nested_entry_ok(rv.0 as int, self.values@[rv.0 as int]));
                        assert(self.values@[rv.0 as int].nested@.contains(x));
                        let j2 = choose|j2: int|
                            0 <= j2 < self.nested_cache(rv).len() && self.nested_cache(rv)[j2]
                                == x;
                        assert(out@.contains(self.nested_cache(rv)[j2]));
                    }
                }
            }
            i += 1;
        }
        out
    }

    /// Every block handle of the function, in creation order.
    pub fn block_iter(&self) -> (r: Vec<Block>)
        ensures
            r@.len() == self.n_blocks(),
            forall|i: int| 0 <= i < r@.len() ==> r@[i] == Block(i as usize),
    {
        let n = self.blocks.len();
        let mut out: Vec<Block> = Vec::new();
        let mut i: usize = 0;
        while i < n
            invariant
                i <= n,
                out@.len() == i,
                forall|j: int| 0 <= j < i ==> out@[j] == Block(j as usize),
            decreases n - i,
        {
            out.push(Block(i));
            i += 1;
        }
        out
    }
}

} // verus!
