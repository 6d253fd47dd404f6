//! Textual rendering of the IR: a function prints as labelled blocks,
//! each ending in its terminator.
//!
//! The renderers carry shape contracts (the header prefix, the trailing
//! semicolon of a terminator line); the full meaning of the text is fixed
//! by the parser being its inverse, which the round-trip tests exercise
//! on whole functions rather than a per-function contract stating the
//! grammar twice.

use vstd::prelude::*;

use crate::constant::ConstKind;
use crate::entity::{Block, Value};
use crate::fun::Function;
use crate::op::{BasicType, CallKind, MatchKind, OpKind};
use crate::value::{PrimOpKind, ValueKind};
use vstd::string::StringExecFns;

verus! {

/// The digit character for `d`.
pub open spec fn spec_digit(d: int) -> char {
    ((48 + d) as u8) as char
}

/// The decimal rendering of `n`, most significant digit first.
pub open spec fn spec_decimal(n: int) -> Seq<char>
    decreases n,
{
    if n < 10 {
        seq![spec_digit(if n < 0 {
            0
        } else {
            n
        })]
    } else {
        spec_decimal(n / 10).push(spec_digit(n % 10))
    }
}

/// `s` begins with the prefix `p`.
pub open spec fn starts_with(s: Seq<char>, p: Seq<char>) -> bool {
    p.len() <= s.len() && s.take(p.len() as int) == p
}

/// Appending to a sequence keeps any prefix it already has.
proof fn lemma_append_keeps_prefix(a: Seq<char>, b: Seq<char>, p: Seq<char>)
    requires
        starts_with(a, p),
    ensures
        starts_with(a + b, p),
{
    assert((a + b).take(p.len() as int) =~= a.take(p.len() as int));
}

/// An appended one-or-more-character tail decides the last character.
proof fn lemma_append_last(a: Seq<char>, b: Seq<char>)
    requires
        b.len() >= 1,
    ensures
        (a + b).len() >= 1,
        (a + b)[(a + b).len() - 1] == b[b.len() - 1],
{
}

/// The one-character string for a digit.
fn digit_str(d: u64) -> (r: &'static str)
    requires
        d < 10,
    ensures
        r@ == seq![spec_digit(d as int)],
{
    proof {
        reveal_strlit("0");
        reveal_strlit("1");
        reveal_strlit("2");
        reveal_strlit("3");
        reveal_strlit("4");
        reveal_strlit("5");
        reveal_strlit("6");
        reveal_strlit("7");
        reveal_strlit("8");
        reveal_strlit("9");
    }
    match d {
        0 => "0",
        1 => "1",
        2 => "2",
        3 => "3",
        4 => "4",
        5 => "5",
        6 => "6",
        7 => "7",
        8 => "8",
        _ => "9",
    }
}

/// Render a number in decimal.
pub fn decimal_string(n: u64) -> (r: String)
    ensures
        r@ == spec_decimal(n as int),
    decreases n,
{
    if n < 10 {
        String::from_str(digit_str(n))
    } else {
        let mut s = decimal_string(n / 10);
        s.append(digit_str(n % 10));
        proof {
            assert(s@ =~= spec_decimal(n as int));
        }
        s
    }
}

/// The textual name of a basic type test.
pub fn type_to_text(ty: &BasicType) -> (r: String)
    ensures
        match *ty {
            BasicType::List => r@ == "list"@,
            BasicType::ListCell => r@ == "cons"@,
            BasicType::Nil => r@ == "nil"@,
            BasicType::Tuple(arity) => r@ == "tuple("@ + spec_decimal(arity as int) + ")"@,
            BasicType::Mapping => r@ == "map"@,
            BasicType::Number => r@ == "number"@,
            BasicType::Float => r@ == "float"@,
            BasicType::Integer => r@ == "integer"@,
            BasicType::SmallInteger => r@ == "smallint"@,
            BasicType::BigInteger => r@ == "bigint"@,
        },
{
    match ty {
        BasicType::List => String::from_str("list"),
        BasicType::ListCell => String::from_str("cons"),
        BasicType::Nil => String::from_str("nil"),
        BasicType::Tuple(arity) => {
            let mut s = String::from_str("tuple(");
            let d = decimal_string(*arity as u64);
            s.append(d.as_str());
            s.append(")");
            s
        },
        BasicType::Mapping => String::from_str("map"),
        BasicType::Number => String::from_str("number"),
        BasicType::Float => String::from_str("float"),
        BasicType::Integer => String::from_str("integer"),
        BasicType::SmallInteger => String::from_str("smallint"),
        BasicType::BigInteger => String::from_str("bigint"),
    }
}

impl Function {
    /// Render one value as it appears in an operand position.
    pub fn value_to_text(&self, v: Value) -> (r: String)
        requires
            self.wf(),
            self.valid_value(v),
        decreases v.0,
    {
        match self.values[v.0].kind {
            ValueKind::Block(b) => {
                let mut s = String::from_str("^b");
                let d = decimal_string(b.0 as u64);
                s.append(d.as_str());
                s
            },
            ValueKind::Argument(b, n) => {
                let mut s = String::from_str("%a");
                let d = decimal_string(b.0 as u64);
                s.append(d.as_str());
                s.append("_");
                let d2 = decimal_string(n as u64);
                s.append(d2.as_str());
                s
            },
            ValueKind::Const(c) => {
                proof {
                    assert(self.value_kind_ok(v.0 as int, self.values@[v.0 as int].kind));
                }
                self.const_to_text(c)
            },
            ValueKind::PrimOp(p) => {
                proof {
                    assert(self.value_kind_ok(v.0 as int, self.values@[v.0 as int].kind));
                }
                let open = match self.primops[p.0].op {
                    PrimOpKind::ValueList => "<",
                    PrimOpKind::Tuple => "{",
                    PrimOpKind::ListCell => "[",
                    PrimOpKind::BinOp(crate::value::BinOp::Eq) => "eq(",
                    PrimOpKind::BinOp(crate::value::BinOp::Ne) => "ne(",
                    PrimOpKind::BinOp(crate::value::BinOp::Lt) => "lt(",
                    PrimOpKind::BinOp(crate::value::BinOp::Le) => "le(",
                    PrimOpKind::BinOp(crate::value::BinOp::Gt) => "gt(",
                    PrimOpKind::BinOp(crate::value::BinOp::Ge) => "ge(",
                    PrimOpKind::LogicOp(crate::value::LogicOp::And) => "and(",
                    PrimOpKind::LogicOp(crate::value::LogicOp::Or) => "or(",
                    PrimOpKind::CaptureFunction => "fun<",
                };
                let close = match self.primops[p.0].op {
                    PrimOpKind::ValueList => ">",
                    PrimOpKind::Tuple => "}",
                    PrimOpKind::ListCell => "]",
                    PrimOpKind::BinOp(_) => ")",
                    PrimOpKind::LogicOp(_) => ")",
                    PrimOpKind::CaptureFunction => ">",
                };
                let mut s = String::from_str(open);
                let nr = self.primops[p.0].reads.len();
                let mut j: usize = 0;
                while j < nr
                    invariant
                        self.wf(),
                        v.0 < self.n_values(),
                        self.values@[v.0 as int].kind == ValueKind::PrimOp(p),
                        p.0 < self.n_primops(),
                        nr == self.primops@[p.0 as int].reads@.len(),
                        forall|k: int|
                            0 <= k < nr ==> (#[trigger] self.primops@[p.0 as int].reads@[k]).0
                                < v.0,
                        j <= nr,
                    decreases nr - j,
                {
                    if j > 0 {
                        s.append(", ");
                    }
                    let rv = self.primops[p.0].reads[j];
                    proof {
                        assert(rv.0 < v.0);
                    }
                    let rs = self.value_to_text(rv);
                    s.append(rs.as_str());
                    j += 1;
                }
                s.append(close);
                s
            },
        }
    }

    /// Render one constant term.
    pub fn const_to_text(&self, c: crate::entity::Const) -> (r: String)
        requires
            self.wf(),
            self.constant_container.is_valid(c),
        decreases c.0,
    {
        let kind = self.constant_container.const_kind(c);
        match kind {
            ConstKind::Atom(a) => {
                let mut s = String::from_str("'");
                s.append(a.as_str());
                s.append("'");
                s
            },
            ConstKind::Integer(x) => {
                if *x < 0 {
                    let mut s = String::from_str("-");
                    let mag: u64 = if *x == i64::MIN {
                        0x8000_0000_0000_0000u64
                    } else {
                        (-*x) as u64
                    };
                    let d = decimal_string(mag);
                    s.append(d.as_str());
                    s
                } else {
                    decimal_string(*x as u64)
                }
            },
            ConstKind::Nil => String::from_str("[]"),
            ConstKind::Tuple(elems) => {
                proof {
                    assert(crate::constant::const_kind_bounded(
                        self.constant_container.terms()[c.0 as int],
                        c.0 as int,
                    ));
                }
                let mut s = String::from_str("{");
                let ne = elems.len();
                let mut j: usize = 0;
                while j < ne
                    invariant
                        self.wf(),
                        c.0 < self.constant_container.len(),
                        ne == elems@.len(),
                        forall|k: int| 0 <= k < ne ==> (#[trigger] elems@[k]).0 < c.0,
                        j <= ne,
                    decreases ne - j,
                {
                    if j > 0 {
                        s.append(", ");
                    }
                    let e = elems[j];
                    let es = self.const_to_text(e);
                    s.append(es.as_str());
                    j += 1;
                }
                s.append("}");
                s
            },
            ConstKind::ListCell(h, t) => {
                proof {
                    assert(crate::constant::const_kind_bounded(
                        self.constant_container.terms()[c.0 as int],
                        c.0 as int,
                    ));
                }
                let mut s = String::from_str("[");
                let hs = self.const_to_text(*h);
                s.append(hs.as_str());
                s.append(" | ");
                let ts = self.const_to_text(*t);
                s.append(ts.as_str());
                s.append("]");
                s
            },
            ConstKind::Mapping(keys, vals) => {
                proof {
                    assert(crate::constant::const_kind_bounded(
                        self.constant_container.terms()[c.0 as int],
                        c.0 as int,
                    ));
                }
                let mut s = String::from_str("%{");
                let nk = keys.len();
                let mut j: usize = 0;
                while j < nk
                    invariant
                        self.wf(),
                        c.0 < self.constant_container.len(),
                        nk == keys@.len(),
                        forall|k: int| 0 <= k < nk ==> (#[trigger] keys@[k]).0 < c.0,
                        forall|k: int|
                            0 <= k < vals@.len() ==> (#[trigger] vals@[k]).0 < c.0,
                        j <= nk,
                    decreases nk - j,
                {
                    if j > 0 {
                        s.append(", ");
                    }
                    let ks = self.const_to_text(keys[j]);
                    s.append(ks.as_str());
                    if j < vals.len() {
                        s.append(" => ");
                        let vs = self.const_to_text(vals[j]);
                        s.append(vs.as_str());
                    }
                    j += 1;
                }
                s.append("}");
                s
            },
            ConstKind::Binary(bytes) => {
                let mut s = String::from_str("<<");
                let nb = bytes.len();
                let mut j: usize = 0;
                while j < nb
                    invariant
                        nb == bytes@.len(),
                        j <= nb,
                    decreases nb - j,
                {
                    if j > 0 {
                        s.append(", ");
                    }
                    let d = decimal_string(bytes[j] as u64);
                    s.append(d.as_str());
                    j += 1;
                }
                s.append(">>");
                s
            },
        }
    }

    /// Render the terminator of one block, mirroring the grammar the
    /// textual IR uses: calls with their continuations, branch lists for
    /// matches, operand lists for everything else.
    pub fn block_op_to_text(&self, b: Block) -> (r: String)
        requires
            self.wf(),
            self.valid_block(b),
        ensures
            r@.len() >= 1,
            r@[r@.len() - 1] == ';',
    {
        proof {
            assert(self.block_entry_ok(b.0 as int, self.blocks@[b.0 as int]));
            reveal_strlit(";");
            reveal_strlit("incomplete;");
        }
        let has = match &self.blocks[b.0].op {
            Some(_) => true,
            None => false,
        };
        if !(has) {
            return String::from_str("incomplete;");
        }
        let reads_text = self.reads_to_text(b);
        let mut s = match &self.blocks[b.0].op {
            Some(OpKind::Call(CallKind::Function)) => String::from_str("call "),
            Some(OpKind::Call(CallKind::ControlFlow)) => String::from_str("flow "),
            Some(OpKind::Match { branches: _ }) => String::from_str("match "),
            Some(OpKind::IfBool) => String::from_str("if_bool "),
            Some(OpKind::UnpackValueList(_)) => String::from_str("unpack "),
            Some(OpKind::MapPut { action: crate::op::MapPutUpdate::Put }) => String::from_str(
                "map_put put ",
            ),
            Some(OpKind::MapPut { action: crate::op::MapPutUpdate::Update }) => String::from_str(
                "map_put update ",
            ),
            Some(OpKind::TraceCaptureRaw) => String::from_str("trace_capture_raw "),
            Some(OpKind::TraceConstruct) => String::from_str("trace_construct "),
            Some(OpKind::Unreachable) => String::from_str("unreachable"),
            Some(OpKind::Intrinsic(_)) => String::from_str("intrinsic "),
            Some(OpKind::Dyn(_)) => String::from_str("dyn "),
            None => String::from_str(""),
        };
        match &self.blocks[b.0].op {
            Some(OpKind::Intrinsic(name)) => {
                s.append(name.as_str());
                s.append(" ");
            },
            Some(OpKind::Dyn(name)) => {
                s.append(name.as_str());
                s.append(" ");
            },
            Some(OpKind::Match { branches }) => {
                let nb2 = branches.len();
                let mut j: usize = 0;
                s.append("[");
                while j < nb2
                    invariant
                        nb2 == branches@.len(),
                        j <= nb2,
                    decreases nb2 - j,
                {
                    if j > 0 {
                        s.append(", ");
                    }
                    let bs = match branches[j] {
                        MatchKind::Value => String::from_str("value"),
                        MatchKind::Type(ty) => {
                            let mut ts = String::from_str("is_type ");
                            let tt = type_to_text(&ty);
                            ts.append(tt.as_str());
                            ts
                        },
                        MatchKind::Binary(_) => String::from_str("binary"),
                        MatchKind::Tuple(arity) => {
                            let mut ts = String::from_str("{} arity ");
                            let d = decimal_string(arity as u64);
                            ts.append(d.as_str());
                            ts
                        },
                        MatchKind::ListCell => String::from_str("[]"),
                        MatchKind::MapItem => String::from_str("%{}"),
                        MatchKind::Wildcard => String::from_str("_"),
                    };
                    s.append(bs.as_str());
                    j += 1;
                }
                s.append("] ");
            },
            Some(OpKind::UnpackValueList(n)) => {
                s.append("arity ");
                let d = decimal_string(*n as u64);
                s.append(d.as_str());
                s.append(" ");
            },
            _ => {},
        }
        s.append(reads_text.as_str());
        let ghost before = s@;
        s.append(";");
        proof {
            lemma_append_last(before, ";"@);
        }
        s
    }

    /// Render a block's reads as a parenthesised operand list.
    fn reads_to_text(&self, b: Block) -> (r: String)
        requires
            self.wf(),
            self.valid_block(b),
    {
        let mut s = String::from_str("(");
        let nr = self.blocks[b.0].reads.len();
        let mut j: usize = 0;
        while j < nr
            invariant
                self.wf(),
                self.valid_block(b),
                nr == self.block_data(b).reads@.len(),
                j <= nr,
            decreases nr - j,
        {
            if j > 0 {
                s.append(", ");
            }
            proof {
                assert(self.block_entry_ok(b.0 as int, self.blocks@[b.0 as int]));
            }
            let rv = self.blocks[b.0].reads[j];
            let rs = self.value_to_text(rv);
            s.append(rs.as_str());
            j += 1;
        }
        s.append(")");
        s
    }

    /// Render the whole function: its identity, then every reachable block
    /// with its label, formals and terminator.
    pub fn to_text(&self) -> (r: String)
        requires
            self.wf(),
            self.entry_block is Some,
        ensures
            starts_with(r@, "function "@),
    {
        let ghost p = "function "@;
        let mut s = String::from_str("function ");
        proof {
            assert(s@.take(p.len() as int) =~= p);
        }
        s.append(self.ident.module.as_str());
        proof {
            lemma_append_keeps_prefix("function "@, self.ident.module@, p);
        }
        s.append(":");
        proof {
            lemma_append_keeps_prefix(("function "@ + self.ident.module@), ":"@, p);
        }
        let ghost s1 = s@;
        s.append(self.ident.name.as_str());
        proof {
            lemma_append_keeps_prefix(s1, self.ident.name@, p);
        }
        let ghost s2 = s@;
        s.append("/");
        proof {
            lemma_append_keeps_prefix(s2, "/"@, p);
        }
        let d = decimal_string(self.ident.arity as u64);
        let ghost s3 = s@;
        s.append(d.as_str());
        proof {
            lemma_append_keeps_prefix(s3, d@, p);
        }
        let ghost s4 = s@;
        s.append(" {\n");
        proof {
            lemma_append_keeps_prefix(s4, " {\n"@, p);
        }
        let reach = self.reachable_blocks();
        let n = self.blocks.len();
        let e = self.block_entry();
        let bt = self.block_text(e);
        let ghost s5 = s@;
        s.append(bt.as_str());
        proof {
            lemma_append_keeps_prefix(s5, bt@, p);
        }
        let mut b: usize = 0;
        while b < n
            invariant
                self.wf(),
                self.entry_block is Some,
                n == self.n_blocks(),
                reach@.len() == n,
                b <= n,
                starts_with(s@, p),
                p == "function "@,
            decreases n - b,
        {
            if reach[b] && b != e.0 {
                let bt2 = self.block_text(Block(b));
                let ghost s6 = s@;
                s.append(bt2.as_str());
                proof {
                    lemma_append_keeps_prefix(s6, bt2@, p);
                }
            }
            b += 1;
        }
        let ghost s7 = s@;
        s.append("}\n");
        proof {
            lemma_append_keeps_prefix(s7, "}\n"@, p);
        }
        s
    }

    /// Render one block: its label, formals and terminator.
    fn block_text(&self, b2: Block) -> (r: String)
        requires
            self.wf(),
            self.valid_block(b2),
    {
        let b = b2.0;
        let mut s = String::new();
        {
                s.append("  b");
                let d2 = decimal_string(b as u64);
                s.append(d2.as_str());
                s.append("(");
                let na = self.blocks[b].arguments.len();
                let mut a: usize = 0;
                while a < na
                    invariant
                        self.wf(),
                        b < self.n_blocks(),
                        na == self.block_data(Block(b)).arguments@.len(),
                        a <= na,
                    decreases na - a,
                {
                    if a > 0 {
                        s.append(", ");
                    }
                    s.append("%a");
                    let d3 = decimal_string(b as u64);
                    s.append(d3.as_str());
                    s.append("_");
                    let d4 = decimal_string(a as u64);
                    s.append(d4.as_str());
                    a += 1;
                }
                s.append("):\n    ");
                let ops = self.block_op_to_text(Block(b));
                s.append(ops.as_str());
                s.append("\n");
        }
        s
    }
}

} // verus!
