//! Parser for the textual IR: the inverse of `Function::to_text`.
//!
//! The grammar mirrors the IR exactly: a function holds labelled blocks,
//! each ending in one terminator. Anything outside the grammar, including
//! terminators the IR does not define, is rejected by returning nothing.
//! The textual form does not carry source locations or binary match
//! specifiers, so those are not reconstructed.
//!
//! The contract here fixes the shape of a successful parse (a well-formed
//! function with an entry and at least one block); that parsing inverts
//! the printer is the round-trip law, exercised on whole functions by the
//! tests rather than stated as a per-function inversion contract.

use vstd::prelude::*;

use crate::constant::ConstKind;
use crate::entity::{Block, Value};
use crate::fun::Function;
use crate::ident::{FunctionIdent, SourceSpan};
use crate::op::{BasicType, CallKind, MapPutUpdate, MatchKind, OpKind};
use crate::value::{BinOp, LogicOp};
use vstd::string::StrSliceExecFns;

verus! {

/// Relies on `String::from_utf8_lossy`: ASCII bytes decode to the
/// characters with the same code points.
#[verifier::external_body]
fn ascii_bytes_to_string(b: &Vec<u8>) -> (r: String)
    requires
        forall|i: int| 0 <= i < b@.len() ==> b@[i] < 128,
    ensures
        r@.len() == b@.len(),
        forall|i: int| 0 <= i < b@.len() ==> r@[i] == b@[i] as char,
{
    String::from_utf8_lossy(b.as_slice()).into_owned()
}

/// Whether the byte is an ASCII decimal digit.
fn is_digit(c: u8) -> (r: bool)
    ensures
        r == (48 <= c <= 57),
{
    c >= 48 && c <= 57
}

/// Whether the byte may occur in an identifier or atom name.
fn is_ident_byte(c: u8) -> (r: bool)
    ensures
        r == (97 <= c <= 122 || 48 <= c <= 57 || c == 95),
{
    (c >= 97 && c <= 122) || (c >= 48 && c <= 57) || c == 95
}

/// Consume the exact non-empty literal, advancing on success.
fn eat_lit(bytes: &Vec<u8>, pos: &mut usize, lit: &str) -> (r: bool)
    requires
        *old(pos) <= bytes@.len(),
    ensures
        *old(pos) <= *final(pos) <= bytes@.len(),
        r ==> *final(pos) > *old(pos),
        !r ==> *final(pos) == *old(pos),
{
    let lb = lit.as_bytes_vec();
    let n = lb.len();
    let blen = bytes.len();
    if n == 0 {
        return false;
    }
    if blen - *pos < n {
        return false;
    }
    let mut i: usize = 0;
    while i < n
        invariant
            blen == bytes@.len(),
            *pos <= blen,
            n == lb@.len(),
            n <= blen - *pos,
            i <= n,
        decreases n - i,
    {
        if bytes[*pos + i] != lb[i] {
            return false;
        }
        i += 1;
    }
    *pos = *pos + n;
    true
}

/// Parse an unsigned decimal number below 2^28.
fn parse_number(bytes: &Vec<u8>, pos: &mut usize) -> (r: Option<u64>)
    requires
        *old(pos) <= bytes@.len(),
    ensures
        *old(pos) <= *final(pos) <= bytes@.len(),
        r is Some ==> *final(pos) > *old(pos) && r.unwrap() <= 0x1000_0000u64 * 10 + 9,
{
    let mut acc: u64 = 0;
    let mut seen = false;
    while *pos < bytes.len() && is_digit(bytes[*pos]) && acc < 0x1000_0000
        invariant
            *old(pos) <= *pos <= bytes@.len(),
            acc <= 0x1000_0000u64 * 10 + 9,
            seen ==> *pos > *old(pos),
        decreases bytes@.len() - *pos,
    {
        acc = acc * 10 + ((bytes[*pos] - 48) as u64);
        seen = true;
        *pos = *pos + 1;
    }
    if !seen {
        return None;
    }
    if *pos < bytes.len() && is_digit(bytes[*pos]) {
        // The number does not fit the accepted range.
        return None;
    }
    Some(acc)
}

/// Parse an identifier (lowercase letters, digits, underscores).
fn parse_ident_bytes(bytes: &Vec<u8>, pos: &mut usize) -> (r: Vec<u8>)
    requires
        *old(pos) <= bytes@.len(),
    ensures
        *old(pos) <= *final(pos) <= bytes@.len(),
        *final(pos) - *old(pos) == r@.len(),
        forall|i: int| 0 <= i < r@.len() ==> r@[i] < 128,
{
    let mut out: Vec<u8> = Vec::new();
    while *pos < bytes.len() && is_ident_byte(bytes[*pos])
        invariant
            *old(pos) <= *pos <= bytes@.len(),
            *pos - *old(pos) == out@.len(),
            forall|i: int| 0 <= i < out@.len() ==> out@[i] < 128,
        decreases bytes@.len() - *pos,
    {
        out.push(bytes[*pos]);
        *pos = *pos + 1;
    }
    out
}

/// Find the block mapped to textual label `n`.
fn lookup_block(bmap: &Vec<(usize, Block)>, n: usize) -> (r: Option<Block>)
    ensures
        match r {
            Some(b) => exists|i: int|
                0 <= i < bmap@.len() && (#[trigger] bmap@[i]).0 == n && bmap@[i].1 == b,
            None => true,
        },
{
    let m = bmap.len();
    let mut i: usize = 0;
    while i < m
        invariant
            m == bmap@.len(),
            i <= m,
        decreases m - i,
    {
        if bmap[i].0 == n {
            return Some(bmap[i].1);
        }
        i += 1;
    }
    None
}

/// Every mapped block is valid in `f`.
pub open spec fn bmap_ok(bmap: Seq<(usize, Block)>, f: Function) -> bool {
    forall|i: int| 0 <= i < bmap.len() ==> (#[trigger] bmap[i]).1.0 < f.n_blocks()
}

/// Parse one operand value, interning constants and primops as the text
/// dictates: a braced list whose elements are all constants is a constant
/// term, any other composite is a primop.
fn parse_value(
    f: &mut Function,
    bmap: &Vec<(usize, Block)>,
    bytes: &Vec<u8>,
    pos: &mut usize,
) -> (r: Option<Value>)
    requires
        old(f).wf(),
        bmap_ok(bmap@, *old(f)),
        *old(pos) <= bytes@.len(),
    ensures
        final(f).wf(),
        final(f).n_blocks() == old(f).n_blocks(),
        final(f).entry_block == old(f).entry_block,
        bmap_ok(bmap@, *final(f)),
        old(f).n_values() <= final(f).n_values(),
        old(f).constant_container.len() <= final(f).constant_container.len(),
        *old(pos) <= *final(pos) <= bytes@.len(),
        match r {
            Some(v) => final(f).valid_value(v) && *final(pos) > *old(pos),
            None => true,
        },
    decreases bytes@.len() - *old(pos), 0int,
{
    if *pos >= bytes.len() {
        return None;
    }
    let c = bytes[*pos];
    if c == 94 {
        // "^bN": a block used as a continuation value.
        *pos = *pos + 1;
        if !eat_lit(bytes, pos, "b") {
            return None;
        }
        let n = match parse_number(bytes, pos) {
            Some(n) => n as usize,
            None => {
                return None;
            },
        };
        match lookup_block(bmap, n) {
            Some(b) => Some(f.block_value(b)),
            None => None,
        }
    } else if c == 37 {
        // "%aN_M" argument reference, or "%{...}" map constant.
        if eat_lit(bytes, pos, "%a") {
            let n = match parse_number(bytes, pos) {
                Some(n) => n as usize,
                None => {
                    return None;
                },
            };
            if !eat_lit(bytes, pos, "_") {
                return None;
            }
            let m = match parse_number(bytes, pos) {
                Some(m) => m as usize,
                None => {
                    return None;
                },
            };
            let b = match lookup_block(bmap, n) {
                Some(b) => b,
                None => {
                    return None;
                },
            };
            if m < f.block_args(b).len() {
                Some(f.block_args(b)[m])
            } else {
                None
            }
        } else if eat_lit(bytes, pos, "%{") {
            let mut keys: Vec<crate::entity::Const> = Vec::new();
            let mut vals: Vec<crate::entity::Const> = Vec::new();
            if eat_lit(bytes, pos, "}") {
                let ck = f.cons_intern(ConstKind::Mapping(keys, vals));
                let v = f.const_value(ck);
                return Some(v);
            }
            let mut first = true;
            loop
                invariant
                    f.wf(),
                    bmap_ok(bmap@, *f),
                    f.n_blocks() == old(f).n_blocks(),
                    f.entry_block == old(f).entry_block,
                    old(f).n_values() <= f.n_values(),
                    old(f).constant_container.len() <= f.constant_container.len(),
                    *old(pos) < *pos <= bytes@.len(),
                    forall|i: int|
                        0 <= i < keys@.len() ==> (#[trigger] keys@[i]).0
                            < f.constant_container.len(),
                    forall|i: int|
                        0 <= i < vals@.len() ==> (#[trigger] vals@[i]).0
                            < f.constant_container.len(),
                decreases bytes@.len() - *pos,
            {
                if !first {
                    if !eat_lit(bytes, pos, ", ") {
                        return None;
                    }
                }
                first = false;
                let kv = match parse_value(f, bmap, bytes, pos) {
                    Some(v) => v,
                    None => {
                        return None;
                    },
                };
                let kc = match f.value_const(kv) {
                    Some(c) => c,
                    None => {
                        return None;
                    },
                };
                proof {
                    assert(f.value_kind_ok(kv.0 as int, f.values@[kv.0 as int].kind));
                }
                keys.push(kc);
                if !eat_lit(bytes, pos, " => ") {
                    return None;
                }
                let vv = match parse_value(f, bmap, bytes, pos) {
                    Some(v) => v,
                    None => {
                        return None;
                    },
                };
                let vc = match f.value_const(vv) {
                    Some(c) => c,
                    None => {
                        return None;
                    },
                };
                proof {
                    assert(f.value_kind_ok(vv.0 as int, f.values@[vv.0 as int].kind));
                }
                vals.push(vc);
                if eat_lit(bytes, pos, "}") {
                    let ck = f.cons_intern(ConstKind::Mapping(keys, vals));
                    let v = f.const_value(ck);
                    return Some(v);
                }
            }
        } else {
            None
        }
    } else if c == 39 {
        // "'atom'".
        *pos = *pos + 1;
        let name = parse_ident_bytes(bytes, pos);
        if !eat_lit(bytes, pos, "'") {
            return None;
        }
        let s = ascii_bytes_to_string(&name);
        let ck = f.cons_intern(ConstKind::Atom(s));
        Some(f.const_value(ck))
    } else if is_digit(c) || c == 45 {
        // A decimal integer, possibly negative.
        let neg = c == 45;
        if neg {
            *pos = *pos + 1;
        }
        let n = match parse_number(bytes, pos) {
            Some(n) => n,
            None => {
                return None;
            },
        };
        proof {
            assert(n <= 0x1000_0000u64 * 10 + 9);
        }
        let x: i64 = if neg {
            -(n as i64)
        } else {
            n as i64
        };
        let ck = f.cons_intern(ConstKind::Integer(x));
        Some(f.const_value(ck))
    } else if c == 91 {
        // "[]" nil, or "[h | t]".
        *pos = *pos + 1;
        if eat_lit(bytes, pos, "]") {
            let ck = f.cons_intern(ConstKind::Nil);
            return Some(f.const_value(ck));
        }
        let h = match parse_value(f, bmap, bytes, pos) {
            Some(v) => v,
            None => {
                return None;
            },
        };
        if !eat_lit(bytes, pos, " | ") {
            return None;
        }
        let t = match parse_value(f, bmap, bytes, pos) {
            Some(v) => v,
            None => {
                return None;
            },
        };
        if !eat_lit(bytes, pos, "]") {
            return None;
        }
        match (f.value_const(h), f.value_const(t)) {
            (Some(hc), Some(tc)) => {
                proof {
                    assert(f.value_kind_ok(h.0 as int, f.values@[h.0 as int].kind));
                    assert(f.value_kind_ok(t.0 as int, f.values@[t.0 as int].kind));
                }
                let ck = f.cons_intern(ConstKind::ListCell(hc, tc));
                Some(f.const_value(ck))
            },
            _ => Some(f.prim_list_cell(h, t)),
        }
    } else if c == 123 {
        // "{...}" tuple.
        *pos = *pos + 1;
        let elems = match parse_value_list(f, bmap, bytes, pos, 125) {
            Some(es) => es,
            None => {
                return None;
            },
        };
        tuple_of(f, &elems)
    } else if c == 60 {
        // "<<...>>" binary constant or "<...>" value list.
        if eat_lit(bytes, pos, "<<") {
            let mut data: Vec<u8> = Vec::new();
            if eat_lit(bytes, pos, ">>") {
                let ck = f.cons_intern(ConstKind::Binary(data));
                return Some(f.const_value(ck));
            }
            let mut first = true;
            loop
                invariant
                    f.wf(),
                    f.n_blocks() == old(f).n_blocks(),
                    f.entry_block == old(f).entry_block,
                    bmap_ok(bmap@, *f),
                    old(f).n_values() <= f.n_values(),
                    old(f).constant_container.len() <= f.constant_container.len(),
                    *old(pos) < *pos <= bytes@.len(),
                decreases bytes@.len() - *pos,
            {
                if !first {
                    if !eat_lit(bytes, pos, ", ") {
                        return None;
                    }
                }
                first = false;
                let n = match parse_number(bytes, pos) {
                    Some(n) => n,
                    None => {
                        return None;
                    },
                };
                if n > 255 {
                    return None;
                }
                data.push(n as u8);
                if eat_lit(bytes, pos, ">>") {
                    let ck = f.cons_intern(ConstKind::Binary(data));
                    return Some(f.const_value(ck));
                }
            }
        } else {
            *pos = *pos + 1;
            let elems = match parse_value_list(f, bmap, bytes, pos, 62) {
                Some(es) => es,
                None => {
                    return None;
                },
            };
            Some(f.prim_value_list(&elems))
        }
    } else if is_ident_byte(c) {
        // "fun<m, f, a>", or a named binary/logic operation.
        let name = parse_ident_bytes(bytes, pos);
        if byte_lit_eq(&name, "fun") {
            if !eat_lit(bytes, pos, "<") {
                return None;
            }
            let elems = match parse_value_list(f, bmap, bytes, pos, 62) {
                Some(es) => es,
                None => {
                    return None;
                },
            };
            if elems.len() != 3 {
                return None;
            }
            Some(f.prim_capture_function(elems[0], elems[1], elems[2]))
        } else {
            let binop = if byte_lit_eq(&name, "eq") {
                Some(BinOp::Eq)
            } else if byte_lit_eq(&name, "ne") {
                Some(BinOp::Ne)
            } else if byte_lit_eq(&name, "lt") {
                Some(BinOp::Lt)
            } else if byte_lit_eq(&name, "le") {
                Some(BinOp::Le)
            } else if byte_lit_eq(&name, "gt") {
                Some(BinOp::Gt)
            } else if byte_lit_eq(&name, "ge") {
                Some(BinOp::Ge)
            } else {
                None
            };
            if !eat_lit(bytes, pos, "(") {
                return None;
            }
            let elems = match parse_value_list(f, bmap, bytes, pos, 41) {
                Some(es) => es,
                None => {
                    return None;
                },
            };
            match binop {
                Some(op) => {
                    if elems.len() != 2 {
                        return None;
                    }
                    Some(f.prim_binop(op, elems[0], elems[1]))
                },
                None => {
                    let logic = if byte_lit_eq(&name, "and") {
                        Some(LogicOp::And)
                    } else if byte_lit_eq(&name, "or") {
                        Some(LogicOp::Or)
                    } else {
                        None
                    };
                    match logic {
                        Some(op) => Some(f.prim_logic_op(op, &elems)),
                        None => None,
                    }
                },
            }
        }
    } else {
        None
    }
}

/// Whether the parsed bytes spell the given ASCII literal.
fn byte_lit_eq(b: &Vec<u8>, lit: &str) -> (r: bool)
{
    let lb = lit.as_bytes_vec();
    crate::constant::byte_vec_eq(b, &lb)
}

/// Parse a comma-separated value list up to the closing byte.
fn parse_value_list(
    f: &mut Function,
    bmap: &Vec<(usize, Block)>,
    bytes: &Vec<u8>,
    pos: &mut usize,
    close: u8,
) -> (r: Option<Vec<Value>>)
    requires
        old(f).wf(),
        bmap_ok(bmap@, *old(f)),
        *old(pos) <= bytes@.len(),
    ensures
        final(f).wf(),
        final(f).n_blocks() == old(f).n_blocks(),
        final(f).entry_block == old(f).entry_block,
        bmap_ok(bmap@, *final(f)),
        old(f).n_values() <= final(f).n_values(),
        old(f).constant_container.len() <= final(f).constant_container.len(),
        *old(pos) <= *final(pos) <= bytes@.len(),
        match r {
            Some(vs) => (forall|i: int|
                0 <= i < vs@.len() ==> final(f).valid_value(#[trigger] vs@[i])) && *final(pos)
                > *old(pos),
            None => true,
        },
    decreases bytes@.len() - *old(pos), 1int,
{
    let mut out: Vec<Value> = Vec::new();
    if *pos < bytes.len() && bytes[*pos] == close {
        *pos = *pos + 1;
        return Some(out);
    }
    let mut first = true;
    loop
        invariant
            f.wf(),
            f.n_blocks() == old(f).n_blocks(),
            f.entry_block == old(f).entry_block,
            bmap_ok(bmap@, *f),
            old(f).n_values() <= f.n_values(),
            old(f).constant_container.len() <= f.constant_container.len(),
            *old(pos) <= *pos <= bytes@.len(),
            first ==> *pos == *old(pos),
            !first ==> *pos > *old(pos),
            forall|i: int| 0 <= i < out@.len() ==> f.valid_value(#[trigger] out@[i]),
        decreases bytes@.len() - *pos, (if first {
            1int
        } else {
            0int
        }),
    {
        if !first {
            if !eat_lit(bytes, pos, ", ") {
                return None;
            }
        }
        first = false;
        let v = match parse_value(f, bmap, bytes, pos) {
            Some(v) => v,
            None => {
                return None;
            },
        };
        out.push(v);
        if *pos < bytes.len() && bytes[*pos] == close {
            *pos = *pos + 1;
            return Some(out);
        }
    }
}

/// Intern a tuple over parsed elements: a constant term when every element
/// is a constant, a tuple primop otherwise.
fn tuple_of(f: &mut Function, elems: &Vec<Value>) -> (r: Option<Value>)
    requires
        old(f).wf(),
        forall|i: int| 0 <= i < elems@.len() ==> old(f).valid_value(#[trigger] elems@[i]),
    ensures
        final(f).wf(),
        final(f).n_blocks() == old(f).n_blocks(),
        final(f).entry_block == old(f).entry_block,
        crate::builder::arenas_extend(*final(f), *old(f)),
        old(f).constant_container.len() <= final(f).constant_container.len(),
        match r {
            Some(v) => final(f).valid_value(v),
            None => true,
        },
{
    let n = elems.len();
    let mut consts: Vec<crate::entity::Const> = Vec::new();
    let mut all_const = true;
    let mut i: usize = 0;
    while i < n
        invariant
            f.wf(),
            n == elems@.len(),
            forall|k: int| 0 <= k < n ==> f.valid_value(#[trigger] elems@[k]),
            i <= n,
            forall|k: int|
                0 <= k < consts@.len() ==> (#[trigger] consts@[k]).0 < f.constant_container.len(),
        decreases n - i,
    {
        match f.value_const(elems[i]) {
            Some(c) => {
                proof {
                    assert(f.value_kind_ok(
                        elems@[i as int].0 as int,
                        f.values@[elems@[i as int].0 as int].kind,
                    ));
                }
                consts.push(c);
            },
            None => {
                all_const = false;
            },
        }
        i += 1;
    }
    if all_const && consts.len() == n {
        let ck = f.cons_intern(ConstKind::Tuple(consts));
        Some(f.const_value(ck))
    } else {
        Some(f.prim_tuple(elems))
    }
}

/// Parse a basic type name as `type_to_text` prints it.
fn parse_type(bytes: &Vec<u8>, pos: &mut usize) -> (r: Option<BasicType>)
    requires
        *old(pos) <= bytes@.len(),
    ensures
        *old(pos) <= *final(pos) <= bytes@.len(),
{
    let name = parse_ident_bytes(bytes, pos);
    if byte_lit_eq(&name, "list") {
        Some(BasicType::List)
    } else if byte_lit_eq(&name, "cons") {
        Some(BasicType::ListCell)
    } else if byte_lit_eq(&name, "nil") {
        Some(BasicType::Nil)
    } else if byte_lit_eq(&name, "map") {
        Some(BasicType::Mapping)
    } else if byte_lit_eq(&name, "number") {
        Some(BasicType::Number)
    } else if byte_lit_eq(&name, "float") {
        Some(BasicType::Float)
    } else if byte_lit_eq(&name, "integer") {
        Some(BasicType::Integer)
    } else if byte_lit_eq(&name, "smallint") {
        Some(BasicType::SmallInteger)
    } else if byte_lit_eq(&name, "bigint") {
        Some(BasicType::BigInteger)
    } else if byte_lit_eq(&name, "tuple") {
        if !eat_lit(bytes, pos, "(") {
            return None;
        }
        let n = match parse_number(bytes, pos) {
            Some(n) => n as usize,
            None => {
                return None;
            },
        };
        if !eat_lit(bytes, pos, ")") {
            return None;
        }
        Some(BasicType::Tuple(n))
    } else {
        None
    }
}

/// Parse the bracketed branch list of a match terminator. Binary branches
/// carry a specifier the text does not encode, so they are rejected.
fn parse_branches(bytes: &Vec<u8>, pos: &mut usize) -> (r: Option<Vec<MatchKind>>)
    requires
        *old(pos) <= bytes@.len(),
    ensures
        *old(pos) <= *final(pos) <= bytes@.len(),
{
    if !eat_lit(bytes, pos, "[") {
        return None;
    }
    let mut out: Vec<MatchKind> = Vec::new();
    if eat_lit(bytes, pos, "]") {
        return Some(out);
    }
    let mut first = true;
    loop
        invariant
            *old(pos) <= *pos <= bytes@.len(),
            !first ==> *pos > *old(pos),
        decreases bytes@.len() - *pos, (if first {
            1int
        } else {
            0int
        }),
    {
        if !first {
            if !eat_lit(bytes, pos, ", ") {
                return None;
            }
        }
        first = false;
        if *pos >= bytes.len() {
            return None;
        }
        let c = bytes[*pos];
        let kind = if c == 123 {
            if !eat_lit(bytes, pos, "{} arity ") {
                return None;
            }
            match parse_number(bytes, pos) {
                Some(n) => MatchKind::Tuple(n as usize),
                None => {
                    return None;
                },
            }
        } else if c == 91 {
            if !eat_lit(bytes, pos, "[]") {
                return None;
            }
            MatchKind::ListCell
        } else if c == 37 {
            if !eat_lit(bytes, pos, "%{}") {
                return None;
            }
            MatchKind::MapItem
        } else if c == 95 {
            *pos = *pos + 1;
            MatchKind::Wildcard
        } else {
            let name = parse_ident_bytes(bytes, pos);
            if name.len() == 0 {
                return None;
            }
            if byte_lit_eq(&name, "value") {
                MatchKind::Value
            } else if byte_lit_eq(&name, "is_type") {
                if !eat_lit(bytes, pos, " ") {
                    return None;
                }
                match parse_type(bytes, pos) {
                    Some(ty) => MatchKind::Type(ty),
                    None => {
                        return None;
                    },
                }
            } else {
                return None;
            }
        };
        out.push(kind);
        if eat_lit(bytes, pos, "]") {
            return Some(out);
        }
    }
}

/// Parse one terminator line and install it on `b`.
fn parse_op_line(
    f: &mut Function,
    bmap: &Vec<(usize, Block)>,
    bytes: &Vec<u8>,
    pos: &mut usize,
    b: Block,
) -> (r: Option<()>)
    requires
        old(f).wf(),
        bmap_ok(bmap@, *old(f)),
        old(f).valid_block(b),
        *old(pos) <= bytes@.len(),
    ensures
        final(f).wf(),
        final(f).n_blocks() == old(f).n_blocks(),
        final(f).entry_block == old(f).entry_block,
        bmap_ok(bmap@, *final(f)),
{
    let keyword = parse_ident_bytes(bytes, pos);
    let mut op: OpKind = OpKind::Unreachable;
    if byte_lit_eq(&keyword, "incomplete") {
        // A block still under construction: no terminator to install.
        if !eat_lit(bytes, pos, ";") {
            return None;
        }
        return Some(());
    }
    if byte_lit_eq(&keyword, "call") {
        if !eat_lit(bytes, pos, " ") {
            return None;
        }
        op = OpKind::Call(CallKind::Function);
    } else if byte_lit_eq(&keyword, "flow") {
        if !eat_lit(bytes, pos, " ") {
            return None;
        }
        op = OpKind::Call(CallKind::ControlFlow);
    } else if byte_lit_eq(&keyword, "if_bool") {
        if !eat_lit(bytes, pos, " ") {
            return None;
        }
        op = OpKind::IfBool;
    } else if byte_lit_eq(&keyword, "unpack") {
        if !eat_lit(bytes, pos, " arity ") {
            return None;
        }
        let n = match parse_number(bytes, pos) {
            Some(n) => n as usize,
            None => {
                return None;
            },
        };
        if !eat_lit(bytes, pos, " ") {
            return None;
        }
        op = OpKind::UnpackValueList(n);
    } else if byte_lit_eq(&keyword, "match") {
        if !eat_lit(bytes, pos, " ") {
            return None;
        }
        let branches = match parse_branches(bytes, pos) {
            Some(bs) => bs,
            None => {
                return None;
            },
        };
        if !eat_lit(bytes, pos, " ") {
            return None;
        }
        op = OpKind::Match { branches };
    } else if byte_lit_eq(&keyword, "map_put") {
        if eat_lit(bytes, pos, " put ") {
            op = OpKind::MapPut { action: MapPutUpdate::Put };
        } else if eat_lit(bytes, pos, " update ") {
            op = OpKind::MapPut { action: MapPutUpdate::Update };
        } else {
            return None;
        }
    } else if byte_lit_eq(&keyword, "trace_capture_raw") {
        if !eat_lit(bytes, pos, " ") {
            return None;
        }
        op = OpKind::TraceCaptureRaw;
    } else if byte_lit_eq(&keyword, "trace_construct") {
        if !eat_lit(bytes, pos, " ") {
            return None;
        }
        op = OpKind::TraceConstruct;
    } else if byte_lit_eq(&keyword, "unreachable") {
        op = OpKind::Unreachable;
    } else if byte_lit_eq(&keyword, "intrinsic") {
        if !eat_lit(bytes, pos, " ") {
            return None;
        }
        let name = parse_ident_bytes(bytes, pos);
        if name.len() == 0 {
            return None;
        }
        if !eat_lit(bytes, pos, " ") {
            return None;
        }
        op = OpKind::Intrinsic(ascii_bytes_to_string(&name));
    } else if byte_lit_eq(&keyword, "dyn") {
        if !eat_lit(bytes, pos, " ") {
            return None;
        }
        let name = parse_ident_bytes(bytes, pos);
        if name.len() == 0 {
            return None;
        }
        if !eat_lit(bytes, pos, " ") {
            return None;
        }
        op = OpKind::Dyn(ascii_bytes_to_string(&name));
    } else {
        return None;
    }
    if !eat_lit(bytes, pos, "(") {
        return None;
    }
    let reads = match parse_value_list(f, bmap, bytes, pos, 41) {
        Some(vs) => vs,
        None => {
            return None;
        },
    };
    if !eat_lit(bytes, pos, ";") {
        return None;
    }
    let clear = match f.block_kind(b) {
        Some(_) => false,
        None => true,
    };
    if !(clear) {
        return None;
    }
    f.block_set_op(b, op, reads);
    Some(())
}

/// Parse a whole function from the textual form `to_text` emits. The
/// first labelled block is the entry. Malformed text, unknown terminators
/// and duplicate labels yield nothing.
pub fn parse_function_text(text: &str) -> (r: Option<Function>)
    ensures
        match r {
            Some(g) => g.wf() && g.entry_block is Some && g.n_blocks() >= 1,
            None => true,
        },
{
    let bytes = text.as_bytes_vec();
    let mut pos: usize = 0;
    if !eat_lit(&bytes, &mut pos, "function ") {
        return None;
    }
    let module = parse_ident_bytes(&bytes, &mut pos);
    if !eat_lit(&bytes, &mut pos, ":") {
        return None;
    }
    let name = parse_ident_bytes(&bytes, &mut pos);
    if !eat_lit(&bytes, &mut pos, "/") {
        return None;
    }
    let arity = match parse_number(&bytes, &mut pos) {
        Some(n) => n as usize,
        None => {
            return None;
        },
    };
    if !eat_lit(&bytes, &mut pos, " {\n") {
        return None;
    }
    let mut f = Function::new(
        SourceSpan::unknown(),
        FunctionIdent {
            module: ascii_bytes_to_string(&module),
            name: ascii_bytes_to_string(&name),
            arity,
        },
    );
    // First pass: find every label, its arity and where its terminator
    // line starts.
    let mut labels: Vec<(usize, usize, usize)> = Vec::new();
    let body_start = pos;
    loop
        invariant
            pos <= bytes@.len(),
            forall|i: int| 0 <= i < labels@.len() ==> (#[trigger] labels@[i]).2 <= bytes@.len(),
        decreases bytes@.len() - pos,
    {
        if eat_lit(&bytes, &mut pos, "}") {
            break;
        }
        if !eat_lit(&bytes, &mut pos, "  b") {
            return None;
        }
        let n = match parse_number(&bytes, &mut pos) {
            Some(n) => n as usize,
            None => {
                return None;
            },
        };
        if !eat_lit(&bytes, &mut pos, "(") {
            return None;
        }
        let mut argc: usize = 0;
        let ghost pmid = pos;
        if !eat_lit(&bytes, &mut pos, ")") {
            let mut first = true;
            loop
                invariant
                    pmid <= pos <= bytes@.len(),
                    argc <= pos,
                decreases bytes@.len() - pos, (if first {
                    1int
                } else {
                    0int
                }),
            {
                if !first {
                    if !eat_lit(&bytes, &mut pos, ", ") {
                        return None;
                    }
                }
                first = false;
                if !eat_lit(&bytes, &mut pos, "%a") {
                    return None;
                }
                if parse_number(&bytes, &mut pos).is_none() {
                    return None;
                }
                if !eat_lit(&bytes, &mut pos, "_") {
                    return None;
                }
                if parse_number(&bytes, &mut pos).is_none() {
                    return None;
                }
                if argc < usize::MAX {
                    argc += 1;
                }
                if eat_lit(&bytes, &mut pos, ")") {
                    break;
                }
            }
        }
        if !eat_lit(&bytes, &mut pos, ":\n    ") {
            return None;
        }
        let op_start = pos;
        // Skip the terminator line.
        while pos < bytes.len() && bytes[pos] != 10
            invariant
                op_start <= pos <= bytes@.len(),
            decreases bytes@.len() - pos,
        {
            pos += 1;
        }
        if pos >= bytes.len() {
            return None;
        }
        pos += 1;
        labels.push((n, argc, op_start));
    }
    // Create every block with its formals, in label order.
    let nl = labels.len();
    let mut bmap: Vec<(usize, Block)> = Vec::new();
    let mut i: usize = 0;
    while i < nl
        invariant
            f.wf(),
            f.entry_block is None,
            nl == labels@.len(),
            i <= nl,
            bmap@.len() == i,
            bmap_ok(bmap@, f),
            f.n_blocks() == i,
        decreases nl - i,
    {
        if f.blocks.len() >= 0x0100_0000 {
            return None;
        }
        let (n, argc, _start) = labels[i];
        if lookup_block(&bmap, n).is_some() {
            // Duplicate label.
            return None;
        }
        let b = f.block_insert();
        let mut a: usize = 0;
        while a < argc
            invariant
                f.wf(),
                f.entry_block is None,
                b.0 < f.n_blocks(),
                a <= argc,
                bmap_ok(bmap@, f),
                f.n_blocks() == i + 1,
            decreases argc - a,
        {
            let _ = f.block_arg_insert(b);
            a += 1;
        }
        bmap.push((n, b));
        i += 1;
    }
    if nl == 0 {
        return None;
    }
    // Second pass: parse and install every terminator.
    let mut j: usize = 0;
    while j < nl
        invariant
            f.wf(),
            f.entry_block is None,
            nl == labels@.len(),
            forall|k: int| 0 <= k < nl ==> (#[trigger] labels@[k]).2 <= bytes@.len(),
            bmap@.len() == nl,
            bmap_ok(bmap@, f),
            f.n_blocks() == nl,
            j <= nl,
        decreases nl - j,
    {
        let (_n, _argc, start) = labels[j];
        let mut pos2: usize = start;
        let b = bmap[j].1;
        if parse_op_line(&mut f, &bmap, &bytes, &mut pos2, b).is_none() {
            return None;
        }
        j += 1;
    }
    let entry = bmap[0].1;
    f.block_set_entry(entry);
    Some(f)
}

} // verus!
