//! Core IR behavior: builder operations, interning, value lists,
//! locations and the graph invariant.

use eir::{
    BasicType, Block, ConstKind, Function, FunctionIdent, PrimOpKind, SourceSpan, Value,
    ValueKind,
};

fn new_fun(name: &str, arity: usize) -> Function {
    Function::new(
        SourceSpan { start: 0, end: 0 },
        FunctionIdent { module: String::from("m"), name: String::from(name), arity },
    )
}

#[test]
fn block_insert_and_args() {
    let mut f = new_fun("f", 2);
    let b = f.block_insert();
    assert_eq!(b, Block(0));
    let a0 = f.block_arg_insert(b);
    let a1 = f.block_arg_insert(b);
    assert_eq!(f.block_args(b).len(), 2);
    assert_eq!(f.block_args(b)[0], a0);
    assert_eq!(f.block_args(b)[1], a1);
    // The argument value records its defining slot.
    assert_eq!(f.value_argument(a1), Some((b, 1)));
    assert_eq!(f.value_argument(a0), Some((b, 0)));
    // The block's denoting value resolves back to the block.
    let bv = f.block_value(b);
    assert_eq!(f.value_block(bv), Some(b));
    assert_eq!(f.value_argument(bv), None);
}

#[test]
fn constant_interning_is_canonical() {
    let mut f = new_fun("f", 0);
    let c1 = f.cons_intern(ConstKind::Atom(String::from("ok")));
    let c2 = f.cons_intern(ConstKind::Atom(String::from("ok")));
    assert_eq!(c1, c2);
    let c3 = f.cons_intern(ConstKind::Atom(String::from("error")));
    assert_ne!(c1, c3);
    let c4 = f.cons_intern(ConstKind::Integer(42));
    let c5 = f.cons_intern(ConstKind::Integer(42));
    assert_eq!(c4, c5);
    let t1 = f.cons_intern(ConstKind::Tuple(vec![c1, c4]));
    let t2 = f.cons_intern(ConstKind::Tuple(vec![c1, c4]));
    assert_eq!(t1, t2);
    let t3 = f.cons_intern(ConstKind::Tuple(vec![c4, c1]));
    assert_ne!(t1, t3);
    // The value for a constant is interned too.
    let v1 = f.const_value(c1);
    let v2 = f.const_value(c1);
    assert_eq!(v1, v2);
    assert_eq!(f.value_const(v1), Some(c1));
    assert!(f.value_is_constant(v1));
    assert!(f.iter_constants().contains(&v1));
}

#[test]
fn primop_dedup_returns_same_value() {
    // Building tuple(a, b) twice returns the same value, and the primop
    // arena holds exactly one matching entry.
    let mut f = new_fun("f", 0);
    let b = f.block_insert();
    let a0 = f.block_arg_insert(b);
    let a1 = f.block_arg_insert(b);
    let t1 = f.prim_tuple(&vec![a0, a1]);
    let t2 = f.prim_tuple(&vec![a0, a1]);
    assert_eq!(t1, t2);
    let p = f.value_primop(t1).unwrap();
    assert_eq!(f.primop_kind(p), PrimOpKind::Tuple);
    assert_eq!(f.primop_reads(p).as_slice(), &[a0, a1]);
    // A different operand order is a different primop.
    let t3 = f.prim_tuple(&vec![a1, a0]);
    assert_ne!(t1, t3);
}

#[test]
fn value_list_length_and_get() {
    let mut f = new_fun("f", 0);
    let b = f.block_insert();
    let a0 = f.block_arg_insert(b);
    let a1 = f.block_arg_insert(b);
    let vl = f.prim_value_list(&vec![a0, a1]);
    assert_eq!(f.value_list_length(vl), 2);
    assert_eq!(f.value_list_get_n(vl, 0), Some(a0));
    assert_eq!(f.value_list_get_n(vl, 1), Some(a1));
    assert_eq!(f.value_list_get_n(vl, 2), None);
    // A value that is not a value list stands for itself alone.
    assert_eq!(f.value_list_length(a0), 1);
    assert_eq!(f.value_list_get_n(a0, 0), Some(a0));
    assert_eq!(f.value_list_get_n(a0, 1), None);
    // Including a non-list primop.
    let tup = f.prim_tuple(&vec![a0, a1]);
    assert_eq!(f.value_list_length(tup), 1);
    assert_eq!(f.value_list_get_n(tup, 0), Some(tup));
}

#[test]
fn graph_edges_follow_reads() {
    let mut f = new_fun("f", 0);
    let entry = f.block_insert();
    let t = f.block_insert();
    let a = f.block_arg_insert(entry);
    let tv = f.block_value(t);
    f.op_call_flow(entry, tv, &vec![a]);
    f.block_set_entry(entry);
    // Successor and predecessor sets match the terminator reads.
    assert!(f.graph.has_succ(entry.0, t.0));
    assert!(f.graph.has_pred(t.0, entry.0));
    assert!(!f.graph.has_succ(t.0, entry.0));
    assert_eq!(f.graph.succs_list(entry.0), vec![t.0]);
    assert_eq!(f.graph.preds_list(t.0), vec![entry.0]);
    assert!(f.graph_validate_global());
    // Clearing the terminator detaches the edges.
    f.block_clear(entry);
    assert!(!f.graph.has_succ(entry.0, t.0));
    assert!(!f.graph.has_pred(t.0, entry.0));
    assert!(f.graph_validate_global());
}

#[test]
fn nested_block_targets_count() {
    // A block value nested inside a value list still makes an edge.
    let mut f = new_fun("f", 0);
    let entry = f.block_insert();
    let w = f.block_insert();
    let sel = f.block_arg_insert(entry);
    let wv = f.block_value(w);
    let dests = f.prim_value_list(&vec![wv]);
    let no_args = f.prim_value_list(&vec![]);
    f.op_match(
        entry,
        vec![eir::MatchKind::Wildcard],
        dests,
        sel,
        &vec![no_args],
    );
    f.block_set_entry(entry);
    assert!(f.graph.has_succ(entry.0, w.0));
    assert!(f.graph.has_pred(w.0, entry.0));
    assert!(f.graph_validate_global());
}

#[test]
fn validate_after_every_builder_operation() {
    let mut f = new_fun("f", 1);
    let entry = f.block_insert();
    assert!(f.graph_validate_global());
    let a = f.block_arg_insert(entry);
    assert!(f.graph_validate_global());
    let ok = f.block_insert();
    let _ok_arg = f.block_arg_insert(ok);
    let err = f.block_insert();
    let _err_arg = f.block_arg_insert(err);
    assert!(f.graph_validate_global());
    let callee = f.cons_intern(ConstKind::Atom(String::from("g")));
    let callee_v = f.const_value(callee);
    assert!(f.graph_validate_global());
    let okv = f.block_value(ok);
    let errv = f.block_value(err);
    f.op_call_function(entry, callee_v, okv, errv, &vec![a]);
    assert!(f.graph_validate_global());
    f.block_set_entry(entry);
    assert!(f.graph_validate_global());
    assert_eq!(f.entry_arg_num(), 1);
}

#[test]
fn location_concat_stacks_terminals() {
    let mut f = new_fun("f", 0);
    let callee_span = SourceSpan { start: 10, end: 20 };
    let caller_span = SourceSpan { start: 30, end: 40 };
    let lt = f.locations.location(Some(String::from("a.erl")), Some(3), None, callee_span);
    let le = f.locations.location(Some(String::from("b.erl")), Some(7), None, caller_span);
    let cat = f.locations.concat_locations(lt, le);
    // The callee's terminals come first, then the caller's.
    let spans = f.locations.lookup(cat);
    assert_eq!(spans, vec![callee_span, caller_span]);
    // The sources are unchanged.
    assert_eq!(f.locations.lookup(lt), vec![callee_span]);
    assert_eq!(f.locations.lookup(le), vec![caller_span]);
}

#[test]
fn location_unknown_has_one_terminal() {
    let mut f = new_fun("f", 0);
    let l = f.locations.location_unknown();
    let spans = f.locations.lookup(l);
    assert_eq!(spans.len(), 1);
    assert_eq!(spans[0], SourceSpan::unknown());
    let e = f.locations.location_empty();
    assert_eq!(f.locations.lookup(e).len(), 0);
}

#[test]
fn type_names() {
    assert_eq!(eir::type_to_text(&BasicType::List), "list");
    assert_eq!(eir::type_to_text(&BasicType::ListCell), "cons");
    assert_eq!(eir::type_to_text(&BasicType::Nil), "nil");
    assert_eq!(eir::type_to_text(&BasicType::Tuple(3)), "tuple(3)");
    assert_eq!(eir::type_to_text(&BasicType::Mapping), "map");
    assert_eq!(eir::type_to_text(&BasicType::Number), "number");
    assert_eq!(eir::type_to_text(&BasicType::Float), "float");
    assert_eq!(eir::type_to_text(&BasicType::Integer), "integer");
    assert_eq!(eir::type_to_text(&BasicType::SmallInteger), "smallint");
    assert_eq!(eir::type_to_text(&BasicType::BigInteger), "bigint");
    assert_eq!(eir::decimal_string(0), "0");
    assert_eq!(eir::decimal_string(10), "10");
    assert_eq!(eir::decimal_string(90107), "90107");
}

#[test]
fn value_get_finds_interned_kinds() {
    let mut f = new_fun("f", 0);
    let b = f.block_insert();
    let c = f.cons_intern(ConstKind::Nil);
    let cv = f.const_value(c);
    assert_eq!(f.value_get(ValueKind::Const(c)), Some(cv));
    assert_eq!(f.value_get(ValueKind::Block(b)), Some(f.block_value(b)));
    assert_eq!(f.value_get(ValueKind::Argument(b, 0)), None);
    let a = f.block_arg_insert(b);
    assert_eq!(f.value_get(ValueKind::Argument(b, 0)), Some(a));
}

#[test]
fn walk_nested_values_visits_operands() {
    let mut f = new_fun("f", 0);
    let b = f.block_insert();
    let a0 = f.block_arg_insert(b);
    let a1 = f.block_arg_insert(b);
    let inner = f.prim_tuple(&vec![a0, a1]);
    let outer = f.prim_tuple(&vec![inner, a0]);
    let nested = f.value_walk_nested_values(outer).clone();
    assert_eq!(nested[0], outer);
    assert!(nested.contains(&inner));
    assert!(nested.contains(&a0));
    assert!(nested.contains(&a1));
    let direct = f.value_walk_nested_values(a0);
    assert_eq!(direct.as_slice(), &[a0]);
}

#[test]
fn printed_function_shows_blocks() {
    let mut f = new_fun("main", 0);
    let entry = f.block_insert();
    f.op_unreachable(entry);
    f.block_set_entry(entry);
    let text = f.to_text();
    assert_eq!(
        text,
        "function m:main/0 {\n  b0():\n    unreachable();\n}\n"
    );
}

#[test]
fn block_op_eq_compares_structurally() {
    let mut f = new_fun("f", 0);
    let b1 = f.block_insert();
    f.op_unreachable(b1);
    let mut g = new_fun("g", 0);
    let b2 = g.block_insert();
    let b3 = g.block_insert();
    g.op_unreachable(b2);
    let name = String::from("receive_wait_forever");
    g.op_intrinsic(b3, name, &vec![]);
    assert!(f.block_op_eq(b1, &g, b2));
    assert!(!f.block_op_eq(b1, &g, b3));
}

#[test]
fn default_block_is_reserved() {
    let b: Block = Default::default();
    assert_eq!(b.0, usize::MAX);
}

#[test]
fn map_put_reads_layout() {
    let mut f = new_fun("f", 0);
    let entry = f.block_insert();
    let ok = f.block_insert();
    let _okv = f.block_arg_insert(ok);
    let fail = f.block_insert();
    let _fv = f.block_arg_insert(fail);
    let empty = f.cons_intern(ConstKind::Mapping(vec![], vec![]));
    let map_v = f.const_value(empty);
    let k = f.cons_intern(ConstKind::Atom(String::from("k")));
    let kv = f.const_value(k);
    let one = f.cons_intern(ConstKind::Integer(1));
    let ov = f.const_value(one);
    let okv = f.block_value(ok);
    let failv = f.block_value(fail);
    f.op_map_put(
        entry,
        eir::MapPutUpdate::Put,
        okv,
        failv,
        map_v,
        &vec![kv],
        &vec![ov],
    );
    f.block_set_entry(entry);
    let reads = f.block_reads(entry);
    assert_eq!(reads.as_slice(), &[okv, failv, map_v, kv, ov]);
    assert!(f.graph_validate_global());
}

#[test]
fn unpack_value_list_layout() {
    let mut f = new_fun("f", 0);
    let entry = f.block_insert();
    let a = f.block_arg_insert(entry);
    let cont = f.block_insert();
    let _c0 = f.block_arg_insert(cont);
    let contv = f.block_value(cont);
    f.op_unpack_value_list(entry, 1, contv, a);
    f.block_set_entry(entry);
    let reads = f.block_reads(entry);
    assert_eq!(reads.as_slice(), &[contv, a]);
    assert!(matches!(f.block_kind(entry), Some(eir::OpKind::UnpackValueList(1))));
}

#[test]
fn value_usages_requires_are_honored_by_shape() {
    // A value used in two blocks appears in both blocks' reads.
    let mut f = new_fun("f", 0);
    let b1 = f.block_insert();
    let b2 = f.block_insert();
    let c = f.cons_intern(ConstKind::Integer(7));
    let cv = f.const_value(c);
    let b2v = f.block_value(b2);
    f.op_call_flow(b1, b2v, &vec![cv]);
    f.op_unreachable(b2);
    f.block_set_entry(b1);
    assert!(f.graph_validate_global());
    assert!(f.block_reads(b1).contains(&cv));
}

#[test]
fn live_values_fixpoint() {
    // entry(a): flow t(); t(): call g(a) => ok except err.
    // The argument a is live at t (read there, defined at entry).
    let mut f = new_fun("lv", 1);
    let entry = f.block_insert();
    let a = f.block_arg_insert(entry);
    let t = f.block_insert();
    let ok = f.block_insert();
    let _ok0 = f.block_arg_insert(ok);
    let err = f.block_insert();
    let _err0 = f.block_arg_insert(err);
    let g = f.cons_intern(ConstKind::Atom(String::from("g")));
    let gv = f.const_value(g);
    let okv = f.block_value(ok);
    let errv = f.block_value(err);
    f.op_call_function(t, gv, okv, errv, &vec![a]);
    let tv = f.block_value(t);
    f.op_call_flow(entry, tv, &vec![]);
    f.block_set_entry(entry);
    let (live, converged) = f.live_values();
    assert!(converged);
    // a is live at t, and propagates to no block that defines it.
    assert!(live[t.0][a.0]);
    assert!(!live[entry.0][a.0]);
    assert!(!live[ok.0][a.0]);
}

#[test]
fn value_usages_lists_using_blocks() {
    // A value read by two blocks is reported for both, and for no other.
    let mut f = new_fun("us", 0);
    let b1 = f.block_insert();
    let b2 = f.block_insert();
    let b3 = f.block_insert();
    let c = f.cons_intern(ConstKind::Integer(9));
    let cv = f.const_value(c);
    let b3v = f.block_value(b3);
    f.op_call_flow(b1, b3v, &vec![cv]);
    f.op_call_flow(b2, b3v, &vec![cv]);
    f.op_unreachable(b3);
    f.block_set_entry(b1);
    let users = f.value_usages(cv);
    assert_eq!(users, vec![b1, b2]);
    let b3_users = f.value_usages(b3v);
    assert_eq!(b3_users, vec![b1, b2]);
    let none = f.value_usages(f.block_value(b1));
    assert!(none.is_empty());
}

#[test]
fn locations_are_deduplicated() {
    // The empty location and repeated concatenations share handles.
    let mut f = new_fun("ld", 0);
    let e1 = f.locations.location_empty();
    let e2 = f.locations.location_empty();
    assert_eq!(e1, e2);
    let la = f.locations.location(None, Some(1), None, SourceSpan { start: 1, end: 2 });
    let lb = f.locations.location(None, Some(2), None, SourceSpan { start: 3, end: 4 });
    let c1 = f.locations.concat_locations(la, lb);
    let c2 = f.locations.concat_locations(la, lb);
    assert_eq!(c1, c2);
    let c3 = f.locations.concat_locations(lb, la);
    assert_ne!(c1, c3);
}
