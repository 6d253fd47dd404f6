//! Print/parse round trips: the parsed function is isomorphic to the
//! printed one, up to the renumbering of arena handles.

use eir::{
    fn_isomorphic, parse_function_text, ConstKind, Function, FunctionIdent, MatchKind,
    SourceSpan,
};

fn new_fun(name: &str, arity: usize) -> Function {
    Function::new(
        SourceSpan { start: 0, end: 0 },
        FunctionIdent { module: String::from("m"), name: String::from(name), arity },
    )
}

/// `entry(a,b): flow t(a,b); t(x,y): call f(x,y) => ok except err`.
fn build_forward() -> Function {
    let mut f = new_fun("fwd", 2);
    let entry = f.block_insert();
    let a = f.block_arg_insert(entry);
    let b = f.block_arg_insert(entry);
    let t = f.block_insert();
    let x = f.block_arg_insert(t);
    let y = f.block_arg_insert(t);
    let ok = f.block_insert();
    let _ok0 = f.block_arg_insert(ok);
    let err = f.block_insert();
    let _err0 = f.block_arg_insert(err);
    let callee = f.cons_intern(ConstKind::Atom(String::from("f")));
    let callee_v = f.const_value(callee);
    let okv = f.block_value(ok);
    let errv = f.block_value(err);
    f.op_call_function(t, callee_v, okv, errv, &vec![x, y]);
    let tv = f.block_value(t);
    f.op_call_flow(entry, tv, &vec![a, b]);
    f.block_set_entry(entry);
    f
}

#[test]
fn round_trip_forwarding_function() {
    let f = build_forward();
    let text = f.to_text();
    let g = parse_function_text(text.as_str()).expect("printed text parses back");
    assert!(fn_isomorphic(&f, &g));
    // Printing the parse is a fixed point of the format.
    let text2 = g.to_text();
    assert_eq!(text, text2);
}

#[test]
fn round_trip_match_and_constants() {
    // entry(v): match v [value, is_type tuple(2), _] over three arms, with
    // constant and value-list operands.
    let mut f = new_fun("sel", 1);
    let entry = f.block_insert();
    let v = f.block_arg_insert(entry);
    let w1 = f.block_insert();
    let w2 = f.block_insert();
    let w3 = f.block_insert();
    f.op_unreachable(w1);
    f.op_unreachable(w2);
    f.op_unreachable(w3);
    let one = f.cons_intern(ConstKind::Integer(1));
    let one_v = f.const_value(one);
    let atom = f.cons_intern(ConstKind::Atom(String::from("ok")));
    let atom_v = f.const_value(atom);
    let tup = f.cons_intern(ConstKind::Tuple(vec![one, atom]));
    let tup_v = f.const_value(tup);
    let w1v = f.block_value(w1);
    let w2v = f.block_value(w2);
    let w3v = f.block_value(w3);
    let dests = f.prim_value_list(&vec![w1v, w2v, w3v]);
    let args1 = f.prim_value_list(&vec![one_v]);
    let args2 = f.prim_value_list(&vec![atom_v]);
    let args3 = f.prim_value_list(&vec![tup_v]);
    f.op_match(
        entry,
        vec![MatchKind::Value, MatchKind::Type(eir::BasicType::Tuple(2)), MatchKind::Wildcard],
        dests,
        v,
        &vec![args1, args2, args3],
    );
    f.block_set_entry(entry);
    let text = f.to_text();
    let g = parse_function_text(text.as_str()).expect("printed text parses back");
    assert!(fn_isomorphic(&f, &g));
}

#[test]
fn round_trip_intrinsic_and_cycle_output() {
    // The output of the cycle rewrite parses back.
    let mut f = new_fun("cycle", 0);
    let entry = f.block_insert();
    let lp = f.block_insert();
    let lpv = f.block_value(lp);
    f.op_call_flow(lp, lpv, &vec![]);
    f.op_call_flow(entry, lpv, &vec![]);
    f.block_set_entry(entry);
    let mut pass = eir::SimplifyCfgPass::new();
    pass.simplify_cfg(&mut f);
    let text = f.to_text();
    let g = parse_function_text(text.as_str()).expect("printed text parses back");
    assert!(fn_isomorphic(&f, &g));
}

#[test]
fn malformed_text_is_rejected() {
    assert!(parse_function_text("nonsense").is_none());
    assert!(parse_function_text("function m:f/0 {\n}\n").is_none());
    assert!(parse_function_text("function m:f/0 {\n  b0():\n    warp();\n}\n").is_none());
    // A reference to a label that does not exist is rejected.
    assert!(
        parse_function_text("function m:f/0 {\n  b0():\n    flow (^b9);\n}\n").is_none()
    );
}

#[test]
fn round_trip_rich_operands() {
    // Nil, list cells, maps, binaries and a comparison primop all survive
    // the trip through text.
    let mut f = new_fun("rich", 1);
    let entry = f.block_insert();
    let a = f.block_arg_insert(entry);
    let t = f.block_insert();
    f.op_unreachable(t);
    let nil = f.cons_intern(ConstKind::Nil);
    let one = f.cons_intern(ConstKind::Integer(1));
    let neg = f.cons_intern(ConstKind::Integer(-7));
    let cell = f.cons_intern(ConstKind::ListCell(one, nil));
    let cell_v = f.const_value(cell);
    let key = f.cons_intern(ConstKind::Atom(String::from("k")));
    let map = f.cons_intern(ConstKind::Mapping(vec![key], vec![neg]));
    let map_v = f.const_value(map);
    let bin = f.cons_intern(ConstKind::Binary(vec![0, 200, 15]));
    let bin_v = f.const_value(bin);
    let one_v = f.const_value(one);
    let cmp = f.prim_binop(eir::BinOp::Lt, a, one_v);
    let tv = f.block_value(t);
    f.op_call_flow(entry, tv, &vec![cell_v, map_v, bin_v, cmp]);
    f.block_set_entry(entry);
    let text = f.to_text();
    let g = parse_function_text(text.as_str()).expect("printed text parses back");
    assert!(fn_isomorphic(&f, &g));
    assert_eq!(text, g.to_text());
}

#[test]
fn round_trip_after_simplify() {
    // Simplifying and then printing still yields parseable text that
    // parses to an isomorphic function.
    let mut f = build_forward();
    let mut pass = eir::SimplifyCfgPass::new();
    pass.simplify_cfg(&mut f);
    let text = f.to_text();
    let g = parse_function_text(text.as_str()).expect("printed text parses back");
    assert!(fn_isomorphic(&f, &g));
}
