//! End-to-end behavior of the CFG simplification pass and the mangler.

use eir::{
    fn_isomorphic, CallKind, ConstKind, Function, FunctionIdent, Mangler, MatchKind, OpKind,
    SimplifyCfgPass, SourceSpan, Value,
};

fn new_fun(name: &str, arity: usize) -> Function {
    Function::new(
        SourceSpan { start: 0, end: 0 },
        FunctionIdent { module: String::from("m"), name: String::from(name), arity },
    )
}

/// `entry(a,b): flow t(a,b); t(x,y): call f(x,y) => ok except err`.
fn build_trivial_forward() -> (Function, Value) {
    let mut f = new_fun("fwd", 2);
    let entry = f.block_insert();
    let a = f.block_arg_insert(entry);
    let b = f.block_arg_insert(entry);
    let t = f.block_insert();
    let x = f.block_arg_insert(t);
    let y = f.block_arg_insert(t);
    let ok = f.block_insert();
    let _ok0 = f.block_arg_insert(ok);
    let err = f.block_insert();
    let _err0 = f.block_arg_insert(err);
    let callee = f.cons_intern(ConstKind::Atom(String::from("f")));
    let callee_v = f.const_value(callee);
    let okv = f.block_value(ok);
    let errv = f.block_value(err);
    f.op_call_function(t, callee_v, okv, errv, &vec![x, y]);
    let tv = f.block_value(t);
    f.op_call_flow(entry, tv, &vec![a, b]);
    f.block_set_entry(entry);
    (f, callee_v)
}

#[test]
fn trivial_call_forwarding() {
    let (mut f, callee_v) = build_trivial_forward();
    let t = eir::Block(1);
    assert!(f.graph_validate_global());
    let mut pass = SimplifyCfgPass::new();
    pass.simplify_cfg(&mut f);
    assert!(f.graph_validate_global());
    // The entry now calls f(a, b) directly.
    let entry = f.block_entry();
    assert!(matches!(f.block_kind(entry), Some(OpKind::Call(CallKind::Function))));
    let reads = f.block_reads(entry).clone();
    assert_eq!(reads.len(), 5);
    assert_eq!(reads[0], callee_v);
    let args = f.block_args(entry).clone();
    assert_eq!(reads[3], args[0]);
    assert_eq!(reads[4], args[1]);
    // The forwarder block is no longer reachable.
    let reach = f.reachable_blocks();
    assert!(!reach[t.0]);
}

#[test]
fn two_entries_shared_target_with_renaming() {
    // entry(x): if_bool x, e1, e2; e1(): flow t(1); e2(): flow t(2);
    // t(v): call g(v) => ok except err.
    let mut f = new_fun("sel", 1);
    let entry = f.block_insert();
    let x = f.block_arg_insert(entry);
    let e1 = f.block_insert();
    let e2 = f.block_insert();
    let t = f.block_insert();
    let v = f.block_arg_insert(t);
    let ok = f.block_insert();
    let _ok0 = f.block_arg_insert(ok);
    let err = f.block_insert();
    let _err0 = f.block_arg_insert(err);
    let g = f.cons_intern(ConstKind::Atom(String::from("g")));
    let gv = f.const_value(g);
    let one = f.cons_intern(ConstKind::Integer(1));
    let one_v = f.const_value(one);
    let two = f.cons_intern(ConstKind::Integer(2));
    let two_v = f.const_value(two);
    let okv = f.block_value(ok);
    let errv = f.block_value(err);
    f.op_call_function(t, gv, okv, errv, &vec![v]);
    let tv = f.block_value(t);
    f.op_call_flow(e1, tv, &vec![one_v]);
    f.op_call_flow(e2, tv, &vec![two_v]);
    let e1v = f.block_value(e1);
    let e2v = f.block_value(e2);
    f.op_if_bool(entry, x, e1v, e2v, None);
    f.block_set_entry(entry);
    assert!(f.graph_validate_global());
    let mut pass = SimplifyCfgPass::new();
    pass.simplify_cfg(&mut f);
    assert!(f.graph_validate_global());
    // Both branches now call g directly, with their own constant.
    assert!(matches!(f.block_kind(e1), Some(OpKind::Call(CallKind::Function))));
    assert!(matches!(f.block_kind(e2), Some(OpKind::Call(CallKind::Function))));
    let r1 = f.block_reads(e1).clone();
    assert_eq!(r1[0], gv);
    assert_eq!(r1[3], one_v);
    let r2 = f.block_reads(e2).clone();
    assert_eq!(r2[0], gv);
    assert_eq!(r2[3], two_v);
    // The entry still branches to the same two blocks.
    assert!(matches!(f.block_kind(entry), Some(OpKind::IfBool)));
}

#[test]
fn self_loop_cycle_sleeps_forever() {
    // entry(): flow lp(); lp(): flow lp().
    let mut f = new_fun("cycle", 0);
    let entry = f.block_insert();
    let lp = f.block_insert();
    let lpv = f.block_value(lp);
    f.op_call_flow(lp, lpv, &vec![]);
    f.op_call_flow(entry, lpv, &vec![]);
    f.block_set_entry(entry);
    assert!(f.graph_validate_global());
    let mut pass = SimplifyCfgPass::new();
    pass.simplify_cfg(&mut f);
    assert!(f.graph_validate_global());
    let e = f.block_entry();
    match f.block_kind(e) {
        Some(OpKind::Intrinsic(name)) => assert_eq!(name, "receive_wait_forever"),
        other => panic!("expected the sleep-forever intrinsic, got {:?}", other),
    }
    assert_eq!(f.block_reads(e).len(), 0);
    // No block of the original cycle is reachable from the entry.
    let reach = f.reachable_blocks();
    assert!(!reach[lp.0]);
}

#[test]
fn match_pass_through() {
    // entry(v): match v [Wildcard => w()]; w(): call h() => ok except err.
    let mut f = new_fun("mp", 1);
    let entry = f.block_insert();
    let v = f.block_arg_insert(entry);
    let w = f.block_insert();
    let ok = f.block_insert();
    let _ok0 = f.block_arg_insert(ok);
    let err = f.block_insert();
    let _err0 = f.block_arg_insert(err);
    let h = f.cons_intern(ConstKind::Atom(String::from("h")));
    let hv = f.const_value(h);
    let okv = f.block_value(ok);
    let errv = f.block_value(err);
    f.op_call_function(w, hv, okv, errv, &vec![]);
    // Give the callee and the caller distinct locations.
    let lw = f.locations.location(None, Some(1), None, SourceSpan { start: 1, end: 2 });
    let le = f.locations.location(None, Some(2), None, SourceSpan { start: 3, end: 4 });
    f.block_set_location(w, lw);
    f.block_set_location(entry, le);
    let wv = f.block_value(w);
    let dests = f.prim_value_list(&vec![wv]);
    let no_args = f.prim_value_list(&vec![]);
    f.op_match(entry, vec![MatchKind::Wildcard], dests, v, &vec![no_args]);
    f.block_set_entry(entry);
    assert!(f.graph_validate_global());
    let mut pass = SimplifyCfgPass::new();
    pass.simplify_cfg(&mut f);
    assert!(f.graph_validate_global());
    // The entry (rebuilt by the mangler) still matches, but its arm now
    // targets a block that carries w's body.
    let e = f.block_entry();
    match f.block_kind(e) {
        Some(OpKind::Match { branches }) => assert_eq!(branches, &vec![MatchKind::Wildcard]),
        other => panic!("expected a match, got {:?}", other),
    }
    let dests2 = f.block_reads(e)[0];
    assert_eq!(f.value_list_length(dests2), 1);
    let arm = f.value_list_get_n(dests2, 0).unwrap();
    let wb = f.value_block(arm).expect("arm target is a block");
    assert!(matches!(f.block_kind(wb), Some(OpKind::Call(CallKind::Function))));
    let wreads = f.block_reads(wb).clone();
    // The callee is the same interned constant.
    assert_eq!(f.value_const(wreads[0]), Some(h));
    // The copy is a different block, and w is unreachable.
    assert_ne!(wb, w);
    let reach = f.reachable_blocks();
    assert!(!reach[w.0]);
    // The inlined body carries the callee's location followed by the
    // caller's.
    let spans = f.block_locations(wb);
    assert_eq!(
        spans,
        vec![SourceSpan { start: 1, end: 2 }, SourceSpan { start: 3, end: 4 }]
    );
}

#[test]
fn empty_chain_leaves_target_untouched() {
    // A function with no chain edges at all is left exactly as it was.
    let mut f = new_fun("id", 1);
    let entry = f.block_insert();
    let a = f.block_arg_insert(entry);
    let ok = f.block_insert();
    let _ok0 = f.block_arg_insert(ok);
    let err = f.block_insert();
    let _err0 = f.block_arg_insert(err);
    let g = f.cons_intern(ConstKind::Atom(String::from("g")));
    let gv = f.const_value(g);
    let okv = f.block_value(ok);
    let errv = f.block_value(err);
    f.op_call_function(entry, gv, okv, errv, &vec![a]);
    f.block_set_entry(entry);
    let before_reads = f.block_reads(entry).clone();
    let mut pass = SimplifyCfgPass::new();
    pass.simplify_cfg(&mut f);
    assert_eq!(f.block_entry(), entry);
    assert_eq!(f.block_reads(entry), &before_reads);
    assert!(matches!(f.block_kind(entry), Some(OpKind::Call(CallKind::Function))));
}

#[test]
fn pass_is_idempotent_up_to_isomorphism() {
    let (mut f1, _) = build_trivial_forward();
    let (mut f2, _) = build_trivial_forward();
    let mut p1 = SimplifyCfgPass::new();
    p1.simplify_cfg(&mut f1);
    let mut p2 = SimplifyCfgPass::new();
    p2.simplify_cfg(&mut f2);
    let mut p3 = SimplifyCfgPass::new();
    p3.simplify_cfg(&mut f2);
    assert!(fn_isomorphic(&f1, &f2));
}

#[test]
fn mangle_identity_is_isomorphic() {
    let (mut f, _) = build_trivial_forward();
    let (g, _) = build_trivial_forward();
    let entry = f.block_entry();
    let mut m = Mangler::new();
    let ne = m.run(&mut f, entry);
    f.block_set_entry(ne);
    // The rebuilt function is a fresh copy of the old one.
    assert_ne!(ne, entry);
    assert!(fn_isomorphic(&f, &g));
    assert!(f.graph_validate_global());
}

#[test]
fn mangle_applies_renames() {
    // Renaming a constant operand rewrites every use in the copy.
    let mut f = new_fun("rn", 0);
    let entry = f.block_insert();
    let t = f.block_insert();
    let _t0 = f.block_arg_insert(t);
    let one = f.cons_intern(ConstKind::Integer(1));
    let one_v = f.const_value(one);
    let two = f.cons_intern(ConstKind::Integer(2));
    let two_v = f.const_value(two);
    let tv = f.block_value(t);
    f.op_call_flow(entry, tv, &vec![one_v]);
    f.block_set_entry(entry);
    let mut m = Mangler::new();
    m.add_rename(one_v, two_v);
    let ne = m.run(&mut f, entry);
    f.block_set_entry(ne);
    let reads = f.block_reads(ne).clone();
    assert_eq!(f.value_const(reads[1]), Some(two));
    assert!(f.graph_validate_global());
}

#[test]
fn pure_forwarder_is_skipped() {
    // entry(a): flow m1(a); m1(x): flow t(x); t(v): call g(v) => ok except
    // err. The middle block m1 forwards its own arguments unchanged, so
    // references to it are redirected and it disappears.
    let mut f = new_fun("skip", 1);
    let entry = f.block_insert();
    let a = f.block_arg_insert(entry);
    let m1 = f.block_insert();
    let mx = f.block_arg_insert(m1);
    let t = f.block_insert();
    let v = f.block_arg_insert(t);
    let ok = f.block_insert();
    let _ok0 = f.block_arg_insert(ok);
    let err = f.block_insert();
    let _err0 = f.block_arg_insert(err);
    let g = f.cons_intern(ConstKind::Atom(String::from("g")));
    let gv = f.const_value(g);
    let okv = f.block_value(ok);
    let errv = f.block_value(err);
    f.op_call_function(t, gv, okv, errv, &vec![v]);
    let tv = f.block_value(t);
    f.op_call_flow(m1, tv, &vec![mx]);
    let m1v = f.block_value(m1);
    f.op_call_flow(entry, m1v, &vec![a]);
    f.block_set_entry(entry);
    let mut pass = SimplifyCfgPass::new();
    pass.simplify_cfg(&mut f);
    assert!(f.graph_validate_global());
    // The middle forwarder is gone from the reachable graph.
    let reach = f.reachable_blocks();
    assert!(!reach[m1.0]);
    // The rebuilt entry calls g directly.
    let e = f.block_entry();
    assert!(matches!(f.block_kind(e), Some(OpKind::Call(CallKind::Function))));
    let reads = f.block_reads(e).clone();
    assert_eq!(f.value_const(reads[0]), Some(g));
}

#[test]
fn cycle_rewrite_is_idempotent() {
    let build = || {
        let mut f = new_fun("cy", 0);
        let entry = f.block_insert();
        let lp = f.block_insert();
        let lpv = f.block_value(lp);
        f.op_call_flow(lp, lpv, &vec![]);
        f.op_call_flow(entry, lpv, &vec![]);
        f.block_set_entry(entry);
        f
    };
    let mut f1 = build();
    let mut f2 = build();
    let mut p1 = SimplifyCfgPass::new();
    p1.simplify_cfg(&mut f1);
    let mut p2 = SimplifyCfgPass::new();
    p2.simplify_cfg(&mut f2);
    let mut p3 = SimplifyCfgPass::new();
    p3.simplify_cfg(&mut f2);
    assert!(fn_isomorphic(&f1, &f2));
}

#[test]
fn forwarder_behind_branch_is_skipped() {
    // entry(x): if_bool x, m1, m1; m1(y): flow t(y); t(v): call g(v) =>
    // ok except err. The forwarder m1 is dissolved through the rename map
    // and the mangler: both branch targets point at the real target.
    let mut f = new_fun("fb", 1);
    let entry = f.block_insert();
    let x = f.block_arg_insert(entry);
    let m1 = f.block_insert();
    let y = f.block_arg_insert(m1);
    let t = f.block_insert();
    let v = f.block_arg_insert(t);
    let ok = f.block_insert();
    let _ok0 = f.block_arg_insert(ok);
    let err = f.block_insert();
    let _err0 = f.block_arg_insert(err);
    let g = f.cons_intern(ConstKind::Atom(String::from("g")));
    let gv = f.const_value(g);
    let okv = f.block_value(ok);
    let errv = f.block_value(err);
    f.op_call_function(t, gv, okv, errv, &vec![v]);
    let tv = f.block_value(t);
    f.op_call_flow(m1, tv, &vec![y]);
    let m1v = f.block_value(m1);
    f.op_if_bool(entry, x, m1v, m1v, None);
    f.block_set_entry(entry);
    let mut pass = SimplifyCfgPass::new();
    pass.simplify_cfg(&mut f);
    assert!(f.graph_validate_global());
    // The rebuilt entry still branches, and both targets now carry the
    // real call.
    let e = f.block_entry();
    assert!(matches!(f.block_kind(e), Some(OpKind::IfBool)));
    let reads = f.block_reads(e).clone();
    let tru = f.value_block(reads[0]).expect("branch target is a block");
    assert!(matches!(f.block_kind(tru), Some(OpKind::Call(CallKind::Function))));
    let treads = f.block_reads(tru).clone();
    assert_eq!(f.value_const(treads[0]), Some(g));
    // The forwarder is gone from the reachable graph.
    let reach = f.reachable_blocks();
    assert!(!reach[m1.0]);
}
