use cps_ir::available_expression::{make_analysis, Expression, ExpressionLattice};
use cps_ir::builtin_call::{builtin_call, BuiltinOp};
use cps_ir::cfg::{CfgError, Lattice, Node, NodeInfo, NodePool};
use cps_ir::cps::quick_cps;
use cps_ir::ir::{Atom, BuilderExpr as E, Cont, GenTable, IR};

#[test]
fn join_with_bot_is_identity() {
    let e = Expression(BuiltinOp::I32Add, vec![Atom::I32(2), Atom::I32(3)]);
    let x = ExpressionLattice::Exprs(vec![e]);
    let joined = Lattice::join(&ExpressionLattice::Bot, &x);
    assert_eq!(joined, x);
    let joined_right = Lattice::join(&x, &ExpressionLattice::Bot);
    assert_eq!(joined_right, x);
    let both_bot = Lattice::join(&ExpressionLattice::Bot, &ExpressionLattice::Bot);
    assert_eq!(both_bot, ExpressionLattice::Bot);
}

#[test]
fn join_of_expression_sets_is_their_intersection() {
    let add = Expression(BuiltinOp::I32Add, vec![Atom::I32(2), Atom::I32(3)]);
    let add2 = Expression(BuiltinOp::I32Add, vec![Atom::I32(2), Atom::I32(3)]);
    let sub = Expression(BuiltinOp::I32Sub, vec![Atom::I32(9), Atom::I32(1)]);
    let mul = Expression(BuiltinOp::I32Mul, vec![Atom::I32(4), Atom::I32(4)]);
    let a = ExpressionLattice::Exprs(vec![add, sub]);
    let b = ExpressionLattice::Exprs(vec![add2, mul]);
    let joined = Lattice::join(&a, &b);
    let expected = ExpressionLattice::Exprs(vec![Expression(
        BuiltinOp::I32Add,
        vec![Atom::I32(2), Atom::I32(3)],
    )]);
    assert_eq!(joined, expected);
}

#[test]
fn join_of_disjoint_sets_is_empty_not_bot() {
    let sub = Expression(BuiltinOp::I32Sub, vec![Atom::I32(9), Atom::I32(1)]);
    let mul = Expression(BuiltinOp::I32Mul, vec![Atom::I32(4), Atom::I32(4)]);
    let a = ExpressionLattice::Exprs(vec![sub]);
    let b = ExpressionLattice::Exprs(vec![mul]);
    let joined = Lattice::join(&a, &b);
    assert_eq!(joined, ExpressionLattice::Exprs(vec![]));
    assert_ne!(joined, ExpressionLattice::Bot);
}

#[test]
fn unresolved_continuation_fails_construction() {
    let ir = IR::AppCont(0, Cont::Named("ghostly".to_string()), vec![Atom::I32(1)]);
    let mut pool = make_analysis();
    let r = pool.construct_intra(&ir);
    assert_eq!(
        r,
        Err(CfgError::UnresolvedCont("ghostly".to_string()))
    );
}

#[test]
fn resolved_continuation_builds() {
    let ir = IR::LetCont(
        0,
        "k".to_string(),
        vec!["y".to_string()],
        Box::new(IR::AppCont(1, Cont::Return, vec![Atom::Var("y".to_string())])),
        Box::new(IR::AppCont(2, Cont::Named("k".to_string()), vec![Atom::I32(7)])),
    );
    let mut pool = make_analysis();
    assert_eq!(pool.construct_intra(&ir), Ok(()));
}

#[test]
fn converted_factorial_builds_and_reaches_a_fixpoint() {
    let fact = E::lam(
        &["x"],
        E::if_(
            E::papp(BuiltinOp::I32Leq, vec![E::v("x"), E::i32(1)]),
            E::i32(1),
            E::papp(
                BuiltinOp::I32Mul,
                vec![
                    E::app(
                        E::v("fact"),
                        vec![E::papp(BuiltinOp::I32Sub, vec![E::v("x"), E::i32(1)])],
                    ),
                    E::v("x"),
                ],
            ),
        ),
    );
    let prog = E::fix(&["fact"], vec![fact], E::app(E::v("fact"), vec![E::i32(5)]));
    let ir = quick_cps(prog);
    let mut pool = make_analysis();
    assert_eq!(pool.construct_intra(&ir), Ok(()));
    pool.run_worklist();
    assert!(pool.nodes.len() > 0);
}

#[test]
fn available_expression_reaches_the_second_let() {
    // let a = 2 + 3 in let b = 2 + 3 in b
    let prog = E::let_(
        "a",
        E::papp(BuiltinOp::I32Add, vec![E::i32(2), E::i32(3)]),
        E::let_(
            "b",
            E::papp(BuiltinOp::I32Add, vec![E::i32(2), E::i32(3)]),
            E::v("b"),
        ),
    );
    let ir = quick_cps(prog);
    let mut pool = make_analysis();
    assert_eq!(pool.construct_intra(&ir), Ok(()));
    pool.run_worklist();
    // find the second primitive-operation node in arena order: the
    // program point immediately before the second let binding
    let mut seen = 0;
    let mut second_let = None;
    for (i, node) in pool.nodes.iter().enumerate() {
        if let NodeInfo::Common(_label, IR::Let(_, _, _, _, _)) = &node.info {
            seen += 1;
            if seen == 2 {
                second_let = Some(i);
            }
        }
    }
    let idx = second_let.expect("the graph should hold two primitive nodes");
    let expected = ExpressionLattice::Exprs(vec![Expression(
        BuiltinOp::I32Add,
        vec![Atom::I32(2), Atom::I32(3)],
    )]);
    assert_eq!(pool.nodes[idx].result_in, expected);
}

#[test]
fn builtin_add_computes() {
    let r = builtin_call(
        &BuiltinOp::I32Add,
        &vec![cps_ir::interp::Value::I32(2), cps_ir::interp::Value::I32(3)],
    );
    assert_eq!(r, Some(cps_ir::interp::Value::I32(5)));
}

#[test]
fn builtin_rejects_wrong_arity() {
    let r = builtin_call(&BuiltinOp::U64Xor, &vec![cps_ir::interp::Value::U64(1)]);
    assert_eq!(r, None);
}

#[test]
fn builtin_rejects_wrong_types() {
    let r = builtin_call(
        &BuiltinOp::I64Add,
        &vec![cps_ir::interp::Value::I32(1), cps_ir::interp::Value::I32(2)],
    );
    assert_eq!(r, None);
}

#[test]
fn builtin_rejects_overflow() {
    let r = builtin_call(
        &BuiltinOp::I32Add,
        &vec![
            cps_ir::interp::Value::I32(i32::MAX),
            cps_ir::interp::Value::I32(1),
        ],
    );
    assert_eq!(r, None);
}

#[test]
fn builtin_comparison_computes() {
    let r = builtin_call(
        &BuiltinOp::U32Geq,
        &vec![cps_ir::interp::Value::U32(5), cps_ir::interp::Value::U32(5)],
    );
    assert_eq!(r, Some(cps_ir::interp::Value::Bool(true)));
}

#[test]
fn generator_hands_out_distinct_names() {
    let mut gen = GenTable::new();
    assert_eq!(gen.alloc_label(), 0);
    assert_eq!(gen.alloc_label(), 1);
    assert_eq!(gen.alloc_cont(), "g_cont_0".to_string());
    assert_eq!(gen.alloc_cont(), "g_cont_1".to_string());
    assert_eq!(gen.alloc_var(), "g_var_0".to_string());
    assert_eq!(gen.alloc_var(), "g_var_1".to_string());
    assert_eq!(gen.alloc_label(), 2);
}

#[test]
fn backward_direction_propagates_to_predecessors() {
    let first = IR::Let(
        0,
        "v".to_string(),
        BuiltinOp::I32Add,
        vec![Atom::I32(1), Atom::I32(1)],
        Box::new(IR::AppCont(1, Cont::Return, vec![Atom::Var("v".to_string())])),
    );
    let mut pool: NodePool<ExpressionLattice, _> =
        NodePool::new(false, cps_ir::available_expression::AvailTransfer);
    let a = pool.new_node(Node::from(&first));
    let b = pool.new_node(Node::new(NodeInfo::ProgramExit));
    pool.add_edge(b, a);
    pool.run_worklist();
    // backward: the let node's out flows to its predecessor's in
    let expected = ExpressionLattice::Exprs(vec![Expression(
        BuiltinOp::I32Add,
        vec![Atom::I32(1), Atom::I32(1)],
    )]);
    assert_eq!(pool.nodes[b].result_in, expected);
}
