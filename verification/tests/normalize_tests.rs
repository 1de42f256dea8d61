use cps_ir::builtin_call::BuiltinOp;
use cps_ir::cps::quick_cps;
use cps_ir::interp::{interp, Value};
use cps_ir::ir::{Atom, BuilderExpr as E, Cont, IR};

fn sample_program() -> IR {
    let fact = E::lam(
        &["x"],
        E::if_(
            E::papp(BuiltinOp::I32Leq, vec![E::v("x"), E::i32(1)]),
            E::i32(1),
            E::papp(
                BuiltinOp::I32Mul,
                vec![
                    E::app(
                        E::v("fact"),
                        vec![E::papp(BuiltinOp::I32Sub, vec![E::v("x"), E::i32(1)])],
                    ),
                    E::v("x"),
                ],
            ),
        ),
    );
    let prog = E::fix(&["fact"], vec![fact], E::app(E::v("fact"), vec![E::i32(4)]));
    quick_cps(prog)
}

#[test]
fn normalize_is_idempotent_on_factorial() {
    let once = sample_program().normalize();
    let twice = cps_ir::ir::dup_ir(&once);
    assert_eq!(twice.normalize(), once);
}

#[test]
fn normalize_hoists_a_value_binding_above_a_continuation_binding() {
    // letcont k(y) = return y in let v = 1 + 2 in k(v)
    let ir = IR::LetCont(
        0,
        "k".to_string(),
        vec!["y".to_string()],
        Box::new(IR::AppCont(1, Cont::Return, vec![Atom::Var("y".to_string())])),
        Box::new(IR::Let(
            2,
            "v".to_string(),
            BuiltinOp::I32Add,
            vec![Atom::I32(1), Atom::I32(2)],
            Box::new(IR::AppCont(
                3,
                Cont::Named("k".to_string()),
                vec![Atom::Var("v".to_string())],
            )),
        )),
    );
    let expected = IR::Let(
        2,
        "v".to_string(),
        BuiltinOp::I32Add,
        vec![Atom::I32(1), Atom::I32(2)],
        Box::new(IR::LetCont(
            0,
            "k".to_string(),
            vec!["y".to_string()],
            Box::new(IR::AppCont(1, Cont::Return, vec![Atom::Var("y".to_string())])),
            Box::new(IR::AppCont(
                3,
                Cont::Named("k".to_string()),
                vec![Atom::Var("v".to_string())],
            )),
        )),
    );
    assert_eq!(ir.normalize(), expected);
}

#[test]
fn normalize_keeps_each_group_in_order() {
    // let a = 1 + 2 in letcont k(y) = return y in let b = 3 + 4 in k(b)
    let ir = IR::Let(
        0,
        "a".to_string(),
        BuiltinOp::I32Add,
        vec![Atom::I32(1), Atom::I32(2)],
        Box::new(IR::LetCont(
            1,
            "k".to_string(),
            vec!["y".to_string()],
            Box::new(IR::AppCont(2, Cont::Return, vec![Atom::Var("y".to_string())])),
            Box::new(IR::Let(
                3,
                "b".to_string(),
                BuiltinOp::I32Add,
                vec![Atom::I32(3), Atom::I32(4)],
                Box::new(IR::AppCont(
                    4,
                    Cont::Named("k".to_string()),
                    vec![Atom::Var("b".to_string())],
                )),
            )),
        )),
    );
    let expected = IR::Let(
        0,
        "a".to_string(),
        BuiltinOp::I32Add,
        vec![Atom::I32(1), Atom::I32(2)],
        Box::new(IR::Let(
            3,
            "b".to_string(),
            BuiltinOp::I32Add,
            vec![Atom::I32(3), Atom::I32(4)],
            Box::new(IR::LetCont(
                1,
                "k".to_string(),
                vec!["y".to_string()],
                Box::new(IR::AppCont(2, Cont::Return, vec![Atom::Var("y".to_string())])),
                Box::new(IR::AppCont(
                    4,
                    Cont::Named("k".to_string()),
                    vec![Atom::Var("b".to_string())],
                )),
            )),
        )),
    );
    assert_eq!(ir.normalize(), expected);
}

#[test]
fn normalize_preserves_evaluation_of_factorial() {
    let ir = sample_program();
    let direct = interp(&ir, Vec::new(), 1_000_000);
    let ir2 = sample_program().normalize();
    let normalized = interp(&ir2, Vec::new(), 1_000_000);
    assert_eq!(direct, Some(Value::I32(24)));
    assert_eq!(normalized, Some(Value::I32(24)));
}

#[test]
fn normalize_is_idempotent_on_a_mixed_spine() {
    let ir = IR::LetCont(
        0,
        "k".to_string(),
        vec!["y".to_string()],
        Box::new(IR::AppCont(1, Cont::Return, vec![Atom::Var("y".to_string())])),
        Box::new(IR::Let(
            2,
            "v".to_string(),
            BuiltinOp::I32Add,
            vec![Atom::I32(1), Atom::I32(2)],
            Box::new(IR::AppCont(
                3,
                Cont::Named("k".to_string()),
                vec![Atom::Var("v".to_string())],
            )),
        )),
    );
    let once = ir.normalize();
    let copy = cps_ir::ir::dup_ir(&once);
    assert_eq!(copy.normalize(), once);
}
