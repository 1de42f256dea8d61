use cps_ir::builtin_call::BuiltinOp;
use cps_ir::cps::quick_cps;
use cps_ir::interp::{interp, Value};
use cps_ir::ir::{Atom, BuilderExpr as E, IR};

fn simple_interp(ir: &IR) -> Value {
    let env = Vec::new();
    let res = interp(ir, env, 1_000_000);
    res.expect("the program should evaluate")
}

#[test]
pub fn test1() {
    let fact = E::lam(
        &["x"],
        E::if_(
            E::papp(BuiltinOp::I32Leq, vec![E::v("x"), E::i32(1)]),
            E::i32(1),
            E::papp(
                BuiltinOp::I32Mul,
                vec![
                    E::app(
                        E::v("fact"),
                        vec![E::papp(BuiltinOp::I32Sub, vec![E::v("x"), E::i32(1)])],
                    ),
                    E::v("x"),
                ],
            ),
        ),
    );
    let prog = E::fix(&["fact"], vec![fact], E::app(E::v("fact"), vec![E::i32(5)]));
    let ir = quick_cps(prog);
    assert_eq!(simple_interp(&ir), Value::I32(120))
}

fn collect_labels(ir: &IR, out: &mut Vec<usize>) {
    fn collect_atom(a: &Atom, out: &mut Vec<usize>) {
        if let Atom::Lam(label, _params, body) = a {
            out.push(*label);
            collect_labels(body, out);
        }
    }
    match ir {
        IR::LetCont(label, _n, _ps, cb, rest) => {
            out.push(*label);
            collect_labels(cb, out);
            collect_labels(rest, out);
        }
        IR::Let(label, _x, _op, args, rest) => {
            out.push(*label);
            for a in args {
                collect_atom(a, out);
            }
            collect_labels(rest, out);
        }
        IR::LetVal(label, _x, a, rest) => {
            out.push(*label);
            collect_atom(a, out);
            collect_labels(rest, out);
        }
        IR::If(label, t, a, b) => {
            out.push(*label);
            collect_atom(t, out);
            collect_labels(a, out);
            collect_labels(b, out);
        }
        IR::App(label, f, args, _c) => {
            out.push(*label);
            collect_atom(f, out);
            for a in args {
                collect_atom(a, out);
            }
        }
        IR::Fix(label, _ns, lams, rest) => {
            out.push(*label);
            for a in lams {
                collect_atom(a, out);
            }
            collect_labels(rest, out);
        }
        IR::AppCont(label, _c, args) => {
            out.push(*label);
            for a in args {
                collect_atom(a, out);
            }
        }
    }
}

#[test]
fn labels_unique_in_converted_factorial() {
    let fact = E::lam(
        &["x"],
        E::if_(
            E::papp(BuiltinOp::I32Leq, vec![E::v("x"), E::i32(1)]),
            E::i32(1),
            E::papp(
                BuiltinOp::I32Mul,
                vec![
                    E::app(
                        E::v("fact"),
                        vec![E::papp(BuiltinOp::I32Sub, vec![E::v("x"), E::i32(1)])],
                    ),
                    E::v("x"),
                ],
            ),
        ),
    );
    let prog = E::fix(&["fact"], vec![fact], E::app(E::v("fact"), vec![E::i32(5)]));
    let ir = quick_cps(prog);
    let mut labels = Vec::new();
    collect_labels(&ir, &mut labels);
    for i in 0..labels.len() {
        for j in 0..labels.len() {
            if i != j {
                assert_ne!(labels[i], labels[j]);
            }
        }
    }
}

#[test]
fn labels_unique_in_nested_lets_and_ifs() {
    let prog = E::let_(
        "a",
        E::if_(E::bool(true), E::i32(1), E::i32(2)),
        E::let_(
            "b",
            E::papp(BuiltinOp::I32Add, vec![E::v("a"), E::i32(3)]),
            E::app(E::lam(&["y"], E::v("y")), vec![E::v("b")]),
        ),
    );
    let ir = quick_cps(prog);
    let mut labels = Vec::new();
    collect_labels(&ir, &mut labels);
    for i in 0..labels.len() {
        for j in 0..labels.len() {
            if i != j {
                assert_ne!(labels[i], labels[j]);
            }
        }
    }
}

#[test]
fn literal_program_evaluates_to_itself() {
    let ir = quick_cps(E::i32(5));
    assert_eq!(simple_interp(&ir), Value::I32(5));
}

#[test]
fn conditional_takes_the_right_branch() {
    let prog = E::if_(
        E::papp(BuiltinOp::I32Lt, vec![E::i32(2), E::i32(3)]),
        E::str("yes"),
        E::str("no"),
    );
    let ir = quick_cps(prog);
    assert_eq!(simple_interp(&ir), Value::Str("yes".to_string()));
}

#[test]
fn let_binding_and_application_evaluate() {
    let prog = E::let_(
        "double",
        E::lam(&["x"], E::papp(BuiltinOp::I32Add, vec![E::v("x"), E::v("x")])),
        E::app(E::v("double"), vec![E::i32(21)]),
    );
    let ir = quick_cps(prog);
    assert_eq!(simple_interp(&ir), Value::I32(42));
}

#[test]
fn unsigned_arithmetic_evaluates() {
    let prog = E::papp(
        BuiltinOp::U64Mul,
        vec![E::u64(6), E::papp(BuiltinOp::U64Add, vec![E::u64(3), E::u64(4)])],
    );
    let ir = quick_cps(prog);
    assert_eq!(simple_interp(&ir), Value::U64(42));
}

#[test]
fn division_by_zero_faults() {
    let prog = E::papp(BuiltinOp::I32Div, vec![E::i32(1), E::i32(0)]);
    let ir = quick_cps(prog);
    assert_eq!(interp(&ir, Vec::new(), 1_000_000), None);
}

#[test]
fn unbound_variable_faults() {
    let ir = quick_cps(E::v("nobody"));
    assert_eq!(interp(&ir, Vec::new(), 1_000_000), None);
}

#[test]
fn get_label_returns_the_node_label() {
    let ir = quick_cps(E::i32(7));
    assert_eq!(ir.get_label(), 0);
}
