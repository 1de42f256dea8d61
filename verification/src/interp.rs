//! Runtime values and the reference tree-walking interpreter for the CPS
//! IR. The interpreter exists to validate produced IR: it is a fuel-bounded
//! machine over environments of named values and named continuations.
//! Running out of fuel, an unbound name, an arity or type mismatch, and an
//! undefined primitive result all yield `None`.

use vstd::prelude::*;
use crate::builtin_call::builtin_call;
use crate::ir::{
    Atom, Cont, IR, dup_atoms, dup_ir, dup_strings, nsize_atoms, nsize_ir,
};

verus! {

/// A runtime value: an immediate constant, a string, or a closure. A
/// closure carries the parameter names, the CPS body, the captured
/// environment, and — for functions bound by `Fix` — the whole recursive
/// binding group, so the bindings can be re-established at every call.
#[derive(Debug, PartialEq, Eq)]
pub enum Value {
    I32(i32),
    I64(i64),
    U32(u32),
    U64(u64),
    Bool(bool),
    Char(char),
    Str(String),
    Closure {
        params: Vec<String>,
        body: Box<IR>,
        env: Vec<(String, Value)>,
        fix_names: Vec<String>,
        fix_lams: Vec<Atom>,
    },
}

/// A named continuation value: parameters, body, and the captured value
/// and continuation environments, with the return target in force at its
/// definition.
#[derive(Debug, PartialEq, Eq)]
pub struct ContVal {
    pub params: Vec<String>,
    pub body: Box<IR>,
    pub env: Vec<(String, Value)>,
    pub kenv: Vec<(String, ContVal)>,
    pub ret: RetVal,
}

/// Where `Return` delivers a result: the top level, or an enclosing
/// continuation.
#[derive(Debug, PartialEq, Eq)]
pub enum RetVal {
    Halt,
    Next(Box<ContVal>),
}

/// Size of a value, for termination of the copying helpers.
pub open spec fn vsize(v: Value) -> nat
    decreases v,
{
    match v {
        Value::Closure { params, body, env, fix_names, fix_lams } => 1 + nsize_ir(*body) + esize(
            env@,
        ) + nsize_atoms(fix_lams@),
        _ => 1,
    }
}

/// Size of a value environment.
pub open spec fn esize(env: Seq<(String, Value)>) -> nat
    decreases env,
{
    if env.len() == 0 {
        0
    } else {
        1 + vsize(env[0].1) + esize(env.drop_first())
    }
}

/// Size of a continuation value.
pub open spec fn csize(cv: ContVal) -> nat
    decreases cv,
{
    1 + nsize_ir(*cv.body) + esize(cv.env@) + ksize(cv.kenv@) + rsize(cv.ret)
}

/// Size of a continuation environment.
pub open spec fn ksize(kenv: Seq<(String, ContVal)>) -> nat
    decreases kenv,
{
    if kenv.len() == 0 {
        0
    } else {
        1 + csize(kenv[0].1) + ksize(kenv.drop_first())
    }
}

/// Size of a return target.
pub open spec fn rsize(r: RetVal) -> nat
    decreases r,
{
    match r {
        RetVal::Halt => 1,
        RetVal::Next(cv) => 1 + csize(*cv),
    }
}

/// An element's size is bounded by its environment's size.
proof fn lemma_esize_elem(env: Seq<(String, Value)>, i: int)
    requires
        0 <= i < env.len(),
    ensures
        vsize(env[i].1) < 1 + esize(env),
    decreases env.len(),
{
    if i > 0 {
        lemma_esize_elem(env.drop_first(), i - 1);
    }
}

/// An element's size is bounded by its continuation environment's size.
proof fn lemma_ksize_elem(kenv: Seq<(String, ContVal)>, i: int)
    requires
        0 <= i < kenv.len(),
    ensures
        csize(kenv[i].1) < 1 + ksize(kenv),
    decreases kenv.len(),
{
    if i > 0 {
        lemma_ksize_elem(kenv.drop_first(), i - 1);
    }
}

/// An owned copy of a value.
fn dup_value(v: &Value) -> (r: Value)
    decreases vsize(*v), 1int,
{
    match v {
        Value::I32(x) => Value::I32(*x),
        Value::I64(x) => Value::I64(*x),
        Value::U32(x) => Value::U32(*x),
        Value::U64(x) => Value::U64(*x),
        Value::Bool(x) => Value::Bool(*x),
        Value::Char(x) => Value::Char(*x),
        Value::Str(s) => Value::Str(s.clone()),
        Value::Closure { params, body, env, fix_names, fix_lams } => Value::Closure {
            params: dup_strings(params),
            body: Box::new(dup_ir(body)),
            env: dup_env(env),
            fix_names: dup_strings(fix_names),
            fix_lams: dup_atoms(fix_lams),
        },
    }
}

/// An owned copy of a value environment.
fn dup_env(env: &Vec<(String, Value)>) -> (r: Vec<(String, Value)>)
    decreases esize(env@), 2int,
{
    let mut r: Vec<(String, Value)> = Vec::new();
    let mut i: usize = 0;
    while i < env.len()
        invariant
            i <= env@.len(),
        decreases env@.len() - i,
    {
        proof {
            lemma_esize_elem(env@, i as int);
        }
        let name = env[i].0.clone();
        let value = dup_value(&env[i].1);
        r.push((name, value));
        i = i + 1;
    }
    r
}

/// An owned copy of a continuation value.
fn dup_contval(cv: &ContVal) -> (r: ContVal)
    decreases csize(*cv), 1int,
{
    ContVal {
        params: dup_strings(&cv.params),
        body: Box::new(dup_ir(&cv.body)),
        env: dup_env(&cv.env),
        kenv: dup_kenv(&cv.kenv),
        ret: dup_ret(&cv.ret),
    }
}

/// An owned copy of a continuation environment.
fn dup_kenv(kenv: &Vec<(String, ContVal)>) -> (r: Vec<(String, ContVal)>)
    decreases ksize(kenv@), 2int,
{
    let mut r: Vec<(String, ContVal)> = Vec::new();
    let mut i: usize = 0;
    while i < kenv.len()
        invariant
            i <= kenv@.len(),
        decreases kenv@.len() - i,
    {
        proof {
            lemma_ksize_elem(kenv@, i as int);
        }
        let name = kenv[i].0.clone();
        let value = dup_contval(&kenv[i].1);
        r.push((name, value));
        i = i + 1;
    }
    r
}

/// An owned copy of a return target.
fn dup_ret(r0: &RetVal) -> (r: RetVal)
    decreases rsize(*r0), 1int,
{
    match r0 {
        RetVal::Halt => RetVal::Halt,
        RetVal::Next(cv) => RetVal::Next(Box::new(dup_contval(cv))),
    }
}

/// The latest binding of a name in a value environment.
fn lookup_env(env: &Vec<(String, Value)>, x: &String) -> (r: Option<Value>) {
    let mut i: usize = env.len();
    while i > 0
        invariant
            i <= env@.len(),
        decreases i,
    {
        i = i - 1;
        if env[i].0 == *x {
            return Some(dup_value(&env[i].1));
        }
    }
    None
}

/// The latest binding of a name in a continuation environment.
fn lookup_kenv(kenv: &Vec<(String, ContVal)>, x: &String) -> (r: Option<ContVal>) {
    let mut i: usize = kenv.len();
    while i > 0
        invariant
            i <= kenv@.len(),
        decreases i,
    {
        i = i - 1;
        if kenv[i].0 == *x {
            return Some(dup_contval(&kenv[i].1));
        }
    }
    None
}

/// The value of one atom under an environment: a variable looks its name
/// up, a literal is itself, a lambda closes over the environment.
fn atom_value(a: &Atom, env: &Vec<(String, Value)>) -> (r: Option<Value>) {
    match a {
        Atom::Var(s) => lookup_env(env, s),
        Atom::I32(v) => Some(Value::I32(*v)),
        Atom::I64(v) => Some(Value::I64(*v)),
        Atom::U32(v) => Some(Value::U32(*v)),
        Atom::U64(v) => Some(Value::U64(*v)),
        Atom::Bool(v) => Some(Value::Bool(*v)),
        Atom::Char(v) => Some(Value::Char(*v)),
        Atom::StringLiteral(s) => Some(Value::Str(s.clone())),
        Atom::Lam(_l, params, body) => Some(
            Value::Closure {
                params: dup_strings(params),
                body: Box::new(dup_ir(body)),
                env: dup_env(env),
                fix_names: Vec::new(),
                fix_lams: Vec::new(),
            },
        ),
    }
}

/// The values of a list of atoms, in order.
fn atoms_values(args: &Vec<Atom>, env: &Vec<(String, Value)>) -> (r: Option<Vec<Value>>) {
    let mut out: Vec<Value> = Vec::new();
    let mut i: usize = 0;
    while i < args.len()
        invariant
            i <= args@.len(),
        decreases args@.len() - i,
    {
        match atom_value(&args[i], env) {
            Some(v) => out.push(v),
            None => {
                return None;
            },
        }
        i = i + 1;
    }
    Some(out)
}

/// Extends an environment with the closures of one recursive binding
/// group, each closing over the same base environment and carrying the
/// whole group. Fails if any bound atom is not a lambda.
fn bind_fix_group(
    env: &mut Vec<(String, Value)>,
    names: &Vec<String>,
    lams: &Vec<Atom>,
) -> (r: bool) {
    if names.len() != lams.len() {
        return false;
    }
    let base = dup_env(env);
    let mut i: usize = 0;
    while i < names.len()
        invariant
            i <= names@.len(),
            names@.len() == lams@.len(),
        decreases names@.len() - i,
    {
        match &lams[i] {
            Atom::Lam(_l, params, body) => {
                let clo = Value::Closure {
                    params: dup_strings(params),
                    body: Box::new(dup_ir(body)),
                    env: dup_env(&base),
                    fix_names: dup_strings(names),
                    fix_lams: dup_atoms(lams),
                };
                env.push((names[i].clone(), clo));
            },
            _ => {
                return false;
            },
        }
        i = i + 1;
    }
    true
}

/// One step of the machine: runs the IR under value and continuation
/// environments, with `ret` saying where `Return` delivers its argument.
/// `None` on exhausted fuel or on any runtime fault.
fn machine(
    ir: &IR,
    env: Vec<(String, Value)>,
    kenv: Vec<(String, ContVal)>,
    ret: RetVal,
    fuel: u64,
) -> (r: Option<Value>)
    ensures
        fuel == 0 ==> r is None,
    decreases fuel, 1int,
{
    if fuel == 0 {
        return None;
    }
    match ir {
        IR::LetVal(_l, x, a, rest) => {
            match atom_value(a, &env) {
                Some(v) => {
                    let mut env2 = env;
                    env2.push((x.clone(), v));
                    machine(rest, env2, kenv, ret, fuel - 1)
                },
                None => None,
            }
        },
        IR::Let(_l, x, op, args, rest) => {
            match atoms_values(args, &env) {
                Some(vs) => {
                    match builtin_call(op, &vs) {
                        Some(v) => {
                            let mut env2 = env;
                            env2.push((x.clone(), v));
                            machine(rest, env2, kenv, ret, fuel - 1)
                        },
                        None => None,
                    }
                },
                None => None,
            }
        },
        IR::LetCont(_l, name, params, cont_body, rest) => {
            let cv = ContVal {
                params: dup_strings(params),
                body: Box::new(dup_ir(cont_body)),
                env: dup_env(&env),
                kenv: dup_kenv(&kenv),
                ret: dup_ret(&ret),
            };
            let mut kenv2 = kenv;
            kenv2.push((name.clone(), cv));
            machine(rest, env, kenv2, ret, fuel - 1)
        },
        IR::If(_l, t, a, b) => {
            match atom_value(t, &env) {
                Some(Value::Bool(true)) => machine(a, env, kenv, ret, fuel - 1),
                Some(Value::Bool(false)) => machine(b, env, kenv, ret, fuel - 1),
                _ => None,
            }
        },
        IR::Fix(_l, names, lams, rest) => {
            let mut env2 = env;
            if !bind_fix_group(&mut env2, names, lams) {
                return None;
            }
            machine(rest, env2, kenv, ret, fuel - 1)
        },
        IR::App(_l, f, args, cont) => {
            let fv = match atom_value(f, &env) {
                Some(v) => v,
                None => {
                    return None;
                },
            };
            let argvs = match atoms_values(args, &env) {
                Some(vs) => vs,
                None => {
                    return None;
                },
            };
            match fv {
                Value::Closure { params, body, env: cenv, fix_names, fix_lams } => {
                    let mut env2 = cenv;
                    if fix_names.len() > 0 {
                        if !bind_fix_group(&mut env2, &fix_names, &fix_lams) {
                            return None;
                        }
                    }
                    if params.len() != argvs.len() {
                        return None;
                    }
                    let mut vs = argvs;
                    let mut i: usize = 0;
                    while i < params.len()
                        invariant
                            i <= params@.len(),
                            params@.len() == vs@.len() + i,
                        decreases params@.len() - i,
                    {
                        env2.push((params[i].clone(), vs.remove(0)));
                        i = i + 1;
                    }
                    let rv = match cont {
                        Cont::Named(n) => {
                            match lookup_kenv(&kenv, n) {
                                Some(cv) => RetVal::Next(Box::new(cv)),
                                None => {
                                    return None;
                                },
                            }
                        },
                        Cont::Return => ret,
                    };
                    machine(&body, env2, Vec::new(), rv, fuel - 1)
                },
                _ => None,
            }
        },
        IR::AppCont(_l, cont, args) => {
            let argvs = match atoms_values(args, &env) {
                Some(vs) => vs,
                None => {
                    return None;
                },
            };
            match cont {
                Cont::Named(n) => {
                    match lookup_kenv(&kenv, n) {
                        Some(cv) => apply_cont(cv, argvs, fuel),
                        None => None,
                    }
                },
                Cont::Return => {
                    match ret {
                        RetVal::Halt => {
                            if argvs.len() == 1 {
                                let mut vs = argvs;
                                Some(vs.remove(0))
                            } else {
                                None
                            }
                        },
                        RetVal::Next(cv) => apply_cont(*cv, argvs, fuel),
                    }
                },
            }
        },
    }
}

/// Delivers argument values to a continuation value.
fn apply_cont(cv: ContVal, args: Vec<Value>, fuel: u64) -> (r: Option<Value>)
    decreases fuel, 0int,
{
    if fuel == 0 {
        return None;
    }
    let ContVal { params, body, env, kenv, ret } = cv;
    if params.len() != args.len() {
        return None;
    }
    let mut env2 = env;
    let mut vs = args;
    let mut i: usize = 0;
    while i < params.len()
        invariant
            i <= params@.len(),
            params@.len() == vs@.len() + i,
        decreases params@.len() - i,
    {
        env2.push((params[i].clone(), vs.remove(0)));
        i = i + 1;
    }
    machine(&body, env2, kenv, ret, fuel - 1)
}

/// Runs a whole program under an initial environment: `Return` at the top
/// level delivers the program's result. `None` on exhausted fuel or on
/// any runtime fault of the program.
pub fn interp(ir: &IR, env: Vec<(String, Value)>, fuel: u64) -> (r: Option<Value>)
    ensures
        fuel == 0 ==> r is None,
{
    machine(ir, env, Vec::new(), RetVal::Halt, fuel)
}

} // verus!
