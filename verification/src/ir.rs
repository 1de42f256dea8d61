//! The CPS intermediate representation: atoms, the seven-variant IR tree,
//! continuation references, the direct-style source expressions, and the
//! generator that hands out fresh labels and names during one conversion.

use vstd::prelude::*;
use vstd::string::StringExecFns;
use crate::builtin_call::BuiltinOp;

verus! {

/// A side-effect-free immediate operand: a variable reference, a literal,
/// or a lambda value tagged with a unique label.
#[derive(Debug, PartialEq, Eq)]
pub enum Atom {
    Var(String),
    I32(i32),
    I64(i64),
    U32(u32),
    U64(u64),
    Bool(bool),
    Char(char),
    StringLiteral(String),
    Lam(usize, Vec<String>, Box<IR>),
}

/// A continuation reference: a lexically resolved name, or `Return`,
/// which exits the enclosing function (or the whole program).
#[derive(Debug, PartialEq, Eq)]
pub enum Cont {
    Named(String),
    Return,
}

/// The CPS intermediate representation. Every node carries a label drawn
/// from one shared counter; labels are globally unique within one tree.
#[derive(Debug, PartialEq, Eq)]
pub enum IR {
    /// `LetCont(label, name, params, cont_body, rest)`: introduces a
    /// continuation scoped over `rest`.
    LetCont(usize, String, Vec<String>, Box<IR>, Box<IR>),
    /// `Let(label, var, op, args, rest)`: binds `var` to a primitive
    /// operation applied to atoms.
    Let(usize, String, BuiltinOp, Vec<Atom>, Box<IR>),
    /// `LetVal(label, var, atom, rest)`: binds `var` to an atom.
    LetVal(usize, String, Atom, Box<IR>),
    /// `If(label, test, then_branch, else_branch)`: two terminal CPS
    /// subtrees with no shared fallthrough.
    If(usize, Atom, Box<IR>, Box<IR>),
    /// `App(label, func, args, cont)`: calls `func`, delivering the result
    /// to `cont`.
    App(usize, Atom, Vec<Atom>, Cont),
    /// `Fix(label, names, lambda_atoms, rest)`: mutually recursive
    /// function bindings.
    Fix(usize, Vec<String>, Vec<Atom>, Box<IR>),
    /// `AppCont(label, cont, args)`: invokes a continuation.
    AppCont(usize, Cont, Vec<Atom>),
}

/// The labels of one atom, in preorder: a lambda contributes its own label
/// followed by the labels of its body; every other atom has none.
pub open spec fn atom_labels(a: Atom) -> Seq<int>
    decreases a,
{
    match a {
        Atom::Lam(label, _params, body) => seq![label as int] + ir_labels(*body),
        _ => seq![],
    }
}

/// The labels of a sequence of atoms, concatenated in order.
pub open spec fn atoms_labels(s: Seq<Atom>) -> Seq<int>
    decreases s,
{
    if s.len() == 0 {
        seq![]
    } else {
        atom_labels(s[0]) + atoms_labels(s.drop_first())
    }
}

/// All labels of an IR tree in preorder, including the labels of lambda
/// atoms and their bodies.
pub open spec fn ir_labels(ir: IR) -> Seq<int>
    decreases ir,
{
    match ir {
        IR::LetCont(label, _name, _params, cont_body, rest) => seq![label as int]
            + ir_labels(*cont_body) + ir_labels(*rest),
        IR::Let(label, _var, _op, args, rest) => seq![label as int] + atoms_labels(args@)
            + ir_labels(*rest),
        IR::LetVal(label, _var, a, rest) => seq![label as int] + atom_labels(a)
            + ir_labels(*rest),
        IR::If(label, test, then_branch, else_branch) => seq![label as int] + atom_labels(test)
            + ir_labels(*then_branch) + ir_labels(*else_branch),
        IR::App(label, f, args, _cont) => seq![label as int] + atom_labels(f)
            + atoms_labels(args@),
        IR::Fix(label, _names, lams, rest) => seq![label as int] + atoms_labels(lams@)
            + ir_labels(*rest),
        IR::AppCont(label, _cont, args) => seq![label as int] + atoms_labels(args@),
    }
}

/// Size of an atom, for termination of the normalizer.
pub open spec fn nsize_atom(a: Atom) -> nat
    decreases a,
{
    match a {
        Atom::Lam(_l, _ps, b) => 1 + nsize_ir(*b),
        _ => 1,
    }
}

/// Total size of a sequence of atoms.
pub open spec fn nsize_atoms(s: Seq<Atom>) -> nat
    decreases s,
{
    if s.len() == 0 {
        0
    } else {
        nsize_atom(s[0]) + nsize_atoms(s.drop_first())
    }
}

/// Size of an IR tree.
pub open spec fn nsize_ir(ir: IR) -> nat
    decreases ir,
{
    match ir {
        IR::LetCont(_l, _n, _ps, cb, r) => 1 + nsize_ir(*cb) + nsize_ir(*r),
        IR::Let(_l, _x, _op, args, r) => 1 + nsize_atoms(args@) + nsize_ir(*r),
        IR::LetVal(_l, _x, a, r) => 1 + nsize_atom(a) + nsize_ir(*r),
        IR::If(_l, t, a, b) => 1 + nsize_atom(t) + nsize_ir(*a) + nsize_ir(*b),
        IR::App(_l, f, args, _c) => 1 + nsize_atom(f) + nsize_atoms(args@),
        IR::Fix(_l, _ns, vs, r) => 1 + nsize_atoms(vs@) + nsize_ir(*r),
        IR::AppCont(_l, _c, args) => 1 + nsize_atoms(args@),
    }
}

/// The mathematical view of an atom: strings become character sequences,
/// vectors become sequences. Contracts and laws are stated over these.
pub enum AtomV {
    VarV(Seq<char>),
    I32V(i32),
    I64V(i64),
    U32V(u32),
    U64V(u64),
    BoolV(bool),
    CharV(char),
    StrV(Seq<char>),
    LamV(nat, Seq<Seq<char>>, Box<IRV>),
}

/// The mathematical view of a continuation reference.
pub enum ContV {
    NamedV(Seq<char>),
    ReturnV,
}

/// The mathematical view of an IR tree.
pub enum IRV {
    LetContV(nat, Seq<char>, Seq<Seq<char>>, Box<IRV>, Box<IRV>),
    LetV(nat, Seq<char>, BuiltinOp, Seq<AtomV>, Box<IRV>),
    LetValV(nat, Seq<char>, AtomV, Box<IRV>),
    IfV(nat, AtomV, Box<IRV>, Box<IRV>),
    AppV(nat, AtomV, Seq<AtomV>, ContV),
    FixV(nat, Seq<Seq<char>>, Seq<AtomV>, Box<IRV>),
    AppContV(nat, ContV, Seq<AtomV>),
}

/// The views of a sequence of names.
pub open spec fn views_str(s: Seq<String>) -> Seq<Seq<char>> {
    s.map_values(|x: String| x@)
}

/// The view of a continuation reference.
pub open spec fn view_cont(c: Cont) -> ContV {
    match c {
        Cont::Named(n) => ContV::NamedV(n@),
        Cont::Return => ContV::ReturnV,
    }
}

/// The view of an atom.
pub open spec fn view_atom(a: Atom) -> AtomV
    decreases a,
{
    match a {
        Atom::Var(s) => AtomV::VarV(s@),
        Atom::I32(v) => AtomV::I32V(v),
        Atom::I64(v) => AtomV::I64V(v),
        Atom::U32(v) => AtomV::U32V(v),
        Atom::U64(v) => AtomV::U64V(v),
        Atom::Bool(v) => AtomV::BoolV(v),
        Atom::Char(v) => AtomV::CharV(v),
        Atom::StringLiteral(s) => AtomV::StrV(s@),
        Atom::Lam(l, ps, b) => AtomV::LamV(l as nat, views_str(ps@), Box::new(view_ir(*b))),
    }
}

/// The views of a sequence of atoms, in order.
pub open spec fn view_atoms(s: Seq<Atom>) -> Seq<AtomV>
    decreases s,
{
    if s.len() == 0 {
        Seq::empty()
    } else {
        seq![view_atom(s[0])] + view_atoms(s.drop_first())
    }
}

/// The view of an IR tree.
pub open spec fn view_ir(ir: IR) -> IRV
    decreases ir,
{
    match ir {
        IR::LetCont(l, n, ps, cb, r) => IRV::LetContV(
            l as nat,
            n@,
            views_str(ps@),
            Box::new(view_ir(*cb)),
            Box::new(view_ir(*r)),
        ),
        IR::Let(l, x, op, args, r) => IRV::LetV(
            l as nat,
            x@,
            op,
            view_atoms(args@),
            Box::new(view_ir(*r)),
        ),
        IR::LetVal(l, x, a, r) => IRV::LetValV(l as nat, x@, view_atom(a), Box::new(view_ir(*r))),
        IR::If(l, t, a, b) => IRV::IfV(
            l as nat,
            view_atom(t),
            Box::new(view_ir(*a)),
            Box::new(view_ir(*b)),
        ),
        IR::App(l, f, args, c) => IRV::AppV(l as nat, view_atom(f), view_atoms(args@), view_cont(c)),
        IR::Fix(l, ns, vs, r) => IRV::FixV(
            l as nat,
            views_str(ns@),
            view_atoms(vs@),
            Box::new(view_ir(*r)),
        ),
        IR::AppCont(l, c, args) => IRV::AppContV(l as nat, view_cont(c), view_atoms(args@)),
    }
}

/// The mathematical view of a direct-style source expression.
pub enum BExprV {
    VarB(Seq<char>),
    I32B(i32),
    I64B(i64),
    U32B(u32),
    U64B(u64),
    BoolB(bool),
    CharB(char),
    StrB(Seq<char>),
    LamB(Seq<Seq<char>>, Box<BExprV>),
    AppB(Box<BExprV>, Seq<BExprV>),
    PrimB(BuiltinOp, Seq<BExprV>),
    IfB(Box<BExprV>, Box<BExprV>, Box<BExprV>),
    FixB(Seq<Seq<char>>, Seq<BExprV>, Box<BExprV>),
    LetB(Seq<char>, Box<BExprV>, Box<BExprV>),
}

/// The view of a source expression.
pub open spec fn view_bexpr(e: BuilderExpr) -> BExprV
    decreases e,
{
    match e {
        BuilderExpr::Var(s) => BExprV::VarB(s@),
        BuilderExpr::I32(v) => BExprV::I32B(v),
        BuilderExpr::I64(v) => BExprV::I64B(v),
        BuilderExpr::U32(v) => BExprV::U32B(v),
        BuilderExpr::U64(v) => BExprV::U64B(v),
        BuilderExpr::Bool(v) => BExprV::BoolB(v),
        BuilderExpr::Char(v) => BExprV::CharB(v),
        BuilderExpr::StringLiteral(s) => BExprV::StrB(s@),
        BuilderExpr::Lam(ps, b) => BExprV::LamB(views_str(ps@), Box::new(view_bexpr(*b))),
        BuilderExpr::App(f, args) => BExprV::AppB(
            Box::new(view_bexpr(*f)),
            view_bexprs(args@),
        ),
        BuilderExpr::PrimApp(op, args) => BExprV::PrimB(op, view_bexprs(args@)),
        BuilderExpr::If(t, a, b) => BExprV::IfB(
            Box::new(view_bexpr(*t)),
            Box::new(view_bexpr(*a)),
            Box::new(view_bexpr(*b)),
        ),
        BuilderExpr::Fix(ns, vs, b) => BExprV::FixB(
            views_str(ns@),
            view_bexprs(vs@),
            Box::new(view_bexpr(*b)),
        ),
        BuilderExpr::Let(x, v, b) => BExprV::LetB(
            x@,
            Box::new(view_bexpr(*v)),
            Box::new(view_bexpr(*b)),
        ),
    }
}

/// The views of a sequence of source expressions, in order.
pub open spec fn view_bexprs(s: Seq<BuilderExpr>) -> Seq<BExprV>
    decreases s,
{
    if s.len() == 0 {
        Seq::empty()
    } else {
        seq![view_bexpr(s[0])] + view_bexprs(s.drop_first())
    }
}

/// `view_bexprs` indexes pointwise.
pub proof fn lemma_view_bexprs_props(s: Seq<BuilderExpr>)
    ensures
        view_bexprs(s).len() == s.len(),
        forall|i: int| 0 <= i < s.len() ==> view_bexprs(s)[i] == view_bexpr(s[i]),
    decreases s.len(),
{
    if s.len() > 0 {
        lemma_view_bexprs_props(s.drop_first());
    }
}

/// Dropping the first expression drops the first view.
pub proof fn lemma_view_bexprs_drop(s: Seq<BuilderExpr>)
    requires
        s.len() > 0,
    ensures
        view_bexprs(s.drop_first()) == view_bexprs(s).drop_first(),
{
    assert(view_bexprs(s).drop_first() =~= view_bexprs(s.drop_first()));
}

/// Appending one atom appends its view.
pub proof fn lemma_view_atoms_push(s: Seq<Atom>, a: Atom)
    ensures
        view_atoms(s.push(a)) == view_atoms(s).push(view_atom(a)),
{
    lemma_view_atoms_props(s.push(a));
    lemma_view_atoms_props(s);
    assert(view_atoms(s.push(a)) =~= view_atoms(s).push(view_atom(a)));
}

/// Reversing a sequence of atoms reverses their views.
pub proof fn lemma_view_atoms_reverse(s: Seq<Atom>)
    ensures
        view_atoms(s.reverse()) == view_atoms(s).reverse(),
{
    lemma_view_atoms_props(s.reverse());
    lemma_view_atoms_props(s);
    assert forall|i: int|
        0 <= i < s.len() implies view_atoms(s.reverse())[i] == view_atoms(s).reverse()[i] by {
        assert(s.reverse()[i] == s[s.len() - 1 - i]);
        assert(view_atoms(s).reverse()[i] == view_atoms(s)[s.len() - 1 - i]);
    }
    assert(view_atoms(s.reverse()) =~= view_atoms(s).reverse());
}

/// `view_atoms` indexes pointwise.
pub proof fn lemma_view_atoms_props(s: Seq<Atom>)
    ensures
        view_atoms(s).len() == s.len(),
        forall|i: int| 0 <= i < s.len() ==> view_atoms(s)[i] == view_atom(s[i]),
    decreases s.len(),
{
    if s.len() > 0 {
        lemma_view_atoms_props(s.drop_first());
    }
}

impl IR {
    /// The label of this node alone (not of its children).
    pub open spec fn label_of(self) -> usize {
        match self {
            IR::LetCont(label, _, _, _, _) => label,
            IR::Let(label, _, _, _, _) => label,
            IR::LetVal(label, _, _, _) => label,
            IR::If(label, _, _, _) => label,
            IR::App(label, _, _, _) => label,
            IR::Fix(label, _, _, _) => label,
            IR::AppCont(label, _, _) => label,
        }
    }

    /// Returns the label of this node.
    pub fn get_label(&self) -> (r: usize)
        ensures
            r == self.label_of(),
    {
        match self {
            IR::LetCont(label, _, _, _, _) => *label,
            IR::Let(label, _, _, _, _) => *label,
            IR::LetVal(label, _, _, _) => *label,
            IR::If(label, _, _, _) => *label,
            IR::App(label, _, _, _) => *label,
            IR::Fix(label, _, _, _) => *label,
            IR::AppCont(label, _, _) => *label,
        }
    }
}

/// A direct-style source expression, the input of CPS conversion.
pub enum BuilderExpr {
    Var(String),
    I32(i32),
    I64(i64),
    U32(u32),
    U64(u64),
    Bool(bool),
    Char(char),
    StringLiteral(String),
    Lam(Vec<String>, Box<BuilderExpr>),
    App(Box<BuilderExpr>, Vec<BuilderExpr>),
    PrimApp(BuiltinOp, Vec<BuilderExpr>),
    If(Box<BuilderExpr>, Box<BuilderExpr>, Box<BuilderExpr>),
    Fix(Vec<String>, Vec<BuilderExpr>, Box<BuilderExpr>),
    Let(String, Box<BuilderExpr>, Box<BuilderExpr>),
}

/// Owned copies of a slice of names.
fn strings_of(vars: &[&str]) -> (r: Vec<String>)
    ensures
        r@.len() == vars@.len(),
        forall|i: int| 0 <= i < vars@.len() ==> r@[i]@ == vars@[i]@,
{
    let mut r: Vec<String> = Vec::new();
    let mut i: usize = 0;
    while i < vars.len()
        invariant
            i <= vars@.len(),
            r@.len() == i,
            forall|j: int| 0 <= j < i ==> r@[j]@ == vars@[j]@,
        decreases vars@.len() - i,
    {
        r.push(vars[i].to_owned());
        i = i + 1;
    }
    r
}

impl BuilderExpr {
    /// A variable reference.
    pub fn v(v: &str) -> (r: Self)
        ensures
            r matches BuilderExpr::Var(s) && s@ == v@,
    {
        BuilderExpr::Var(v.to_owned())
    }

    /// A signed 32-bit literal.
    pub fn i32(v: i32) -> (r: Self)
        ensures
            r == BuilderExpr::I32(v),
    {
        BuilderExpr::I32(v)
    }

    /// A signed 64-bit literal.
    pub fn i64(v: i64) -> (r: Self)
        ensures
            r == BuilderExpr::I64(v),
    {
        BuilderExpr::I64(v)
    }

    /// An unsigned 32-bit literal.
    pub fn u32(v: u32) -> (r: Self)
        ensures
            r == BuilderExpr::U32(v),
    {
        BuilderExpr::U32(v)
    }

    /// An unsigned 64-bit literal.
    pub fn u64(v: u64) -> (r: Self)
        ensures
            r == BuilderExpr::U64(v),
    {
        BuilderExpr::U64(v)
    }

    /// A boolean literal.
    pub fn bool(v: bool) -> (r: Self)
        ensures
            r == BuilderExpr::Bool(v),
    {
        BuilderExpr::Bool(v)
    }

    /// A character literal.
    pub fn char(v: char) -> (r: Self)
        ensures
            r == BuilderExpr::Char(v),
    {
        BuilderExpr::Char(v)
    }

    /// A string literal.
    pub fn str(v: &str) -> (r: Self)
        ensures
            r matches BuilderExpr::StringLiteral(s) && s@ == v@,
    {
        BuilderExpr::StringLiteral(v.to_owned())
    }

    /// A lambda abstraction.
    pub fn lam(vars: &[&str], body: BuilderExpr) -> (r: Self)
        ensures
            r matches BuilderExpr::Lam(vs, b) && *b == body && vs@.len() == vars@.len()
                && (forall|i: int| 0 <= i < vars@.len() ==> vs@[i]@ == vars@[i]@),
    {
        BuilderExpr::Lam(strings_of(vars), Box::new(body))
    }

    /// A function application.
    pub fn app(f: BuilderExpr, args: Vec<BuilderExpr>) -> (r: Self)
        ensures
            r matches BuilderExpr::App(g, a) && *g == f && a == args,
    {
        BuilderExpr::App(Box::new(f), args)
    }

    /// A primitive application.
    pub fn papp(op: BuiltinOp, args: Vec<BuilderExpr>) -> (r: Self)
        ensures
            r == BuilderExpr::PrimApp(op, args),
    {
        BuilderExpr::PrimApp(op, args)
    }

    /// A conditional.
    pub fn if_(test: BuilderExpr, then_: BuilderExpr, else_: BuilderExpr) -> (r: Self)
        ensures
            r matches BuilderExpr::If(t, a, b) && *t == test && *a == then_ && *b == else_,
    {
        BuilderExpr::If(Box::new(test), Box::new(then_), Box::new(else_))
    }

    /// Mutually recursive function bindings.
    pub fn fix(vars: &[&str], vals: Vec<BuilderExpr>, body: BuilderExpr) -> (r: Self)
        ensures
            r matches BuilderExpr::Fix(vs, ws, b) && ws == vals && *b == body
                && vs@.len() == vars@.len()
                && (forall|i: int| 0 <= i < vars@.len() ==> vs@[i]@ == vars@[i]@),
    {
        BuilderExpr::Fix(strings_of(vars), vals, Box::new(body))
    }

    /// A let binding.
    pub fn let_(var: &str, val: BuilderExpr, body: BuilderExpr) -> (r: Self)
        ensures
            r matches BuilderExpr::Let(x, v, b) && x@ == var@ && *v == val && *b == body,
    {
        BuilderExpr::Let(var.to_owned(), Box::new(val), Box::new(body))
    }
}

/// The decimal digit character for a value below ten.
pub open spec fn dec_digit(d: nat) -> char {
    if d == 0 {
        '0'
    } else if d == 1 {
        '1'
    } else if d == 2 {
        '2'
    } else if d == 3 {
        '3'
    } else if d == 4 {
        '4'
    } else if d == 5 {
        '5'
    } else if d == 6 {
        '6'
    } else if d == 7 {
        '7'
    } else if d == 8 {
        '8'
    } else {
        '9'
    }
}

/// The decimal digits of a number, most significant first.
pub open spec fn dec_digits(n: nat) -> Seq<char>
    decreases n,
{
    if n < 10 {
        seq![dec_digit(n)]
    } else {
        dec_digits(n / 10).push(dec_digit(n % 10))
    }
}

/// Appends the decimal digits of `n` to `s`.
fn push_dec(s: &mut String, n: usize)
    ensures
        final(s)@ == old(s)@ + dec_digits(n as nat),
    decreases n,
{
    if n >= 10 {
        push_dec(s, n / 10);
    }
    let d = n % 10;
    let digit: &str = if d == 0 {
        "0"
    } else if d == 1 {
        "1"
    } else if d == 2 {
        "2"
    } else if d == 3 {
        "3"
    } else if d == 4 {
        "4"
    } else if d == 5 {
        "5"
    } else if d == 6 {
        "6"
    } else if d == 7 {
        "7"
    } else if d == 8 {
        "8"
    } else {
        "9"
    };
    proof {
        reveal_strlit("0");
        reveal_strlit("1");
        reveal_strlit("2");
        reveal_strlit("3");
        reveal_strlit("4");
        reveal_strlit("5");
        reveal_strlit("6");
        reveal_strlit("7");
        reveal_strlit("8");
        reveal_strlit("9");
        assert(digit@ == seq![dec_digit((n % 10) as nat)]);
    }
    s.append(digit);
    proof {
        if n >= 10 {
            assert(s@ =~= old(s)@ + dec_digits(n as nat));
        } else {
            assert(s@ =~= old(s)@ + dec_digits(n as nat));
        }
    }
}

/// The name of the `n`-th generated continuation.
pub open spec fn cont_name(n: nat) -> Seq<char> {
    "g_cont_"@ + dec_digits(n)
}

/// The name of the `n`-th generated temporary variable.
pub open spec fn var_name(n: nat) -> Seq<char> {
    "g_var_"@ + dec_digits(n)
}

/// An owned copy of a vector of names, with the same views.
pub fn dup_strings(v: &Vec<String>) -> (r: Vec<String>)
    ensures
        r@.len() == v@.len(),
        views_str(r@) == views_str(v@),
        forall|i: int| 0 <= i < v@.len() ==> r@[i]@ == v@[i]@,
{
    let mut r: Vec<String> = Vec::new();
    let mut i: usize = 0;
    while i < v.len()
        invariant
            i <= v@.len(),
            r@.len() == i,
            forall|j: int| 0 <= j < i ==> r@[j]@ == v@[j]@,
        decreases v@.len() - i,
    {
        r.push(v[i].clone());
        i = i + 1;
    }
    proof {
        assert(views_str(r@) =~= views_str(v@));
    }
    r
}

/// An owned copy of an atom, with the same view.
pub fn dup_atom(a: &Atom) -> (r: Atom)
    ensures
        view_atom(r) == view_atom(*a),
    decreases nsize_atom(*a), 0int,
{
    match a {
        Atom::Var(s) => Atom::Var(s.clone()),
        Atom::I32(v) => Atom::I32(*v),
        Atom::I64(v) => Atom::I64(*v),
        Atom::U32(v) => Atom::U32(*v),
        Atom::U64(v) => Atom::U64(*v),
        Atom::Bool(v) => Atom::Bool(*v),
        Atom::Char(v) => Atom::Char(*v),
        Atom::StringLiteral(s) => Atom::StringLiteral(s.clone()),
        Atom::Lam(l, ps, b) => Atom::Lam(*l, dup_strings(ps), Box::new(dup_ir(b))),
    }
}

/// The size of one atom is bounded by the size of any sequence holding it.
pub proof fn lemma_nsize_atoms_elem(s: Seq<Atom>, i: int)
    requires
        0 <= i < s.len(),
    ensures
        nsize_atom(s[i]) <= nsize_atoms(s),
    decreases s.len(),
{
    if i > 0 {
        lemma_nsize_atoms_elem(s.drop_first(), i - 1);
    }
}

/// An owned copy of a vector of atoms, with the same views.
pub fn dup_atoms(v: &Vec<Atom>) -> (r: Vec<Atom>)
    ensures
        r@.len() == v@.len(),
        view_atoms(r@) == view_atoms(v@),
    decreases nsize_atoms(v@), 1int,
{
    let mut r: Vec<Atom> = Vec::new();
    let mut i: usize = 0;
    while i < v.len()
        invariant
            i <= v@.len(),
            r@.len() == i,
            forall|j: int| 0 <= j < i ==> view_atom(#[trigger] r@[j]) == view_atom(v@[j]),
        decreases v@.len() - i,
    {
        proof {
            lemma_nsize_atoms_elem(v@, i as int);
        }
        r.push(dup_atom(&v[i]));
        i = i + 1;
    }
    proof {
        lemma_view_atoms_props(r@);
        lemma_view_atoms_props(v@);
        assert(view_atoms(r@) =~= view_atoms(v@));
    }
    r
}

/// An owned copy of a continuation reference, with the same view.
pub fn dup_cont(c: &Cont) -> (r: Cont)
    ensures
        view_cont(r) == view_cont(*c),
{
    match c {
        Cont::Named(n) => Cont::Named(n.clone()),
        Cont::Return => Cont::Return,
    }
}

/// An owned copy of an IR tree, with the same view.
pub fn dup_ir(ir: &IR) -> (r: IR)
    ensures
        view_ir(r) == view_ir(*ir),
    decreases nsize_ir(*ir), 2int,
{
    match ir {
        IR::LetCont(l, n, ps, cb, rest) => IR::LetCont(
            *l,
            n.clone(),
            dup_strings(ps),
            Box::new(dup_ir(cb)),
            Box::new(dup_ir(rest)),
        ),
        IR::Let(l, x, op, args, rest) => IR::Let(
            *l,
            x.clone(),
            *op,
            dup_atoms(args),
            Box::new(dup_ir(rest)),
        ),
        IR::LetVal(l, x, a, rest) => IR::LetVal(*l, x.clone(), dup_atom(a), Box::new(dup_ir(rest))),
        IR::If(l, t, a, b) => IR::If(*l, dup_atom(t), Box::new(dup_ir(a)), Box::new(dup_ir(b))),
        IR::App(l, f, args, c) => IR::App(*l, dup_atom(f), dup_atoms(args), dup_cont(c)),
        IR::Fix(l, ns, vs, rest) => IR::Fix(
            *l,
            dup_strings(ns),
            dup_atoms(vs),
            Box::new(dup_ir(rest)),
        ),
        IR::AppCont(l, c, args) => IR::AppCont(*l, dup_cont(c), dup_atoms(args)),
    }
}

/// The decimal digit character is injective below ten.
proof fn lemma_dec_digit_injective(a: nat, b: nat)
    requires
        a < 10,
        b < 10,
        dec_digit(a) == dec_digit(b),
    ensures
        a == b,
{
}

/// A decimal representation has at least one digit.
proof fn lemma_dec_digits_len(n: nat)
    ensures
        dec_digits(n).len() >= 1,
    decreases n,
{
    if n >= 10 {
        lemma_dec_digits_len(n / 10);
    }
}

/// Decimal representations of distinct numbers differ.
proof fn lemma_dec_digits_injective(a: nat, b: nat)
    requires
        dec_digits(a) == dec_digits(b),
    ensures
        a == b,
    decreases a,
{
    if a < 10 && b < 10 {
        assert(dec_digits(a) == seq![dec_digit(a)]);
        assert(dec_digits(b) == seq![dec_digit(b)]);
        assert(seq![dec_digit(a)][0] == dec_digit(a));
        assert(seq![dec_digit(b)][0] == dec_digit(b));
        lemma_dec_digit_injective(a, b);
    } else if a < 10 && b >= 10 {
        lemma_dec_digits_len(b / 10);
        assert(dec_digits(b).len() == dec_digits(b / 10).len() + 1);
        assert(false);
    } else if a >= 10 && b < 10 {
        lemma_dec_digits_len(a / 10);
        assert(dec_digits(a).len() == dec_digits(a / 10).len() + 1);
        assert(false);
    } else {
        assert(dec_digits(a).last() == dec_digit(a % 10));
        assert(dec_digits(b).last() == dec_digit(b % 10));
        lemma_dec_digit_injective(a % 10, b % 10);
        assert(dec_digits(a).drop_last() =~= dec_digits(a / 10));
        assert(dec_digits(b).drop_last() =~= dec_digits(b / 10));
        lemma_dec_digits_injective(a / 10, b / 10);
        assert(a == a / 10 * 10 + a % 10);
        assert(b == b / 10 * 10 + b % 10);
    }
}

/// Distinct counters give distinct continuation names: within one
/// conversion no two generated continuation names collide, since every one
/// comes from a strictly increasing counter.
pub proof fn lemma_cont_name_injective(a: nat, b: nat)
    requires
        cont_name(a) == cont_name(b),
    ensures
        a == b,
{
    let p = "g_cont_"@;
    assert(dec_digits(a) =~= cont_name(a).subrange(p.len() as int, cont_name(a).len() as int));
    assert(dec_digits(b) =~= cont_name(b).subrange(p.len() as int, cont_name(b).len() as int));
    lemma_dec_digits_injective(a, b);
}

/// Distinct counters give distinct temporary names.
pub proof fn lemma_var_name_injective(a: nat, b: nat)
    requires
        var_name(a) == var_name(b),
    ensures
        a == b,
{
    let p = "g_var_"@;
    assert(dec_digits(a) =~= var_name(a).subrange(p.len() as int, var_name(a).len() as int));
    assert(dec_digits(b) =~= var_name(b).subrange(p.len() as int, var_name(b).len() as int));
    lemma_dec_digits_injective(a, b);
}

/// A generated continuation name is never a generated temporary name, and
/// both carry the generated prefix, so neither collides with any source
/// name that avoids that prefix.
pub proof fn lemma_generated_names_distinct(a: nat, b: nat)
    ensures
        cont_name(a) != var_name(b),
        cont_name(a)[0] == 'g' && cont_name(a)[1] == '_',
        var_name(b)[0] == 'g' && var_name(b)[1] == '_',
{
    reveal_strlit("g_cont_");
    reveal_strlit("g_var_");
    assert(cont_name(a)[2] == 'c');
    assert(var_name(b)[2] == 'v');
    assert(cont_name(a)[0] == 'g');
    assert(cont_name(a)[1] == '_');
    assert(var_name(b)[0] == 'g');
    assert(var_name(b)[1] == '_');
}

/// The shared generator state of one CPS conversion: counters for labels,
/// continuation names and temporary variable names. Exactly one instance
/// exists per top-level conversion, threaded by exclusive reference.
pub struct GenTable {
    pub label_count: usize,
    pub cont_count: usize,
    pub var_count: usize,
}

impl GenTable {
    /// A fresh generator with all counters at zero.
    pub fn new() -> (r: Self)
        ensures
            r.label_count == 0,
            r.cont_count == 0,
            r.var_count == 0,
    {
        GenTable { label_count: 0, cont_count: 0, var_count: 0 }
    }

    /// Hands out the next unused label.
    pub fn alloc_label(&mut self) -> (r: usize)
        requires
            old(self).label_count < usize::MAX,
        ensures
            r == old(self).label_count,
            final(self).label_count == old(self).label_count + 1,
            final(self).cont_count == old(self).cont_count,
            final(self).var_count == old(self).var_count,
    {
        let label = self.label_count;
        self.label_count = self.label_count + 1;
        label
    }

    /// Hands out the next unused continuation name.
    pub fn alloc_cont(&mut self) -> (r: String)
        requires
            old(self).cont_count < usize::MAX,
        ensures
            r@ == cont_name(old(self).cont_count as nat),
            final(self).cont_count == old(self).cont_count + 1,
            final(self).label_count == old(self).label_count,
            final(self).var_count == old(self).var_count,
    {
        let mut s = "g_cont_".to_owned();
        push_dec(&mut s, self.cont_count);
        self.cont_count = self.cont_count + 1;
        s
    }

    /// Hands out the next unused temporary variable name.
    pub fn alloc_var(&mut self) -> (r: String)
        requires
            old(self).var_count < usize::MAX,
        ensures
            r@ == var_name(old(self).var_count as nat),
            final(self).var_count == old(self).var_count + 1,
            final(self).label_count == old(self).label_count,
            final(self).cont_count == old(self).cont_count,
    {
        let mut s = "g_var_".to_owned();
        push_dec(&mut s, self.var_count);
        self.var_count = self.var_count + 1;
        s
    }
}

} // verus!
