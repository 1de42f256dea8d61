//! Available-expressions analysis: a forward must-analysis over the CPS
//! control-flow graph. The lattice is `Bot` (no information yet) or a
//! finite set of expressions; `join` is set intersection with `Bot` as its
//! identity — an empty set means "nothing available", deliberately
//! distinct from "no information". The transfer function records the
//! expression bound by each `Let` node; expressions built from lambda
//! atoms are never recorded.

use vstd::prelude::*;
use vstd::set_lib::{lemma_len_subset, lemma_subset_equality};
use crate::builtin_call::BuiltinOp;
use crate::cfg::{Lattice, NodePool, Transfer};
use crate::ir::{Atom, AtomV, IR, IRV, dup_atoms, view_atom, view_atoms, lemma_view_atoms_props};

verus! {

/// An analysis element: a primitive operation applied to operand atoms.
/// Operands are never lambdas, which are impure for availability purposes.
#[derive(Debug, PartialEq, Eq)]
pub struct Expression(pub BuiltinOp, pub Vec<Atom>);

/// The mathematical key of an expression: the operation together with the
/// views of its operands.
pub open spec fn expr_key(e: Expression) -> (BuiltinOp, Seq<AtomV>) {
    (e.0, view_atoms(e.1@))
}

/// The set of expression keys a sequence of expressions holds.
pub open spec fn expr_keys(s: Seq<Expression>) -> Set<(BuiltinOp, Seq<AtomV>)>
    decreases s,
{
    if s.len() == 0 {
        Set::empty()
    } else {
        expr_keys(s.drop_first()).insert(expr_key(s[0]))
    }
}

/// No operand view is a lambda.
pub open spec fn no_lam(s: Seq<AtomV>) -> bool {
    forall|i: int| 0 <= i < s.len() ==> !((#[trigger] s[i]) matches AtomV::LamV(_, _, _))
}

/// Every expression of the sequence is lambda-free.
pub open spec fn exprs_wf(s: Seq<Expression>) -> bool {
    forall|i: int| 0 <= i < s.len() ==> no_lam(view_atoms((#[trigger] s[i]).1@))
}

/// The lattice of the analysis: no information yet, or the set of
/// expressions known to be available.
#[derive(Debug, PartialEq, Eq)]
pub enum ExpressionLattice {
    Bot,
    Exprs(Vec<Expression>),
}

/// An atom's view is a lambda exactly when the atom is.
proof fn lemma_view_lam(a: Atom)
    ensures
        (view_atom(a) matches AtomV::LamV(_, _, _)) <==> (a matches Atom::Lam(_, _, _)),
{
    match a {
        Atom::Lam(_, _, _) => {},
        _ => {},
    }
}

/// The view of an atom has the constructor of the atom.
proof fn lemma_view_shape(a: Atom)
    ensures
        (view_atom(a) matches AtomV::VarV(_)) <==> (a matches Atom::Var(_)),
        (view_atom(a) matches AtomV::I32V(_)) <==> (a matches Atom::I32(_)),
        (view_atom(a) matches AtomV::I64V(_)) <==> (a matches Atom::I64(_)),
        (view_atom(a) matches AtomV::U32V(_)) <==> (a matches Atom::U32(_)),
        (view_atom(a) matches AtomV::U64V(_)) <==> (a matches Atom::U64(_)),
        (view_atom(a) matches AtomV::BoolV(_)) <==> (a matches Atom::Bool(_)),
        (view_atom(a) matches AtomV::CharV(_)) <==> (a matches Atom::Char(_)),
        (view_atom(a) matches AtomV::StrV(_)) <==> (a matches Atom::StringLiteral(_)),
        (view_atom(a) matches AtomV::LamV(_, _, _)) <==> (a matches Atom::Lam(_, _, _)),
{
    match a {
        Atom::Var(_) => {},
        Atom::I32(_) => {},
        Atom::I64(_) => {},
        Atom::U32(_) => {},
        Atom::U64(_) => {},
        Atom::Bool(_) => {},
        Atom::Char(_) => {},
        Atom::StringLiteral(_) => {},
        Atom::Lam(_, _, _) => {},
    }
}

/// `expr_keys` is finite, bounded by the sequence length, and holds
/// exactly the keys of the sequence's members.
pub proof fn lemma_expr_keys_props(s: Seq<Expression>)
    ensures
        expr_keys(s).finite(),
        expr_keys(s).len() <= s.len(),
        forall|k: (BuiltinOp, Seq<AtomV>)|
            expr_keys(s).contains(k) <==> exists|i: int| 0 <= i < s.len() && expr_key(
                #[trigger] s[i],
            ) == k,
    decreases s.len(),
{
    if s.len() > 0 {
        lemma_expr_keys_props(s.drop_first());
        assert forall|k: (BuiltinOp, Seq<AtomV>)| expr_keys(s).contains(k) implies exists|i: int|
            0 <= i < s.len() && expr_key(#[trigger] s[i]) == k by {
            if k == expr_key(s[0]) {
                assert(expr_key(s[0]) == k);
            } else {
                let i = choose|i: int|
                    0 <= i < s.drop_first().len() && expr_key(#[trigger] s.drop_first()[i]) == k;
                assert(expr_key(s[i + 1]) == k);
            }
        }
        assert forall|k: (BuiltinOp, Seq<AtomV>)|
            (exists|i: int| 0 <= i < s.len() && expr_key(#[trigger] s[i]) == k) implies expr_keys(
            s,
        ).contains(k) by {
            let i = choose|i: int| 0 <= i < s.len() && expr_key(#[trigger] s[i]) == k;
            if i > 0 {
                assert(expr_key(s.drop_first()[i - 1]) == k);
            }
        }
    }
}

/// Appending one expression adds its key.
pub proof fn lemma_expr_keys_push(s: Seq<Expression>, e: Expression)
    ensures
        expr_keys(s.push(e)) == expr_keys(s).insert(expr_key(e)),
    decreases s.len(),
{
    if s.len() == 0 {
        assert(s.push(e).drop_first() =~= Seq::<Expression>::empty());
        assert(s.push(e)[0] == e);
        assert(expr_keys(s.push(e).drop_first()) == Set::<(BuiltinOp, Seq<AtomV>)>::empty());
        assert(expr_keys(s.push(e)) =~= expr_keys(s).insert(expr_key(e)));
    } else {
        assert(s.push(e).drop_first() =~= s.drop_first().push(e));
        assert(s.push(e)[0] == s[0]);
        lemma_expr_keys_push(s.drop_first(), e);
        assert(expr_keys(s.push(e)) =~= expr_keys(s).insert(expr_key(e)));
    }
}

/// Sequences with pointwise equal keys have equal key sets.
proof fn lemma_expr_keys_pointwise(s1: Seq<Expression>, s2: Seq<Expression>)
    requires
        s1.len() == s2.len(),
        forall|i: int| 0 <= i < s1.len() ==> expr_key(#[trigger] s1[i]) == expr_key(s2[i]),
    ensures
        expr_keys(s1) == expr_keys(s2),
{
    lemma_expr_keys_props(s1);
    lemma_expr_keys_props(s2);
    assert forall|k: (BuiltinOp, Seq<AtomV>)|
        expr_keys(s1).contains(k) <==> expr_keys(s2).contains(k) by {
        if expr_keys(s1).contains(k) {
            let i = choose|i: int| 0 <= i < s1.len() && expr_key(#[trigger] s1[i]) == k;
            assert(expr_key(s2[i]) == k);
        }
        if expr_keys(s2).contains(k) {
            let i = choose|i: int| 0 <= i < s2.len() && expr_key(#[trigger] s2[i]) == k;
            assert(expr_key(s1[i]) == k);
        }
    }
    assert(expr_keys(s1) =~= expr_keys(s2));
}

/// A well-formed key set makes its member expressions lambda-free.
proof fn lemma_wf_exprs(s: Seq<Expression>)
    requires
        forall|k: (BuiltinOp, Seq<AtomV>)| expr_keys(s).contains(k) ==> no_lam(k.1),
    ensures
        exprs_wf(s),
{
    lemma_expr_keys_props(s);
    assert forall|i: int| 0 <= i < s.len() implies no_lam(view_atoms((#[trigger] s[i]).1@)) by {
        assert(expr_keys(s).contains(expr_key(s[i])));
    }
}

/// Decides equality of two lambda-free atoms at the view level.
fn eq_atom(a: &Atom, b: &Atom) -> (r: bool)
    requires
        !(*a matches Atom::Lam(_, _, _)),
        !(*b matches Atom::Lam(_, _, _)),
    ensures
        r == (view_atom(*a) == view_atom(*b)),
{
    proof {
        lemma_view_shape(*a);
        lemma_view_shape(*b);
    }
    match (a, b) {
        (Atom::Var(s1), Atom::Var(s2)) => *s1 == *s2,
        (Atom::I32(v1), Atom::I32(v2)) => *v1 == *v2,
        (Atom::I64(v1), Atom::I64(v2)) => *v1 == *v2,
        (Atom::U32(v1), Atom::U32(v2)) => *v1 == *v2,
        (Atom::U64(v1), Atom::U64(v2)) => *v1 == *v2,
        (Atom::Bool(v1), Atom::Bool(v2)) => *v1 == *v2,
        (Atom::Char(v1), Atom::Char(v2)) => *v1 == *v2,
        (Atom::StringLiteral(s1), Atom::StringLiteral(s2)) => *s1 == *s2,
        _ => {
            proof {
                if view_atom(*a) == view_atom(*b) {
                    match *a {
                        Atom::Var(_) => {
                            assert(*b matches Atom::Var(_));
                        },
                        Atom::I32(_) => {
                            assert(*b matches Atom::I32(_));
                        },
                        Atom::I64(_) => {
                            assert(*b matches Atom::I64(_));
                        },
                        Atom::U32(_) => {
                            assert(*b matches Atom::U32(_));
                        },
                        Atom::U64(_) => {
                            assert(*b matches Atom::U64(_));
                        },
                        Atom::Bool(_) => {
                            assert(*b matches Atom::Bool(_));
                        },
                        Atom::Char(_) => {
                            assert(*b matches Atom::Char(_));
                        },
                        Atom::StringLiteral(_) => {
                            assert(*b matches Atom::StringLiteral(_));
                        },
                        Atom::Lam(_, _, _) => {},
                    }
                    assert(false);
                }
            }
            false
        },
    }
}

/// Decides equality of two lambda-free atom vectors at the view level.
fn eq_atoms(a: &Vec<Atom>, b: &Vec<Atom>) -> (r: bool)
    requires
        no_lam(view_atoms(a@)),
        no_lam(view_atoms(b@)),
    ensures
        r == (view_atoms(a@) == view_atoms(b@)),
{
    proof {
        lemma_view_atoms_props(a@);
        lemma_view_atoms_props(b@);
    }
    if a.len() != b.len() {
        return false;
    }
    let mut i: usize = 0;
    while i < a.len()
        invariant
            a@.len() == b@.len(),
            i <= a@.len(),
            no_lam(view_atoms(a@)),
            no_lam(view_atoms(b@)),
            view_atoms(a@).len() == a@.len(),
            view_atoms(b@).len() == b@.len(),
            forall|j: int| 0 <= j < a@.len() ==> view_atoms(a@)[j] == view_atom(a@[j]),
            forall|j: int| 0 <= j < b@.len() ==> view_atoms(b@)[j] == view_atom(b@[j]),
            forall|j: int| 0 <= j < i ==> view_atom(#[trigger] a@[j]) == view_atom(b@[j]),
        decreases a@.len() - i,
    {
        proof {
            assert(!(view_atoms(a@)[i as int] matches AtomV::LamV(_, _, _)));
            assert(!(view_atoms(b@)[i as int] matches AtomV::LamV(_, _, _)));
            lemma_view_lam(a@[i as int]);
            lemma_view_lam(b@[i as int]);
        }
        if !eq_atom(&a[i], &b[i]) {
            proof {
                assert(view_atoms(a@)[i as int] != view_atoms(b@)[i as int]);
            }
            return false;
        }
        i = i + 1;
    }
    proof {
        assert(view_atoms(a@) =~= view_atoms(b@));
    }
    true
}

/// Decides equality of two lambda-free expressions by their keys.
fn eq_expr(x: &Expression, y: &Expression) -> (r: bool)
    requires
        no_lam(view_atoms(x.1@)),
        no_lam(view_atoms(y.1@)),
    ensures
        r == (expr_key(*x) == expr_key(*y)),
{
    if x.0 == y.0 {
        eq_atoms(&x.1, &y.1)
    } else {
        false
    }
}

/// An owned copy of a lambda-free expression, with the same key.
fn dup_expr(x: &Expression) -> (r: Expression)
    ensures
        expr_key(r) == expr_key(*x),
{
    Expression(x.0, dup_atoms(&x.1))
}

/// An owned copy of a vector of expressions, with the same keys.
fn dup_exprs(v: &Vec<Expression>) -> (r: Vec<Expression>)
    ensures
        expr_keys(r@) == expr_keys(v@),
        r@.len() == v@.len(),
        forall|i: int| 0 <= i < v@.len() ==> expr_key(#[trigger] r@[i]) == expr_key(v@[i]),
{
    let mut r: Vec<Expression> = Vec::new();
    let mut i: usize = 0;
    while i < v.len()
        invariant
            i <= v@.len(),
            r@.len() == i,
            forall|j: int| 0 <= j < i ==> expr_key(#[trigger] r@[j]) == expr_key(v@[j]),
        decreases v@.len() - i,
    {
        r.push(dup_expr(&v[i]));
        i = i + 1;
    }
    proof {
        lemma_expr_keys_pointwise(r@, v@);
    }
    r
}

/// Whether the vector holds an expression with this key.
fn contains_expr(v: &Vec<Expression>, x: &Expression) -> (r: bool)
    requires
        exprs_wf(v@),
        no_lam(view_atoms(x.1@)),
    ensures
        r == expr_keys(v@).contains(expr_key(*x)),
{
    proof {
        lemma_expr_keys_props(v@);
    }
    let mut i: usize = 0;
    while i < v.len()
        invariant
            i <= v@.len(),
            exprs_wf(v@),
            no_lam(view_atoms(x.1@)),
            forall|j: int| 0 <= j < i ==> expr_key(#[trigger] v@[j]) != expr_key(*x),
        decreases v@.len() - i,
    {
        if eq_expr(&v[i], x) {
            proof {
                lemma_expr_keys_props(v@);
                assert(expr_key(v@[i as int]) == expr_key(*x));
            }
            return true;
        }
        i = i + 1;
    }
    proof {
        lemma_expr_keys_props(v@);
        if expr_keys(v@).contains(expr_key(*x)) {
            let j = choose|j: int| 0 <= j < v@.len() && expr_key(#[trigger] v@[j]) == expr_key(*x);
        }
    }
    false
}

/// Whether every key of the first vector occurs in the second.
fn subset_exprs(a: &Vec<Expression>, b: &Vec<Expression>) -> (r: bool)
    requires
        exprs_wf(a@),
        exprs_wf(b@),
    ensures
        r == expr_keys(a@).subset_of(expr_keys(b@)),
{
    proof {
        lemma_expr_keys_props(a@);
        lemma_expr_keys_props(b@);
    }
    let mut i: usize = 0;
    while i < a.len()
        invariant
            i <= a@.len(),
            exprs_wf(a@),
            exprs_wf(b@),
            forall|j: int| 0 <= j < i ==> expr_keys(b@).contains(expr_key(#[trigger] a@[j])),
        decreases a@.len() - i,
    {
        if !contains_expr(b, &a[i]) {
            proof {
                lemma_expr_keys_props(a@);
                assert(expr_keys(a@).contains(expr_key(a@[i as int])));
            }
            return false;
        }
        i = i + 1;
    }
    proof {
        lemma_expr_keys_props(a@);
        assert forall|k: (BuiltinOp, Seq<AtomV>)|
            expr_keys(a@).contains(k) implies expr_keys(b@).contains(k) by {
            let j = choose|j: int| 0 <= j < a@.len() && expr_key(#[trigger] a@[j]) == k;
        }
    }
    true
}

/// The expressions of the first vector whose keys the second also holds:
/// the intersection, keeping the first vector's order.
fn intersect_exprs(a: &Vec<Expression>, b: &Vec<Expression>) -> (r: Vec<Expression>)
    requires
        exprs_wf(a@),
        exprs_wf(b@),
    ensures
        expr_keys(r@) == expr_keys(a@).intersect(expr_keys(b@)),
        exprs_wf(r@),
        r@.len() <= a@.len(),
    decreases a@.len(),
{
    let mut r: Vec<Expression> = Vec::new();
    let mut i: usize = 0;
    proof {
        lemma_expr_keys_props(a@);
    }
    while i < a.len()
        invariant
            i <= a@.len(),
            exprs_wf(a@),
            exprs_wf(b@),
            exprs_wf(r@),
            r@.len() <= i,
            forall|k: (BuiltinOp, Seq<AtomV>)| #[trigger]
                expr_keys(r@).contains(k) <==> ((exists|j: int|
                    0 <= j < i && expr_key(#[trigger] a@[j]) == k) && expr_keys(b@).contains(k)),
        decreases a@.len() - i,
    {
        let ghost r0 = r@;
        let keep = contains_expr(b, &a[i]);
        if keep {
            r.push(dup_expr(&a[i]));
            proof {
                lemma_expr_keys_push(r0, r@[r@.len() - 1]);
                assert(exprs_wf(r@)) by {
                    assert forall|j: int|
                        0 <= j < r@.len() implies no_lam(
                        view_atoms((#[trigger] r@[j]).1@),
                    ) by {
                        if j < r0.len() {
                            assert(r@[j] == r0[j]);
                        } else {
                            lemma_view_atoms_props(r@[j].1@);
                            lemma_view_atoms_props(a@[i as int].1@);
                            assert(view_atoms(r@[j].1@) == view_atoms(a@[i as int].1@));
                        }
                    }
                }
            }
        }
        proof {
            assert forall|k: (BuiltinOp, Seq<AtomV>)| #[trigger]
                expr_keys(r@).contains(k) <==> ((exists|j: int|
                    0 <= j < i + 1 && expr_key(#[trigger] a@[j]) == k) && expr_keys(b@).contains(
                    k,
                )) by {
                if expr_keys(r@).contains(k) {
                    if keep && k == expr_key(a@[i as int]) {
                        assert(expr_key(a@[i as int]) == k);
                    } else {
                        assert(expr_keys(r0).contains(k));
                        let j = choose|j: int| 0 <= j < i && expr_key(#[trigger] a@[j]) == k;
                    }
                }
                if ((exists|j: int| 0 <= j < i + 1 && expr_key(#[trigger] a@[j]) == k)
                    && expr_keys(b@).contains(k)) {
                    let j = choose|j: int| 0 <= j < i + 1 && expr_key(#[trigger] a@[j]) == k;
                    if j < i {
                        assert(expr_keys(r0).contains(k));
                        if keep {
                            assert(expr_keys(r@) == expr_keys(r0).insert(
                                expr_key(a@[i as int]),
                            ));
                        }
                    } else {
                        assert(k == expr_key(a@[i as int]));
                        assert(keep);
                    }
                }
            }
        }
        i = i + 1;
    }
    proof {
        lemma_expr_keys_props(a@);
        assert(expr_keys(r@) =~= expr_keys(a@).intersect(expr_keys(b@)));
        lemma_expr_keys_props(r@);
    }
    r
}

impl ExpressionLattice {
    /// A singleton lattice value: exactly this one expression available.
    /// The operands must be lambda-free, as every analysis element is.
    pub fn from(op: BuiltinOp, args: Vec<Atom>) -> (r: Self)
        requires
            no_lam(view_atoms(args@)),
        ensures
            r.model() == Some(
                Set::<(BuiltinOp, Seq<AtomV>)>::empty().insert((op, view_atoms(args@))),
            ),
    {
        let ghost key = (op, view_atoms(args@));
        let mut v: Vec<Expression> = Vec::new();
        v.push(Expression(op, args));
        proof {
            assert(v@.drop_first() =~= Seq::<Expression>::empty());
            assert(expr_keys(v@.drop_first()) == Set::<(BuiltinOp, Seq<AtomV>)>::empty());
            assert(expr_keys(v@) =~= Set::<(BuiltinOp, Seq<AtomV>)>::empty().insert(key));
        }
        ExpressionLattice::Exprs(v)
    }
}

impl Lattice for ExpressionLattice {
    type M = Option<Set<(BuiltinOp, Seq<AtomV>)>>;

    open spec fn model(&self) -> Self::M {
        match self {
            ExpressionLattice::Bot => None,
            ExpressionLattice::Exprs(v) => Some(expr_keys(v@)),
        }
    }

    open spec fn wf_m(m: Self::M) -> bool {
        match m {
            None => true,
            Some(s) => s.finite() && s.len() <= usize::MAX && (forall|k: (BuiltinOp, Seq<AtomV>)|
                #[trigger] s.contains(k) ==> no_lam(k.1)),
        }
    }

    open spec fn join_m(x: Self::M, y: Self::M) -> Self::M {
        match (x, y) {
            (None, b) => b,
            (a, None) => a,
            (Some(a), Some(b)) => Some(a.intersect(b)),
        }
    }

    open spec fn bottom_m() -> Self::M {
        None
    }

    open spec fn rank_m(m: Self::M) -> nat {
        match m {
            None => usize::MAX as nat + 1,
            Some(s) => s.len(),
        }
    }

    fn join(a: &Self, b: &Self) -> (r: Self) {
        match (a, b) {
            (ExpressionLattice::Bot, _) => b.dup(),
            (_, ExpressionLattice::Bot) => a.dup(),
            (ExpressionLattice::Exprs(va), ExpressionLattice::Exprs(vb)) => {
                proof {
                    lemma_wf_exprs(va@);
                    lemma_wf_exprs(vb@);
                }
                ExpressionLattice::Exprs(intersect_exprs(va, vb))
            },
        }
    }

    fn bottom() -> (r: Self) {
        ExpressionLattice::Bot
    }

    fn eq_l(&self, other: &Self) -> (r: bool) {
        match (self, other) {
            (ExpressionLattice::Bot, ExpressionLattice::Bot) => true,
            (ExpressionLattice::Bot, ExpressionLattice::Exprs(_)) => false,
            (ExpressionLattice::Exprs(_), ExpressionLattice::Bot) => false,
            (ExpressionLattice::Exprs(va), ExpressionLattice::Exprs(vb)) => {
                proof {
                    lemma_wf_exprs(va@);
                    lemma_wf_exprs(vb@);
                    lemma_expr_keys_props(va@);
                    lemma_expr_keys_props(vb@);
                }
                let forward = subset_exprs(va, vb);
                let backward = subset_exprs(vb, va);
                proof {
                    if expr_keys(va@).subset_of(expr_keys(vb@)) && expr_keys(vb@).subset_of(
                        expr_keys(va@),
                    ) {
                        assert(expr_keys(va@) =~= expr_keys(vb@));
                    }
                }
                forward && backward
            },
        }
    }

    fn dup(&self) -> (r: Self) {
        match self {
            ExpressionLattice::Bot => ExpressionLattice::Bot,
            ExpressionLattice::Exprs(v) => ExpressionLattice::Exprs(dup_exprs(v)),
        }
    }

    proof fn join_comm(x: Self::M, y: Self::M) {
        match (x, y) {
            (Some(a), Some(b)) => {
                assert(a.intersect(b) =~= b.intersect(a));
            },
            _ => {},
        }
    }

    proof fn join_assoc(x: Self::M, y: Self::M, z: Self::M) {
        match (x, y, z) {
            (Some(a), Some(b), Some(c)) => {
                assert(a.intersect(b).intersect(c) =~= a.intersect(b.intersect(c)));
            },
            _ => {},
        }
    }

    proof fn join_idem(x: Self::M) {
        match x {
            Some(a) => {
                assert(a.intersect(a) =~= a);
            },
            None => {},
        }
    }

    proof fn join_bottom(x: Self::M) {
    }

    proof fn bottom_wf() {
    }

    proof fn join_wf(x: Self::M, y: Self::M) {
        match (x, y) {
            (Some(a), Some(b)) => {
                assert(a.intersect(b).subset_of(a));
                lemma_len_subset(a.intersect(b), a);
                assert forall|k: (BuiltinOp, Seq<AtomV>)| #[trigger]
                    a.intersect(b).contains(k) implies no_lam(k.1) by {
                    assert(a.contains(k));
                }
            },
            _ => {},
        }
    }

    proof fn rank_join(x: Self::M, y: Self::M) {
        match (x, y) {
            (Some(a), Some(b)) => {
                assert(a.intersect(b).subset_of(a));
                lemma_len_subset(a.intersect(b), a);
                if Self::join_m(x, y) != x {
                    assert(a.intersect(b) != a);
                    if a.intersect(b).len() == a.len() {
                        lemma_subset_equality(a.intersect(b), a);
                    }
                }
            },
            (None, Some(b)) => {
                assert(Self::join_m(x, y) == y);
            },
            _ => {},
        }
    }
}

/// The transfer function of available-expressions analysis: a `Let` node
/// makes its own expression available; every other node changes nothing.
pub struct AvailTransfer;

/// Whether any atom of the vector is a lambda.
fn contains_lam(args: &Vec<Atom>) -> (r: bool)
    ensures
        r == !no_lam(view_atoms(args@)),
{
    proof {
        lemma_view_atoms_props(args@);
    }
    let mut i: usize = 0;
    while i < args.len()
        invariant
            i <= args@.len(),
            view_atoms(args@).len() == args@.len(),
            forall|j: int| 0 <= j < args@.len() ==> view_atoms(args@)[j] == view_atom(args@[j]),
            forall|j: int| 0 <= j < i ==> !((#[trigger] view_atoms(args@)[j]) matches AtomV::LamV(
                _,
                _,
                _,
            )),
        decreases args@.len() - i,
    {
        let is_lam = match &args[i] {
            Atom::Lam(_, _, _) => true,
            _ => false,
        };
        proof {
            lemma_view_lam(args@[i as int]);
        }
        if is_lam {
            proof {
                assert(view_atoms(args@)[i as int] matches AtomV::LamV(_, _, _));
                assert(!no_lam(view_atoms(args@)));
            }
            return true;
        }
        i = i + 1;
    }
    false
}

impl Transfer<ExpressionLattice> for AvailTransfer {
    open spec fn transfer_m(
        &self,
        label: usize,
        ir: IRV,
        m: <ExpressionLattice as Lattice>::M,
    ) -> <ExpressionLattice as Lattice>::M {
        match ir {
            IRV::LetV(_l, _x, op, argsv, _rest) => if no_lam(argsv) {
                ExpressionLattice::join_m(
                    m,
                    Some(Set::<(BuiltinOp, Seq<AtomV>)>::empty().insert((op, argsv))),
                )
            } else {
                m
            },
            _ => m,
        }
    }

    fn transfer(&self, label: usize, ir: &IR, l: ExpressionLattice) -> (r: ExpressionLattice) {
        match ir {
            IR::Let(_l, _x, op, args, _rest) => {
                if contains_lam(args) {
                    l
                } else {
                    let single = ExpressionLattice::from(*op, dup_atoms(args));
                    proof {
                        ExpressionLattice::join_comm(l.model(), single.model());
                    }
                    ExpressionLattice::join(&l, &single)
                }
            },
            _ => l,
        }
    }

    proof fn transfer_wf(
        &self,
        label: usize,
        ir: IRV,
        m: <ExpressionLattice as Lattice>::M,
    ) {
        match ir {
            IRV::LetV(_l, _x, op, argsv, _rest) => {
                if no_lam(argsv) {
                    let single = Set::<(BuiltinOp, Seq<AtomV>)>::empty().insert((op, argsv));
                    assert(single.finite());
                    assert(single.len() <= usize::MAX) by {
                        assert(Set::<(BuiltinOp, Seq<AtomV>)>::empty().len() == 0);
                    }
                    assert forall|k: (BuiltinOp, Seq<AtomV>)| #[trigger] single.contains(
                        k,
                    ) implies no_lam(k.1) by {
                        assert(k == (op, argsv));
                    }
                    ExpressionLattice::join_wf(m, Some(single));
                    ExpressionLattice::join_comm(m, Some(single));
                    match m {
                        None => {},
                        Some(_) => {},
                    }
                }
            },
            _ => {},
        }
    }

    proof fn transfer_mono(
        &self,
        label: usize,
        ir: IRV,
        x: <ExpressionLattice as Lattice>::M,
        y: <ExpressionLattice as Lattice>::M,
    ) {
        match ir {
            IRV::LetV(_l, _x, op, argsv, _rest) => {
                if no_lam(argsv) {
                    let s = Some(Set::<(BuiltinOp, Seq<AtomV>)>::empty().insert((op, argsv)));
                    let jx = ExpressionLattice::join_m(x, s);
                    let jy = ExpressionLattice::join_m(y, s);
                    // join(join(x, s), join(y, s)) == join(y, s), from the
                    // semilattice laws and join(x, y) == y
                    ExpressionLattice::join_assoc(x, s, jy);
                    ExpressionLattice::join_comm(s, jy);
                    ExpressionLattice::join_assoc(y, s, s);
                    ExpressionLattice::join_idem(s);
                    ExpressionLattice::join_comm(y, s);
                    ExpressionLattice::join_assoc(s, s, y);
                    ExpressionLattice::join_idem(s);
                    assert(ExpressionLattice::join_m(s, jy) == ExpressionLattice::join_m(
                        s,
                        ExpressionLattice::join_m(s, y),
                    )) by {
                        ExpressionLattice::join_comm(y, s);
                    }
                    ExpressionLattice::join_assoc(s, s, y);
                    assert(ExpressionLattice::join_m(s, jy) == jy) by {
                        ExpressionLattice::join_comm(y, s);
                        ExpressionLattice::join_assoc(s, s, y);
                        ExpressionLattice::join_idem(s);
                        ExpressionLattice::join_comm(s, y);
                    }
                    assert(ExpressionLattice::join_m(jx, jy) == ExpressionLattice::join_m(
                        x,
                        ExpressionLattice::join_m(s, jy),
                    )) by {
                        ExpressionLattice::join_assoc(x, s, jy);
                    }
                    assert(ExpressionLattice::join_m(x, jy) == jy) by {
                        ExpressionLattice::join_assoc(x, y, s);
                    }
                }
            },
            _ => {},
        }
    }
}

/// Builds the pool of a forward available-expressions analysis: empty
/// arena, forward direction, and the `Let`-recording transfer function.
pub fn make_analysis() -> (r: NodePool<ExpressionLattice, AvailTransfer>)
    ensures
        r.wf(),
        r.nodes@.len() == 0,
        r.cont_table@.len() == 0,
        r.direction == true,
        r.constraint_fun == AvailTransfer,
{
    NodePool::new(true, AvailTransfer)
}

/// Joining from bottom returns the other value unchanged: bottom is the
/// identity of the join.
pub proof fn lemma_join_bot(x: <ExpressionLattice as Lattice>::M)
    ensures
        ExpressionLattice::join_m(ExpressionLattice::bottom_m(), x) == x,
        ExpressionLattice::join_m(x, ExpressionLattice::bottom_m()) == x,
{
}

/// Joining two expression sets intersects them.
pub proof fn lemma_join_intersection(
    a: Set<(BuiltinOp, Seq<AtomV>)>,
    b: Set<(BuiltinOp, Seq<AtomV>)>,
)
    ensures
        ExpressionLattice::join_m(Some(a), Some(b)) == Some(a.intersect(b)),
{
}

} // verus!
