//! The IR normalizer: along every control-flow spine the value bindings
//! (`Let`, `LetVal`, `Fix`) are hoisted above the continuation bindings
//! (`LetCont`), each group keeping its relative order, with lambda bodies
//! and conditional branches normalized as spines of their own. The
//! normalizer's behaviour is specified by `norm_v` over the mathematical
//! view of the IR, and normalization is proved idempotent.

use vstd::prelude::*;
use crate::ir::{
    Atom, AtomV, IR, IRV, nsize_atom, nsize_atoms, nsize_ir, view_atom, view_atoms, view_ir,
    views_str, lemma_view_atoms_props,
};

verus! {

/// What normalization does to an atom: lambda bodies are normalized.
pub open spec fn norm_atom_v(a: AtomV) -> AtomV
    decreases a,
{
    match a {
        AtomV::LamV(l, ps, b) => AtomV::LamV(l, ps, Box::new(norm_v(*b))),
        _ => a,
    }
}

/// What normalization does to a sequence of atoms.
pub open spec fn norm_atoms_v(s: Seq<AtomV>) -> Seq<AtomV>
    decreases s,
{
    if s.len() == 0 {
        Seq::empty()
    } else {
        seq![norm_atom_v(s[0])] + norm_atoms_v(s.drop_first())
    }
}

/// Slides one continuation binding below the value bindings of an already
/// normalized spine: the binding settles just above the first non-value
/// node.
pub open spec fn insert_cont_v(l: nat, n: Seq<char>, ps: Seq<Seq<char>>, cb: IRV, m: IRV) -> IRV
    decreases m,
{
    match m {
        IRV::LetV(l2, x, op, args, r2) => IRV::LetV(
            l2,
            x,
            op,
            args,
            Box::new(insert_cont_v(l, n, ps, cb, *r2)),
        ),
        IRV::LetValV(l2, x, a, r2) => IRV::LetValV(
            l2,
            x,
            a,
            Box::new(insert_cont_v(l, n, ps, cb, *r2)),
        ),
        IRV::FixV(l2, ns, vs, r2) => IRV::FixV(
            l2,
            ns,
            vs,
            Box::new(insert_cont_v(l, n, ps, cb, *r2)),
        ),
        _ => IRV::LetContV(l, n, ps, Box::new(cb), Box::new(m)),
    }
}

/// What normalization does to an IR tree: the spine is rebuilt with all
/// value bindings above all continuation bindings, each group in its
/// original order; lambda bodies and conditional branches are normalized
/// recursively; the bodies of continuation bindings are left as they are.
pub open spec fn norm_v(x: IRV) -> IRV
    decreases x,
{
    match x {
        IRV::LetContV(l, n, ps, cb, r) => insert_cont_v(l, n, ps, *cb, norm_v(*r)),
        IRV::LetV(l, x1, op, args, r) => IRV::LetV(
            l,
            x1,
            op,
            norm_atoms_v(args),
            Box::new(norm_v(*r)),
        ),
        IRV::LetValV(l, x1, a, r) => IRV::LetValV(l, x1, norm_atom_v(a), Box::new(norm_v(*r))),
        IRV::FixV(l, ns, vs, r) => IRV::FixV(l, ns, norm_atoms_v(vs), Box::new(norm_v(*r))),
        IRV::IfV(l, t, a, b) => IRV::IfV(
            l,
            norm_atom_v(t),
            Box::new(norm_v(*a)),
            Box::new(norm_v(*b)),
        ),
        IRV::AppV(l, f, args, c) => IRV::AppV(l, norm_atom_v(f), norm_atoms_v(args), c),
        IRV::AppContV(l, c, args) => IRV::AppContV(l, c, norm_atoms_v(args)),
    }
}

/// An atom is normal when its lambda body, if any, is normal.
pub open spec fn atomn_v(a: AtomV) -> bool
    decreases a,
{
    match a {
        AtomV::LamV(_l, _ps, b) => vtc_v(*b),
        _ => true,
    }
}

/// All atoms of a sequence are normal.
pub open spec fn atomsn_v(s: Seq<AtomV>) -> bool
    decreases s,
{
    if s.len() == 0 {
        true
    } else {
        atomn_v(s[0]) && atomsn_v(s.drop_first())
    }
}

/// Normal form: along the spine, value bindings first, then continuation
/// bindings, then a terminal node; all embedded atoms and branches normal.
pub open spec fn vtc_v(x: IRV) -> bool
    decreases x,
{
    match x {
        IRV::LetV(_l, _x, _op, args, r) => atomsn_v(args) && vtc_v(*r),
        IRV::LetValV(_l, _x, a, r) => atomn_v(a) && vtc_v(*r),
        IRV::FixV(_l, _ns, vs, r) => atomsn_v(vs) && vtc_v(*r),
        IRV::LetContV(_l, _n, _ps, _cb, r) => ctc_v(*r),
        IRV::IfV(_l, t, a, b) => atomn_v(t) && vtc_v(*a) && vtc_v(*b),
        IRV::AppV(_l, f, args, _c) => atomn_v(f) && atomsn_v(args),
        IRV::AppContV(_l, _c, args) => atomsn_v(args),
    }
}

/// The continuation-binding tail of a normal spine: no value binding may
/// follow.
pub open spec fn ctc_v(x: IRV) -> bool
    decreases x,
{
    match x {
        IRV::LetV(_l, _x, _op, _args, _r) => false,
        IRV::LetValV(_l, _x, _a, _r) => false,
        IRV::FixV(_l, _ns, _vs, _r) => false,
        IRV::LetContV(_l, _n, _ps, _cb, r) => ctc_v(*r),
        IRV::IfV(_l, t, a, b) => atomn_v(t) && vtc_v(*a) && vtc_v(*b),
        IRV::AppV(_l, f, args, _c) => atomn_v(f) && atomsn_v(args),
        IRV::AppContV(_l, _c, args) => atomsn_v(args),
    }
}

/// A continuation-binding tail is itself a normal spine.
pub proof fn lemma_ctc_vtc(x: IRV)
    requires
        ctc_v(x),
    ensures
        vtc_v(x),
{
    match x {
        IRV::LetContV(_l, _n, _ps, _cb, _r) => {},
        _ => {},
    }
}

/// `norm_atoms_v` indexes pointwise.
pub proof fn lemma_norm_atoms_props(s: Seq<AtomV>)
    ensures
        norm_atoms_v(s).len() == s.len(),
        forall|i: int| 0 <= i < s.len() ==> norm_atoms_v(s)[i] == norm_atom_v(s[i]),
    decreases s.len(),
{
    if s.len() > 0 {
        lemma_norm_atoms_props(s.drop_first());
    }
}

/// Normalizing an atom yields a normal atom.
pub proof fn lemma_norm_atom_normal(a: AtomV)
    ensures
        atomn_v(norm_atom_v(a)),
    decreases a, 0int,
{
    match a {
        AtomV::LamV(_l, _ps, b) => {
            lemma_norm_normal(*b);
        },
        _ => {},
    }
}

/// Normalizing a sequence of atoms yields normal atoms.
pub proof fn lemma_norm_atoms_normal(s: Seq<AtomV>)
    ensures
        atomsn_v(norm_atoms_v(s)),
    decreases s, 1int,
{
    if s.len() > 0 {
        lemma_norm_atom_normal(s[0]);
        lemma_norm_atoms_normal(s.drop_first());
        let t = norm_atoms_v(s);
        assert(t[0] == norm_atom_v(s[0]));
        assert(t.drop_first() =~= norm_atoms_v(s.drop_first()));
    }
}

/// Sliding a continuation binding into a normal spine keeps it normal.
pub proof fn lemma_insert_normal(l: nat, n: Seq<char>, ps: Seq<Seq<char>>, cb: IRV, m: IRV)
    requires
        vtc_v(m),
    ensures
        vtc_v(insert_cont_v(l, n, ps, cb, m)),
    decreases m,
{
    match m {
        IRV::LetV(_l2, _x, _op, _args, r2) => {
            lemma_insert_normal(l, n, ps, cb, *r2);
        },
        IRV::LetValV(_l2, _x, _a, r2) => {
            lemma_insert_normal(l, n, ps, cb, *r2);
        },
        IRV::FixV(_l2, _ns, _vs, r2) => {
            lemma_insert_normal(l, n, ps, cb, *r2);
        },
        IRV::LetContV(_l2, _n2, _ps2, _cb2, r2) => {
            assert(ctc_v(m) == ctc_v(*r2));
        },
        IRV::IfV(_l2, _t, _a, _b) => {
            assert(ctc_v(m));
        },
        IRV::AppV(_l2, _f, _args, _c) => {
            assert(ctc_v(m));
        },
        IRV::AppContV(_l2, _c, _args) => {
            assert(ctc_v(m));
        },
    }
}

/// Normalization yields a normal spine.
pub proof fn lemma_norm_normal(x: IRV)
    ensures
        vtc_v(norm_v(x)),
    decreases x, 2int,
{
    match x {
        IRV::LetContV(l, n, ps, cb, r) => {
            lemma_norm_normal(*r);
            lemma_insert_normal(l, n, ps, *cb, norm_v(*r));
        },
        IRV::LetV(_l, _x1, _op, args, r) => {
            lemma_norm_atoms_normal(args);
            lemma_norm_normal(*r);
        },
        IRV::LetValV(_l, _x1, a, r) => {
            lemma_norm_atom_normal(a);
            lemma_norm_normal(*r);
        },
        IRV::FixV(_l, _ns, vs, r) => {
            lemma_norm_atoms_normal(vs);
            lemma_norm_normal(*r);
        },
        IRV::IfV(_l, t, a, b) => {
            lemma_norm_atom_normal(t);
            lemma_norm_normal(*a);
            lemma_norm_normal(*b);
        },
        IRV::AppV(_l, f, args, _c) => {
            lemma_norm_atom_normal(f);
            lemma_norm_atoms_normal(args);
        },
        IRV::AppContV(_l, _c, args) => {
            lemma_norm_atoms_normal(args);
        },
    }
}

/// A normal atom is a fixed point of atom normalization.
pub proof fn lemma_norm_atom_fixed(a: AtomV)
    requires
        atomn_v(a),
    ensures
        norm_atom_v(a) == a,
    decreases a, 0int,
{
    match a {
        AtomV::LamV(_l, _ps, b) => {
            lemma_norm_fixed(*b);
        },
        _ => {},
    }
}

/// A sequence of normal atoms is a fixed point.
pub proof fn lemma_norm_atoms_fixed(s: Seq<AtomV>)
    requires
        atomsn_v(s),
    ensures
        norm_atoms_v(s) == s,
    decreases s, 1int,
{
    if s.len() > 0 {
        lemma_norm_atom_fixed(s[0]);
        lemma_norm_atoms_fixed(s.drop_first());
        assert(norm_atoms_v(s) =~= s);
    }
}

/// On a continuation-binding tail, sliding just wraps.
pub proof fn lemma_insert_fixed(l: nat, n: Seq<char>, ps: Seq<Seq<char>>, cb: IRV, m: IRV)
    requires
        ctc_v(m),
    ensures
        insert_cont_v(l, n, ps, cb, m) == IRV::LetContV(l, n, ps, Box::new(cb), Box::new(m)),
{
}

/// A normal spine is a fixed point of normalization.
pub proof fn lemma_norm_fixed(x: IRV)
    requires
        vtc_v(x),
    ensures
        norm_v(x) == x,
    decreases x, 2int,
{
    match x {
        IRV::LetContV(l, n, ps, cb, r) => {
            lemma_ctc_vtc(*r);
            lemma_norm_fixed(*r);
            lemma_insert_fixed(l, n, ps, *cb, *r);
        },
        IRV::LetV(_l, _x1, _op, args, r) => {
            lemma_norm_atoms_fixed(args);
            lemma_norm_fixed(*r);
        },
        IRV::LetValV(_l, _x1, a, r) => {
            lemma_norm_atom_fixed(a);
            lemma_norm_fixed(*r);
        },
        IRV::FixV(_l, _ns, vs, r) => {
            lemma_norm_atoms_fixed(vs);
            lemma_norm_fixed(*r);
        },
        IRV::IfV(_l, t, a, b) => {
            lemma_norm_atom_fixed(t);
            lemma_norm_fixed(*a);
            lemma_norm_fixed(*b);
        },
        IRV::AppV(_l, f, args, _c) => {
            lemma_norm_atom_fixed(f);
            lemma_norm_atoms_fixed(args);
        },
        IRV::AppContV(_l, _c, args) => {
            lemma_norm_atoms_fixed(args);
        },
    }
}

/// Normalization is idempotent: normalizing an already normalized tree
/// changes nothing.
pub proof fn lemma_normalize_idempotent(x: IRV)
    ensures
        norm_v(norm_v(x)) == norm_v(x),
{
    lemma_norm_normal(x);
    lemma_norm_fixed(norm_v(x));
}

/// Normalizes the atoms of a vector, one by one.
fn normalize_atoms(v: Vec<Atom>) -> (r: Vec<Atom>)
    ensures
        view_atoms(r@) == norm_atoms_v(view_atoms(v@)),
    decreases nsize_atoms(v@), 1int,
{
    let mut src = v;
    let mut out: Vec<Atom> = Vec::new();
    let ghost orig = src@;
    while src.len() > 0
        invariant
            out@.len() + src@.len() == orig.len(),
            src@ == orig.subrange(out@.len() as int, orig.len() as int),
            forall|j: int| 0 <= j < out@.len() ==> view_atom(#[trigger] out@[j]) == norm_atom_v(
                view_atom(orig[j]),
            ),
            nsize_atoms(src@) <= nsize_atoms(orig),
            orig == v@,
        decreases src@.len(),
    {
        let ghost pre = src@;
        let ghost done = out@.len() as int;
        let a = src.remove(0);
        proof {
            assert(pre.drop_first() =~= src@);
            assert(nsize_atoms(pre) == nsize_atom(a) + nsize_atoms(src@));
            assert(a == orig[done]);
            assert(src@ =~= orig.subrange(done + 1, orig.len() as int));
        }
        let na = normalize_atom(a);
        out.push(na);
    }
    proof {
        lemma_view_atoms_props(orig);
        lemma_view_atoms_props(out@);
        lemma_norm_atoms_props(view_atoms(orig));
        assert(view_atoms(out@) =~= norm_atoms_v(view_atoms(orig)));
    }
    out
}

/// Normalizes one atom: a lambda's body is normalized, every other atom is
/// returned as it is.
fn normalize_atom(a: Atom) -> (r: Atom)
    ensures
        view_atom(r) == norm_atom_v(view_atom(a)),
    decreases nsize_atom(a), 0int,
{
    match a {
        Atom::Lam(l, ps, body) => Atom::Lam(l, ps, Box::new((*body).normalize())),
        other => other,
    }
}

/// Slides one continuation binding below the value bindings of an already
/// normalized spine.
fn insert_cont(label: usize, name: String, params: Vec<String>, cb: Box<IR>, m: IR) -> (r: IR)
    ensures
        view_ir(r) == insert_cont_v(
            label as nat,
            name@,
            views_str(params@),
            view_ir(*cb),
            view_ir(m),
        ),
    decreases m,
{
    match m {
        IR::Let(l2, x, op, args, r2) => IR::Let(
            l2,
            x,
            op,
            args,
            Box::new(insert_cont(label, name, params, cb, *r2)),
        ),
        IR::LetVal(l2, x, a, r2) => IR::LetVal(
            l2,
            x,
            a,
            Box::new(insert_cont(label, name, params, cb, *r2)),
        ),
        IR::Fix(l2, ns, vs, r2) => IR::Fix(
            l2,
            ns,
            vs,
            Box::new(insert_cont(label, name, params, cb, *r2)),
        ),
        other => IR::LetCont(label, name, params, cb, Box::new(other)),
    }
}

impl IR {
    /// Rewrites the tree so that, along every control-flow spine, all
    /// value, operator and fixpoint bindings stand above all continuation
    /// bindings, each group keeping its original order. The result is the
    /// normal form `norm_v` of this tree's view; by
    /// `lemma_normalize_idempotent`, normalizing again changes nothing.
    pub fn normalize(self) -> (r: Self)
        ensures
            view_ir(r) == norm_v(view_ir(self)),
        decreases nsize_ir(self), 2int,
    {
        match self {
            IR::LetCont(l, n, ps, cb, rest) => {
                let nr = (*rest).normalize();
                insert_cont(l, n, ps, cb, nr)
            },
            IR::Let(l, x, op, args, rest) => {
                let nargs = normalize_atoms(args);
                let nr = (*rest).normalize();
                IR::Let(l, x, op, nargs, Box::new(nr))
            },
            IR::LetVal(l, x, a, rest) => {
                let na = normalize_atom(a);
                let nr = (*rest).normalize();
                IR::LetVal(l, x, na, Box::new(nr))
            },
            IR::Fix(l, ns, vs, rest) => {
                let nvs = normalize_atoms(vs);
                let nr = (*rest).normalize();
                IR::Fix(l, ns, nvs, Box::new(nr))
            },
            IR::If(l, t, a, b) => {
                let nt = normalize_atom(t);
                let na = (*a).normalize();
                let nb = (*b).normalize();
                IR::If(l, nt, Box::new(na), Box::new(nb))
            },
            IR::App(l, f, args, c) => {
                let nf = normalize_atom(f);
                let nargs = normalize_atoms(args);
                IR::App(l, nf, nargs, c)
            },
            IR::AppCont(l, c, args) => {
                let nargs = normalize_atoms(args);
                IR::AppCont(l, c, nargs)
            },
        }
    }
}

} // verus!
