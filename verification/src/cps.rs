//! CPS conversion. `cps` converts a direct-style expression, threading a
//! meta-continuation that receives the atom holding the expression's value
//! and produces the completed IR. The meta-continuation is an explicit
//! stack of frames (`AtomK`, `VecK`) rather than a closure, so every step
//! of the conversion carries a proved contract: the generator counters
//! grow by a bounded amount, and the labels of the produced tree never
//! repeat.

use vstd::prelude::*;
use vstd::seq_lib::lemma_no_dup_in_concat;
use crate::builtin_call::BuiltinOp;
use crate::ir::{
    Atom, AtomV, BExprV, BuilderExpr, Cont, ContV, GenTable, IR, IRV, atom_labels, atoms_labels,
    cont_name, ir_labels, var_name, view_atom, view_atoms, view_bexpr, view_bexprs, view_ir,
    views_str, lemma_view_atoms_push, lemma_view_atoms_props, lemma_view_atoms_reverse,
    lemma_view_bexprs_drop, lemma_view_bexprs_props,
};

verus! {

/// A meta-continuation expecting the atom of one converted expression.
pub enum AtomK {
    /// Deliver the program result: `AppCont(label, Return, [atom])`.
    Emit(usize),
    /// Deliver a lambda body's result through `Return`, under a fresh label.
    EmitRet,
    /// Jump to the join continuation of a conditional branch:
    /// `AppCont(label, Named(cont), [atom])`.
    BranchDone(String, usize),
    /// The function of an application is converted; its arguments wait.
    FunDone(Vec<BuilderExpr>, Box<AtomK>),
    /// The test of a conditional is converted; both branches wait.
    TestDone(Box<BuilderExpr>, Box<BuilderExpr>, Box<AtomK>),
    /// The bound expression of a let is converted; the body waits.
    BindVal(String, Box<BuilderExpr>, Box<AtomK>),
    /// One argument of a sequence is converted; the rest wait.
    ArgDone(Vec<BuilderExpr>, Box<VecK>),
}

/// A meta-continuation expecting the atoms of a converted argument list,
/// collected in reverse source order.
pub enum VecK {
    /// All arguments of a function application are converted: emit a fresh
    /// join continuation wrapping the waiting `AtomK` around the call.
    ArgsApp(Atom, Box<AtomK>),
    /// All arguments of a primitive application are converted: emit `Let`.
    ArgsPrim(BuiltinOp, Box<AtomK>),
    /// Append one already-converted atom to the collected list.
    ArgsCons(Atom, Box<VecK>),
}

/// Structural size of a source expression; at least one per node.
pub open spec fn bsize(e: BuilderExpr) -> nat
    decreases e,
{
    match e {
        BuilderExpr::Lam(_vars, body) => 1 + bsize(*body),
        BuilderExpr::App(f, args) => 1 + bsize(*f) + bsizes(args@),
        BuilderExpr::PrimApp(_op, args) => 1 + bsizes(args@),
        BuilderExpr::If(t, a, b) => 1 + bsize(*t) + bsize(*a) + bsize(*b),
        BuilderExpr::Fix(_vars, vals, body) => 1 + bsizes(vals@) + bsize(*body),
        BuilderExpr::Let(_var, val, body) => 1 + bsize(*val) + bsize(*body),
        _ => 1,
    }
}

/// Total size of a sequence of source expressions.
pub open spec fn bsizes(s: Seq<BuilderExpr>) -> nat
    decreases s,
{
    if s.len() == 0 {
        0
    } else {
        bsize(s[0]) + bsizes(s.drop_first())
    }
}

/// Every `Fix` in the expression binds only lambdas. Conversion requires
/// this of its input; a violation is a malformed program, not a runtime
/// condition.
pub open spec fn fix_wf(e: BuilderExpr) -> bool
    decreases e,
{
    match e {
        BuilderExpr::Lam(_vars, body) => fix_wf(*body),
        BuilderExpr::App(f, args) => fix_wf(*f) && fixes_wf(args@),
        BuilderExpr::PrimApp(_op, args) => fixes_wf(args@),
        BuilderExpr::If(t, a, b) => fix_wf(*t) && fix_wf(*a) && fix_wf(*b),
        BuilderExpr::Fix(_vars, vals, body) => (forall|i: int|
            0 <= i < vals@.len() ==> (#[trigger] vals@[i]) matches BuilderExpr::Lam(_, _))
            && fixes_wf(vals@) && fix_wf(*body),
        BuilderExpr::Let(_var, val, body) => fix_wf(*val) && fix_wf(*body),
        _ => true,
    }
}

/// `fix_wf` over a sequence of expressions.
pub open spec fn fixes_wf(s: Seq<BuilderExpr>) -> bool
    decreases s,
{
    if s.len() == 0 {
        true
    } else {
        fix_wf(s[0]) && fixes_wf(s.drop_first())
    }
}

/// Size of the source expressions still waiting inside a meta-continuation.
pub open spec fn wa(k: AtomK) -> nat
    decreases k,
{
    match k {
        AtomK::Emit(_) => 0,
        AtomK::EmitRet => 0,
        AtomK::BranchDone(_, _) => 0,
        AtomK::FunDone(args, k1) => bsizes(args@) + wa(*k1),
        AtomK::TestDone(a, b, k1) => bsize(*a) + bsize(*b) + wa(*k1),
        AtomK::BindVal(_, body, k1) => bsize(*body) + wa(*k1),
        AtomK::ArgDone(rest, kv) => bsizes(rest@) + wv(*kv),
    }
}

/// Size of the source expressions still waiting inside a list continuation.
pub open spec fn wv(k: VecK) -> nat
    decreases k,
{
    match k {
        VecK::ArgsApp(_, k1) => wa(*k1),
        VecK::ArgsPrim(_, k1) => wa(*k1),
        VecK::ArgsCons(_, kv) => wv(*kv),
    }
}

/// Frame count of a meta-continuation, counting pending list entries;
/// always at least one.
pub open spec fn fa(k: AtomK) -> nat
    decreases k,
{
    match k {
        AtomK::Emit(_) => 1,
        AtomK::EmitRet => 1,
        AtomK::BranchDone(_, _) => 1,
        AtomK::FunDone(args, k1) => 1 + args@.len() + fa(*k1),
        AtomK::TestDone(_, _, k1) => 1 + fa(*k1),
        AtomK::BindVal(_, _, k1) => 1 + fa(*k1),
        AtomK::ArgDone(rest, kv) => 1 + rest@.len() + fv(*kv),
    }
}

/// Frame count of a list continuation.
pub open spec fn fv(k: VecK) -> nat
    decreases k,
{
    match k {
        VecK::ArgsApp(_, k1) => 1 + fa(*k1),
        VecK::ArgsPrim(_, k1) => 1 + fa(*k1),
        VecK::ArgsCons(_, kv) => 1 + fv(*kv),
    }
}

/// How many labels, continuation names or temporaries applying the
/// meta-continuation may still draw from the generator.
pub open spec fn ka_budget(k: AtomK) -> nat
    decreases k,
{
    match k {
        AtomK::Emit(_) => 0,
        AtomK::EmitRet => 1,
        AtomK::BranchDone(_, _) => 0,
        AtomK::FunDone(args, k1) => 2 + 4 * bsizes(args@) + ka_budget(*k1),
        AtomK::TestDone(a, b, k1) => 4 + 4 * bsize(*a) + 4 * bsize(*b) + ka_budget(*k1),
        AtomK::BindVal(_, body, k1) => 1 + 4 * bsize(*body) + ka_budget(*k1),
        AtomK::ArgDone(rest, kv) => 4 * bsizes(rest@) + kv_budget(*kv),
    }
}

/// Generator budget of a list continuation.
pub open spec fn kv_budget(k: VecK) -> nat
    decreases k,
{
    match k {
        VecK::ArgsApp(_, k1) => 2 + ka_budget(*k1),
        VecK::ArgsPrim(_, k1) => 1 + ka_budget(*k1),
        VecK::ArgsCons(_, kv) => kv_budget(*kv),
    }
}

/// The labels already embedded in a meta-continuation: pre-allocated
/// destination labels and the labels of atoms converted earlier.
pub open spec fn ka_labels(k: AtomK) -> Seq<int>
    decreases k,
{
    match k {
        AtomK::Emit(label) => seq![label as int],
        AtomK::EmitRet => seq![],
        AtomK::BranchDone(_, label) => seq![label as int],
        AtomK::FunDone(_, k1) => ka_labels(*k1),
        AtomK::TestDone(_, _, k1) => ka_labels(*k1),
        AtomK::BindVal(_, _, k1) => ka_labels(*k1),
        AtomK::ArgDone(_, kv) => kv_labels(*kv),
    }
}

/// The labels already embedded in a list continuation.
pub open spec fn kv_labels(k: VecK) -> Seq<int>
    decreases k,
{
    match k {
        VecK::ArgsApp(f, k1) => atom_labels(f) + ka_labels(*k1),
        VecK::ArgsPrim(_, k1) => ka_labels(*k1),
        VecK::ArgsCons(a, kv) => atom_labels(a) + kv_labels(*kv),
    }
}

/// `fix_wf` over the expressions waiting in a meta-continuation.
pub open spec fn ka_fix_wf(k: AtomK) -> bool
    decreases k,
{
    match k {
        AtomK::FunDone(args, k1) => fixes_wf(args@) && ka_fix_wf(*k1),
        AtomK::TestDone(a, b, k1) => fix_wf(*a) && fix_wf(*b) && ka_fix_wf(*k1),
        AtomK::BindVal(_, body, k1) => fix_wf(*body) && ka_fix_wf(*k1),
        AtomK::ArgDone(rest, kv) => fixes_wf(rest@) && kv_fix_wf(*kv),
        _ => true,
    }
}

/// `fix_wf` over the expressions waiting in a list continuation.
pub open spec fn kv_fix_wf(k: VecK) -> bool
    decreases k,
{
    match k {
        VecK::ArgsApp(_, k1) => ka_fix_wf(*k1),
        VecK::ArgsPrim(_, k1) => ka_fix_wf(*k1),
        VecK::ArgsCons(_, kv) => kv_fix_wf(*kv),
    }
}

/// A collection of labels with no repetitions, all below `bound`.
pub open spec fn labs_ok(labs: Seq<int>, bound: int) -> bool {
    labs.no_duplicates() && (forall|i: int| 0 <= i < labs.len() ==> #[trigger] labs[i] < bound)
}

/// Every label of `labs` is either embedded in `base` or was drawn fresh
/// from the half-open counter range `lo .. hi`.
pub open spec fn labs_from(labs: Seq<int>, base: Seq<int>, lo: int, hi: int) -> bool {
    forall|i: int| 0 <= i < labs.len() ==> base.contains(#[trigger] labs[i]) || (lo <= labs[i]
        < hi)
}

/// Every label of `base` occurs in `labs`: nothing embedded in the
/// meta-continuation is dropped.
pub open spec fn labs_include(labs: Seq<int>, base: Seq<int>) -> bool {
    forall|i: int| 0 <= i < base.len() ==> labs.contains(#[trigger] base[i])
}

/// A member of an included base is a member of the including collection.
proof fn lemma_include_member(labs: Seq<int>, base: Seq<int>, x: int)
    requires
        labs_include(labs, base),
        base.contains(x),
    ensures
        labs.contains(x),
{
    let i = choose|i: int| 0 <= i < base.len() && base[i] == x;
    assert(labs.contains(base[i]));
}

/// Inclusion of a concatenation gives inclusion of each half.
proof fn lemma_include_split(labs: Seq<int>, a: Seq<int>, b: Seq<int>)
    requires
        labs_include(labs, a + b),
    ensures
        labs_include(labs, a),
        labs_include(labs, b),
{
    assert forall|i: int| 0 <= i < a.len() implies labs.contains(#[trigger] a[i]) by {
        assert((a + b)[i] == a[i]);
    }
    assert forall|i: int| 0 <= i < b.len() implies labs.contains(#[trigger] b[i]) by {
        assert((a + b)[i + a.len()] == b[i]);
    }
}

/// A source expression has size at least one.
pub proof fn lemma_bsize_pos(e: BuilderExpr)
    ensures
        bsize(e) >= 1,
{
    match e {
        BuilderExpr::Lam(_, _) => {},
        BuilderExpr::App(_, _) => {},
        BuilderExpr::PrimApp(_, _) => {},
        BuilderExpr::If(_, _, _) => {},
        BuilderExpr::Fix(_, _, _) => {},
        BuilderExpr::Let(_, _, _) => {},
        _ => {},
    }
}

/// A meta-continuation has at least one frame.
pub proof fn lemma_fa_pos(k: AtomK)
    ensures
        fa(k) >= 1,
{
    match k {
        AtomK::Emit(_) => {},
        AtomK::EmitRet => {},
        AtomK::BranchDone(_, _) => {},
        AtomK::FunDone(_, _) => {},
        AtomK::TestDone(_, _, _) => {},
        AtomK::BindVal(_, _, _) => {},
        AtomK::ArgDone(_, _) => {},
    }
}

/// Labels of a sequence of atoms distribute over concatenation.
pub proof fn lemma_atoms_labels_concat(s1: Seq<Atom>, s2: Seq<Atom>)
    ensures
        atoms_labels(s1 + s2) == atoms_labels(s1) + atoms_labels(s2),
    decreases s1.len(),
{
    if s1.len() == 0 {
        assert(s1 + s2 =~= s2);
        assert(atoms_labels(s1) + atoms_labels(s2) =~= atoms_labels(s2));
    } else {
        assert((s1 + s2).drop_first() =~= s1.drop_first() + s2);
        lemma_atoms_labels_concat(s1.drop_first(), s2);
        assert(atoms_labels(s1 + s2) =~= atoms_labels(s1) + atoms_labels(s2));
    }
}

/// Appending one atom appends its labels.
pub proof fn lemma_atoms_labels_push(s: Seq<Atom>, a: Atom)
    ensures
        atoms_labels(s.push(a)) == atoms_labels(s) + atom_labels(a),
{
    assert(s.push(a) =~= s + seq![a]);
    lemma_atoms_labels_concat(s, seq![a]);
    assert(seq![a].drop_first() =~= Seq::<Atom>::empty());
    assert(seq![a][0] == a);
    assert(atoms_labels(seq![a]) == atom_labels(a) + atoms_labels(seq![a].drop_first()));
    assert(atoms_labels(seq![a]) =~= atom_labels(a));
    assert(atoms_labels(s.push(a)) =~= atoms_labels(s) + atom_labels(a));
}

/// Two sequences with equal multisets: if one has no duplicates, neither
/// has the other.
proof fn lemma_multiset_no_dup(a: Seq<int>, b: Seq<int>)
    requires
        a.to_multiset() == b.to_multiset(),
        b.no_duplicates(),
    ensures
        a.no_duplicates(),
{
    b.lemma_multiset_has_no_duplicates();
    a.lemma_multiset_has_no_duplicates_conv();
}

/// Reversing a sequence of atoms keeps its label collection: no label
/// appears or disappears, and no duplicate can arise.
pub proof fn lemma_atoms_labels_reverse(s: Seq<Atom>)
    ensures
        atoms_labels(s.reverse()).no_duplicates() <==> atoms_labels(s).no_duplicates(),
        forall|x: int| atoms_labels(s.reverse()).contains(x) <==> atoms_labels(s).contains(x),
    decreases s.len(),
{
    broadcast use vstd::seq_lib::group_to_multiset_ensures;

    lemma_atoms_labels_reverse_multiset(s);
    lemma_multiset_no_dup_iff(atoms_labels(s.reverse()), atoms_labels(s));
    assert forall|x: int|
        atoms_labels(s.reverse()).contains(x) <==> atoms_labels(s).contains(x) by {
        assert(atoms_labels(s.reverse()).contains(x) <==> atoms_labels(
            s.reverse(),
        ).to_multiset().count(x) > 0);
        assert(atoms_labels(s).contains(x) <==> atoms_labels(s).to_multiset().count(x) > 0);
    }
}

/// Equal multisets decide `no_duplicates` the same way.
proof fn lemma_multiset_no_dup_iff(a: Seq<int>, b: Seq<int>)
    requires
        a.to_multiset() == b.to_multiset(),
    ensures
        a.no_duplicates() <==> b.no_duplicates(),
{
    if a.no_duplicates() {
        lemma_multiset_no_dup(b, a);
    }
    if b.no_duplicates() {
        lemma_multiset_no_dup(a, b);
    }
}

/// Reversal keeps the multiset of atom labels.
proof fn lemma_atoms_labels_reverse_multiset(s: Seq<Atom>)
    ensures
        atoms_labels(s.reverse()).to_multiset() == atoms_labels(s).to_multiset(),
    decreases s.len(),
{
    broadcast use vstd::multiset::group_multiset_axioms;

    if s.len() == 0 {
        assert(s.reverse() =~= s);
    } else {
        let butlast = s.drop_last();
        lemma_atoms_labels_reverse_multiset(butlast);
        assert(s.reverse() =~= seq![s.last()] + butlast.reverse());
        lemma_atoms_labels_concat(seq![s.last()], butlast.reverse());
        assert(seq![s.last()].drop_first() =~= Seq::<Atom>::empty());
        assert(seq![s.last()][0] == s.last());
        assert(atoms_labels(seq![s.last()]) == atom_labels(s.last()) + atoms_labels(
            seq![s.last()].drop_first(),
        ));
        assert(atoms_labels(seq![s.last()]) =~= atom_labels(s.last()));
        assert(s =~= butlast.push(s.last()));
        lemma_atoms_labels_push(butlast, s.last());
        let la = atom_labels(s.last());
        let lb = atoms_labels(butlast);
        let lbr = atoms_labels(butlast.reverse());
        assert(atoms_labels(s.reverse()) == la + lbr);
        assert(atoms_labels(s) == lb + la);
        vstd::seq_lib::lemma_multiset_commutative(la, lbr);
        vstd::seq_lib::lemma_multiset_commutative(lb, la);
        assert(la.to_multiset().add(lbr.to_multiset()) =~= lbr.to_multiset().add(la.to_multiset()));
        assert(atoms_labels(s.reverse()).to_multiset() =~= atoms_labels(s).to_multiset());
    }
}

/// A member of a bounded label collection is itself below the bound.
proof fn lemma_labs_member_bound(labs: Seq<int>, bound: int, x: int)
    requires
        labs_ok(labs, bound),
        labs.contains(x),
    ensures
        x < bound,
{
    let i = choose|i: int| 0 <= i < labs.len() && labs[i] == x;
    assert(labs[i] < bound);
}

/// `a + b` contains what `a` contains.
proof fn lemma_contains_left(a: Seq<int>, b: Seq<int>, x: int)
    requires
        a.contains(x),
    ensures
        (a + b).contains(x),
{
    let i = choose|i: int| 0 <= i < a.len() && a[i] == x;
    assert((a + b)[i] == x);
}

/// `a + b` contains what `b` contains.
proof fn lemma_contains_right(a: Seq<int>, b: Seq<int>, x: int)
    requires
        b.contains(x),
    ensures
        (a + b).contains(x),
{
    let i = choose|i: int| 0 <= i < b.len() && b[i] == x;
    assert((a + b)[i + a.len()] == x);
}

/// Whatever `a + b` contains is in `a` or in `b`.
proof fn lemma_concat_contains(a: Seq<int>, b: Seq<int>, x: int)
    requires
        (a + b).contains(x),
    ensures
        a.contains(x) || b.contains(x),
{
    let i = choose|i: int| 0 <= i < (a + b).len() && (a + b)[i] == x;
    if i < a.len() {
        assert(a[i] == x);
    } else {
        assert(b[i - a.len()] == x);
    }
}

/// The prefix of a duplicate-free concatenation is duplicate-free.
proof fn lemma_prefix_no_dup(a: Seq<int>, b: Seq<int>)
    requires
        (a + b).no_duplicates(),
    ensures
        a.no_duplicates(),
{
    assert forall|i: int, j: int| 0 <= i < a.len() && 0 <= j < a.len() && i != j implies a[i]
        != a[j] by {
        assert((a + b)[i] == a[i]);
        assert((a + b)[j] == a[j]);
    }
}

/// The suffix of a duplicate-free concatenation is duplicate-free.
proof fn lemma_suffix_no_dup(a: Seq<int>, b: Seq<int>)
    requires
        (a + b).no_duplicates(),
    ensures
        b.no_duplicates(),
{
    assert forall|i: int, j: int| 0 <= i < b.len() && 0 <= j < b.len() && i != j implies b[i]
        != b[j] by {
        assert((a + b)[i + a.len()] == b[i]);
        assert((a + b)[j + a.len()] == b[j]);
    }
}

/// The halves of a duplicate-free concatenation share no value.
proof fn lemma_no_dup_parts(a: Seq<int>, b: Seq<int>, x: int, y: int)
    requires
        (a + b).no_duplicates(),
        a.contains(x),
        b.contains(y),
    ensures
        x != y,
{
    let i = choose|i: int| 0 <= i < a.len() && a[i] == x;
    let j = choose|j: int| 0 <= j < b.len() && b[j] == y;
    assert((a + b)[i] == x);
    assert((a + b)[j + a.len()] == y);
}

/// Swapping the halves of a duplicate-free concatenation keeps it
/// duplicate-free.
proof fn lemma_swap_no_dup(a: Seq<int>, b: Seq<int>)
    requires
        (a + b).no_duplicates(),
    ensures
        (b + a).no_duplicates(),
{
    lemma_prefix_no_dup(a, b);
    lemma_suffix_no_dup(a, b);
    assert forall|i: int, j: int| 0 <= i < b.len() && 0 <= j < a.len() implies b[i] != a[j] by {
        assert((a + b)[i + a.len()] == b[i]);
        assert((a + b)[j] == a[j]);
    }
    lemma_no_dup_in_concat(b, a);
}

/// Concatenation of duplicate-free halves whose values never meet is
/// duplicate-free.
proof fn lemma_no_dup_concat_mem(x: Seq<int>, y: Seq<int>)
    requires
        x.no_duplicates(),
        y.no_duplicates(),
        forall|v: int| x.contains(v) ==> !y.contains(v),
    ensures
        (x + y).no_duplicates(),
{
    assert forall|i: int, j: int| 0 <= i < x.len() && 0 <= j < y.len() implies x[i] != y[j] by {
        assert(x.contains(x[i]));
        assert(y.contains(y[j]));
    }
    lemma_no_dup_in_concat(x, y);
}

/// A member of a label collection characterized by `labs_from` is in the
/// base or in the fresh range.
proof fn lemma_from_member(ls: Seq<int>, base: Seq<int>, lo: int, hi: int, v: int)
    requires
        labs_from(ls, base, lo, hi),
        ls.contains(v),
    ensures
        base.contains(v) || (lo <= v < hi),
{
    let i = choose|i: int| 0 <= i < ls.len() && ls[i] == v;
    assert(base.contains(ls[i]) || (lo <= ls[i] < hi));
}

/// The generator's counters, at the specification level.
pub struct GenV {
    pub labels: nat,
    pub conts: nat,
    pub vars: nat,
}

/// The specification-level view of the generator.
pub open spec fn view_gen(g: GenTable) -> GenV {
    GenV { labels: g.label_count as nat, conts: g.cont_count as nat, vars: g.var_count as nat }
}

/// The mathematical view of a meta-continuation.
pub enum AtomKV {
    EmitV(nat),
    EmitRetV,
    BranchDoneV(Seq<char>, nat),
    FunDoneV(Seq<BExprV>, Box<AtomKV>),
    TestDoneV(Box<BExprV>, Box<BExprV>, Box<AtomKV>),
    BindValV(Seq<char>, Box<BExprV>, Box<AtomKV>),
    ArgDoneV(Seq<BExprV>, Box<VecKV>),
}

/// The mathematical view of a list continuation.
pub enum VecKV {
    ArgsAppV(AtomV, Box<AtomKV>),
    ArgsPrimV(BuiltinOp, Box<AtomKV>),
    ArgsConsV(AtomV, Box<VecKV>),
}

/// The view of a meta-continuation.
pub open spec fn view_katom(k: AtomK) -> AtomKV
    decreases k,
{
    match k {
        AtomK::Emit(l) => AtomKV::EmitV(l as nat),
        AtomK::EmitRet => AtomKV::EmitRetV,
        AtomK::BranchDone(c, l) => AtomKV::BranchDoneV(c@, l as nat),
        AtomK::FunDone(args, k1) => AtomKV::FunDoneV(view_bexprs(args@), Box::new(view_katom(*k1))),
        AtomK::TestDone(a, b, k1) => AtomKV::TestDoneV(
            Box::new(view_bexpr(*a)),
            Box::new(view_bexpr(*b)),
            Box::new(view_katom(*k1)),
        ),
        AtomK::BindVal(x, body, k1) => AtomKV::BindValV(
            x@,
            Box::new(view_bexpr(*body)),
            Box::new(view_katom(*k1)),
        ),
        AtomK::ArgDone(rest, kv) => AtomKV::ArgDoneV(
            view_bexprs(rest@),
            Box::new(view_kvec(*kv)),
        ),
    }
}

/// The view of a list continuation.
pub open spec fn view_kvec(k: VecK) -> VecKV
    decreases k,
{
    match k {
        VecK::ArgsApp(f, k1) => VecKV::ArgsAppV(view_atom(f), Box::new(view_katom(*k1))),
        VecK::ArgsPrim(op, k1) => VecKV::ArgsPrimV(op, Box::new(view_katom(*k1))),
        VecK::ArgsCons(a, kv) => VecKV::ArgsConsV(view_atom(a), Box::new(view_kvec(*kv))),
    }
}

/// Structural size of an expression view.
pub open spec fn bsize_b(e: BExprV) -> nat
    decreases e,
{
    match e {
        BExprV::LamB(_ps, b) => 1 + bsize_b(*b),
        BExprV::AppB(f, args) => 1 + bsize_b(*f) + bsizes_b(args),
        BExprV::PrimB(_op, args) => 1 + bsizes_b(args),
        BExprV::IfB(t, a, b) => 1 + bsize_b(*t) + bsize_b(*a) + bsize_b(*b),
        BExprV::FixB(_ns, vs, b) => 1 + bsizes_b(vs) + bsize_b(*b),
        BExprV::LetB(_x, v, b) => 1 + bsize_b(*v) + bsize_b(*b),
        _ => 1,
    }
}

/// Total size of a sequence of expression views.
pub open spec fn bsizes_b(s: Seq<BExprV>) -> nat
    decreases s,
{
    if s.len() == 0 {
        0
    } else {
        bsize_b(s[0]) + bsizes_b(s.drop_first())
    }
}

/// Pending size of a meta-continuation view.
pub open spec fn wa_b(k: AtomKV) -> nat
    decreases k,
{
    match k {
        AtomKV::EmitV(_) => 0,
        AtomKV::EmitRetV => 0,
        AtomKV::BranchDoneV(_, _) => 0,
        AtomKV::FunDoneV(args, k1) => bsizes_b(args) + wa_b(*k1),
        AtomKV::TestDoneV(a, b, k1) => bsize_b(*a) + bsize_b(*b) + wa_b(*k1),
        AtomKV::BindValV(_, body, k1) => bsize_b(*body) + wa_b(*k1),
        AtomKV::ArgDoneV(rest, kv) => bsizes_b(rest) + wv_b(*kv),
    }
}

/// Pending size of a list continuation view.
pub open spec fn wv_b(k: VecKV) -> nat
    decreases k,
{
    match k {
        VecKV::ArgsAppV(_, k1) => wa_b(*k1),
        VecKV::ArgsPrimV(_, k1) => wa_b(*k1),
        VecKV::ArgsConsV(_, kv) => wv_b(*kv),
    }
}

/// Frame count of a meta-continuation view.
pub open spec fn fa_b(k: AtomKV) -> nat
    decreases k,
{
    match k {
        AtomKV::EmitV(_) => 1,
        AtomKV::EmitRetV => 1,
        AtomKV::BranchDoneV(_, _) => 1,
        AtomKV::FunDoneV(args, k1) => 1 + args.len() + fa_b(*k1),
        AtomKV::TestDoneV(_, _, k1) => 1 + fa_b(*k1),
        AtomKV::BindValV(_, _, k1) => 1 + fa_b(*k1),
        AtomKV::ArgDoneV(rest, kv) => 1 + rest.len() + fv_b(*kv),
    }
}

/// Frame count of a list continuation view.
pub open spec fn fv_b(k: VecKV) -> nat
    decreases k,
{
    match k {
        VecKV::ArgsAppV(_, k1) => 1 + fa_b(*k1),
        VecKV::ArgsPrimV(_, k1) => 1 + fa_b(*k1),
        VecKV::ArgsConsV(_, kv) => 1 + fv_b(*kv),
    }
}

/// An expression view has size at least one.
proof fn lemma_bsize_b_pos(e: BExprV)
    ensures
        bsize_b(e) >= 1,
{
    match e {
        BExprV::LamB(_, _) => {},
        BExprV::AppB(_, _) => {},
        BExprV::PrimB(_, _) => {},
        BExprV::IfB(_, _, _) => {},
        BExprV::FixB(_, _, _) => {},
        BExprV::LetB(_, _, _) => {},
        _ => {},
    }
}

/// A meta-continuation view has at least one frame.
proof fn lemma_fa_b_pos(k: AtomKV)
    ensures
        fa_b(k) >= 1,
{
    match k {
        AtomKV::EmitV(_) => {},
        AtomKV::EmitRetV => {},
        AtomKV::BranchDoneV(_, _) => {},
        AtomKV::FunDoneV(_, _) => {},
        AtomKV::TestDoneV(_, _, _) => {},
        AtomKV::BindValV(_, _, _) => {},
        AtomKV::ArgDoneV(_, _) => {},
    }
}

/// What the conversion produces, as a function of the generator state, the
/// expression and the meta-continuation: the tree, and the generator state
/// afterwards. The executable conversion is proved to compute exactly this.
pub open spec fn cps_spec(g: GenV, t: BExprV, k: AtomKV) -> (IRV, GenV)
    decreases bsize_b(t) + wa_b(k), fa_b(k), 0int,
    via cps_spec_dec
{
    match t {
        BExprV::VarB(s) => apply_atom_spec(g, k, AtomV::VarV(s)),
        BExprV::I32B(v) => apply_atom_spec(g, k, AtomV::I32V(v)),
        BExprV::I64B(v) => apply_atom_spec(g, k, AtomV::I64V(v)),
        BExprV::U32B(v) => apply_atom_spec(g, k, AtomV::U32V(v)),
        BExprV::U64B(v) => apply_atom_spec(g, k, AtomV::U64V(v)),
        BExprV::BoolB(v) => apply_atom_spec(g, k, AtomV::BoolV(v)),
        BExprV::CharB(v) => apply_atom_spec(g, k, AtomV::CharV(v)),
        BExprV::StrB(s) => apply_atom_spec(g, k, AtomV::StrV(s)),
        BExprV::LamB(ps, b) => {
            let (a, g1) = cps_lam_spec(g, BExprV::LamB(ps, b));
            apply_atom_spec(g1, k, a)
        },
        BExprV::AppB(f, args) => cps_spec(g, *f, AtomKV::FunDoneV(args, Box::new(k))),
        BExprV::PrimB(op, args) => cps_vec_spec(g, args, VecKV::ArgsPrimV(op, Box::new(k))),
        BExprV::IfB(t1, a, b) => cps_spec(g, *t1, AtomKV::TestDoneV(a, b, Box::new(k))),
        BExprV::LetB(x, e, b) => cps_spec(g, *e, AtomKV::BindValV(x, b, Box::new(k))),
        BExprV::FixB(ns, vs, b) => {
            let label = g.labels;
            let g1 = GenV { labels: g.labels + 1, conts: g.conts, vars: g.vars };
            let (lams, g2) = cps_lams_spec(g1, vs);
            let (rest, g3) = cps_spec(g2, *b, k);
            (IRV::FixV(label, ns, lams, Box::new(rest)), g3)
        },
    }
}

#[via_fn]
proof fn cps_spec_dec(g: GenV, t: BExprV, k: AtomKV) {
    lemma_fa_b_pos(k);
}

/// What converting one lambda produces: the lambda atom, and the generator
/// state afterwards. A non-lambda input never arises; its value here is
/// immaterial.
pub open spec fn cps_lam_spec(g: GenV, t: BExprV) -> (AtomV, GenV)
    decreases bsize_b(t), 0int, 0int,
{
    match t {
        BExprV::LamB(ps, b) => {
            let label = g.labels;
            let g1 = GenV { labels: g.labels + 1, conts: g.conts, vars: g.vars };
            let (bir, g2) = cps_spec(g1, *b, AtomKV::EmitRetV);
            (AtomV::LamV(label, ps, Box::new(bir)), g2)
        },
        _ => (AtomV::BoolV(false), g),
    }
}

/// What converting a binding group of lambdas produces, in order.
pub open spec fn cps_lams_spec(g: GenV, vs: Seq<BExprV>) -> (Seq<AtomV>, GenV)
    decreases bsizes_b(vs), vs.len(), 1int,
    via cps_lams_spec_dec
{
    if vs.len() == 0 {
        (Seq::empty(), g)
    } else {
        let (a, g1) = cps_lam_spec(g, vs[0]);
        let (rest, g2) = cps_lams_spec(g1, vs.drop_first());
        (seq![a] + rest, g2)
    }
}

#[via_fn]
proof fn cps_lams_spec_dec(g: GenV, vs: Seq<BExprV>) {
    if vs.len() > 0 {
        lemma_bsize_b_pos(vs[0]);
    }
}

/// What converting a list of expressions produces.
pub open spec fn cps_vec_spec(g: GenV, v: Seq<BExprV>, k: VecKV) -> (IRV, GenV)
    decreases bsizes_b(v) + wv_b(k), v.len() + fv_b(k), 1int,
    via cps_vec_spec_dec
{
    if v.len() == 0 {
        apply_vec_spec(g, k, Seq::empty())
    } else {
        cps_spec(g, v[0], AtomKV::ArgDoneV(v.drop_first(), Box::new(k)))
    }
}

#[via_fn]
proof fn cps_vec_spec_dec(g: GenV, v: Seq<BExprV>, k: VecKV) {
    if v.len() > 0 {
        lemma_bsize_b_pos(v[0]);
    }
}

/// What handing an atom to a meta-continuation produces.
pub open spec fn apply_atom_spec(g: GenV, k: AtomKV, a: AtomV) -> (IRV, GenV)
    decreases wa_b(k), fa_b(k), 2int,
    via apply_atom_spec_dec
{
    match k {
        AtomKV::EmitV(l) => (IRV::AppContV(l, ContV::ReturnV, seq![a]), g),
        AtomKV::EmitRetV => {
            let l = g.labels;
            let g1 = GenV { labels: g.labels + 1, conts: g.conts, vars: g.vars };
            (IRV::AppContV(l, ContV::ReturnV, seq![a]), g1)
        },
        AtomKV::BranchDoneV(c, l) => (IRV::AppContV(l, ContV::NamedV(c), seq![a]), g),
        AtomKV::FunDoneV(args, k1) => cps_vec_spec(g, args, VecKV::ArgsAppV(a, k1)),
        AtomKV::TestDoneV(tb, eb, k1) => {
            let l = g.labels;
            let lc = g.labels + 1;
            let lt = g.labels + 2;
            let le = g.labels + 3;
            let c = cont_name(g.conts);
            let x = var_name(g.vars);
            let g1 = GenV { labels: g.labels + 4, conts: g.conts + 1, vars: g.vars + 1 };
            let (kbody, g2) = apply_atom_spec(g1, *k1, AtomV::VarV(x));
            let (tir, g3) = cps_spec(g2, *tb, AtomKV::BranchDoneV(c, lt));
            let (eir, g4) = cps_spec(g3, *eb, AtomKV::BranchDoneV(c, le));
            (
                IRV::LetContV(
                    lc,
                    c,
                    seq![x],
                    Box::new(kbody),
                    Box::new(IRV::IfV(l, a, Box::new(tir), Box::new(eir))),
                ),
                g4,
            )
        },
        AtomKV::BindValV(x, body, k1) => {
            let l = g.labels;
            let g1 = GenV { labels: g.labels + 1, conts: g.conts, vars: g.vars };
            let (rest, g2) = cps_spec(g1, *body, *k1);
            (IRV::LetValV(l, x, a, Box::new(rest)), g2)
        },
        AtomKV::ArgDoneV(rest, kv) => cps_vec_spec(g, rest, VecKV::ArgsConsV(a, kv)),
    }
}

#[via_fn]
proof fn apply_atom_spec_dec(g: GenV, k: AtomKV, a: AtomV) {
    match k {
        AtomKV::TestDoneV(tb, eb, _k1) => {
            lemma_bsize_b_pos(*tb);
            lemma_bsize_b_pos(*eb);
        },
        _ => {},
    }
}

/// What handing collected argument atoms to a list continuation produces.
pub open spec fn apply_vec_spec(g: GenV, k: VecKV, args: Seq<AtomV>) -> (IRV, GenV)
    decreases wv_b(k), fv_b(k), 0int,
{
    match k {
        VecKV::ArgsAppV(f, k1) => {
            let l1 = g.labels;
            let l2 = g.labels + 1;
            let c = cont_name(g.conts);
            let x = var_name(g.vars);
            let g1 = GenV { labels: g.labels + 2, conts: g.conts + 1, vars: g.vars + 1 };
            let (kbody, g2) = apply_atom_spec(g1, *k1, AtomV::VarV(x));
            (
                IRV::LetContV(
                    l1,
                    c,
                    seq![x],
                    Box::new(kbody),
                    Box::new(IRV::AppV(l2, f, args.reverse(), ContV::NamedV(c))),
                ),
                g2,
            )
        },
        VecKV::ArgsPrimV(op, k1) => {
            let l = g.labels;
            let x = var_name(g.vars);
            let g1 = GenV { labels: g.labels + 1, conts: g.conts, vars: g.vars + 1 };
            let (rest, g2) = apply_atom_spec(g1, *k1, AtomV::VarV(x));
            (IRV::LetV(l, x, op, args.reverse(), Box::new(rest)), g2)
        },
        VecKV::ArgsConsV(a, kv) => apply_vec_spec(g, *kv, args.push(a)),
    }
}

/// Converting a split binding group converts the halves in sequence.
proof fn lemma_cps_lams_split(g: GenV, s1: Seq<BExprV>, s2: Seq<BExprV>)
    ensures
        cps_lams_spec(g, s1 + s2).0 == cps_lams_spec(g, s1).0 + cps_lams_spec(
            cps_lams_spec(g, s1).1,
            s2,
        ).0,
        cps_lams_spec(g, s1 + s2).1 == cps_lams_spec(cps_lams_spec(g, s1).1, s2).1,
    decreases s1.len(),
{
    if s1.len() == 0 {
        assert(s1 + s2 =~= s2);
        assert(cps_lams_spec(g, s1) == (Seq::<AtomV>::empty(), g));
        assert(Seq::<AtomV>::empty() + cps_lams_spec(g, s2).0 =~= cps_lams_spec(g, s2).0);
    } else {
        assert((s1 + s2)[0] == s1[0]);
        assert((s1 + s2).drop_first() =~= s1.drop_first() + s2);
        let g1 = cps_lam_spec(g, s1[0]).1;
        lemma_cps_lams_split(g1, s1.drop_first(), s2);
        assert(cps_lams_spec(g, s1 + s2).0 =~= cps_lams_spec(g, s1).0 + cps_lams_spec(
            cps_lams_spec(g, s1).1,
            s2,
        ).0);
    }
}

/// What converting a whole program produces: a fresh generator whose first
/// label tags the final `Return` jump, and the converted tree.
pub open spec fn quick_cps_spec(t: BExprV) -> IRV {
    cps_spec(GenV { labels: 1, conts: 0, vars: 0 }, t, AtomKV::EmitV(0)).0
}

/// Converts a direct-style expression, handing the atom of its value to
/// the meta-continuation `k`. All labels of the produced tree are distinct
/// and are either embedded in `k` or drawn fresh from the generator.
pub fn cps(gen: &mut GenTable, term: BuilderExpr, k: AtomK) -> (r: IR)
    requires
        fix_wf(term),
        ka_fix_wf(k),
        labs_ok(ka_labels(k), old(gen).label_count as int),
        old(gen).label_count + 4 * bsize(term) + ka_budget(k) <= usize::MAX,
        old(gen).cont_count + 4 * bsize(term) + ka_budget(k) <= usize::MAX,
        old(gen).var_count + 4 * bsize(term) + ka_budget(k) <= usize::MAX,
    ensures
        old(gen).label_count <= final(gen).label_count,
        final(gen).label_count <= old(gen).label_count + 4 * bsize(term) + ka_budget(k),
        old(gen).cont_count <= final(gen).cont_count,
        final(gen).cont_count <= old(gen).cont_count + 4 * bsize(term) + ka_budget(k),
        old(gen).var_count <= final(gen).var_count,
        final(gen).var_count <= old(gen).var_count + 4 * bsize(term) + ka_budget(k),
        labs_ok(ir_labels(r), final(gen).label_count as int),
        labs_from(
            ir_labels(r),
            ka_labels(k),
            old(gen).label_count as int,
            final(gen).label_count as int,
        ),
        labs_include(ir_labels(r), ka_labels(k)),
        view_ir(r) == cps_spec(view_gen(*old(gen)), view_bexpr(term), view_katom(k)).0,
        view_gen(*final(gen)) == cps_spec(view_gen(*old(gen)), view_bexpr(term), view_katom(k)).1,
    decreases bsize(term) + wa(k), fa(k), 0int,
{
    let ghost g0 = view_gen(*gen);
    let ghost kv0 = view_katom(k);
    let ghost tv0 = view_bexpr(term);
    match term {
        BuilderExpr::Var(v) => {
            let ghost kl = ka_labels(k);
            let atom = Atom::Var(v);
            proof {
                lemma_empty_atom(kl, atom);
                assert(cps_spec(g0, tv0, kv0) == apply_atom_spec(g0, kv0, view_atom(atom)));
            }
            let r = apply_atom_k(gen, k, atom);
            proof {
                lemma_include_split(ir_labels(r), kl, atom_labels(atom));
            }
            r
        },
        BuilderExpr::I32(v) => {
            let ghost kl = ka_labels(k);
            let atom = Atom::I32(v);
            proof {
                lemma_empty_atom(kl, atom);
                assert(cps_spec(g0, tv0, kv0) == apply_atom_spec(g0, kv0, view_atom(atom)));
            }
            let r = apply_atom_k(gen, k, atom);
            proof {
                lemma_include_split(ir_labels(r), kl, atom_labels(atom));
            }
            r
        },
        BuilderExpr::I64(v) => {
            let ghost kl = ka_labels(k);
            let atom = Atom::I64(v);
            proof {
                lemma_empty_atom(kl, atom);
                assert(cps_spec(g0, tv0, kv0) == apply_atom_spec(g0, kv0, view_atom(atom)));
            }
            let r = apply_atom_k(gen, k, atom);
            proof {
                lemma_include_split(ir_labels(r), kl, atom_labels(atom));
            }
            r
        },
        BuilderExpr::U32(v) => {
            let ghost kl = ka_labels(k);
            let atom = Atom::U32(v);
            proof {
                lemma_empty_atom(kl, atom);
                assert(cps_spec(g0, tv0, kv0) == apply_atom_spec(g0, kv0, view_atom(atom)));
            }
            let r = apply_atom_k(gen, k, atom);
            proof {
                lemma_include_split(ir_labels(r), kl, atom_labels(atom));
            }
            r
        },
        BuilderExpr::U64(v) => {
            let ghost kl = ka_labels(k);
            let atom = Atom::U64(v);
            proof {
                lemma_empty_atom(kl, atom);
                assert(cps_spec(g0, tv0, kv0) == apply_atom_spec(g0, kv0, view_atom(atom)));
            }
            let r = apply_atom_k(gen, k, atom);
            proof {
                lemma_include_split(ir_labels(r), kl, atom_labels(atom));
            }
            r
        },
        BuilderExpr::Bool(v) => {
            let ghost kl = ka_labels(k);
            let atom = Atom::Bool(v);
            proof {
                lemma_empty_atom(kl, atom);
                assert(cps_spec(g0, tv0, kv0) == apply_atom_spec(g0, kv0, view_atom(atom)));
            }
            let r = apply_atom_k(gen, k, atom);
            proof {
                lemma_include_split(ir_labels(r), kl, atom_labels(atom));
            }
            r
        },
        BuilderExpr::Char(c) => {
            let ghost kl = ka_labels(k);
            let atom = Atom::Char(c);
            proof {
                lemma_empty_atom(kl, atom);
                assert(cps_spec(g0, tv0, kv0) == apply_atom_spec(g0, kv0, view_atom(atom)));
            }
            let r = apply_atom_k(gen, k, atom);
            proof {
                lemma_include_split(ir_labels(r), kl, atom_labels(atom));
            }
            r
        },
        BuilderExpr::StringLiteral(s) => {
            let ghost kl = ka_labels(k);
            let atom = Atom::StringLiteral(s);
            proof {
                lemma_empty_atom(kl, atom);
                assert(cps_spec(g0, tv0, kv0) == apply_atom_spec(g0, kv0, view_atom(atom)));
            }
            let r = apply_atom_k(gen, k, atom);
            proof {
                lemma_include_split(ir_labels(r), kl, atom_labels(atom));
            }
            r
        },
        BuilderExpr::Lam(vars, body) => {
            proof {
                lemma_fa_pos(k);
            }
            let ghost kl = ka_labels(k);
            let a = cps_lam(gen, BuilderExpr::Lam(vars, body));
            proof {
                assert(cps_spec(g0, tv0, kv0) == {
                    let (a_s, g1_s) = cps_lam_spec(g0, tv0);
                    apply_atom_spec(g1_s, kv0, a_s)
                });
                assert(view_atom(a) == cps_lam_spec(g0, tv0).0);
                assert(view_gen(*gen) == cps_lam_spec(g0, tv0).1);
                assert forall|v: int| kl.contains(v) implies !atom_labels(a).contains(v) by {
                    lemma_labs_member_bound(kl, old(gen).label_count as int, v);
                    if atom_labels(a).contains(v) {
                        let j = choose|j: int|
                            0 <= j < atom_labels(a).len() && atom_labels(a)[j] == v;
                        assert(atom_labels(a)[j] >= old(gen).label_count);
                    }
                }
                lemma_no_dup_concat_mem(kl, atom_labels(a));
            }
            let r = apply_atom_k(gen, k, a);
            proof {
                lemma_include_split(ir_labels(r), kl, atom_labels(a));
            }
            r
        },
        BuilderExpr::App(f, args) => {
            let frame = AtomK::FunDone(args, Box::new(k));
            proof {
                assert(cps_spec(g0, tv0, kv0) == cps_spec(g0, view_bexpr(*f), view_katom(frame)));
            }
            cps(gen, *f, frame)
        },
        BuilderExpr::PrimApp(op, args) => {
            let frame = VecK::ArgsPrim(op, Box::new(k));
            proof {
                assert(cps_spec(g0, tv0, kv0) == cps_vec_spec(
                    g0,
                    view_bexprs(args@),
                    view_kvec(frame),
                ));
            }
            cps_vec(gen, args, frame)
        },
        BuilderExpr::If(test, then_, else_) => {
            let frame = AtomK::TestDone(then_, else_, Box::new(k));
            proof {
                assert(cps_spec(g0, tv0, kv0) == cps_spec(
                    g0,
                    view_bexpr(*test),
                    view_katom(frame),
                ));
            }
            cps(gen, *test, frame)
        },
        BuilderExpr::Let(var, expr, body) => {
            let frame = AtomK::BindVal(var, body, Box::new(k));
            proof {
                assert(cps_spec(g0, tv0, kv0) == cps_spec(
                    g0,
                    view_bexpr(*expr),
                    view_katom(frame),
                ));
            }
            cps(gen, *expr, frame)
        },
        BuilderExpr::Fix(vars, vals, body) => {
            let ghost c0 = gen.label_count as int;
            let ghost t0 = gen.cont_count as int;
            let ghost u0 = gen.var_count as int;
            let label = gen.alloc_label();
            let ghost g_start = view_gen(*gen);
            let mut vs = vals;
            let mut lams: Vec<Atom> = Vec::new();
            let ghost all = vs@;
            proof {
                assert(atoms_labels(lams@) =~= Seq::<int>::empty());
                assert(view_atoms(lams@) =~= Seq::<AtomV>::empty());
                assert(view_atoms(lams@) + cps_lams_spec(view_gen(*gen), view_bexprs(vs@)).0
                    =~= cps_lams_spec(view_gen(*gen), view_bexprs(vs@)).0);
            }
            while vs.len() > 0
                invariant
                    fixes_wf(vs@),
                    forall|i: int| 0 <= i < vs@.len() ==> (#[trigger] vs@[i]) matches
                        BuilderExpr::Lam(_, _),
                    bsizes(vs@) <= bsizes(all),
                    c0 + 1 <= gen.label_count,
                    gen.label_count + 4 * bsizes(vs@) <= c0 + 1 + 4 * bsizes(all),
                    t0 <= gen.cont_count,
                    gen.cont_count + 4 * bsizes(vs@) <= t0 + 4 * bsizes(all),
                    u0 <= gen.var_count,
                    gen.var_count + 4 * bsizes(vs@) <= u0 + 4 * bsizes(all),
                    c0 + 1 + 4 * bsizes(all) + 4 * bsize(*body) + ka_budget(k) <= usize::MAX,
                    t0 + 4 * bsizes(all) + 4 * bsize(*body) + ka_budget(k) <= usize::MAX,
                    u0 + 4 * bsizes(all) + 4 * bsize(*body) + ka_budget(k) <= usize::MAX,
                    labs_ok(atoms_labels(lams@), gen.label_count as int),
                    forall|i: int| 0 <= i < atoms_labels(lams@).len() ==> c0
                        < #[trigger] atoms_labels(lams@)[i],
                    bsizes(vs@) <= bsizes(all),
                    fix_wf(*body),
                    ka_fix_wf(k),
                    labs_ok(ka_labels(k), c0),
                    bsizes(all) + bsize(*body) < bsize(term),
                    wa(k) <= wa(k),
                    cps_lams_spec(g_start, view_bexprs(all)).0 == view_atoms(lams@)
                        + cps_lams_spec(view_gen(*gen), view_bexprs(vs@)).0,
                    cps_lams_spec(g_start, view_bexprs(all)).1 == cps_lams_spec(
                        view_gen(*gen),
                        view_bexprs(vs@),
                    ).1,
                decreases vs@.len(),
            {
                let ghost pre = vs@;
                let ghost lc_pre = gen.label_count as int;
                let ghost g_pre = view_gen(*gen);
                let val = vs.remove(0);
                proof {
                    assert(pre.drop_first() =~= vs@);
                    assert(bsizes(pre) == bsize(val) + bsizes(vs@));
                    lemma_bsize_pos(val);
                }
                let a = cps_lam(gen, val);
                proof {
                    lemma_view_bexprs_props(pre);
                    lemma_view_bexprs_drop(pre);
                    assert(view_bexprs(pre)[0] == view_bexpr(val));
                    assert(cps_lams_spec(g_pre, view_bexprs(pre)) == {
                        let (a1, g1) = cps_lam_spec(g_pre, view_bexpr(val));
                        let (rest1, g2) = cps_lams_spec(g1, view_bexprs(vs@));
                        (seq![a1] + rest1, g2)
                    });
                    assert(view_atom(a) == cps_lam_spec(g_pre, view_bexpr(val)).0);
                    assert(view_gen(*gen) == cps_lam_spec(g_pre, view_bexpr(val)).1);
                    lemma_view_atoms_push(lams@, a);
                    assert(view_atoms(lams@.push(a)) =~= view_atoms(lams@) + seq![view_atom(a)]);
                    assert(view_atoms(lams@) + (seq![view_atom(a)] + cps_lams_spec(
                        view_gen(*gen),
                        view_bexprs(vs@),
                    ).0) =~= (view_atoms(lams@) + seq![view_atom(a)]) + cps_lams_spec(
                        view_gen(*gen),
                        view_bexprs(vs@),
                    ).0);
                    lemma_atoms_labels_push(lams@, a);
                    assert forall|v: int| atoms_labels(lams@).contains(v) implies !atom_labels(
                        a,
                    ).contains(v) by {
                        lemma_labs_member_bound(atoms_labels(lams@), lc_pre, v);
                        if atom_labels(a).contains(v) {
                            let j = choose|j: int|
                                0 <= j < atom_labels(a).len() && atom_labels(a)[j] == v;
                            assert(atom_labels(a)[j] >= lc_pre);
                        }
                    }
                    lemma_no_dup_concat_mem(atoms_labels(lams@), atom_labels(a));
                }
                lams.push(a);
            }
            let ghost c1 = gen.label_count as int;
            let ghost la = atoms_labels(lams@);
            let ghost g_loop_end = view_gen(*gen);
            proof {
                assert(view_bexprs(vs@) =~= Seq::<BExprV>::empty());
                assert(cps_lams_spec(g_loop_end, view_bexprs(vs@)) == (
                    Seq::<AtomV>::empty(),
                    g_loop_end,
                ));
                assert(view_atoms(lams@) + Seq::<AtomV>::empty() =~= view_atoms(lams@));
                assert(cps_lams_spec(g_start, view_bexprs(all)).0 == view_atoms(lams@));
                assert(cps_lams_spec(g_start, view_bexprs(all)).1 == g_loop_end);
            }
            let rest = cps(gen, *body, k);
            let ghost c2 = gen.label_count as int;
            let r = IR::Fix(label, vars, lams, Box::new(rest));
            proof {
                let lr = ir_labels(rest);
                let kl = ka_labels(k);
                let ls = ir_labels(r);
                assert(ls == seq![label as int] + la + lr);
                assert forall|v: int| (seq![label as int] + la).contains(v) implies !lr.contains(
                    v,
                ) by {
                    lemma_concat_contains(seq![label as int], la, v);
                    if lr.contains(v) {
                        lemma_from_member(lr, kl, c1, c2, v);
                        if kl.contains(v) {
                            lemma_labs_member_bound(kl, c0, v);
                        }
                    }
                }
                assert forall|v: int| seq![label as int].contains(v) implies !la.contains(v) by {
                    if la.contains(v) {
                        let j = choose|j: int| 0 <= j < la.len() && la[j] == v;
                        assert(la[j] > c0);
                    }
                }
                lemma_no_dup_concat_mem(seq![label as int], la);
                lemma_no_dup_concat_mem(seq![label as int] + la, lr);
                assert(ls =~= (seq![label as int] + la) + lr);
                assert(ls.no_duplicates());
                assert forall|i: int| 0 <= i < ls.len() implies #[trigger] ls[i]
                    < final(gen).label_count as int by {
                    if i == 0 {
                    } else if i <= la.len() {
                        assert(ls[i] == la[i - 1]);
                    } else {
                        assert(ls[i] == lr[i - 1 - la.len()]);
                        if kl.contains(lr[i - 1 - la.len()]) {
                            lemma_labs_member_bound(kl, c0, lr[i - 1 - la.len()]);
                        }
                    }
                }
                assert forall|i: int| 0 <= i < ls.len() implies ka_labels(k).contains(
                    #[trigger] ls[i],
                ) || (c0 <= ls[i] < final(gen).label_count as int) by {
                    if i == 0 {
                    } else if i <= la.len() {
                        assert(ls[i] == la[i - 1]);
                    } else {
                        assert(ls[i] == lr[i - 1 - la.len()]);
                    }
                }
                assert forall|i: int| 0 <= i < kl.len() implies ls.contains(
                    #[trigger] kl[i],
                ) by {
                    assert(lr.contains(kl[i]));
                    lemma_contains_right(seq![label as int] + la, lr, kl[i]);
                    assert(ls =~= (seq![label as int] + la) + lr);
                }
                assert(cps_spec(g0, tv0, kv0) == {
                    let g1 = GenV { labels: g0.labels + 1, conts: g0.conts, vars: g0.vars };
                    let (lams_s, g2) = cps_lams_spec(g1, view_bexprs(all));
                    let (rest_s, g3) = cps_spec(g2, view_bexpr(*body), kv0);
                    (IRV::FixV(g0.labels, views_str(vars@), lams_s, Box::new(rest_s)), g3)
                });
                assert(g_start == GenV { labels: g0.labels + 1, conts: g0.conts, vars: g0.vars });
                assert(view_ir(rest) == cps_spec(g_loop_end, view_bexpr(*body), kv0).0);
                assert(view_gen(*gen) == cps_spec(g_loop_end, view_bexpr(*body), kv0).1);
                assert(view_ir(r) == IRV::FixV(
                    label as nat,
                    views_str(vars@),
                    view_atoms(lams@),
                    Box::new(view_ir(rest)),
                ));
                assert(view_ir(r) == cps_spec(g0, tv0, kv0).0);
            }
            r
        },
    }
}

/// The labels of a non-lambda atom are empty; concatenating them changes
/// nothing.
proof fn lemma_empty_atom(base: Seq<int>, a: Atom)
    requires
        !(a matches Atom::Lam(_, _, _)),
    ensures
        atom_labels(a) == Seq::<int>::empty(),
        base + atom_labels(a) == base,
{
    assert(atom_labels(a) =~= Seq::<int>::empty());
    assert(base + atom_labels(a) =~= base);
}

/// Converts a lambda expression into a lambda atom whose body delivers its
/// result through `Return`. All labels of the atom are freshly drawn.
pub fn cps_lam(gen: &mut GenTable, term: BuilderExpr) -> (r: Atom)
    requires
        term matches BuilderExpr::Lam(_, _),
        fix_wf(term),
        old(gen).label_count + 4 * bsize(term) <= usize::MAX,
        old(gen).cont_count + 4 * bsize(term) <= usize::MAX,
        old(gen).var_count + 4 * bsize(term) <= usize::MAX,
    ensures
        old(gen).label_count <= final(gen).label_count,
        final(gen).label_count <= old(gen).label_count + 4 * bsize(term),
        old(gen).cont_count <= final(gen).cont_count,
        final(gen).cont_count <= old(gen).cont_count + 4 * bsize(term),
        old(gen).var_count <= final(gen).var_count,
        final(gen).var_count <= old(gen).var_count + 4 * bsize(term),
        labs_ok(atom_labels(r), final(gen).label_count as int),
        forall|i: int| 0 <= i < atom_labels(r).len() ==> old(gen).label_count
            <= #[trigger] atom_labels(r)[i],
        atom_labels(r).len() >= 1 && atom_labels(r)[0] == old(gen).label_count,
        view_atom(r) == cps_lam_spec(view_gen(*old(gen)), view_bexpr(term)).0,
        view_gen(*final(gen)) == cps_lam_spec(view_gen(*old(gen)), view_bexpr(term)).1,
    decreases bsize(term), 0int, 0int,
{
    let ghost g0 = view_gen(*gen);
    let ghost tv0 = view_bexpr(term);
    match term {
        BuilderExpr::Lam(args, body) => {
            let label = gen.alloc_label();
            proof {
                assert(ka_labels(AtomK::EmitRet) =~= Seq::<int>::empty());
                assert(view_katom(AtomK::EmitRet) == AtomKV::EmitRetV);
                assert(cps_lam_spec(g0, tv0) == {
                    let g1 = GenV { labels: g0.labels + 1, conts: g0.conts, vars: g0.vars };
                    let (bir, g2) = cps_spec(g1, view_bexpr(*body), AtomKV::EmitRetV);
                    (AtomV::LamV(g0.labels, views_str(args@), Box::new(bir)), g2)
                });
                assert(view_gen(*gen) == GenV {
                    labels: g0.labels + 1,
                    conts: g0.conts,
                    vars: g0.vars,
                });
            }
            let body_ir = cps(gen, *body, AtomK::EmitRet);
            let r = Atom::Lam(label, args, Box::new(body_ir));
            proof {
                assert(view_atom(r) == AtomV::LamV(
                    label as nat,
                    views_str(args@),
                    Box::new(view_ir(body_ir)),
                ));
                let lb = ir_labels(body_ir);
                let ls = atom_labels(r);
                assert(ls == seq![label as int] + lb);
                assert forall|v: int| seq![label as int].contains(v) implies !lb.contains(v) by {
                    if lb.contains(v) {
                        lemma_from_member(
                            lb,
                            Seq::<int>::empty(),
                            old(gen).label_count as int + 1,
                            final(gen).label_count as int,
                            v,
                        );
                    }
                }
                lemma_no_dup_concat_mem(seq![label as int], lb);
                assert forall|i: int| 0 <= i < ls.len() implies old(gen).label_count
                    <= #[trigger] ls[i] && ls[i] < final(gen).label_count as int by {
                    if i > 0 {
                        assert(ls[i] == lb[i - 1]);
                        lemma_from_member(
                            lb,
                            Seq::<int>::empty(),
                            old(gen).label_count as int + 1,
                            final(gen).label_count as int,
                            lb[i - 1],
                        );
                        assert(lb.contains(lb[i - 1]));
                    }
                }
            }
            r
        },
        _ => unreached(),
    }
}

/// Converts a list of expressions left to right, handing the collected
/// atoms (in reverse source order) to the list continuation `k`.
pub fn cps_vec(gen: &mut GenTable, v: Vec<BuilderExpr>, k: VecK) -> (r: IR)
    requires
        fixes_wf(v@),
        kv_fix_wf(k),
        labs_ok(kv_labels(k), old(gen).label_count as int),
        old(gen).label_count + 4 * bsizes(v@) + kv_budget(k) <= usize::MAX,
        old(gen).cont_count + 4 * bsizes(v@) + kv_budget(k) <= usize::MAX,
        old(gen).var_count + 4 * bsizes(v@) + kv_budget(k) <= usize::MAX,
    ensures
        old(gen).label_count <= final(gen).label_count,
        final(gen).label_count <= old(gen).label_count + 4 * bsizes(v@) + kv_budget(k),
        old(gen).cont_count <= final(gen).cont_count,
        final(gen).cont_count <= old(gen).cont_count + 4 * bsizes(v@) + kv_budget(k),
        old(gen).var_count <= final(gen).var_count,
        final(gen).var_count <= old(gen).var_count + 4 * bsizes(v@) + kv_budget(k),
        labs_ok(ir_labels(r), final(gen).label_count as int),
        labs_from(
            ir_labels(r),
            kv_labels(k),
            old(gen).label_count as int,
            final(gen).label_count as int,
        ),
        labs_include(ir_labels(r), kv_labels(k)),
        view_ir(r) == cps_vec_spec(view_gen(*old(gen)), view_bexprs(v@), view_kvec(k)).0,
        view_gen(*final(gen)) == cps_vec_spec(view_gen(*old(gen)), view_bexprs(v@), view_kvec(k)).1,
    decreases bsizes(v@) + wv(k), v@.len() + fv(k), 1int,
{
    let ghost g0 = view_gen(*gen);
    let ghost kv0 = view_kvec(k);
    let ghost vv0 = view_bexprs(v@);
    let mut v = v;
    if v.len() == 0 {
        let ghost vl = kv_labels(k);
        let empty: Vec<Atom> = Vec::new();
        proof {
            assert(atoms_labels(empty@) =~= Seq::<int>::empty());
            assert(atoms_labels(empty@) + vl =~= vl);
            assert(vv0.len() == 0) by {
                lemma_view_bexprs_props(v@);
            }
            assert(view_atoms(empty@) =~= Seq::<AtomV>::empty());
            assert(cps_vec_spec(g0, vv0, kv0) == apply_vec_spec(g0, kv0, Seq::<AtomV>::empty()));
        }
        let r = apply_vec_k(gen, k, empty);
        proof {
            lemma_include_split(ir_labels(r), atoms_labels(empty@), vl);
        }
        r
    } else {
        let ghost pre = v@;
        let arg = v.remove(0);
        proof {
            assert(pre.drop_first() =~= v@);
            assert(bsizes(pre) == bsize(arg) + bsizes(v@));
            lemma_bsize_pos(arg);
        }
        let frame = AtomK::ArgDone(v, Box::new(k));
        proof {
            lemma_view_bexprs_props(pre);
            lemma_view_bexprs_drop(pre);
            assert(vv0[0] == view_bexpr(arg));
            assert(view_katom(frame) == AtomKV::ArgDoneV(vv0.drop_first(), Box::new(kv0)));
            assert(cps_vec_spec(g0, vv0, kv0) == cps_spec(g0, view_bexpr(arg), view_katom(frame)));
        }
        cps(gen, arg, frame)
    }
}

/// Hands a converted atom to the meta-continuation, emitting the IR the
/// continuation was waiting to build.
pub fn apply_atom_k(gen: &mut GenTable, k: AtomK, a: Atom) -> (r: IR)
    requires
        ka_fix_wf(k),
        labs_ok(ka_labels(k) + atom_labels(a), old(gen).label_count as int),
        old(gen).label_count + ka_budget(k) <= usize::MAX,
        old(gen).cont_count + ka_budget(k) <= usize::MAX,
        old(gen).var_count + ka_budget(k) <= usize::MAX,
    ensures
        old(gen).label_count <= final(gen).label_count,
        final(gen).label_count <= old(gen).label_count + ka_budget(k),
        old(gen).cont_count <= final(gen).cont_count,
        final(gen).cont_count <= old(gen).cont_count + ka_budget(k),
        old(gen).var_count <= final(gen).var_count,
        final(gen).var_count <= old(gen).var_count + ka_budget(k),
        labs_ok(ir_labels(r), final(gen).label_count as int),
        labs_from(
            ir_labels(r),
            ka_labels(k) + atom_labels(a),
            old(gen).label_count as int,
            final(gen).label_count as int,
        ),
        labs_include(ir_labels(r), ka_labels(k) + atom_labels(a)),
        view_ir(r) == apply_atom_spec(view_gen(*old(gen)), view_katom(k), view_atom(a)).0,
        view_gen(*final(gen)) == apply_atom_spec(view_gen(*old(gen)), view_katom(k), view_atom(a)).1,
    decreases wa(k), fa(k), 2int,
{
    let ghost g0 = view_gen(*gen);
    let ghost kv0 = view_katom(k);
    let ghost av0 = view_atom(a);
    let ghost af = atom_labels(a);
    match k {
        AtomK::Emit(label) => {
            let mut args: Vec<Atom> = Vec::new();
            args.push(a);
            let r = IR::AppCont(label, Cont::Return, args);
            proof {
                lemma_atoms_labels_push(Seq::<Atom>::empty(), a);
                assert(Seq::<Atom>::empty().push(a) =~= args@);
                assert(atoms_labels(args@) =~= af);
                assert(ir_labels(r) =~= seq![label as int] + af);
                assert(ir_labels(r) =~= ka_labels(AtomK::Emit(label)) + af);
                assert(view_atoms(Seq::<Atom>::empty()) == Seq::<AtomV>::empty());
                lemma_view_atoms_push(Seq::<Atom>::empty(), a);
                assert(view_atoms(args@) =~= seq![av0]);
                assert(view_ir(r) == IRV::AppContV(label as nat, ContV::ReturnV, seq![av0]));
                assert(apply_atom_spec(g0, kv0, av0) == (
                    IRV::AppContV(label as nat, ContV::ReturnV, seq![av0]),
                    g0,
                ));
                let base = seq![label as int] + af;
                assert forall|i: int| 0 <= i < base.len() implies ir_labels(r).contains(
                    #[trigger] base[i],
                ) by {
                    assert(ir_labels(r)[i] == base[i]);
                }
            }
            r
        },
        AtomK::EmitRet => {
            let label = gen.alloc_label();
            let mut args: Vec<Atom> = Vec::new();
            args.push(a);
            let r = IR::AppCont(label, Cont::Return, args);
            proof {
                lemma_atoms_labels_push(Seq::<Atom>::empty(), a);
                assert(Seq::<Atom>::empty().push(a) =~= args@);
                assert(atoms_labels(args@) =~= af);
                assert(ir_labels(r) == seq![label as int] + af);
                assert(view_atoms(Seq::<Atom>::empty()) == Seq::<AtomV>::empty());
                lemma_view_atoms_push(Seq::<Atom>::empty(), a);
                assert(view_atoms(args@) =~= seq![av0]);
                assert(view_ir(r) == IRV::AppContV(label as nat, ContV::ReturnV, seq![av0]));
                assert(view_gen(*gen) == GenV {
                    labels: g0.labels + 1,
                    conts: g0.conts,
                    vars: g0.vars,
                });
                assert(apply_atom_spec(g0, kv0, av0) == (
                    IRV::AppContV(g0.labels, ContV::ReturnV, seq![av0]),
                    view_gen(*gen),
                ));
                let base = ka_labels(AtomK::EmitRet) + af;
                assert(base =~= af);
                assert forall|v: int| seq![label as int].contains(v) implies !af.contains(v) by {
                    if af.contains(v) {
                        lemma_labs_member_bound(af, old(gen).label_count as int, v);
                    }
                }
                lemma_no_dup_concat_mem(seq![label as int], af);
                assert forall|i: int| 0 <= i < ir_labels(r).len() implies base.contains(
                    #[trigger] ir_labels(r)[i],
                ) || (old(gen).label_count <= ir_labels(r)[i]
                    < final(gen).label_count as int) by {
                    if i > 0 {
                        assert(ir_labels(r)[i] == af[i - 1]);
                        assert(af.contains(af[i - 1]));
                    }
                }
                assert forall|i: int| 0 <= i < ir_labels(r).len() implies #[trigger] ir_labels(
                    r,
                )[i] < final(gen).label_count as int by {
                    if i > 0 {
                        assert(ir_labels(r)[i] == af[i - 1]);
                        assert(af.contains(af[i - 1]));
                        lemma_labs_member_bound(af, old(gen).label_count as int, af[i - 1]);
                    }
                }
                assert forall|i: int| 0 <= i < base.len() implies ir_labels(r).contains(
                    #[trigger] base[i],
                ) by {
                    assert(base[i] == af[i]);
                    assert(ir_labels(r)[i + 1] == af[i]);
                }
            }
            r
        },
        AtomK::BranchDone(cont, label) => {
            let mut args: Vec<Atom> = Vec::new();
            args.push(a);
            let ghost cv = cont@;
            let r = IR::AppCont(label, Cont::Named(cont), args);
            proof {
                lemma_atoms_labels_push(Seq::<Atom>::empty(), a);
                assert(Seq::<Atom>::empty().push(a) =~= args@);
                assert(atoms_labels(args@) =~= af);
                assert(ir_labels(r) =~= seq![label as int] + af);
                assert(view_atoms(Seq::<Atom>::empty()) == Seq::<AtomV>::empty());
                lemma_view_atoms_push(Seq::<Atom>::empty(), a);
                assert(view_atoms(args@) =~= seq![av0]);
                assert(view_ir(r) == IRV::AppContV(label as nat, ContV::NamedV(cv), seq![av0]));
                assert(apply_atom_spec(g0, kv0, av0) == (
                    IRV::AppContV(label as nat, ContV::NamedV(cv), seq![av0]),
                    g0,
                ));
                let base = seq![label as int] + af;
                assert forall|i: int| 0 <= i < base.len() implies ir_labels(r).contains(
                    #[trigger] base[i],
                ) by {
                    assert(ir_labels(r)[i] == base[i]);
                }
            }
            r
        },
        AtomK::FunDone(args, k1) => {
            proof {
                lemma_swap_no_dup(ka_labels(*k1), af);
                assert forall|i: int|
                    0 <= i < (af + ka_labels(*k1)).len() implies #[trigger] (af + ka_labels(
                    *k1,
                ))[i] < old(gen).label_count as int by {
                    let whole = ka_labels(*k1) + af;
                    if i < af.len() {
                        assert(whole[i + ka_labels(*k1).len()] == af[i]);
                        assert((af + ka_labels(*k1))[i] == af[i]);
                    } else {
                        assert(whole[i - af.len()] == ka_labels(*k1)[i - af.len()]);
                        assert((af + ka_labels(*k1))[i] == ka_labels(*k1)[i - af.len()]);
                    }
                }
            }
            let ghost kl = ka_labels(*k1);
            let frame = VecK::ArgsApp(a, k1);
            proof {
                assert(apply_atom_spec(g0, kv0, av0) == cps_vec_spec(
                    g0,
                    view_bexprs(args@),
                    view_kvec(frame),
                ));
            }
            let r = cps_vec(gen, args, frame);
            proof {
                assert forall|i: int| 0 <= i < ir_labels(r).len() implies (kl + af).contains(
                    #[trigger] ir_labels(r)[i],
                ) || (old(gen).label_count <= ir_labels(r)[i]
                    < final(gen).label_count as int) by {
                    let x = ir_labels(r)[i];
                    if (af + kl).contains(x) {
                        lemma_concat_contains(af, kl, x);
                        if af.contains(x) {
                            lemma_contains_right(kl, af, x);
                        } else {
                            lemma_contains_left(kl, af, x);
                        }
                    }
                }
                assert forall|i: int| 0 <= i < (kl + af).len() implies ir_labels(r).contains(
                    #[trigger] (kl + af)[i],
                ) by {
                    let x = (kl + af)[i];
                    assert((kl + af).contains(x));
                    lemma_concat_contains(kl, af, x);
                    if kl.contains(x) {
                        lemma_contains_right(af, kl, x);
                    } else {
                        lemma_contains_left(af, kl, x);
                    }
                    lemma_include_member(ir_labels(r), af + kl, x);
                }
            }
            r
        },
        AtomK::TestDone(then_b, else_b, k1) => {
            let ghost kl = ka_labels(*k1);
            let ghost base = kl + af;
            let ghost c0 = gen.label_count as int;
            let label = gen.alloc_label();
            let label_cont = gen.alloc_label();
            let label_test = gen.alloc_label();
            let label_else = gen.alloc_label();
            let cont = gen.alloc_cont();
            let var = gen.alloc_var();
            let ghost c1 = gen.label_count as int;
            let ghost g1v = view_gen(*gen);
            let arg_atom = Atom::Var(var.clone());
            proof {
                assert(g1v == GenV { labels: g0.labels + 4, conts: g0.conts + 1, vars: g0.vars + 1 });
                assert(cont@ == cont_name(g0.conts));
                assert(var@ == var_name(g0.vars));
                assert(view_atom(arg_atom) == AtomV::VarV(var_name(g0.vars)));
                lemma_empty_atom(kl, arg_atom);
                lemma_prefix_no_dup(kl, af);
                assert forall|i: int| 0 <= i < kl.len() implies #[trigger] kl[i] < c1 by {
                    assert(base[i] == kl[i]);
                }
            }
            let kbody = apply_atom_k(gen, *k1, arg_atom);
            let ghost c2 = gen.label_count as int;
            let ghost g2v = view_gen(*gen);
            let frame_t = AtomK::BranchDone(cont.clone(), label_test);
            proof {
                assert(view_katom(frame_t) == AtomKV::BranchDoneV(
                    cont_name(g0.conts),
                    g0.labels + 2,
                ));
            }
            let then_ir = cps(gen, *then_b, frame_t);
            let ghost c3 = gen.label_count as int;
            let ghost g3v = view_gen(*gen);
            let frame_e = AtomK::BranchDone(cont.clone(), label_else);
            proof {
                assert(view_katom(frame_e) == AtomKV::BranchDoneV(
                    cont_name(g0.conts),
                    g0.labels + 3,
                ));
            }
            let else_ir = cps(gen, *else_b, frame_e);
            let ghost c4 = gen.label_count as int;
            let mut params: Vec<String> = Vec::new();
            params.push(var);
            let cond = IR::If(label, a, Box::new(then_ir), Box::new(else_ir));
            let r = IR::LetCont(label_cont, cont, params, Box::new(kbody), Box::new(cond));
            proof {
                assert(apply_atom_spec(g0, kv0, av0) == {
                    let g1 = GenV {
                        labels: g0.labels + 4,
                        conts: g0.conts + 1,
                        vars: g0.vars + 1,
                    };
                    let (kbody_s, g2) = apply_atom_spec(
                        g1,
                        view_katom(*k1),
                        AtomV::VarV(var_name(g0.vars)),
                    );
                    let (tir, g3) = cps_spec(
                        g2,
                        view_bexpr(*then_b),
                        AtomKV::BranchDoneV(cont_name(g0.conts), g0.labels + 2),
                    );
                    let (eir, g4) = cps_spec(
                        g3,
                        view_bexpr(*else_b),
                        AtomKV::BranchDoneV(cont_name(g0.conts), g0.labels + 3),
                    );
                    (
                        IRV::LetContV(
                            g0.labels + 1,
                            cont_name(g0.conts),
                            seq![var_name(g0.vars)],
                            Box::new(kbody_s),
                            Box::new(IRV::IfV(g0.labels, av0, Box::new(tir), Box::new(eir))),
                        ),
                        g4,
                    )
                });
                assert(view_ir(kbody) == apply_atom_spec(
                    g1v,
                    view_katom(*k1),
                    AtomV::VarV(var_name(g0.vars)),
                ).0);
                assert(g2v == apply_atom_spec(g1v, view_katom(*k1), AtomV::VarV(var_name(g0.vars))).1);
                assert(views_str(params@) =~= seq![var_name(g0.vars)]);
                assert(view_ir(cond) == IRV::IfV(
                    label as nat,
                    av0,
                    Box::new(view_ir(then_ir)),
                    Box::new(view_ir(else_ir)),
                ));
                assert(view_ir(r) == IRV::LetContV(
                    label_cont as nat,
                    cont_name(g0.conts),
                    views_str(params@),
                    Box::new(view_ir(kbody)),
                    Box::new(view_ir(cond)),
                ));
                assert(view_ir(r) == apply_atom_spec(g0, kv0, av0).0);
                assert(view_gen(*gen) == apply_atom_spec(g0, kv0, av0).1);
                let lk = ir_labels(kbody);
                let lt = ir_labels(then_ir);
                let le = ir_labels(else_ir);
                let lc = ir_labels(cond);
                assert(lc == seq![label as int] + af + lt + le);
                assert(ir_labels(r) == seq![label_cont as int] + lk + lc);
                // membership characterizations
                assert forall|i: int| 0 <= i < base.len() implies #[trigger] base[i] < c0 by {}
                assert forall|v: int| af.contains(v) implies v < c0 by {
                    lemma_contains_right(kl, af, v);
                    lemma_labs_member_bound(base, c0, v);
                }
                assert forall|v: int| kl.contains(v) implies v < c0 by {
                    lemma_contains_left(kl, af, v);
                    lemma_labs_member_bound(base, c0, v);
                }
                assert forall|v: int| lk.contains(v) implies kl.contains(v) || (c1 <= v < c2) by {
                    lemma_from_member(lk, kl, c1, c2, v);
                }
                assert forall|v: int| lt.contains(v) implies v == label_test as int || (c2 <= v
                    < c3) by {
                    lemma_from_member(lt, seq![label_test as int], c2, c3, v);
                }
                assert forall|v: int| le.contains(v) implies v == label_else as int || (c3 <= v
                    < c4) by {
                    lemma_from_member(le, seq![label_else as int], c3, c4, v);
                }
                assert(af.no_duplicates()) by {
                    lemma_suffix_no_dup(kl, af);
                }
                // assemble the labels of the If node
                let s1 = seq![label as int] + af;
                assert forall|v: int| seq![label as int].contains(v) implies !af.contains(v) by {}
                lemma_no_dup_concat_mem(seq![label as int], af);
                assert forall|v: int| s1.contains(v) implies v <= c0 by {
                    lemma_concat_contains(seq![label as int], af, v);
                }
                assert forall|v: int| s1.contains(v) implies !lt.contains(v) by {}
                lemma_no_dup_concat_mem(s1, lt);
                assert forall|v: int| (s1 + lt).contains(v) implies !le.contains(v) by {
                    lemma_concat_contains(s1, lt, v);
                }
                lemma_no_dup_concat_mem(s1 + lt, le);
                assert(lc =~= (s1 + lt) + le);
                assert(lc.no_duplicates());
                assert forall|v: int| lc.contains(v) implies af.contains(v) || v == label as int
                    || v == label_test as int || v == label_else as int || (c2 <= v < c4) by {
                    lemma_concat_contains(s1 + lt, le, v);
                    if (s1 + lt).contains(v) {
                        lemma_concat_contains(s1, lt, v);
                        if s1.contains(v) {
                            lemma_concat_contains(seq![label as int], af, v);
                        }
                    }
                }
                // assemble the whole tree
                let s2 = seq![label_cont as int] + lk;
                assert forall|v: int| seq![label_cont as int].contains(v) implies !lk.contains(
                    v,
                ) by {}
                lemma_no_dup_concat_mem(seq![label_cont as int], lk);
                assert forall|v: int| s2.contains(v) implies !lc.contains(v) by {
                    lemma_concat_contains(seq![label_cont as int], lk, v);
                    if lc.contains(v) {
                        if lk.contains(v) && kl.contains(v) && af.contains(v) {
                            lemma_no_dup_parts(kl, af, v, v);
                        }
                    }
                }
                lemma_no_dup_concat_mem(s2, lc);
                assert(ir_labels(r) =~= s2 + lc);
                assert(ir_labels(r).no_duplicates());
                assert forall|i: int| 0 <= i < ir_labels(r).len() implies base.contains(
                    #[trigger] ir_labels(r)[i],
                ) || (c0 <= ir_labels(r)[i] < c4) by {
                    let x = ir_labels(r)[i];
                    assert(ir_labels(r).contains(x));
                    lemma_concat_contains(s2, lc, x);
                    if s2.contains(x) {
                        lemma_concat_contains(seq![label_cont as int], lk, x);
                        if lk.contains(x) && kl.contains(x) {
                            lemma_contains_left(kl, af, x);
                        }
                    } else {
                        if lc.contains(x) && af.contains(x) {
                            lemma_contains_right(kl, af, x);
                        }
                    }
                }
                assert forall|i: int| 0 <= i < ir_labels(r).len() implies #[trigger] ir_labels(
                    r,
                )[i] < c4 by {
                    let x = ir_labels(r)[i];
                    assert(ir_labels(r).contains(x));
                    if base.contains(x) {
                        lemma_labs_member_bound(base, c0, x);
                    } else {
                        lemma_concat_contains(s2, lc, x);
                        if s2.contains(x) {
                            lemma_concat_contains(seq![label_cont as int], lk, x);
                            if lk.contains(x) && kl.contains(x) {
                                lemma_contains_left(kl, af, x);
                            }
                        } else {
                            if lc.contains(x) && af.contains(x) {
                                lemma_contains_right(kl, af, x);
                            }
                        }
                    }
                }
                assert(labs_include(lk, kl)) by {
                    lemma_include_split(lk, kl, atom_labels(arg_atom));
                }
                assert forall|i: int| 0 <= i < (kl + af).len() implies ir_labels(r).contains(
                    #[trigger] (kl + af)[i],
                ) by {
                    let x = (kl + af)[i];
                    assert((kl + af).contains(x));
                    lemma_concat_contains(kl, af, x);
                    assert(ir_labels(r) =~= s2 + lc);
                    if kl.contains(x) {
                        lemma_include_member(lk, kl, x);
                        let w = choose|w: int| 0 <= w < lk.len() && lk[w] == x;
                        assert(s2[w + 1] == x);
                        lemma_contains_left(s2, lc, x);
                    } else {
                        let w = choose|w: int| 0 <= w < af.len() && af[w] == x;
                        assert(s1[w + 1] == x);
                        lemma_contains_left(s1, lt, x);
                        lemma_contains_left(s1 + lt, le, x);
                        assert(lc =~= (s1 + lt) + le);
                        lemma_contains_right(s2, lc, x);
                    }
                }
            }
            r
        },
        AtomK::BindVal(var, body, k1) => {
            let ghost kl = ka_labels(*k1);
            let ghost base = kl + af;
            let ghost c0 = gen.label_count as int;
            let ghost xv = var@;
            let label = gen.alloc_label();
            let ghost c1 = gen.label_count as int;
            proof {
                assert(apply_atom_spec(g0, kv0, av0) == {
                    let g1 = GenV { labels: g0.labels + 1, conts: g0.conts, vars: g0.vars };
                    let (rest_s, g2) = cps_spec(g1, view_bexpr(*body), view_katom(*k1));
                    (IRV::LetValV(g0.labels, xv, av0, Box::new(rest_s)), g2)
                });
                assert(view_gen(*gen) == GenV {
                    labels: g0.labels + 1,
                    conts: g0.conts,
                    vars: g0.vars,
                });
                lemma_prefix_no_dup(kl, af);
                assert forall|i: int| 0 <= i < kl.len() implies #[trigger] kl[i] < c1 by {
                    assert(base[i] == kl[i]);
                }
            }
            let rest = cps(gen, *body, *k1);
            let ghost c2 = gen.label_count as int;
            let r = IR::LetVal(label, var, a, Box::new(rest));
            proof {
                assert(view_ir(r) == IRV::LetValV(label as nat, xv, av0, Box::new(view_ir(rest))));
                assert(view_ir(r) == apply_atom_spec(g0, kv0, av0).0);
                let lr = ir_labels(rest);
                let ls = ir_labels(r);
                assert(ls == seq![label as int] + af + lr);
                assert forall|v: int| af.contains(v) implies v < c0 by {
                    lemma_contains_right(kl, af, v);
                    lemma_labs_member_bound(base, c0, v);
                }
                assert forall|v: int| kl.contains(v) implies v < c0 by {
                    lemma_contains_left(kl, af, v);
                    lemma_labs_member_bound(base, c0, v);
                }
                assert forall|v: int| lr.contains(v) implies kl.contains(v) || (c1 <= v < c2) by {
                    lemma_from_member(lr, kl, c1, c2, v);
                }
                assert(af.no_duplicates()) by {
                    lemma_suffix_no_dup(kl, af);
                }
                let s1 = seq![label as int] + af;
                assert forall|v: int| seq![label as int].contains(v) implies !af.contains(v) by {}
                lemma_no_dup_concat_mem(seq![label as int], af);
                assert forall|v: int| s1.contains(v) implies !lr.contains(v) by {
                    lemma_concat_contains(seq![label as int], af, v);
                    if lr.contains(v) && af.contains(v) && kl.contains(v) {
                        lemma_no_dup_parts(kl, af, v, v);
                    }
                }
                lemma_no_dup_concat_mem(s1, lr);
                assert(ls =~= s1 + lr);
                assert(ls.no_duplicates());
                assert forall|i: int| 0 <= i < ls.len() implies (base.contains(#[trigger] ls[i])
                    || (c0 <= ls[i] < c2)) && ls[i] < c2 by {
                    let x = ls[i];
                    assert(ls.contains(x));
                    lemma_concat_contains(s1, lr, x);
                    if s1.contains(x) {
                        lemma_concat_contains(seq![label as int], af, x);
                        if af.contains(x) {
                            lemma_contains_right(kl, af, x);
                        }
                    } else {
                        if lr.contains(x) && kl.contains(x) {
                            lemma_contains_left(kl, af, x);
                        }
                    }
                }
                assert forall|i: int| 0 <= i < (kl + af).len() implies ls.contains(
                    #[trigger] (kl + af)[i],
                ) by {
                    let x = (kl + af)[i];
                    assert((kl + af).contains(x));
                    lemma_concat_contains(kl, af, x);
                    assert(ls =~= s1 + lr);
                    if kl.contains(x) {
                        lemma_include_member(lr, kl, x);
                        lemma_contains_right(s1, lr, x);
                    } else {
                        let w = choose|w: int| 0 <= w < af.len() && af[w] == x;
                        assert(s1[w + 1] == x);
                        lemma_contains_left(s1, lr, x);
                    }
                }
            }
            r
        },
        AtomK::ArgDone(rest, kv) => {
            let ghost vl = kv_labels(*kv);
            let frame = VecK::ArgsCons(a, kv);
            proof {
                assert(apply_atom_spec(g0, kv0, av0) == cps_vec_spec(
                    g0,
                    view_bexprs(rest@),
                    view_kvec(frame),
                ));
                lemma_swap_no_dup(vl, af);
                assert forall|i: int| 0 <= i < (af + vl).len() implies #[trigger] (af + vl)[i]
                    < old(gen).label_count as int by {
                    let whole = vl + af;
                    if i < af.len() {
                        assert(whole[i + vl.len()] == af[i]);
                        assert((af + vl)[i] == af[i]);
                    } else {
                        assert(whole[i - af.len()] == vl[i - af.len()]);
                        assert((af + vl)[i] == vl[i - af.len()]);
                    }
                }
            }
            let r = cps_vec(gen, rest, frame);
            proof {
                assert forall|i: int| 0 <= i < ir_labels(r).len() implies (vl + af).contains(
                    #[trigger] ir_labels(r)[i],
                ) || (old(gen).label_count <= ir_labels(r)[i]
                    < final(gen).label_count as int) by {
                    let x = ir_labels(r)[i];
                    if (af + vl).contains(x) {
                        lemma_concat_contains(af, vl, x);
                        if af.contains(x) {
                            lemma_contains_right(vl, af, x);
                        } else {
                            lemma_contains_left(vl, af, x);
                        }
                    }
                }
                assert forall|i: int| 0 <= i < (vl + af).len() implies ir_labels(r).contains(
                    #[trigger] (vl + af)[i],
                ) by {
                    let x = (vl + af)[i];
                    assert((vl + af).contains(x));
                    lemma_concat_contains(vl, af, x);
                    if vl.contains(x) {
                        lemma_contains_right(af, vl, x);
                    } else {
                        lemma_contains_left(af, vl, x);
                    }
                    lemma_include_member(ir_labels(r), af + vl, x);
                }
            }
            r
        },
    }
}

/// Reverses a vector of atoms.
fn reversed(v: Vec<Atom>) -> (r: Vec<Atom>)
    ensures
        r@ == v@.reverse(),
{
    let mut src = v;
    let mut r: Vec<Atom> = Vec::new();
    proof {
        assert(r@ =~= v@.subrange(src@.len() as int, v@.len() as int).reverse());
    }
    while src.len() > 0
        invariant
            src@.len() <= v@.len(),
            src@ == v@.subrange(0, src@.len() as int),
            r@ == v@.subrange(src@.len() as int, v@.len() as int).reverse(),
        decreases src@.len(),
    {
        if let Some(x) = src.pop() {
            r.push(x);
            proof {
                assert(src@ =~= v@.subrange(0, src@.len() as int));
                let tail = v@.subrange(src@.len() as int, v@.len() as int);
                let prev = v@.subrange(src@.len() as int + 1, v@.len() as int);
                assert(x == v@[src@.len() as int]);
                assert forall|i: int| 0 <= i < tail.len() implies tail.reverse()[i] == r@[i] by {
                    assert(tail.reverse()[i] == tail[tail.len() - 1 - i]);
                    assert(tail[tail.len() - 1 - i] == v@[src@.len() + tail.len() - 1 - i]);
                    if i < tail.len() - 1 {
                        assert(r@[i] == prev.reverse()[i]);
                        assert(prev.reverse()[i] == prev[prev.len() - 1 - i]);
                        assert(prev[prev.len() - 1 - i] == v@[src@.len() + 1 + prev.len() - 1
                            - i]);
                    } else {
                        assert(r@[i] == x);
                        assert(tail[0] == v@[src@.len() as int]);
                    }
                }
                assert(r@ =~= tail.reverse());
            }
        }
    }
    proof {
        assert(v@.subrange(0, v@.len() as int) =~= v@);
    }
    r
}

/// Hands the collected argument atoms to the list continuation, emitting
/// the IR it was waiting to build.
pub fn apply_vec_k(gen: &mut GenTable, k: VecK, args: Vec<Atom>) -> (r: IR)
    requires
        kv_fix_wf(k),
        labs_ok(atoms_labels(args@) + kv_labels(k), old(gen).label_count as int),
        old(gen).label_count + kv_budget(k) <= usize::MAX,
        old(gen).cont_count + kv_budget(k) <= usize::MAX,
        old(gen).var_count + kv_budget(k) <= usize::MAX,
    ensures
        old(gen).label_count <= final(gen).label_count,
        final(gen).label_count <= old(gen).label_count + kv_budget(k),
        old(gen).cont_count <= final(gen).cont_count,
        final(gen).cont_count <= old(gen).cont_count + kv_budget(k),
        old(gen).var_count <= final(gen).var_count,
        final(gen).var_count <= old(gen).var_count + kv_budget(k),
        labs_ok(ir_labels(r), final(gen).label_count as int),
        labs_from(
            ir_labels(r),
            atoms_labels(args@) + kv_labels(k),
            old(gen).label_count as int,
            final(gen).label_count as int,
        ),
        labs_include(ir_labels(r), atoms_labels(args@) + kv_labels(k)),
        view_ir(r) == apply_vec_spec(view_gen(*old(gen)), view_kvec(k), view_atoms(args@)).0,
        view_gen(*final(gen)) == apply_vec_spec(view_gen(*old(gen)), view_kvec(k), view_atoms(args@)).1,
    decreases wv(k), fv(k), 0int,
{
    let ghost g0 = view_gen(*gen);
    let ghost kv0 = view_kvec(k);
    let ghost av0 = view_atoms(args@);
    let ghost la = atoms_labels(args@);
    match k {
        VecK::ArgsApp(f, k1) => {
            let ghost lf = atom_labels(f);
            let ghost kl = ka_labels(*k1);
            let ghost base = la + (lf + kl);
            let ghost c0 = gen.label_count as int;
            let label1 = gen.alloc_label();
            let label2 = gen.alloc_label();
            let cont_name = gen.alloc_cont();
            let var_name = gen.alloc_var();
            let args_rev = reversed(args);
            let ghost c1 = gen.label_count as int;
            let ghost g1v = view_gen(*gen);
            let arg_atom = Atom::Var(var_name.clone());
            proof {
                assert(g1v == GenV { labels: g0.labels + 2, conts: g0.conts + 1, vars: g0.vars + 1 });
                assert(cont_name@ == crate::ir::cont_name(g0.conts));
                assert(var_name@ == crate::ir::var_name(g0.vars));
                assert(view_atom(arg_atom) == AtomV::VarV(crate::ir::var_name(g0.vars)));
                assert(view_atoms(args_rev@) == av0.reverse()) by {
                    lemma_view_atoms_reverse(args@);
                }
                lemma_empty_atom(kl, arg_atom);
                // the three parts of the base, their bounds and no-dups
                assert forall|i: int| 0 <= i < base.len() implies #[trigger] base[i] < c0 by {}
                assert forall|v: int| la.contains(v) implies v < c0 && base.contains(v) by {
                    lemma_contains_left(la, lf + kl, v);
                    lemma_labs_member_bound(base, c0, v);
                }
                assert forall|v: int| lf.contains(v) implies v < c0 && base.contains(v) by {
                    lemma_contains_left(lf, kl, v);
                    lemma_contains_right(la, lf + kl, v);
                    lemma_labs_member_bound(base, c0, v);
                }
                assert forall|v: int| kl.contains(v) implies v < c0 && base.contains(v) by {
                    lemma_contains_right(lf, kl, v);
                    lemma_contains_right(la, lf + kl, v);
                    lemma_labs_member_bound(base, c0, v);
                }
                lemma_suffix_no_dup(la, lf + kl);
                lemma_prefix_no_dup(lf, kl);
                lemma_suffix_no_dup(lf, kl);
                lemma_prefix_no_dup(la, lf + kl);
                assert forall|i: int| 0 <= i < kl.len() implies #[trigger] kl[i] < c1 by {
                    assert(kl.contains(kl[i]));
                }
            }
            let kbody = apply_atom_k(gen, *k1, arg_atom);
            let ghost c2 = gen.label_count as int;
            let mut params: Vec<String> = Vec::new();
            params.push(var_name);
            let call = IR::App(label2, f, args_rev, Cont::Named(cont_name.clone()));
            let r = IR::LetCont(label1, cont_name, params, Box::new(kbody), Box::new(call));
            proof {
                assert(apply_vec_spec(g0, kv0, av0) == {
                    let g1 = GenV {
                        labels: g0.labels + 2,
                        conts: g0.conts + 1,
                        vars: g0.vars + 1,
                    };
                    let (kbody_s, g2) = apply_atom_spec(
                        g1,
                        view_katom(*k1),
                        AtomV::VarV(crate::ir::var_name(g0.vars)),
                    );
                    (
                        IRV::LetContV(
                            g0.labels,
                            crate::ir::cont_name(g0.conts),
                            seq![crate::ir::var_name(g0.vars)],
                            Box::new(kbody_s),
                            Box::new(IRV::AppV(
                                g0.labels + 1,
                                view_atom(f),
                                av0.reverse(),
                                ContV::NamedV(crate::ir::cont_name(g0.conts)),
                            )),
                        ),
                        g2,
                    )
                });
                assert(view_ir(kbody) == apply_atom_spec(
                    g1v,
                    view_katom(*k1),
                    AtomV::VarV(crate::ir::var_name(g0.vars)),
                ).0);
                assert(view_gen(*gen) == apply_atom_spec(
                    g1v,
                    view_katom(*k1),
                    AtomV::VarV(crate::ir::var_name(g0.vars)),
                ).1);
                assert(views_str(params@) =~= seq![crate::ir::var_name(g0.vars)]);
                assert(view_ir(call) == IRV::AppV(
                    label2 as nat,
                    view_atom(f),
                    av0.reverse(),
                    ContV::NamedV(crate::ir::cont_name(g0.conts)),
                ));
                assert(view_ir(r) == apply_vec_spec(g0, kv0, av0).0);
                assert(view_gen(*gen) == apply_vec_spec(g0, kv0, av0).1);
                let lk = ir_labels(kbody);
                let lrev = atoms_labels(args_rev@);
                lemma_atoms_labels_reverse(args@);
                let lcall = ir_labels(call);
                assert(lcall == seq![label2 as int] + lf + lrev);
                assert(ir_labels(r) == seq![label1 as int] + lk + lcall);
                assert(lrev.no_duplicates());
                assert forall|v: int| lrev.contains(v) implies la.contains(v) by {}
                assert forall|v: int| lk.contains(v) implies kl.contains(v) || (c1 <= v < c2) by {
                    lemma_from_member(lk, kl, c1, c2, v);
                }
                // the call node
                let s1 = seq![label2 as int] + lf;
                assert forall|v: int| seq![label2 as int].contains(v) implies !lf.contains(v) by {}
                lemma_no_dup_concat_mem(seq![label2 as int], lf);
                assert forall|v: int| s1.contains(v) implies !lrev.contains(v) by {
                    lemma_concat_contains(seq![label2 as int], lf, v);
                    if lrev.contains(v) && lf.contains(v) {
                        lemma_contains_left(lf, kl, v);
                        lemma_no_dup_parts(la, lf + kl, v, v);
                    }
                }
                lemma_no_dup_concat_mem(s1, lrev);
                assert(lcall =~= s1 + lrev);
                assert(lcall.no_duplicates());
                assert forall|v: int| lcall.contains(v) implies v == label2 as int || lf.contains(
                    v,
                ) || la.contains(v) by {
                    lemma_concat_contains(s1, lrev, v);
                    if s1.contains(v) {
                        lemma_concat_contains(seq![label2 as int], lf, v);
                    }
                }
                // the whole tree
                let s2 = seq![label1 as int] + lk;
                assert forall|v: int| seq![label1 as int].contains(v) implies !lk.contains(v) by {}
                lemma_no_dup_concat_mem(seq![label1 as int], lk);
                assert forall|v: int| s2.contains(v) implies !lcall.contains(v) by {
                    lemma_concat_contains(seq![label1 as int], lk, v);
                    if lcall.contains(v) && lk.contains(v) && kl.contains(v) {
                        if lf.contains(v) {
                            lemma_prefix_no_dup(lf, kl);
                            lemma_suffix_no_dup(la, lf + kl);
                            lemma_no_dup_parts(lf, kl, v, v);
                        }
                        if la.contains(v) {
                            lemma_contains_right(lf, kl, v);
                            lemma_no_dup_parts(la, lf + kl, v, v);
                        }
                    }
                }
                lemma_no_dup_concat_mem(s2, lcall);
                assert(ir_labels(r) =~= s2 + lcall);
                assert(ir_labels(r).no_duplicates());
                assert forall|i: int| 0 <= i < ir_labels(r).len() implies (base.contains(
                    #[trigger] ir_labels(r)[i],
                ) || (c0 <= ir_labels(r)[i] < c2)) && ir_labels(r)[i] < c2 by {
                    let x = ir_labels(r)[i];
                    assert(ir_labels(r).contains(x));
                    lemma_concat_contains(s2, lcall, x);
                    if s2.contains(x) {
                        lemma_concat_contains(seq![label1 as int], lk, x);
                    }
                }
                assert(labs_include(lk, kl)) by {
                    lemma_include_split(lk, kl, atom_labels(arg_atom));
                }
                assert forall|i: int| 0 <= i < base.len() implies ir_labels(r).contains(
                    #[trigger] base[i],
                ) by {
                    let x = base[i];
                    assert(base.contains(x));
                    lemma_concat_contains(la, lf + kl, x);
                    assert(ir_labels(r) =~= s2 + lcall);
                    assert(lcall =~= s1 + lrev);
                    if la.contains(x) {
                        assert(lrev.contains(x));
                        lemma_contains_right(s1, lrev, x);
                        lemma_contains_right(s2, lcall, x);
                    } else {
                        lemma_concat_contains(lf, kl, x);
                        if lf.contains(x) {
                            let w = choose|w: int| 0 <= w < lf.len() && lf[w] == x;
                            assert(s1[w + 1] == x);
                            lemma_contains_left(s1, lrev, x);
                            lemma_contains_right(s2, lcall, x);
                        } else {
                            lemma_include_member(lk, kl, x);
                            let w = choose|w: int| 0 <= w < lk.len() && lk[w] == x;
                            assert(s2[w + 1] == x);
                            lemma_contains_left(s2, lcall, x);
                        }
                    }
                }
            }
            r
        },
        VecK::ArgsPrim(op, k1) => {
            let ghost kl = ka_labels(*k1);
            let ghost base = la + kl;
            let ghost c0 = gen.label_count as int;
            let label = gen.alloc_label();
            let var_name = gen.alloc_var();
            let args_rev = reversed(args);
            let ghost c1 = gen.label_count as int;
            let ghost g1v = view_gen(*gen);
            let arg_atom = Atom::Var(var_name.clone());
            proof {
                assert(g1v == GenV { labels: g0.labels + 1, conts: g0.conts, vars: g0.vars + 1 });
                assert(var_name@ == crate::ir::var_name(g0.vars));
                assert(view_atom(arg_atom) == AtomV::VarV(crate::ir::var_name(g0.vars)));
                assert(view_atoms(args_rev@) == av0.reverse()) by {
                    lemma_view_atoms_reverse(args@);
                }
                lemma_empty_atom(kl, arg_atom);
                assert forall|i: int| 0 <= i < base.len() implies #[trigger] base[i] < c0 by {}
                assert forall|v: int| la.contains(v) implies v < c0 && base.contains(v) by {
                    lemma_contains_left(la, kl, v);
                    lemma_labs_member_bound(base, c0, v);
                }
                assert forall|v: int| kl.contains(v) implies v < c0 && base.contains(v) by {
                    lemma_contains_right(la, kl, v);
                    lemma_labs_member_bound(base, c0, v);
                }
                lemma_prefix_no_dup(la, kl);
                lemma_suffix_no_dup(la, kl);
                assert forall|i: int| 0 <= i < kl.len() implies #[trigger] kl[i] < c1 by {
                    assert(kl.contains(kl[i]));
                }
            }
            let rest = apply_atom_k(gen, *k1, arg_atom);
            let ghost c2 = gen.label_count as int;
            let r = IR::Let(label, var_name, op, args_rev, Box::new(rest));
            proof {
                assert(apply_vec_spec(g0, kv0, av0) == {
                    let g1 = GenV { labels: g0.labels + 1, conts: g0.conts, vars: g0.vars + 1 };
                    let (rest_s, g2) = apply_atom_spec(
                        g1,
                        view_katom(*k1),
                        AtomV::VarV(crate::ir::var_name(g0.vars)),
                    );
                    (
                        IRV::LetV(
                            g0.labels,
                            crate::ir::var_name(g0.vars),
                            op,
                            av0.reverse(),
                            Box::new(rest_s),
                        ),
                        g2,
                    )
                });
                assert(view_ir(rest) == apply_atom_spec(
                    g1v,
                    view_katom(*k1),
                    AtomV::VarV(crate::ir::var_name(g0.vars)),
                ).0);
                assert(view_ir(r) == IRV::LetV(
                    label as nat,
                    crate::ir::var_name(g0.vars),
                    op,
                    av0.reverse(),
                    Box::new(view_ir(rest)),
                ));
                assert(view_ir(r) == apply_vec_spec(g0, kv0, av0).0);
                assert(view_gen(*gen) == apply_vec_spec(g0, kv0, av0).1);
                let lrev = atoms_labels(args_rev@);
                lemma_atoms_labels_reverse(args@);
                let lrest = ir_labels(rest);
                assert(ir_labels(r) == seq![label as int] + lrev + lrest);
                assert(lrev.no_duplicates());
                assert forall|v: int| lrev.contains(v) implies la.contains(v) by {}
                assert forall|v: int| lrest.contains(v) implies kl.contains(v) || (c1 <= v
                    < c2) by {
                    lemma_from_member(lrest, kl, c1, c2, v);
                }
                let s1 = seq![label as int] + lrev;
                assert forall|v: int| seq![label as int].contains(v) implies !lrev.contains(v) by {}
                lemma_no_dup_concat_mem(seq![label as int], lrev);
                assert forall|v: int| s1.contains(v) implies !lrest.contains(v) by {
                    lemma_concat_contains(seq![label as int], lrev, v);
                    if lrest.contains(v) && lrev.contains(v) && kl.contains(v) {
                        lemma_no_dup_parts(la, kl, v, v);
                    }
                }
                lemma_no_dup_concat_mem(s1, lrest);
                assert(ir_labels(r) =~= s1 + lrest);
                assert(ir_labels(r).no_duplicates());
                assert forall|i: int| 0 <= i < ir_labels(r).len() implies (base.contains(
                    #[trigger] ir_labels(r)[i],
                ) || (c0 <= ir_labels(r)[i] < c2)) && ir_labels(r)[i] < c2 by {
                    let x = ir_labels(r)[i];
                    assert(ir_labels(r).contains(x));
                    lemma_concat_contains(s1, lrest, x);
                    if s1.contains(x) {
                        lemma_concat_contains(seq![label as int], lrev, x);
                    }
                }
                assert(labs_include(lrest, kl)) by {
                    lemma_include_split(lrest, kl, atom_labels(arg_atom));
                }
                assert forall|i: int| 0 <= i < base.len() implies ir_labels(r).contains(
                    #[trigger] base[i],
                ) by {
                    let x = base[i];
                    assert(base.contains(x));
                    lemma_concat_contains(la, kl, x);
                    assert(ir_labels(r) =~= s1 + lrest);
                    if la.contains(x) {
                        assert(lrev.contains(x));
                        let w = choose|w: int| 0 <= w < lrev.len() && lrev[w] == x;
                        assert(s1[w + 1] == x);
                        lemma_contains_left(s1, lrest, x);
                    } else {
                        lemma_include_member(lrest, kl, x);
                        lemma_contains_right(s1, lrest, x);
                    }
                }
            }
            r
        },
        VecK::ArgsCons(a, kv) => {
            let mut rv = args;
            rv.push(a);
            proof {
                lemma_atoms_labels_push(args@, a);
                assert(atoms_labels(rv@) + kv_labels(*kv) =~= la + (atom_labels(a) + kv_labels(
                    *kv,
                )));
                assert(atoms_labels(rv@) + kv_labels(*kv) =~= la + kv_labels(VecK::ArgsCons(a, kv)));
            }
            let ghost af2 = atom_labels(a);
            let ghost vl = kv_labels(*kv);
            let ghost rl = atoms_labels(rv@);
            proof {
                lemma_view_atoms_push(args@, a);
                assert(view_atoms(rv@) == av0.push(view_atom(a)));
                assert(apply_vec_spec(g0, kv0, av0) == apply_vec_spec(
                    g0,
                    view_kvec(*kv),
                    av0.push(view_atom(a)),
                ));
            }
            let r = apply_vec_k(gen, *kv, rv);
            proof {
                assert forall|i: int| 0 <= i < ir_labels(r).len() implies (la + (af2 + vl)).contains(
                    #[trigger] ir_labels(r)[i],
                ) || (old(gen).label_count <= ir_labels(r)[i]
                    < final(gen).label_count as int) by {}
                lemma_include_split(ir_labels(r), rl, vl);
                lemma_include_split(ir_labels(r), la, af2);
                assert forall|i: int| 0 <= i < (la + (af2 + vl)).len() implies ir_labels(
                    r,
                ).contains(#[trigger] (la + (af2 + vl))[i]) by {
                    let x = (la + (af2 + vl))[i];
                    assert((la + (af2 + vl)).contains(x));
                    lemma_concat_contains(la, af2 + vl, x);
                    if la.contains(x) {
                        lemma_include_member(ir_labels(r), la, x);
                    } else {
                        lemma_concat_contains(af2, vl, x);
                        if af2.contains(x) {
                            lemma_include_member(ir_labels(r), af2, x);
                        } else {
                            lemma_include_member(ir_labels(r), vl, x);
                        }
                    }
                }
            }
            r
        },
    }
}

/// Converts a whole program: installs a fresh generator and the final
/// `Return` continuation, then converts. The result is exactly
/// `quick_cps_spec` of the input's view, and its labels are globally
/// unique: no label occurs twice anywhere in the tree.
pub fn quick_cps(t: BuilderExpr) -> (r: IR)
    requires
        fix_wf(t),
        4 * bsize(t) + 1 <= usize::MAX,
    ensures
        ir_labels(r).no_duplicates(),
        ir_labels(r).contains(0),
        view_ir(r) == quick_cps_spec(view_bexpr(t)),
{
    let mut gen = GenTable::new();
    let label = gen.alloc_label();
    proof {
        assert(ka_labels(AtomK::Emit(label)) =~= seq![label as int]);
        assert(view_gen(gen) == GenV { labels: 1, conts: 0, vars: 0 });
        assert(view_katom(AtomK::Emit(label)) == AtomKV::EmitV(0));
    }
    let r = cps(&mut gen, t, AtomK::Emit(label));
    proof {
        assert(ka_labels(AtomK::Emit(label))[0] == 0);
        assert(ir_labels(r).contains(ka_labels(AtomK::Emit(label))[0]));
    }
    r
}

} // verus!
