//! The control-flow graph: an arena of nodes addressed by index, with
//! explicit entry/exit points for the program and for each function, built
//! by a recursive walk of the CPS IR. Continuation names are resolved
//! through a table built during the same walk; construction fails exactly
//! on a named reference that no continuation in scope provides.

use vstd::prelude::*;
use crate::ir::{
    Atom, Cont, IR, IRV, dup_ir, lemma_nsize_atoms_elem, nsize_atom, nsize_atoms, nsize_ir,
    view_ir,
};

verus! {

/// What a node of the control-flow graph stands for.
pub enum NodeInfo {
    /// The unique entry point of the whole program.
    ProgramEntry,
    /// The unique exit point of the whole program.
    ProgramExit,
    /// The entry point of the function whose lambda carries this label.
    FunEntry(usize),
    /// The exit point of that function.
    FunExit(usize),
    /// An ordinary program point: one IR node, by its label.
    Common(usize, IR),
}

/// A join-semilattice of analysis values, together with its mathematical
/// model. The contracts of the dataflow engine are stated over the model
/// type `M`; the proof obligations are the semilattice laws, plus a rank
/// that strictly shrinks at every proper join, which bounds the engine's
/// running time.
pub trait Lattice: Sized {
    /// The mathematical model of a lattice value.
    type M;

    /// The model of this value.
    spec fn model(&self) -> Self::M;

    /// The models the engine may store.
    spec fn wf_m(m: Self::M) -> bool;

    /// Join, on models.
    spec fn join_m(x: Self::M, y: Self::M) -> Self::M;

    /// Bottom, on models.
    spec fn bottom_m() -> Self::M;

    /// Distance to the top of the well-formed sublattice.
    spec fn rank_m(m: Self::M) -> nat;

    /// Computes the join of two values.
    fn join(a: &Self, b: &Self) -> (r: Self)
        requires
            Self::wf_m(a.model()),
            Self::wf_m(b.model()),
        ensures
            r.model() == Self::join_m(a.model(), b.model()),
    ;

    /// The least element; the engine's initial value for every node.
    fn bottom() -> (r: Self)
        ensures
            r.model() == Self::bottom_m(),
    ;

    /// Decides whether two values carry the same information.
    fn eq_l(&self, other: &Self) -> (r: bool)
        requires
            Self::wf_m(self.model()),
            Self::wf_m(other.model()),
        ensures
            r == (self.model() == other.model()),
    ;

    /// An owned copy with the same model.
    fn dup(&self) -> (r: Self)
        requires
            Self::wf_m(self.model()),
        ensures
            r.model() == self.model(),
    ;

    /// Join is commutative.
    proof fn join_comm(x: Self::M, y: Self::M)
        ensures
            Self::join_m(x, y) == Self::join_m(y, x),
    ;

    /// Join is associative.
    proof fn join_assoc(x: Self::M, y: Self::M, z: Self::M)
        ensures
            Self::join_m(Self::join_m(x, y), z) == Self::join_m(x, Self::join_m(y, z)),
    ;

    /// Join is idempotent.
    proof fn join_idem(x: Self::M)
        ensures
            Self::join_m(x, x) == x,
    ;

    /// Bottom is join's identity and the least element.
    proof fn join_bottom(x: Self::M)
        ensures
            Self::join_m(Self::bottom_m(), x) == x,
    ;

    /// Bottom is well formed.
    proof fn bottom_wf()
        ensures
            Self::wf_m(Self::bottom_m()),
    ;

    /// Join preserves well-formedness.
    proof fn join_wf(x: Self::M, y: Self::M)
        requires
            Self::wf_m(x),
            Self::wf_m(y),
        ensures
            Self::wf_m(Self::join_m(x, y)),
    ;

    /// Moving up the lattice strictly shrinks the rank: the engine's
    /// termination measure.
    proof fn rank_join(x: Self::M, y: Self::M)
        requires
            Self::wf_m(x),
            Self::wf_m(y),
        ensures
            Self::rank_m(Self::join_m(x, y)) <= Self::rank_m(x),
            Self::join_m(x, y) != x ==> Self::rank_m(Self::join_m(x, y)) < Self::rank_m(x),
    ;
}

/// The lattice order induced by join: `x` is below `y` when joining adds
/// nothing to `y`.
pub open spec fn leq_m<L: Lattice>(x: L::M, y: L::M) -> bool {
    L::join_m(x, y) == y
}

/// A transfer function for the dataflow engine: what one program point
/// does to an incoming analysis value. Its behaviour is specified over the
/// view of the IR node and the model of the value; the obligations are
/// monotonicity and preservation of well-formedness.
pub trait Transfer<L: Lattice>: Sized {
    /// The transfer function, on models.
    spec fn transfer_m(&self, label: usize, ir: IRV, m: L::M) -> L::M;

    /// Computes the transfer of one value through one program point.
    fn transfer(&self, label: usize, ir: &IR, l: L) -> (r: L)
        requires
            L::wf_m(l.model()),
        ensures
            r.model() == self.transfer_m(label, view_ir(*ir), l.model()),
    ;

    /// The transfer function preserves well-formedness.
    proof fn transfer_wf(&self, label: usize, ir: IRV, m: L::M)
        requires
            L::wf_m(m),
        ensures
            L::wf_m(self.transfer_m(label, ir, m)),
    ;

    /// The transfer function is monotone.
    proof fn transfer_mono(&self, label: usize, ir: IRV, x: L::M, y: L::M)
        requires
            L::wf_m(x),
            L::wf_m(y),
            leq_m::<L>(x, y),
        ensures
            leq_m::<L>(self.transfer_m(label, ir, x), self.transfer_m(label, ir, y)),
    ;
}

/// One node of the control-flow graph: what it stands for, its adjacency
/// by node index, and the incoming and outgoing analysis values.
pub struct Node<L: Lattice> {
    pub info: NodeInfo,
    pub predecessors: Vec<usize>,
    pub successors: Vec<usize>,
    pub result_in: L,
    pub result_out: L,
}

impl<L: Lattice> Node<L> {
    /// A fresh node: no edges, both analysis values at bottom.
    pub open spec fn fresh(self) -> bool {
        &&& self.predecessors@.len() == 0
        &&& self.successors@.len() == 0
        &&& self.result_in.model() == L::bottom_m()
        &&& self.result_out.model() == L::bottom_m()
    }

    /// A fresh node for the given program point.
    pub fn new(info: NodeInfo) -> (r: Self)
        ensures
            r.fresh(),
            r.info == info,
    {
        Node {
            info,
            predecessors: Vec::new(),
            successors: Vec::new(),
            result_in: L::bottom(),
            result_out: L::bottom(),
        }
    }

    /// A fresh node for one IR node, keyed by its label.
    pub fn from(ir: &IR) -> (r: Self)
        ensures
            r.fresh(),
            r.info matches NodeInfo::Common(label, stored) && label == ir.label_of() && view_ir(
                stored,
            ) == view_ir(*ir),
    {
        let label = ir.get_label();
        Self::new(NodeInfo::Common(label, dup_ir(ir)))
    }
}

/// Construction fails on a named continuation reference that resolves to
/// no continuation in scope; the name is reported.
#[derive(Debug, PartialEq, Eq)]
pub enum CfgError {
    UnresolvedCont(String),
}

/// The continuation names a table holds, as a set of character sequences.
pub open spec fn cont_keys(t: Seq<(String, usize)>) -> Set<Seq<char>>
    decreases t,
{
    if t.len() == 0 {
        Set::empty()
    } else {
        cont_keys(t.drop_first()).insert(t[0].0@)
    }
}

/// A name is among the keys exactly when some entry carries it.
pub proof fn lemma_cont_keys_iff(t: Seq<(String, usize)>, x: Seq<char>)
    ensures
        cont_keys(t).contains(x) <==> exists|j: int| 0 <= j < t.len() && t[j].0@ == x,
    decreases t.len(),
{
    if t.len() > 0 {
        lemma_cont_keys_iff(t.drop_first(), x);
        if cont_keys(t).contains(x) {
            if t[0].0@ == x {
            } else {
                let j = choose|j: int| 0 <= j < t.drop_first().len() && t.drop_first()[j].0@ == x;
                assert(t[j + 1].0@ == x);
            }
        }
        if exists|j: int| 0 <= j < t.len() && t[j].0@ == x {
            let j = choose|j: int| 0 <= j < t.len() && t[j].0@ == x;
            if j > 0 {
                assert(t.drop_first()[j - 1].0@ == x);
            }
        }
    }
}

/// Appending one entry adds one key.
pub proof fn lemma_cont_keys_push(t: Seq<(String, usize)>, name: String, v: usize)
    ensures
        cont_keys(t.push((name, v))) == cont_keys(t).insert(name@),
    decreases t.len(),
{
    if t.len() == 0 {
        assert(t.push((name, v)).drop_first() =~= Seq::<(String, usize)>::empty());
        assert(t.push((name, v))[0] == (name, v));
        assert(cont_keys(t.push((name, v)).drop_first()) == Set::<Seq<char>>::empty());
        assert(cont_keys(t.push((name, v))) =~= cont_keys(t).insert(name@));
    } else {
        assert(t.push((name, v)).drop_first() =~= t.drop_first().push((name, v)));
        assert(t.push((name, v))[0] == t[0]);
        lemma_cont_keys_push(t.drop_first(), name, v);
        assert(cont_keys(t.push((name, v))) =~= cont_keys(t).insert(name@));
    }
}

/// The continuation names in scope after building the subgraphs of one
/// atom: a lambda's body may register continuations in the shared table.
pub open spec fn scope_atom(a: Atom, s: Set<Seq<char>>) -> Set<Seq<char>>
    decreases a,
{
    match a {
        Atom::Lam(_l, _ps, body) => scope_ir(*body, s),
        _ => s,
    }
}

/// The names in scope after building the subgraphs of a list of atoms.
pub open spec fn scope_atoms(v: Seq<Atom>, s: Set<Seq<char>>) -> Set<Seq<char>>
    decreases v,
{
    if v.len() == 0 {
        s
    } else {
        scope_atoms(v.drop_first(), scope_atom(v[0], s))
    }
}

/// The names in scope after building the subgraph of one IR tree,
/// following the construction order exactly.
pub open spec fn scope_ir(ir: IR, s: Set<Seq<char>>) -> Set<Seq<char>>
    decreases ir,
{
    match ir {
        IR::App(_l, f, args, _c) => scope_atoms(args@, scope_atom(f, s)),
        IR::AppCont(_l, _c, args) => scope_atoms(args@, s),
        IR::Fix(_l, _ns, vals, body) => scope_ir(*body, scope_atoms(vals@, s)),
        IR::If(_l, test, a, b) => scope_ir(*b, scope_ir(*a, scope_atom(test, s))),
        IR::Let(_l, _x, _op, args, body) => scope_ir(*body, scope_atoms(args@, s)),
        IR::LetVal(_l, _x, atm, body) => scope_ir(*body, scope_atom(atm, s)),
        IR::LetCont(_l, name, _ps, cont_body, body) => scope_ir(
            *cont_body,
            scope_ir(*body, s.insert(name@)),
        ),
    }
}

/// Every named continuation reference in the atom's lambda bodies resolves
/// in the scope current at its position.
pub open spec fn ok_atom(a: Atom, s: Set<Seq<char>>) -> bool
    decreases a,
{
    match a {
        Atom::Lam(_l, _ps, body) => ok_ir(*body, s),
        _ => true,
    }
}

/// `ok_atom` along a list of atoms, threading the scope.
pub open spec fn ok_atoms(v: Seq<Atom>, s: Set<Seq<char>>) -> bool
    decreases v,
{
    if v.len() == 0 {
        true
    } else {
        ok_atom(v[0], s) && ok_atoms(v.drop_first(), scope_atom(v[0], s))
    }
}

/// Every named continuation reference in the tree resolves in the scope
/// current at its position. Exactly when this holds does construction
/// succeed.
pub open spec fn ok_ir(ir: IR, s: Set<Seq<char>>) -> bool
    decreases ir,
{
    match ir {
        IR::App(_l, f, args, c) => ok_atom(f, s) && ok_atoms(args@, scope_atom(f, s)) && (
        c matches Cont::Named(n) ==> scope_atoms(args@, scope_atom(f, s)).contains(n@)),
        IR::AppCont(_l, c, args) => ok_atoms(args@, s) && (c matches Cont::Named(n)
            ==> scope_atoms(args@, s).contains(n@)),
        IR::Fix(_l, _ns, vals, body) => ok_atoms(vals@, s) && ok_ir(*body, scope_atoms(vals@, s)),
        IR::If(_l, test, a, b) => ok_atom(test, s) && ok_ir(*a, scope_atom(test, s)) && ok_ir(
            *b,
            scope_ir(*a, scope_atom(test, s)),
        ),
        IR::Let(_l, _x, _op, args, body) => ok_atoms(args@, s) && ok_ir(
            *body,
            scope_atoms(args@, s),
        ),
        IR::LetVal(_l, _x, atm, body) => ok_atom(atm, s) && ok_ir(*body, scope_atom(atm, s)),
        IR::LetCont(_l, name, _ps, cont_body, body) => ok_ir(*body, s.insert(name@)) && ok_ir(
            *cont_body,
            scope_ir(*body, s.insert(name@)),
        ),
    }
}

/// One step of the scope threading along a list of atoms.
pub proof fn lemma_scope_atoms_snoc(v: Seq<Atom>, s: Set<Seq<char>>, i: int)
    requires
        0 <= i < v.len(),
    ensures
        scope_atoms(v.take(i + 1), s) == scope_atom(v[i], scope_atoms(v.take(i), s)),
    decreases i,
{
    if i == 0 {
        assert(v.take(1).drop_first() =~= Seq::<Atom>::empty());
        assert(v.take(1)[0] == v[0]);
        assert(v.take(0) =~= Seq::<Atom>::empty());
        assert(scope_atoms(v.take(1).drop_first(), scope_atom(v[0], s)) == scope_atom(v[0], s));
        assert(scope_atoms(v.take(0), s) == s);
    } else {
        lemma_scope_atoms_snoc(v.drop_first(), scope_atom(v[0], s), i - 1);
        assert(v.take(i + 1).drop_first() =~= v.drop_first().take(i));
        assert(v.take(i).drop_first() =~= v.drop_first().take(i - 1));
        assert(v.take(i + 1)[0] == v[0]);
        assert(v.take(i)[0] == v[0]);
        assert(v.drop_first()[i - 1] == v[i]);
        assert(scope_atoms(v.take(i + 1), s) == scope_atoms(
            v.drop_first().take(i),
            scope_atom(v[0], s),
        ));
        assert(scope_atoms(v.take(i), s) == scope_atoms(
            v.drop_first().take(i - 1),
            scope_atom(v[0], s),
        ));
    }
}

/// One step of `ok_atoms` along a list of atoms.
pub proof fn lemma_ok_atoms_snoc(v: Seq<Atom>, s: Set<Seq<char>>, i: int)
    requires
        0 <= i < v.len(),
    ensures
        ok_atoms(v.take(i + 1), s) == (ok_atoms(v.take(i), s) && ok_atom(
            v[i],
            scope_atoms(v.take(i), s),
        )),
    decreases i,
{
    if i == 0 {
        assert(v.take(1).drop_first() =~= Seq::<Atom>::empty());
        assert(v.take(1)[0] == v[0]);
        assert(v.take(0) =~= Seq::<Atom>::empty());
        assert(ok_atoms(v.take(1).drop_first(), scope_atom(v[0], s)));
        assert(ok_atoms(v.take(0), s));
        assert(scope_atoms(v.take(0), s) == s);
    } else {
        lemma_ok_atoms_snoc(v.drop_first(), scope_atom(v[0], s), i - 1);
        lemma_scope_atoms_snoc(v, s, i);
        assert(v.take(i + 1).drop_first() =~= v.drop_first().take(i));
        assert(v.take(i).drop_first() =~= v.drop_first().take(i - 1));
        assert(v.take(i + 1)[0] == v[0]);
        assert(v.take(i)[0] == v[0]);
        assert(v.drop_first()[i - 1] == v[i]);
        assert(scope_atoms(v.take(i), s) == scope_atoms(
            v.drop_first().take(i - 1),
            scope_atom(v[0], s),
        ));
        assert(ok_atoms(v.take(i + 1), s) == (ok_atom(v[0], s) && ok_atoms(
            v.drop_first().take(i),
            scope_atom(v[0], s),
        )));
        assert(ok_atoms(v.take(i), s) == (ok_atom(v[0], s) && ok_atoms(
            v.drop_first().take(i - 1),
            scope_atom(v[0], s),
        )));
    }
}

/// The view of what one node stands for.
pub enum NodeInfoV {
    ProgramEntryV,
    ProgramExitV,
    FunEntryV(nat),
    FunExitV(nat),
    CommonV(nat, IRV),
}

/// The view of a node's role.
pub open spec fn view_info(info: NodeInfo) -> NodeInfoV {
    match info {
        NodeInfo::ProgramEntry => NodeInfoV::ProgramEntryV,
        NodeInfo::ProgramExit => NodeInfoV::ProgramExitV,
        NodeInfo::FunEntry(l) => NodeInfoV::FunEntryV(l as nat),
        NodeInfo::FunExit(l) => NodeInfoV::FunExitV(l as nat),
        NodeInfo::Common(l, ir) => NodeInfoV::CommonV(l as nat, view_ir(ir)),
    }
}

/// The graph as a mathematical object: what each node stands for, its
/// adjacency, the three tables, and the designated entry and exit. The
/// construction is specified as a function producing exactly this.
#[verifier::ext_equal]
pub struct GraphV {
    pub infos: Seq<NodeInfoV>,
    pub succs: Seq<Seq<usize>>,
    pub preds: Seq<Seq<usize>>,
    pub conts: Seq<(Seq<char>, usize)>,
    pub fun_entries: Seq<(nat, usize)>,
    pub fun_exits: Seq<(nat, usize)>,
    pub entry: usize,
    pub exit: usize,
}

/// Appends a fresh node: its index, and the grown graph.
pub open spec fn gv_new_node(g: GraphV, info: NodeInfoV) -> (usize, GraphV) {
    (
        g.infos.len() as usize,
        GraphV {
            infos: g.infos.push(info),
            succs: g.succs.push(Seq::empty()),
            preds: g.preds.push(Seq::empty()),
            conts: g.conts,
            fun_entries: g.fun_entries,
            fun_exits: g.fun_exits,
            entry: g.entry,
            exit: g.exit,
        },
    )
}

/// Adds one directed edge.
pub open spec fn gv_add_edge(g: GraphV, from: usize, to: usize) -> GraphV {
    GraphV {
        infos: g.infos,
        succs: g.succs.update(from as int, g.succs[from as int].push(to)),
        preds: g.preds.update(to as int, g.preds[to as int].push(from)),
        conts: g.conts,
        fun_entries: g.fun_entries,
        fun_exits: g.fun_exits,
        entry: g.entry,
        exit: g.exit,
    }
}

/// Registers one continuation name.
pub open spec fn gv_push_cont(g: GraphV, name: Seq<char>, node: usize) -> GraphV {
    GraphV {
        infos: g.infos,
        succs: g.succs,
        preds: g.preds,
        conts: g.conts.push((name, node)),
        fun_entries: g.fun_entries,
        fun_exits: g.fun_exits,
        entry: g.entry,
        exit: g.exit,
    }
}

/// Registers one function's entry/exit pair.
pub open spec fn gv_push_fun(g: GraphV, label: nat, en: usize, ex: usize) -> GraphV {
    GraphV {
        infos: g.infos,
        succs: g.succs,
        preds: g.preds,
        conts: g.conts,
        fun_entries: g.fun_entries.push((label, en)),
        fun_exits: g.fun_exits.push((label, ex)),
        entry: g.entry,
        exit: g.exit,
    }
}

/// Looks a name up in the continuation table, latest registration first.
pub open spec fn gv_lookup(conts: Seq<(Seq<char>, usize)>, x: Seq<char>) -> Option<usize>
    decreases conts.len(),
{
    if conts.len() == 0 {
        None
    } else if conts.last().0 == x {
        Some(conts.last().1)
    } else {
        gv_lookup(conts.drop_last(), x)
    }
}

/// What building the isolated subgraph of one atom does to the graph: a
/// lambda gets a fresh entry/exit pair keyed by its label, with its body's
/// spine threaded to that exit; every other atom changes nothing.
pub open spec fn build_atom_v(g: GraphV, a: Atom) -> GraphV
    decreases nsize_atom(a), 0int, 0int,
{
    match a {
        Atom::Lam(label, _ps, body) => {
            let (en, g1) = gv_new_node(g, NodeInfoV::FunEntryV(label as nat));
            let (ex, g2) = gv_new_node(g1, NodeInfoV::FunExitV(label as nat));
            let g3 = gv_push_fun(g2, label as nat, en, ex);
            let (bn, g4) = gv_new_node(
                g3,
                NodeInfoV::CommonV(body.label_of() as nat, view_ir(*body)),
            );
            let g5 = gv_add_edge(g4, en, bn);
            build_inner_v(g5, *body, bn, ex)
        },
        _ => g,
    }
}

/// What building the subgraphs of a list of atoms does, in order.
pub open spec fn build_atoms_v(g: GraphV, args: Seq<Atom>) -> GraphV
    decreases nsize_atoms(args), args.len(), 1int,
{
    if args.len() == 0 {
        g
    } else {
        build_atoms_v(build_atom_v(g, args[0]), args.drop_first())
    }
}

/// What the recursive walk does to the graph: one `Common` node per IR
/// node along each spine, an edge per fallthrough, both branch subgraphs
/// for a conditional, the registered continuation node (or the threaded
/// exit) as the successor of each `App`/`AppCont`. A named reference that
/// the table misses adds no edge here; the builder fails there instead.
pub open spec fn build_inner_v(g: GraphV, ir: IR, node: usize, exit: usize) -> GraphV
    decreases nsize_ir(ir), 0int, 2int,
{
    match ir {
        IR::App(_l, f, args, cont) => {
            let g1 = build_atoms_v(build_atom_v(g, f), args@);
            match cont {
                Cont::Named(s) => match gv_lookup(g1.conts, s@) {
                    Some(cn) => gv_add_edge(g1, node, cn),
                    None => g1,
                },
                Cont::Return => gv_add_edge(g1, node, exit),
            }
        },
        IR::AppCont(_l, cont, args) => {
            let g1 = build_atoms_v(g, args@);
            match cont {
                Cont::Named(s) => match gv_lookup(g1.conts, s@) {
                    Some(cn) => gv_add_edge(g1, node, cn),
                    None => g1,
                },
                Cont::Return => gv_add_edge(g1, node, exit),
            }
        },
        IR::Fix(_l, _ns, vals, body) => {
            let g1 = build_atoms_v(g, vals@);
            let (bn, g2) = gv_new_node(
                g1,
                NodeInfoV::CommonV(body.label_of() as nat, view_ir(*body)),
            );
            let g3 = gv_add_edge(g2, node, bn);
            build_inner_v(g3, *body, bn, exit)
        },
        IR::If(_l, test, a, b) => {
            let g1 = build_atom_v(g, test);
            let (tn, g2) = gv_new_node(g1, NodeInfoV::CommonV(a.label_of() as nat, view_ir(*a)));
            let (en, g3) = gv_new_node(g2, NodeInfoV::CommonV(b.label_of() as nat, view_ir(*b)));
            let g4 = gv_add_edge(g3, node, tn);
            let g5 = gv_add_edge(g4, node, en);
            let g6 = build_inner_v(g5, *a, tn, exit);
            build_inner_v(g6, *b, en, exit)
        },
        IR::Let(_l, _x, _op, args, body) => {
            let g1 = build_atoms_v(g, args@);
            let (bn, g2) = gv_new_node(
                g1,
                NodeInfoV::CommonV(body.label_of() as nat, view_ir(*body)),
            );
            let g3 = gv_add_edge(g2, node, bn);
            build_inner_v(g3, *body, bn, exit)
        },
        IR::LetVal(_l, _x, atm, body) => {
            let g1 = build_atom_v(g, atm);
            let (bn, g2) = gv_new_node(
                g1,
                NodeInfoV::CommonV(body.label_of() as nat, view_ir(*body)),
            );
            let g3 = gv_add_edge(g2, node, bn);
            build_inner_v(g3, *body, bn, exit)
        },
        IR::LetCont(_l, name, _ps, cont_body, body) => {
            let (bn, g1) = gv_new_node(
                g,
                NodeInfoV::CommonV(body.label_of() as nat, view_ir(*body)),
            );
            let g2 = gv_add_edge(g1, node, bn);
            let (cn, g3) = gv_new_node(
                g2,
                NodeInfoV::CommonV(cont_body.label_of() as nat, view_ir(*cont_body)),
            );
            let g4 = gv_push_cont(g3, name@, cn);
            let g5 = build_inner_v(g4, *body, bn, exit);
            build_inner_v(g5, *cont_body, cn, exit)
        },
    }
}

/// What building the whole graph does: the global entry/exit pair, a
/// `Common` node for the root, the edge from the entry to it, and the
/// walk of the tree threaded to the global exit.
pub open spec fn build_intra_v(g: GraphV, ir: IR) -> GraphV {
    let (pe, g1) = gv_new_node(g, NodeInfoV::ProgramEntryV);
    let (px, g2) = gv_new_node(g1, NodeInfoV::ProgramExitV);
    let g3 = GraphV {
        infos: g2.infos,
        succs: g2.succs,
        preds: g2.preds,
        conts: g2.conts,
        fun_entries: g2.fun_entries,
        fun_exits: g2.fun_exits,
        entry: pe,
        exit: px,
    };
    let (sn, g4) = gv_new_node(g3, NodeInfoV::CommonV(ir.label_of() as nat, view_ir(ir)));
    let g5 = gv_add_edge(g4, pe, sn);
    build_inner_v(g5, ir, sn, px)
}

/// One step of the graph construction along a list of atoms.
pub proof fn lemma_build_atoms_snoc(g: GraphV, v: Seq<Atom>, i: int)
    requires
        0 <= i < v.len(),
    ensures
        build_atoms_v(g, v.take(i + 1)) == build_atom_v(build_atoms_v(g, v.take(i)), v[i]),
    decreases i,
{
    if i == 0 {
        assert(v.take(1).drop_first() =~= Seq::<Atom>::empty());
        assert(v.take(1)[0] == v[0]);
        assert(v.take(0) =~= Seq::<Atom>::empty());
        assert(build_atoms_v(build_atom_v(g, v[0]), v.take(1).drop_first()) == build_atom_v(
            g,
            v[0],
        ));
        assert(build_atoms_v(g, v.take(0)) == g);
    } else {
        lemma_build_atoms_snoc(build_atom_v(g, v[0]), v.drop_first(), i - 1);
        assert(v.take(i + 1).drop_first() =~= v.drop_first().take(i));
        assert(v.take(i).drop_first() =~= v.drop_first().take(i - 1));
        assert(v.take(i + 1)[0] == v[0]);
        assert(v.take(i)[0] == v[0]);
        assert(v.drop_first()[i - 1] == v[i]);
        assert(build_atoms_v(g, v.take(i + 1)) == build_atoms_v(
            build_atom_v(g, v[0]),
            v.drop_first().take(i),
        ));
        assert(build_atoms_v(g, v.take(i)) == build_atoms_v(
            build_atom_v(g, v[0]),
            v.drop_first().take(i - 1),
        ));
    }
}

/// The node arena of one control-flow graph, with the worklist state of
/// the fixpoint engine, the tables built during construction, and the
/// injected transfer function.
pub struct NodePool<L: Lattice, T: Transfer<L>> {
    pub nodes: Vec<Node<L>>,
    pub worklist: Vec<usize>,
    /// `true` selects a forward analysis (propagation to successors),
    /// `false` a backward one (propagation to predecessors).
    pub direction: bool,
    pub constraint_fun: T,
    pub fun_entry_table: Vec<(usize, usize)>,
    pub fun_exit_table: Vec<(usize, usize)>,
    pub cont_table: Vec<(String, usize)>,
    pub prog_entry: usize,
    pub prog_exit: usize,
}

impl<L: Lattice, T: Transfer<L>> NodePool<L, T> {
    /// Well-formedness of the arena: adjacency lists and the continuation
    /// table point at nodes of the arena, and every stored value is well
    /// formed.
    pub open spec fn wf(self) -> bool {
        &&& (forall|i: int|
            0 <= i < self.nodes@.len() ==> {
                &&& (forall|j: int|
                    0 <= j < (#[trigger] self.nodes@[i]).successors@.len()
                        ==> (#[trigger] self.nodes@[i].successors@[j]) < self.nodes@.len())
                &&& (forall|j: int|
                    0 <= j < self.nodes@[i].predecessors@.len()
                        ==> (#[trigger] self.nodes@[i].predecessors@[j]) < self.nodes@.len())
                &&& L::wf_m(self.nodes@[i].result_in.model())
                &&& L::wf_m(self.nodes@[i].result_out.model())
            })
        &&& (forall|j: int|
            0 <= j < self.cont_table@.len() ==> (#[trigger] self.cont_table@[j]).1
                < self.nodes@.len())
    }

    /// The graph this pool holds, as a mathematical object.
    pub open spec fn graph(self) -> GraphV {
        GraphV {
            infos: self.nodes@.map_values(|n: Node<L>| view_info(n.info)),
            succs: self.nodes@.map_values(|n: Node<L>| n.successors@),
            preds: self.nodes@.map_values(|n: Node<L>| n.predecessors@),
            conts: self.cont_table@.map_values(|p: (String, usize)| (p.0@, p.1)),
            fun_entries: self.fun_entry_table@.map_values(|p: (usize, usize)| (p.0 as nat, p.1)),
            fun_exits: self.fun_exit_table@.map_values(|p: (usize, usize)| (p.0 as nat, p.1)),
            entry: self.prog_entry,
            exit: self.prog_exit,
        }
    }

    /// Old nodes keep their analysis values; every node added since keeps
    /// bottom in both.
    pub open spec fn extends_vals(old_pool: Self, new_pool: Self) -> bool {
        &&& old_pool.nodes@.len() <= new_pool.nodes@.len()
        &&& (forall|i: int|
            0 <= i < old_pool.nodes@.len() ==> (#[trigger] new_pool.nodes@[i]).result_in
                == old_pool.nodes@[i].result_in && new_pool.nodes@[i].result_out
                == old_pool.nodes@[i].result_out)
        &&& (forall|i: int|
            old_pool.nodes@.len() <= i < new_pool.nodes@.len() ==> (
            #[trigger] new_pool.nodes@[i]).result_in.model() == L::bottom_m()
                && new_pool.nodes@[i].result_out.model() == L::bottom_m())
    }

    /// Direction and transfer function unchanged.
    pub open spec fn same_config(old_pool: Self, new_pool: Self) -> bool {
        &&& new_pool.direction == old_pool.direction
        &&& new_pool.constraint_fun == old_pool.constraint_fun
    }

    /// An empty pool for one analysis run.
    pub fn new(direction: bool, constraint_fun: T) -> (r: Self)
        ensures
            r.wf(),
            r.nodes@.len() == 0,
            r.worklist@.len() == 0,
            r.cont_table@.len() == 0,
            r.fun_entry_table@.len() == 0,
            r.fun_exit_table@.len() == 0,
            r.direction == direction,
            r.constraint_fun == constraint_fun,
            r.prog_entry == 0,
            r.prog_exit == 0,
    {
        NodePool {
            nodes: Vec::new(),
            worklist: Vec::new(),
            direction,
            constraint_fun,
            fun_entry_table: Vec::new(),
            fun_exit_table: Vec::new(),
            cont_table: Vec::new(),
            prog_entry: 0,
            prog_exit: 0,
        }
    }

    /// Adds a fresh node to the arena and returns its index.
    pub fn new_node(&mut self, node: Node<L>) -> (r: usize)
        requires
            old(self).wf(),
            node.fresh(),
        ensures
            final(self).wf(),
            r == old(self).nodes@.len(),
            final(self).nodes@ == old(self).nodes@.push(node),
            final(self).cont_table == old(self).cont_table,
            final(self).fun_entry_table == old(self).fun_entry_table,
            final(self).fun_exit_table == old(self).fun_exit_table,
            final(self).worklist == old(self).worklist,
            final(self).direction == old(self).direction,
            final(self).constraint_fun == old(self).constraint_fun,
            final(self).prog_entry == old(self).prog_entry,
            final(self).prog_exit == old(self).prog_exit,
            forall|i: int|
                0 <= i < old(self).nodes@.len() ==> (#[trigger] final(self).nodes@[i]).info
                    == old(self).nodes@[i].info,
            Self::extends_vals(*old(self), *final(self)),
            final(self).graph() == gv_new_node(old(self).graph(), view_info(node.info)).1,
            r == gv_new_node(old(self).graph(), view_info(node.info)).0,
    {
        let count = self.nodes.len();
        proof {
            L::bottom_wf();
        }
        self.nodes.push(node);
        proof {
            let go = old(self).graph();
            assert(node.successors@ =~= Seq::<usize>::empty());
            assert(node.predecessors@ =~= Seq::<usize>::empty());
            assert(self.graph().infos =~= go.infos.push(view_info(node.info)));
            assert(self.graph().succs =~= go.succs.push(Seq::empty()));
            assert(self.graph().preds =~= go.preds.push(Seq::empty()));
            assert(self.graph() =~= gv_new_node(go, view_info(node.info)).1);
            assert(count == gv_new_node(go, view_info(node.info)).0);
        }
        count
    }

    /// Puts a node index on the worklist.
    pub fn push_worklist(&mut self, n: usize)
        ensures
            final(self).worklist@ == old(self).worklist@.push(n),
            final(self).nodes == old(self).nodes,
            final(self).cont_table == old(self).cont_table,
            final(self).fun_entry_table == old(self).fun_entry_table,
            final(self).fun_exit_table == old(self).fun_exit_table,
            final(self).direction == old(self).direction,
            final(self).constraint_fun == old(self).constraint_fun,
            final(self).prog_entry == old(self).prog_entry,
            final(self).prog_exit == old(self).prog_exit,
    {
        self.worklist.push(n);
    }

    /// Adds a directed edge between two nodes of the arena.
    pub fn add_edge(&mut self, from: usize, to: usize)
        requires
            old(self).wf(),
            from < old(self).nodes@.len(),
            to < old(self).nodes@.len(),
        ensures
            final(self).wf(),
            final(self).nodes@.len() == old(self).nodes@.len(),
            forall|i: int|
                0 <= i < old(self).nodes@.len() && i != from ==> (#[trigger] final(self).nodes@[i]).successors == old(self).nodes@[i].successors,
            forall|i: int|
                0 <= i < old(self).nodes@.len() && i != to ==> (#[trigger] final(self).nodes@[i]).predecessors == old(self).nodes@[i].predecessors,
            final(self).nodes@[from as int].successors@ == old(self).nodes@[
                from as int
            ].successors@.push(to),
            final(self).nodes@[to as int].predecessors@ == old(self).nodes@[
                to as int
            ].predecessors@.push(from),
            forall|i: int|
                0 <= i < old(self).nodes@.len() ==> (#[trigger] final(self).nodes@[i]).info == old(self).nodes@[i].info && final(self).nodes@[i].result_in == old(self).nodes@[
                    i
                ].result_in && final(self).nodes@[i].result_out == old(self).nodes@[i].result_out,
            forall|i: int|
                0 <= i < old(self).nodes@.len() && i != from ==> (#[trigger] final(self).nodes@[i]).successors == old(self).nodes@[i].successors,
            final(self).cont_table == old(self).cont_table,
            final(self).fun_entry_table == old(self).fun_entry_table,
            final(self).fun_exit_table == old(self).fun_exit_table,
            final(self).worklist == old(self).worklist,
            final(self).direction == old(self).direction,
            final(self).constraint_fun == old(self).constraint_fun,
            final(self).prog_entry == old(self).prog_entry,
            final(self).prog_exit == old(self).prog_exit,
            forall|i: int|
                0 <= i < old(self).nodes@.len() ==> (#[trigger] final(self).nodes@[i]).info
                    == old(self).nodes@[i].info,
            Self::extends_vals(*old(self), *final(self)),
            final(self).graph() == gv_add_edge(old(self).graph(), from, to),
    {
        let node_from = &mut self.nodes[from];
        node_from.successors.push(to);
        let node_to = &mut self.nodes[to];
        node_to.predecessors.push(from);
        proof {
            let go = old(self).graph();
            assert(self.graph().infos =~= go.infos);
            assert(self.graph().succs =~= go.succs.update(
                from as int,
                go.succs[from as int].push(to),
            ));
            assert(self.graph().preds =~= go.preds.update(
                to as int,
                go.preds[to as int].push(from),
            ));
            assert(self.graph() =~= gv_add_edge(go, from, to));
        }
    }

    /// Looks a continuation name up in the table, latest registration
    /// first. Returns an index into the arena exactly when the name is
    /// among the table's keys.
    fn lookup_cont(&self, name: &String) -> (r: Option<usize>)
        requires
            self.wf(),
        ensures
            r is Some <==> cont_keys(self.cont_table@).contains(name@),
            r matches Some(v) ==> v < self.nodes@.len(),
            r == gv_lookup(self.graph().conts, name@),
    {
        let ghost cv = self.graph().conts;
        let mut i: usize = self.cont_table.len();
        proof {
            assert(cv.take(cv.len() as int) =~= cv);
        }
        while i > 0
            invariant
                self.wf(),
                i <= self.cont_table@.len(),
                cv == self.graph().conts,
                cv.len() == self.cont_table@.len(),
                forall|j: int| 0 <= j < cv.len() ==> (#[trigger] cv[j]) == (
                self.cont_table@[j].0@,
                self.cont_table@[j].1,
                ),
                gv_lookup(cv, name@) == gv_lookup(cv.take(i as int), name@),
                forall|j: int| i <= j < self.cont_table@.len() ==> (
                #[trigger] self.cont_table@[j]).0@ != name@,
            decreases i,
        {
            i = i - 1;
            proof {
                assert(cv.take(i as int + 1).drop_last() =~= cv.take(i as int));
                assert(cv.take(i as int + 1).last() == cv[i as int]);
            }
            if self.cont_table[i].0 == *name {
                proof {
                    lemma_cont_keys_iff(self.cont_table@, name@);
                    assert(gv_lookup(cv.take(i as int + 1), name@) == Some(cv[i as int].1));
                }
                return Some(self.cont_table[i].1);
            }
        }
        proof {
            lemma_cont_keys_iff(self.cont_table@, name@);
            assert(cv.take(0) =~= Seq::<(Seq<char>, usize)>::empty());
        }
        None
    }

    /// Adds a fresh `Common` node for one IR node.
    fn new_common_node(&mut self, ir: &IR) -> (r: usize)
        requires
            old(self).wf(),
        ensures
            final(self).wf(),
            r == old(self).nodes@.len(),
            final(self).nodes@.len() == old(self).nodes@.len() + 1,
            final(self).cont_table == old(self).cont_table,
            final(self).direction == old(self).direction,
            final(self).constraint_fun == old(self).constraint_fun,
            final(self).prog_entry == old(self).prog_entry,
            final(self).prog_exit == old(self).prog_exit,
            forall|i: int|
                0 <= i < old(self).nodes@.len() ==> (#[trigger] final(self).nodes@[i]).info
                    == old(self).nodes@[i].info,
            Self::extends_vals(*old(self), *final(self)),
            final(self).graph() == gv_new_node(
                old(self).graph(),
                NodeInfoV::CommonV(ir.label_of() as nat, view_ir(*ir)),
            ).1,
            r == gv_new_node(
                old(self).graph(),
                NodeInfoV::CommonV(ir.label_of() as nat, view_ir(*ir)),
            ).0,
    {
        let fresh = Node::from(ir);
        proof {
            assert(view_info(fresh.info) == NodeInfoV::CommonV(
                ir.label_of() as nat,
                view_ir(*ir),
            ));
        }
        self.new_node(fresh)
    }

    /// Builds the isolated subgraph of a lambda atom: a fresh entry/exit
    /// pair keyed by the lambda's label, with the body threaded to that
    /// exit. Every other atom contributes nothing.
    fn construct_atom(&mut self, a: &Atom) -> (r: Result<(), CfgError>)
        requires
            old(self).wf(),
        ensures
            final(self).wf(),
            old(self).nodes@.len() <= final(self).nodes@.len(),
            r is Ok <==> ok_atom(*a, cont_keys(old(self).cont_table@)),
            r is Ok ==> cont_keys(final(self).cont_table@) == scope_atom(
                *a,
                cont_keys(old(self).cont_table@),
            ),
            r is Ok ==> final(self).graph() == build_atom_v(old(self).graph(), *a),
            forall|i: int|
                0 <= i < old(self).nodes@.len() ==> (#[trigger] final(self).nodes@[i]).info
                    == old(self).nodes@[i].info,
            Self::extends_vals(*old(self), *final(self)),
            Self::same_config(*old(self), *final(self)),
            final(self).prog_entry == old(self).prog_entry,
            final(self).prog_exit == old(self).prog_exit,
        decreases nsize_atom(*a), 0int,
    {
        let ghost gg0 = self.graph();
        match a {
            Atom::Lam(label, _args, body) => {
                let fun_entry_node = self.new_node(Node::new(NodeInfo::FunEntry(*label)));
                let fun_exit_node = self.new_node(Node::new(NodeInfo::FunExit(*label)));
                let ghost gg2 = self.graph();
                self.fun_entry_table.push((*label, fun_entry_node));
                self.fun_exit_table.push((*label, fun_exit_node));
                proof {
                    assert(self.graph().fun_entries =~= gg2.fun_entries.push(
                        (*label as nat, fun_entry_node),
                    ));
                    assert(self.graph().fun_exits =~= gg2.fun_exits.push(
                        (*label as nat, fun_exit_node),
                    ));
                    assert(self.graph() =~= gv_push_fun(
                        gg2,
                        *label as nat,
                        fun_entry_node,
                        fun_exit_node,
                    ));
                }
                let fresh = Node::from(body);
                proof {
                    assert(view_info(fresh.info) == NodeInfoV::CommonV(
                        body.label_of() as nat,
                        view_ir(**body),
                    ));
                }
                let body_node = self.new_node(fresh);
                self.add_edge(fun_entry_node, body_node);
                let r = self.construct_intra_inner(body, body_node, fun_exit_node);
                proof {
                    if r is Ok {
                        let s1 = gv_new_node(gg0, NodeInfoV::FunEntryV(*label as nat));
                        let s2 = gv_new_node(s1.1, NodeInfoV::FunExitV(*label as nat));
                        let s3 = gv_push_fun(s2.1, *label as nat, s1.0, s2.0);
                        let s4 = gv_new_node(
                            s3,
                            NodeInfoV::CommonV(body.label_of() as nat, view_ir(**body)),
                        );
                        let s5 = gv_add_edge(s4.1, s1.0, s4.0);
                        assert(view_info(NodeInfo::FunEntry(*label)) == NodeInfoV::FunEntryV(
                            *label as nat,
                        ));
                        assert(view_info(NodeInfo::FunExit(*label)) == NodeInfoV::FunExitV(
                            *label as nat,
                        ));
                        assert(fun_entry_node == s1.0);
                        assert(fun_exit_node == s2.0);
                        assert(gg2 == s2.1);
                        assert(s4.0 == body_node);
                        assert(self.graph() == build_inner_v(s5, **body, body_node, fun_exit_node));
                        assert(build_atom_v(gg0, *a) == build_inner_v(s5, **body, s4.0, s2.0));
                        assert(self.graph() == build_atom_v(gg0, *a));
                    }
                }
                r
            },
            _ => {
                proof {
                    match *a {
                        Atom::Var(_) => assert(build_atom_v(gg0, *a) == gg0),
                        Atom::I32(_) => assert(build_atom_v(gg0, *a) == gg0),
                        Atom::I64(_) => assert(build_atom_v(gg0, *a) == gg0),
                        Atom::U32(_) => assert(build_atom_v(gg0, *a) == gg0),
                        Atom::U64(_) => assert(build_atom_v(gg0, *a) == gg0),
                        Atom::Bool(_) => assert(build_atom_v(gg0, *a) == gg0),
                        Atom::Char(_) => assert(build_atom_v(gg0, *a) == gg0),
                        Atom::StringLiteral(_) => assert(build_atom_v(gg0, *a) == gg0),
                        Atom::Lam(_, _, _) => {},
                    }
                }
                Ok(())
            },
        }
    }

    /// Builds the subgraphs of a list of atoms, in order.
    fn construct_atoms(&mut self, args: &Vec<Atom>) -> (r: Result<(), CfgError>)
        requires
            old(self).wf(),
        ensures
            final(self).wf(),
            old(self).nodes@.len() <= final(self).nodes@.len(),
            r is Ok <==> ok_atoms(args@, cont_keys(old(self).cont_table@)),
            r is Ok ==> cont_keys(final(self).cont_table@) == scope_atoms(
                args@,
                cont_keys(old(self).cont_table@),
            ),
            r is Ok ==> final(self).graph() == build_atoms_v(old(self).graph(), args@),
            forall|i: int|
                0 <= i < old(self).nodes@.len() ==> (#[trigger] final(self).nodes@[i]).info
                    == old(self).nodes@[i].info,
            Self::extends_vals(*old(self), *final(self)),
            Self::same_config(*old(self), *final(self)),
            final(self).prog_entry == old(self).prog_entry,
            final(self).prog_exit == old(self).prog_exit,
        decreases nsize_atoms(args@), 1int,
    {
        let ghost s0 = cont_keys(old(self).cont_table@);
        let ghost gg0 = self.graph();
        let mut i: usize = 0;
        proof {
            assert(args@.take(0) =~= Seq::<Atom>::empty());
        }
        while i < args.len()
            invariant
                self.wf(),
                i <= args@.len(),
                s0 == cont_keys(old(self).cont_table@),
                gg0 == old(self).graph(),
                self.graph() == build_atoms_v(gg0, args@.take(i as int)),
                ok_atoms(args@.take(i as int), s0),
                cont_keys(self.cont_table@) == scope_atoms(args@.take(i as int), s0),
                old(self).nodes@.len() <= self.nodes@.len(),
                forall|k: int|
                    0 <= k < old(self).nodes@.len() ==> (#[trigger] self.nodes@[k]).info == old(
                        self,
                    ).nodes@[k].info,
                Self::extends_vals(*old(self), *self),
                Self::same_config(*old(self), *self),
                self.prog_entry == old(self).prog_entry,
                self.prog_exit == old(self).prog_exit,
            decreases args@.len() - i,
        {
            let ghost pre = *self;
            proof {
                lemma_nsize_atoms_elem(args@, i as int);
            }
            let res = self.construct_atom(&args[i]);
            proof {
                lemma_ok_atoms_snoc(args@, s0, i as int);
                lemma_scope_atoms_snoc(args@, s0, i as int);
                if res is Ok {
                    lemma_build_atoms_snoc(gg0, args@, i as int);
                }
            }
            match res {
                Err(e) => {
                    proof {
                        assert(cont_keys(pre.cont_table@) == scope_atoms(
                            args@.take(i as int),
                            s0,
                        ));
                        assert(!ok_atom(args@[i as int], scope_atoms(args@.take(i as int), s0)));
                        if ok_atoms(args@, s0) {
                            lemma_ok_atoms_mid(args@, s0, i as int);
                            assert(false);
                        }
                        assert(!ok_atoms(args@, s0));
                    }
                    return Err(e);
                },
                Ok(()) => {},
            }
            i = i + 1;
        }
        proof {
            assert(args@.take(args@.len() as int) =~= args@);
        }
        Ok(())
    }

    /// Allocates one global entry/exit pair, then builds the whole graph.
    /// Succeeds exactly when every named continuation reference in the
    /// tree resolves to a continuation in scope at its position, and the
    /// built graph — every node, every edge, the tables and the entry and
    /// exit — is exactly `build_intra_v` of the tree.
    pub fn construct_intra(&mut self, ir: &IR) -> (r: Result<(), CfgError>)
        requires
            old(self).wf(),
        ensures
            final(self).wf(),
            r is Ok <==> ok_ir(*ir, cont_keys(old(self).cont_table@)),
            forall|i: int|
                0 <= i < old(self).nodes@.len() ==> (#[trigger] final(self).nodes@[i]).info
                    == old(self).nodes@[i].info,
            Self::extends_vals(*old(self), *final(self)),
            Self::same_config(*old(self), *final(self)),
            final(self).prog_entry < final(self).nodes@.len(),
            final(self).prog_exit < final(self).nodes@.len(),
            final(self).nodes@[final(self).prog_entry as int].info matches NodeInfo::ProgramEntry,
            final(self).nodes@[final(self).prog_exit as int].info matches NodeInfo::ProgramExit,
            r is Ok ==> final(self).graph() == build_intra_v(old(self).graph(), *ir),
    {
        let ghost gg0 = self.graph();
        let prog_entry = self.new_node(Node::new(NodeInfo::ProgramEntry));
        let prog_exit = self.new_node(Node::new(NodeInfo::ProgramExit));
        let ghost g2 = self.graph();
        self.prog_entry = prog_entry;
        self.prog_exit = prog_exit;
        proof {
            assert(self.graph() =~= GraphV {
                infos: g2.infos,
                succs: g2.succs,
                preds: g2.preds,
                conts: g2.conts,
                fun_entries: g2.fun_entries,
                fun_exits: g2.fun_exits,
                entry: prog_entry,
                exit: prog_exit,
            });
        }
        let start_node = self.new_common_node(ir);
        self.add_edge(prog_entry, start_node);
        let r = self.construct_intra_inner(ir, start_node, prog_exit);
        proof {
            if r is Ok {
                assert(self.graph() == build_intra_v(gg0, *ir));
            }
        }
        r
    }

    /// The recursive walk: builds the subgraph of one IR node, threading
    /// edges to the enclosing exit, registering continuations, and
    /// resolving every named reference.
    fn construct_intra_inner(&mut self, ir: &IR, node: usize, exit: usize) -> (r: Result<
        (),
        CfgError,
    >)
        requires
            old(self).wf(),
            node < old(self).nodes@.len(),
            exit < old(self).nodes@.len(),
        ensures
            final(self).wf(),
            old(self).nodes@.len() <= final(self).nodes@.len(),
            r is Ok <==> ok_ir(*ir, cont_keys(old(self).cont_table@)),
            r is Ok ==> cont_keys(final(self).cont_table@) == scope_ir(
                *ir,
                cont_keys(old(self).cont_table@),
            ),
            r is Ok ==> final(self).graph() == build_inner_v(old(self).graph(), *ir, node, exit),
            forall|i: int|
                0 <= i < old(self).nodes@.len() ==> (#[trigger] final(self).nodes@[i]).info
                    == old(self).nodes@[i].info,
            Self::extends_vals(*old(self), *final(self)),
            Self::same_config(*old(self), *final(self)),
            final(self).prog_entry == old(self).prog_entry,
            final(self).prog_exit == old(self).prog_exit,
        decreases nsize_ir(*ir), 2int,
    {
        let ghost gg0 = self.graph();
        match ir {
            IR::App(_label, f, args, cont) => {
                match self.construct_atom(f) {
                    Err(e) => {
                        return Err(e);
                    },
                    Ok(()) => {},
                }
                match self.construct_atoms(args) {
                    Err(e) => {
                        return Err(e);
                    },
                    Ok(()) => {},
                }
                let ghost g1 = self.graph();
                proof {
                    assert(g1 == build_atoms_v(build_atom_v(gg0, *f), args@));
                }
                match cont {
                    Cont::Named(s) => {
                        match self.lookup_cont(s) {
                            Some(cont_node) => {
                                self.add_edge(node, cont_node);
                                proof {
                                    assert(gv_lookup(g1.conts, s@) == Some(cont_node));
                                    assert(self.graph() == build_inner_v(gg0, *ir, node, exit));
                                }
                                Ok(())
                            },
                            None => Err(CfgError::UnresolvedCont(s.clone())),
                        }
                    },
                    Cont::Return => {
                        self.add_edge(node, exit);
                        proof {
                            assert(self.graph() == build_inner_v(gg0, *ir, node, exit));
                        }
                        Ok(())
                    },
                }
            },
            IR::AppCont(_label, cont, args) => {
                match self.construct_atoms(args) {
                    Err(e) => {
                        return Err(e);
                    },
                    Ok(()) => {},
                }
                let ghost g1 = self.graph();
                proof {
                    assert(g1 == build_atoms_v(gg0, args@));
                }
                match cont {
                    Cont::Named(s) => {
                        match self.lookup_cont(s) {
                            Some(cont_node) => {
                                self.add_edge(node, cont_node);
                                proof {
                                    assert(gv_lookup(g1.conts, s@) == Some(cont_node));
                                    assert(self.graph() == build_inner_v(gg0, *ir, node, exit));
                                }
                                Ok(())
                            },
                            None => Err(CfgError::UnresolvedCont(s.clone())),
                        }
                    },
                    Cont::Return => {
                        self.add_edge(node, exit);
                        proof {
                            assert(self.graph() == build_inner_v(gg0, *ir, node, exit));
                        }
                        Ok(())
                    },
                }
            },
            IR::Fix(_label, _vars, vals, body) => {
                match self.construct_atoms(vals) {
                    Err(e) => {
                        return Err(e);
                    },
                    Ok(()) => {},
                }
                let body_node = self.new_common_node(body);
                self.add_edge(node, body_node);
                let r = self.construct_intra_inner(body, body_node, exit);
                proof {
                    if r is Ok {
                        assert(self.graph() == build_inner_v(gg0, *ir, node, exit));
                    }
                }
                r
            },
            IR::If(_label, test, then_, else_) => {
                match self.construct_atom(test) {
                    Err(e) => {
                        return Err(e);
                    },
                    Ok(()) => {},
                }
                let then_node = self.new_common_node(then_);
                let else_node = self.new_common_node(else_);
                self.add_edge(node, then_node);
                self.add_edge(node, else_node);
                match self.construct_intra_inner(then_, then_node, exit) {
                    Err(e) => {
                        return Err(e);
                    },
                    Ok(()) => {},
                }
                let r = self.construct_intra_inner(else_, else_node, exit);
                proof {
                    if r is Ok {
                        assert(self.graph() == build_inner_v(gg0, *ir, node, exit));
                    }
                }
                r
            },
            IR::Let(_label, _var, _op, args, body) => {
                match self.construct_atoms(args) {
                    Err(e) => {
                        return Err(e);
                    },
                    Ok(()) => {},
                }
                let body_node = self.new_common_node(body);
                self.add_edge(node, body_node);
                let r = self.construct_intra_inner(body, body_node, exit);
                proof {
                    if r is Ok {
                        assert(self.graph() == build_inner_v(gg0, *ir, node, exit));
                    }
                }
                r
            },
            IR::LetVal(_label, _var, atm, body) => {
                match self.construct_atom(atm) {
                    Err(e) => {
                        return Err(e);
                    },
                    Ok(()) => {},
                }
                let body_node = self.new_common_node(body);
                self.add_edge(node, body_node);
                let r = self.construct_intra_inner(body, body_node, exit);
                proof {
                    if r is Ok {
                        assert(self.graph() == build_inner_v(gg0, *ir, node, exit));
                    }
                }
                r
            },
            IR::LetCont(_label, cont_name, _args, cont_body, body) => {
                let body_node = self.new_common_node(body);
                self.add_edge(node, body_node);
                let cont_body_node = self.new_common_node(cont_body);
                let ghost g3 = self.graph();
                self.cont_table.push((cont_name.clone(), cont_body_node));
                proof {
                    lemma_cont_keys_push(
                        old(self).cont_table@,
                        *cont_name,
                        cont_body_node,
                    );
                    assert(self.cont_table@ =~= old(self).cont_table@.push(
                        (*cont_name, cont_body_node),
                    ));
                    assert(self.graph().conts =~= g3.conts.push((cont_name@, cont_body_node)));
                    assert(self.graph() =~= gv_push_cont(g3, cont_name@, cont_body_node));
                }
                match self.construct_intra_inner(body, body_node, exit) {
                    Err(e) => {
                        return Err(e);
                    },
                    Ok(()) => {},
                }
                let r = self.construct_intra_inner(cont_body, cont_body_node, exit);
                proof {
                    if r is Ok {
                        assert(self.graph() == build_inner_v(gg0, *ir, node, exit));
                    }
                }
                r
            },
        }
    }
}

/// Inside a well-scoped list of atoms, the atom at any position is well
/// scoped in the scope current there.
pub proof fn lemma_ok_atoms_mid(v: Seq<Atom>, s: Set<Seq<char>>, i: int)
    requires
        ok_atoms(v, s),
        0 <= i < v.len(),
    ensures
        ok_atom(v[i], scope_atoms(v.take(i), s)),
    decreases i,
{
    if i == 0 {
        assert(v.take(0) =~= Seq::<Atom>::empty());
        assert(scope_atoms(v.take(0), s) == s);
    } else {
        lemma_ok_atoms_mid(v.drop_first(), scope_atom(v[0], s), i - 1);
        assert(v.drop_first()[i - 1] == v[i]);
        assert(v.drop_first().take(i - 1) =~= v.take(i).drop_first());
        assert(v.take(i)[0] == v[0]);
        assert(scope_atoms(v.take(i), s) == scope_atoms(v.drop_first().take(i - 1), scope_atom(
            v[0],
            s,
        )));
    }
}

} // verus!
