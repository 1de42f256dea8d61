//! The worklist fixpoint solver. Every node starts from bottom; nodes are
//! reprocessed until no out-value changes any downstream in-value. The
//! loop carries a proved termination measure — the total rank of all
//! stored values, which strictly shrinks at every store — and ends in a
//! proved solution of the dataflow equations: every out equals the
//! transfer of its in, and every in equals the join of its initial value
//! with the outs of all its upstream nodes.

use vstd::prelude::*;
use crate::cfg::{Lattice, NodeInfo, Node, NodePool, Transfer, leq_m};
use crate::ir::view_ir;

verus! {

/// Some entry of the worklist is this node.
pub open spec fn wl_has(w: Seq<usize>, i: int) -> bool {
    exists|k: int| 0 <= k < w.len() && (#[trigger] w[k]) == i
}

impl<L: Lattice, T: Transfer<L>> NodePool<L, T> {
    /// Number of nodes.
    pub open spec fn n(self) -> int {
        self.nodes@.len() as int
    }

    /// The model of the in-value of one node.
    pub open spec fn in_m(self, i: int) -> L::M {
        self.nodes@[i].result_in.model()
    }

    /// The model of the out-value of one node.
    pub open spec fn out_m(self, i: int) -> L::M {
        self.nodes@[i].result_out.model()
    }

    /// What one node does to an incoming model: an ordinary node applies
    /// the transfer function, entry and exit nodes pass the value through.
    pub open spec fn step_m(self, i: int, m: L::M) -> L::M {
        match self.nodes@[i].info {
            NodeInfo::Common(label, ir) => self.constraint_fun.transfer_m(label, view_ir(ir), m),
            _ => m,
        }
    }

    /// The neighbours that receive a node's out-value: successors for a
    /// forward analysis, predecessors for a backward one.
    pub open spec fn downstream(self, u: int) -> Seq<usize> {
        if self.direction {
            self.nodes@[u].successors@
        } else {
            self.nodes@[u].predecessors@
        }
    }

    /// Every node off the worklist has its out equal to the transfer of
    /// its in.
    pub open spec fn outs_done(self) -> bool {
        forall|i: int|
            0 <= i < self.n() && !wl_has(self.worklist@, i) ==> (#[trigger] self.out_m(i))
                == self.step_m(i, self.in_m(i))
    }

    /// Every stored out lies below the transfer of the current in.
    pub open spec fn outs_below(self) -> bool {
        forall|i: int|
            0 <= i < self.n() ==> leq_m::<L>(#[trigger] self.out_m(i), self.step_m(i, self.in_m(i)))
    }

    /// Every downstream in-value has absorbed its upstream out-value,
    /// except possibly below an out that is still bottom.
    pub open spec fn ins_absorbed(self) -> bool {
        forall|u: int, j: int|
            0 <= u < self.n() && 0 <= j < self.downstream(u).len() ==> L::join_m(
                self.in_m((#[trigger] self.downstream(u)[j]) as int),
                self.out_m(u),
            ) == self.in_m(self.downstream(u)[j] as int) || self.out_m(u) == L::bottom_m()
    }

    /// Some edge carries `u`'s out-value to `v`.
    pub open spec fn has_edge(self, u: int, v: int) -> bool {
        exists|j: int| 0 <= j < self.downstream(u).len() && (#[trigger] self.downstream(u)[j])
            as int == v
    }

    /// The join of an initial value with the out-values of the first `k`
    /// nodes that have an edge to `v`: what `v`'s in-value must be at the
    /// least solution.
    pub open spec fn up_to(self, init: L::M, v: int, k: int) -> L::M
        decreases k,
    {
        if k <= 0 {
            init
        } else {
            let prev = self.up_to(init, v, k - 1);
            if self.has_edge(k - 1, v) {
                L::join_m(prev, self.out_m(k - 1))
            } else {
                prev
            }
        }
    }

    /// A fixpoint of the analysis: every out is the transfer of its in,
    /// and joining any out into any of its downstream ins changes nothing.
    pub open spec fn at_fixpoint(self) -> bool {
        &&& (forall|i: int| 0 <= i < self.n() ==> self.out_m(i) == self.step_m(i, self.in_m(i)))
        &&& (forall|u: int, j: int|
            0 <= u < self.n() && 0 <= j < self.downstream(u).len() ==> L::join_m(
                self.in_m((#[trigger] self.downstream(u)[j]) as int),
                self.out_m(u),
            ) == self.in_m(self.downstream(u)[j] as int))
    }

    /// Graph shape and configuration equal; only stored values and the
    /// worklist may differ.
    pub open spec fn same_shape(a: Self, b: Self) -> bool {
        &&& b.nodes@.len() == a.nodes@.len()
        &&& (forall|i: int|
            0 <= i < a.nodes@.len() ==> (#[trigger] b.nodes@[i]).info == a.nodes@[i].info
                && b.nodes@[i].successors == a.nodes@[i].successors && b.nodes@[i].predecessors
                == a.nodes@[i].predecessors)
        &&& b.direction == a.direction
        &&& b.constraint_fun == a.constraint_fun
        &&& b.cont_table == a.cont_table
        &&& b.fun_entry_table == a.fun_entry_table
        &&& b.fun_exit_table == a.fun_exit_table
        &&& b.prog_entry == a.prog_entry
        &&& b.prog_exit == a.prog_exit
    }
}

/// Total rank of the stored values of the first `k` nodes.
pub open spec fn sum_ranks_to<L: Lattice>(s: Seq<Node<L>>, k: int) -> nat
    decreases k,
{
    if k <= 0 {
        0
    } else {
        sum_ranks_to::<L>(s, k - 1) + L::rank_m(s[k - 1].result_in.model()) + L::rank_m(
            s[k - 1].result_out.model(),
        )
    }
}

/// Pointwise rank bounds give a bound on the sum.
proof fn lemma_sum_ranks_le<L: Lattice>(s1: Seq<Node<L>>, s2: Seq<Node<L>>, k: int)
    requires
        forall|j: int|
            0 <= j < k ==> L::rank_m((#[trigger] s2[j]).result_in.model()) <= L::rank_m(
                s1[j].result_in.model(),
            ) && L::rank_m(s2[j].result_out.model()) <= L::rank_m(s1[j].result_out.model()),
    ensures
        sum_ranks_to::<L>(s2, k) <= sum_ranks_to::<L>(s1, k),
    decreases k,
{
    if k > 0 {
        lemma_sum_ranks_le::<L>(s1, s2, k - 1);
    }
}

/// A strict rank decrease at one node gives a strict decrease of the sum.
proof fn lemma_sum_ranks_lt<L: Lattice>(s1: Seq<Node<L>>, s2: Seq<Node<L>>, k: int, i: int)
    requires
        forall|j: int|
            0 <= j < k ==> L::rank_m((#[trigger] s2[j]).result_in.model()) <= L::rank_m(
                s1[j].result_in.model(),
            ) && L::rank_m(s2[j].result_out.model()) <= L::rank_m(s1[j].result_out.model()),
        0 <= i < k,
        L::rank_m(s2[i].result_in.model()) + L::rank_m(s2[i].result_out.model()) < L::rank_m(
            s1[i].result_in.model(),
        ) + L::rank_m(s1[i].result_out.model()),
    ensures
        sum_ranks_to::<L>(s2, k) < sum_ranks_to::<L>(s1, k),
    decreases k,
{
    if i == k - 1 {
        lemma_sum_ranks_le::<L>(s1, s2, k - 1);
    } else {
        lemma_sum_ranks_lt::<L>(s1, s2, k - 1, i);
    }
}

/// Growing the in-value keeps an absorbed out absorbed: if `iv` has
/// absorbed `ou`, so has `join(iv, x)` for any `x`.
proof fn lemma_absorb_grow<L: Lattice>(iv: L::M, ou: L::M, x: L::M)
    requires
        L::join_m(iv, ou) == iv,
    ensures
        L::join_m(L::join_m(iv, x), ou) == L::join_m(iv, x),
{
    L::join_assoc(iv, x, ou);
    L::join_comm(x, ou);
    L::join_assoc(iv, ou, x);
}

/// Joining a value in absorbs it.
proof fn lemma_absorb_join<L: Lattice>(iv: L::M, ou: L::M)
    ensures
        L::join_m(L::join_m(iv, ou), ou) == L::join_m(iv, ou),
{
    L::join_assoc(iv, ou, ou);
    L::join_idem(ou);
}

/// A join is above its left argument.
proof fn lemma_leq_join<L: Lattice>(iv: L::M, x: L::M)
    ensures
        leq_m::<L>(iv, L::join_m(iv, x)),
{
    L::join_assoc(iv, iv, x);
    L::join_idem(iv);
}

/// The join of two values below a bound stays below it.
proof fn lemma_leq_lub<L: Lattice>(x: L::M, y: L::M, z: L::M)
    requires
        leq_m::<L>(x, z),
        leq_m::<L>(y, z),
    ensures
        leq_m::<L>(L::join_m(x, y), z),
{
    L::join_assoc(x, y, z);
}

/// The order is reflexive.
proof fn lemma_leq_refl<L: Lattice>(x: L::M)
    ensures
        leq_m::<L>(x, x),
{
    L::join_idem(x);
}

/// Two values below each other are equal.
proof fn lemma_leq_antisym<L: Lattice>(x: L::M, y: L::M)
    requires
        leq_m::<L>(x, y),
        leq_m::<L>(y, x),
    ensures
        x == y,
{
    L::join_comm(x, y);
}

/// A join is above its right argument.
proof fn lemma_leq_join_right<L: Lattice>(x: L::M, y: L::M)
    ensures
        leq_m::<L>(y, L::join_m(x, y)),
{
    L::join_comm(x, y);
    lemma_leq_join::<L>(y, x);
}

/// Transitivity of the induced order.
proof fn lemma_leq_trans<L: Lattice>(a: L::M, b: L::M, c: L::M)
    requires
        leq_m::<L>(a, b),
        leq_m::<L>(b, c),
    ensures
        leq_m::<L>(a, c),
{
    L::join_assoc(a, b, c);
}

/// Join is monotone in both arguments.
proof fn lemma_join_mono<L: Lattice>(x: L::M, x2: L::M, y: L::M, y2: L::M)
    requires
        leq_m::<L>(x, x2),
        leq_m::<L>(y, y2),
    ensures
        leq_m::<L>(L::join_m(x, y), L::join_m(x2, y2)),
{
    lemma_leq_join::<L>(x2, y2);
    lemma_leq_join_right::<L>(x2, y2);
    lemma_leq_trans::<L>(x, x2, L::join_m(x2, y2));
    lemma_leq_trans::<L>(y, y2, L::join_m(x2, y2));
    lemma_leq_lub::<L>(x, y, L::join_m(x2, y2));
}

/// Below and different means strictly smaller in rank.
proof fn lemma_rank_leq_strict<L: Lattice>(a: L::M, b: L::M)
    requires
        L::wf_m(a),
        L::wf_m(b),
        leq_m::<L>(a, b),
        a != b,
    ensures
        L::rank_m(b) < L::rank_m(a),
{
    L::rank_join(a, b);
}

impl<L: Lattice, T: Transfer<L>> NodePool<L, T> {
    /// The initial value lies below the upstream join.
    proof fn lemma_up_to_init(self, init: L::M, v: int, k: int)
        ensures
            leq_m::<L>(init, self.up_to(init, v, k)),
        decreases k,
    {
        if k <= 0 {
            lemma_leq_refl::<L>(init);
        } else {
            self.lemma_up_to_init(init, v, k - 1);
            if self.has_edge(k - 1, v) {
                lemma_leq_join::<L>(self.up_to(init, v, k - 1), self.out_m(k - 1));
                lemma_leq_trans::<L>(
                    init,
                    self.up_to(init, v, k - 1),
                    self.up_to(init, v, k),
                );
            }
        }
    }

    /// Each upstream out-value lies below the upstream join.
    proof fn lemma_up_to_component(self, init: L::M, v: int, k: int, u: int)
        requires
            0 <= u < k,
            self.has_edge(u, v),
        ensures
            leq_m::<L>(self.out_m(u), self.up_to(init, v, k)),
        decreases k,
    {
        if u == k - 1 {
            lemma_leq_join_right::<L>(self.up_to(init, v, k - 1), self.out_m(u));
        } else {
            self.lemma_up_to_component(init, v, k - 1, u);
            if self.has_edge(k - 1, v) {
                lemma_leq_join::<L>(self.up_to(init, v, k - 1), self.out_m(k - 1));
                lemma_leq_trans::<L>(
                    self.out_m(u),
                    self.up_to(init, v, k - 1),
                    self.up_to(init, v, k),
                );
            }
        }
    }

    /// Growing the out-values grows the upstream join.
    proof fn lemma_up_to_mono(self, later: Self, init: L::M, v: int, k: int)
        requires
            forall|u: int| 0 <= u < k ==> later.downstream(u) == self.downstream(u),
            forall|u: int| 0 <= u < k ==> leq_m::<L>(#[trigger] self.out_m(u), later.out_m(u)),
        ensures
            leq_m::<L>(self.up_to(init, v, k), later.up_to(init, v, k)),
        decreases k,
    {
        if k <= 0 {
            lemma_leq_refl::<L>(init);
        } else {
            self.lemma_up_to_mono(later, init, v, k - 1);
            if self.has_edge(k - 1, v) {
                assert(later.has_edge(k - 1, v)) by {
                    let j = choose|j: int|
                        0 <= j < self.downstream(k - 1).len() && (#[trigger] self.downstream(
                            k - 1,
                        )[j]) as int == v;
                    assert(later.downstream(k - 1)[j] as int == v);
                }
                lemma_join_mono::<L>(
                    self.up_to(init, v, k - 1),
                    later.up_to(init, v, k - 1),
                    self.out_m(k - 1),
                    later.out_m(k - 1),
                );
            } else {
                assert(!later.has_edge(k - 1, v)) by {
                    if later.has_edge(k - 1, v) {
                        let j = choose|j: int|
                            0 <= j < later.downstream(k - 1).len() && (#[trigger] later.downstream(
                                k - 1,
                            )[j]) as int == v;
                        assert(self.downstream(k - 1)[j] as int == v);
                    }
                }
            }
        }
    }

    /// A bound above the initial value and above every upstream out-value
    /// is above the upstream join.
    proof fn lemma_up_to_below(self, init: L::M, v: int, k: int, t: L::M)
        requires
            leq_m::<L>(init, t),
            forall|u: int| 0 <= u < k && self.has_edge(u, v) ==> leq_m::<L>(
                #[trigger] self.out_m(u),
                t,
            ),
        ensures
            leq_m::<L>(self.up_to(init, v, k), t),
        decreases k,
    {
        if k > 0 {
            self.lemma_up_to_below(init, v, k - 1, t);
            if self.has_edge(k - 1, v) {
                lemma_leq_lub::<L>(self.up_to(init, v, k - 1), self.out_m(k - 1), t);
            }
        }
    }

    /// The upstream join reads only edges and out-values.
    proof fn lemma_up_to_frame(self, later: Self, init: L::M, v: int, k: int)
        requires
            forall|u: int| 0 <= u < k ==> later.downstream(u) == self.downstream(u),
            forall|u: int| 0 <= u < k ==> (#[trigger] later.out_m(u)) == self.out_m(u),
        ensures
            later.up_to(init, v, k) == self.up_to(init, v, k),
        decreases k,
    {
        if k > 0 {
            self.lemma_up_to_frame(later, init, v, k - 1);
            if self.has_edge(k - 1, v) {
                assert(later.has_edge(k - 1, v)) by {
                    let j = choose|j: int|
                        0 <= j < self.downstream(k - 1).len() && (#[trigger] self.downstream(
                            k - 1,
                        )[j]) as int == v;
                    assert(later.downstream(k - 1)[j] as int == v);
                }
            } else {
                assert(!later.has_edge(k - 1, v)) by {
                    if later.has_edge(k - 1, v) {
                        let j = choose|j: int|
                            0 <= j < later.downstream(k - 1).len() && (#[trigger] later.downstream(
                                k - 1,
                            )[j]) as int == v;
                        assert(self.downstream(k - 1)[j] as int == v);
                    }
                }
            }
        }
    }

    /// Runs the worklist algorithm to a fixpoint. Every node is seeded;
    /// popping a node recomputes its out-value; a changed out-value is
    /// joined into every downstream in-value, and nodes whose in-value
    /// changed are reprocessed. The loop terminates because every store
    /// strictly shrinks the total rank of the stored values, and it ends
    /// in a fixpoint of the analysis in which every in-value is exactly
    /// the join of its initial value with its upstream out-values — the
    /// solution the equations force, nothing larger.
    pub fn run_worklist(&mut self)
        requires
            old(self).wf(),
            forall|i: int| 0 <= i < old(self).n() ==> old(self).out_m(i) == L::bottom_m(),
        ensures
            final(self).wf(),
            Self::same_shape(*old(self), *final(self)),
            final(self).at_fixpoint(),
            final(self).worklist@.len() == 0,
            forall|v: int|
                0 <= v < final(self).n() ==> (#[trigger] final(self).in_m(v)) == final(self).up_to(old(self).in_m(v), v, final(self).n()),
    {
        let ghost orig = *self;
        let n = self.nodes.len();
        let mut seed: Vec<usize> = Vec::new();
        let mut k: usize = 0;
        while k < n
            invariant
                k <= n,
                seed@.len() == k,
                forall|j: int| 0 <= j < k ==> (#[trigger] seed@[j]) == j,
            decreases n - k,
        {
            seed.push(k);
            k = k + 1;
        }
        self.worklist = seed;
        proof {
            assert forall|i: int| 0 <= i < self.n() implies wl_has(self.worklist@, i) by {
                assert(self.worklist@[i] == i);
            }
            assert forall|i: int| 0 <= i < self.n() implies leq_m::<L>(
                #[trigger] self.out_m(i),
                self.step_m(i, self.in_m(i)),
            ) by {
                assert(old(self).out_m(i) == L::bottom_m());
                L::join_bottom(self.step_m(i, self.in_m(i)));
            }
            assert(self.outs_below());
            assert(self.outs_done());
            assert forall|u: int, j: int|
                0 <= u < self.n() && 0 <= j < self.downstream(u).len() implies L::join_m(
                self.in_m((#[trigger] self.downstream(u)[j]) as int),
                self.out_m(u),
            ) == self.in_m(self.downstream(u)[j] as int) || self.out_m(u) == L::bottom_m() by {
                assert(old(self).out_m(u) == L::bottom_m());
            }
            assert(self.ins_absorbed());
            assert forall|v: int| 0 <= v < self.n() implies leq_m::<L>(
                orig.in_m(v),
                #[trigger] self.in_m(v),
            ) by {
                assert(self.in_m(v) == orig.in_m(v));
                lemma_leq_refl::<L>(self.in_m(v));
            }
            assert forall|v: int| 0 <= v < self.n() implies leq_m::<L>(
                #[trigger] self.in_m(v),
                self.up_to(orig.in_m(v), v, self.n()),
            ) by {
                self.lemma_up_to_init(orig.in_m(v), v, self.n());
                assert(self.in_m(v) == orig.in_m(v));
            }
        }
        while self.worklist.len() > 0
            invariant
                self.wf(),
                Self::same_shape(orig, *self),
                forall|v: int| 0 <= v < self.n() ==> leq_m::<L>(
                    orig.in_m(v),
                    #[trigger] self.in_m(v),
                ),
                forall|v: int| 0 <= v < self.n() ==> leq_m::<L>(
                    #[trigger] self.in_m(v),
                    self.up_to(orig.in_m(v), v, self.n()),
                ),
                forall|k2: int| 0 <= k2 < self.worklist@.len() ==> (#[trigger] self.worklist@[k2])
                    < self.n(),
                self.outs_done(),
                self.ins_absorbed(),
                self.outs_below(),
            decreases sum_ranks_to::<L>(self.nodes@, self.n()), self.worklist@.len(),
        {
            let ghost iter0 = *self;
            let node_opt = self.worklist.pop();
            let node = match node_opt {
                Some(x) => x,
                None => unreached(),
            };
            let ghost wl0 = iter0.worklist@;
            let ghost wl1 = self.worklist@;
            proof {
                assert(wl0[wl0.len() - 1] == node);
                assert(node < self.n());
                // membership survives the pop for every other node
                assert forall|i: int| !wl_has(wl1, i) && i != node implies !wl_has(wl0, i) by {
                    if wl_has(wl0, i) {
                        let w = choose|w: int| 0 <= w < wl0.len() && (#[trigger] wl0[w]) == i;
                        assert(w == wl0.len() - 1 || wl1[w] == i);
                    }
                }
            }
            let input = self.nodes[node].result_in.dup();
            let result = match &self.nodes[node].info {
                NodeInfo::Common(lab, ir) => self.constraint_fun.transfer(*lab, ir, input),
                _ => input,
            };
            proof {
                assert(result.model() == self.step_m(node as int, self.in_m(node as int)));
                match self.nodes@[node as int].info {
                    NodeInfo::Common(label, ir) => {
                        self.constraint_fun.transfer_wf(label, view_ir(ir), self.in_m(node as int));
                    },
                    _ => {},
                }
                assert(L::wf_m(result.model()));
            }
            let changed = !result.eq_l(&self.nodes[node].result_out);
            if changed {
                let ghost before = *self;
                proof {
                    let ni = node as int;
                    assert(iter0.outs_below());
                    assert(leq_m::<L>(iter0.out_m(ni), iter0.step_m(ni, iter0.in_m(ni))));
                    assert(self.out_m(ni) == iter0.out_m(ni));
                    assert(self.in_m(ni) == iter0.in_m(ni));
                    assert(self.step_m(ni, self.in_m(ni)) == iter0.step_m(ni, iter0.in_m(ni)));
                    assert(leq_m::<L>(self.out_m(ni), result.model()));
                    lemma_rank_leq_strict::<L>(self.out_m(ni), result.model());
                }
                self.nodes[node].result_out = result;
                let ghost mid = *self;
                proof {
                    let ni = node as int;
                    assert forall|j2: int|
                        0 <= j2 < mid.n() implies L::rank_m(
                        (#[trigger] mid.nodes@[j2]).result_in.model(),
                    ) <= L::rank_m(before.nodes@[j2].result_in.model()) && L::rank_m(
                        mid.nodes@[j2].result_out.model(),
                    ) <= L::rank_m(before.nodes@[j2].result_out.model()) by {
                        if j2 == ni {
                            L::rank_join(before.out_m(j2), result.model());
                        }
                    }
                    lemma_sum_ranks_lt::<L>(before.nodes@, mid.nodes@, mid.n(), ni);
                    // out == step(in) at the stored node
                    assert(self.out_m(ni) == result.model());
                    assert(self.in_m(ni) == before.in_m(ni));
                    assert(self.step_m(ni, self.in_m(ni)) == before.step_m(ni, before.in_m(ni)));
                    assert(self.out_m(ni) == self.step_m(ni, self.in_m(ni)));
                    // nodes off the worklist still have out == step(in)
                    assert forall|i: int|
                        0 <= i < self.n() && !wl_has(self.worklist@, i) implies (
                    #[trigger] self.out_m(i)) == self.step_m(i, self.in_m(i)) by {
                        if i != ni {
                            assert(self.worklist@ == wl1);
                            assert(!wl_has(wl0, i));
                            assert(iter0.outs_done());
                            assert(iter0.out_m(i) == iter0.step_m(i, iter0.in_m(i)));
                            assert(self.out_m(i) == iter0.out_m(i));
                            assert(self.in_m(i) == iter0.in_m(i));
                            assert(self.step_m(i, self.in_m(i)) == iter0.step_m(i, iter0.in_m(i)));
                        }
                    }
                    assert(self.outs_done());
                    // every out still lies below its step
                    assert forall|i: int|
                        0 <= i < self.n() implies leq_m::<L>(
                        #[trigger] self.out_m(i),
                        self.step_m(i, self.in_m(i)),
                    ) by {
                        if i == ni {
                            L::join_idem(self.out_m(i));
                        } else {
                            assert(iter0.outs_below());
                            assert(leq_m::<L>(iter0.out_m(i), iter0.step_m(i, iter0.in_m(i))));
                            assert(iter0.out_m(i) == self.out_m(i));
                            assert(self.in_m(i) == iter0.in_m(i));
                            assert(self.step_m(i, self.in_m(i)) == iter0.step_m(i, iter0.in_m(i)));
                        }
                    }
                    assert(self.outs_below());
                    // absorption for other nodes' edges is untouched
                    assert forall|u: int, jj: int|
                        0 <= u < self.n() && u != ni && 0 <= jj < self.downstream(u).len()
                        implies L::join_m(
                        self.in_m((#[trigger] self.downstream(u)[jj]) as int),
                        self.out_m(u),
                    ) == self.in_m(self.downstream(u)[jj] as int) || self.out_m(u)
                        == L::bottom_m() by {
                        assert(iter0.ins_absorbed());
                        assert(iter0.downstream(u)[jj] == self.downstream(u)[jj]);
                        let v = iter0.downstream(u)[jj] as int;
                        assert(L::join_m(iter0.in_m(v), iter0.out_m(u)) == iter0.in_m(v)
                            || iter0.out_m(u) == L::bottom_m());
                        assert(self.in_m(v) == iter0.in_m(v));
                        assert(self.out_m(u) == iter0.out_m(u));
                    }
                    // the initial in-values still lie below, and every in
                    // still lies below the grown upstream join
                    assert forall|v: int| 0 <= v < self.n() implies leq_m::<L>(
                        orig.in_m(v),
                        #[trigger] self.in_m(v),
                    ) by {
                        assert(self.in_m(v) == iter0.in_m(v));
                        assert(leq_m::<L>(orig.in_m(v), iter0.in_m(v)));
                    }
                    assert forall|v: int| 0 <= v < self.n() implies leq_m::<L>(
                        #[trigger] self.in_m(v),
                        self.up_to(orig.in_m(v), v, self.n()),
                    ) by {
                        assert(self.in_m(v) == iter0.in_m(v));
                        assert(leq_m::<L>(iter0.in_m(v), iter0.up_to(orig.in_m(v), v, self.n())));
                        assert forall|u: int| 0 <= u < self.n() implies leq_m::<L>(
                            #[trigger] iter0.out_m(u),
                            self.out_m(u),
                        ) by {
                            if u == ni {
                                assert(leq_m::<L>(iter0.out_m(ni), result.model()));
                            } else {
                                assert(self.out_m(u) == iter0.out_m(u));
                                lemma_leq_refl::<L>(self.out_m(u));
                            }
                        }
                        iter0.lemma_up_to_mono(*self, orig.in_m(v), v, self.n());
                        lemma_leq_trans::<L>(
                            self.in_m(v),
                            iter0.up_to(orig.in_m(v), v, self.n()),
                            self.up_to(orig.in_m(v), v, self.n()),
                        );
                    }
                }
                let ds_len = if self.direction {
                    self.nodes[node].successors.len()
                } else {
                    self.nodes[node].predecessors.len()
                };
                let mut j: usize = 0;
                while j < ds_len
                    invariant
                        self.wf(),
                        Self::same_shape(orig, *self),
                        forall|v: int| 0 <= v < self.n() ==> leq_m::<L>(
                            orig.in_m(v),
                            #[trigger] self.in_m(v),
                        ),
                        forall|v: int| 0 <= v < self.n() ==> leq_m::<L>(
                            #[trigger] self.in_m(v),
                            self.up_to(orig.in_m(v), v, self.n()),
                        ),
                        node < self.n(),
                        ds_len == self.downstream(node as int).len(),
                        j <= ds_len,
                        Self::same_shape(mid, *self),
                        forall|k2: int|
                            0 <= k2 < self.worklist@.len() ==> (#[trigger] self.worklist@[k2])
                                < self.n(),
                        self.outs_done(),
                        self.outs_below(),
                        self.out_m(node as int) == mid.out_m(node as int),
                        forall|u: int, jj: int|
                            0 <= u < self.n() && u != node && 0 <= jj < self.downstream(
                                u,
                            ).len() ==> L::join_m(
                                self.in_m((#[trigger] self.downstream(u)[jj]) as int),
                                self.out_m(u),
                            ) == self.in_m(self.downstream(u)[jj] as int) || self.out_m(u)
                                == L::bottom_m(),
                        forall|jj: int|
                            0 <= jj < j ==> L::join_m(
                                self.in_m((#[trigger] self.downstream(node as int)[jj]) as int),
                                self.out_m(node as int),
                            ) == self.in_m(self.downstream(node as int)[jj] as int),
                        forall|i: int|
                            0 <= i < self.n() ==> L::rank_m(#[trigger] self.in_m(i)) <= L::rank_m(
                                mid.in_m(i),
                            ) && self.out_m(i) == mid.out_m(i),
                    decreases ds_len - j,
                {
                    let ghost inner0 = *self;
                    let succ = if self.direction {
                        self.nodes[node].successors[j]
                    } else {
                        self.nodes[node].predecessors[j]
                    };
                    let joined = L::join(&self.nodes[succ].result_in, &self.nodes[node].result_out);
                    proof {
                        L::join_wf(self.in_m(succ as int), self.out_m(node as int));
                    }
                    let same = joined.eq_l(&self.nodes[succ].result_in);
                    if !same {
                        self.nodes[succ].result_in = joined;
                        self.worklist.push(succ);
                        proof {
                            let sn = succ as int;
                            let ni = node as int;
                            assert(wl_has(self.worklist@, sn)) by {
                                assert(self.worklist@[self.worklist@.len() - 1] == succ);
                            }
                            assert(self.in_m(sn) == L::join_m(inner0.in_m(sn), inner0.out_m(ni)));
                            // nodes off the worklist keep out == step(in)
                            assert forall|i: int|
                                0 <= i < self.n() && !wl_has(self.worklist@, i) implies (
                            #[trigger] self.out_m(i)) == self.step_m(i, self.in_m(i)) by {
                                assert(i != sn);
                                assert(!wl_has(inner0.worklist@, i)) by {
                                    if wl_has(inner0.worklist@, i) {
                                        let w = choose|w: int|
                                            0 <= w < inner0.worklist@.len() && (
                                            #[trigger] inner0.worklist@[w]) == i;
                                        assert(self.worklist@[w] == i);
                                    }
                                }
                                assert(inner0.outs_done());
                                assert(inner0.out_m(i) == inner0.step_m(i, inner0.in_m(i)));
                                assert(self.out_m(i) == inner0.out_m(i));
                                assert(self.in_m(i) == inner0.in_m(i));
                                assert(self.step_m(i, self.in_m(i)) == inner0.step_m(
                                    i,
                                    inner0.in_m(i),
                                ));
                            }
                            assert(self.outs_done());
                            // every out still lies below its step
                            assert forall|i: int|
                                0 <= i < self.n() implies leq_m::<L>(
                                #[trigger] self.out_m(i),
                                self.step_m(i, self.in_m(i)),
                            ) by {
                                assert(inner0.outs_below());
                                assert(leq_m::<L>(
                                    inner0.out_m(i),
                                    inner0.step_m(i, inner0.in_m(i)),
                                ));
                                assert(self.out_m(i) == inner0.out_m(i));
                                assert(self.nodes@[i].info == inner0.nodes@[i].info);
                                if i == sn {
                                    lemma_leq_join::<L>(inner0.in_m(sn), inner0.out_m(ni));
                                    match self.nodes@[i].info {
                                        NodeInfo::Common(label, ir) => {
                                            self.constraint_fun.transfer_mono(
                                                label,
                                                view_ir(ir),
                                                inner0.in_m(sn),
                                                self.in_m(sn),
                                            );
                                            lemma_leq_trans::<L>(
                                                inner0.out_m(i),
                                                self.constraint_fun.transfer_m(
                                                    label,
                                                    view_ir(ir),
                                                    inner0.in_m(sn),
                                                ),
                                                self.constraint_fun.transfer_m(
                                                    label,
                                                    view_ir(ir),
                                                    self.in_m(sn),
                                                ),
                                            );
                                        },
                                        _ => {
                                            lemma_leq_trans::<L>(
                                                inner0.out_m(i),
                                                inner0.in_m(sn),
                                                self.in_m(sn),
                                            );
                                        },
                                    }
                                } else {
                                    assert(self.in_m(i) == inner0.in_m(i));
                                    assert(self.step_m(i, self.in_m(i)) == inner0.step_m(
                                        i,
                                        inner0.in_m(i),
                                    ));
                                }
                            }
                            assert(self.outs_below());
                            // absorption for other nodes' edges survives the growth
                            assert forall|u: int, jj: int|
                                0 <= u < self.n() && u != ni && 0 <= jj < self.downstream(
                                    u,
                                ).len() implies L::join_m(
                                self.in_m((#[trigger] self.downstream(u)[jj]) as int),
                                self.out_m(u),
                            ) == self.in_m(self.downstream(u)[jj] as int) || self.out_m(u)
                                == L::bottom_m() by {
                                assert(inner0.downstream(u)[jj] == self.downstream(u)[jj]);
                                let v = self.downstream(u)[jj] as int;
                                assert(L::join_m(inner0.in_m(v), inner0.out_m(u)) == inner0.in_m(v)
                                    || inner0.out_m(u) == L::bottom_m());
                                assert(self.out_m(u) == inner0.out_m(u));
                                if v == sn && inner0.out_m(u) != L::bottom_m() {
                                    lemma_absorb_grow::<L>(
                                        inner0.in_m(sn),
                                        inner0.out_m(u),
                                        inner0.out_m(ni),
                                    );
                                } else {
                                    if v != sn {
                                        assert(self.in_m(v) == inner0.in_m(v));
                                    }
                                }
                            }
                            // absorption for the node's first edges
                            assert forall|jj: int|
                                0 <= jj < j + 1 implies L::join_m(
                                self.in_m((#[trigger] self.downstream(node as int)[jj]) as int),
                                self.out_m(node as int),
                            ) == self.in_m(self.downstream(node as int)[jj] as int) by {
                                assert(inner0.downstream(ni)[jj] == self.downstream(ni)[jj]);
                                let v = self.downstream(ni)[jj] as int;
                                assert(self.out_m(ni) == inner0.out_m(ni));
                                if jj == j {
                                    lemma_absorb_join::<L>(inner0.in_m(sn), inner0.out_m(ni));
                                } else {
                                    assert(L::join_m(inner0.in_m(v), inner0.out_m(ni))
                                        == inner0.in_m(v));
                                    if v == sn {
                                        lemma_absorb_grow::<L>(
                                            inner0.in_m(sn),
                                            inner0.out_m(ni),
                                            inner0.out_m(ni),
                                        );
                                    } else {
                                        assert(self.in_m(v) == inner0.in_m(v));
                                    }
                                }
                            }
                            // the upstream joins are unchanged by an in-store
                            assert forall|v: int|
                                0 <= v < self.n() implies #[trigger] self.up_to(
                                orig.in_m(v),
                                v,
                                self.n(),
                            ) == inner0.up_to(orig.in_m(v), v, self.n()) by {
                                assert forall|u: int| 0 <= u < self.n() implies (
                                #[trigger] self.out_m(u)) == inner0.out_m(u) by {}
                                inner0.lemma_up_to_frame(*self, orig.in_m(v), v, self.n());
                            }
                            assert forall|v: int| 0 <= v < self.n() implies leq_m::<L>(
                                orig.in_m(v),
                                #[trigger] self.in_m(v),
                            ) by {
                                assert(leq_m::<L>(orig.in_m(v), inner0.in_m(v)));
                                if v == sn {
                                    lemma_leq_join::<L>(inner0.in_m(sn), inner0.out_m(ni));
                                    lemma_leq_trans::<L>(
                                        orig.in_m(v),
                                        inner0.in_m(v),
                                        self.in_m(v),
                                    );
                                } else {
                                    assert(self.in_m(v) == inner0.in_m(v));
                                }
                            }
                            assert forall|v: int| 0 <= v < self.n() implies leq_m::<L>(
                                #[trigger] self.in_m(v),
                                self.up_to(orig.in_m(v), v, self.n()),
                            ) by {
                                assert(leq_m::<L>(
                                    inner0.in_m(v),
                                    inner0.up_to(orig.in_m(v), v, self.n()),
                                ));
                                if v == sn {
                                    assert(inner0.has_edge(ni, sn)) by {
                                        assert(inner0.downstream(ni)[j as int] == succ);
                                    }
                                    inner0.lemma_up_to_component(orig.in_m(sn), sn, self.n(), ni);
                                    lemma_leq_lub::<L>(
                                        inner0.in_m(sn),
                                        inner0.out_m(ni),
                                        inner0.up_to(orig.in_m(sn), sn, self.n()),
                                    );
                                } else {
                                    assert(self.in_m(v) == inner0.in_m(v));
                                }
                            }
                            // rank bookkeeping
                            assert forall|i: int|
                                0 <= i < self.n() implies L::rank_m(#[trigger] self.in_m(i))
                                <= L::rank_m(mid.in_m(i)) && self.out_m(i) == mid.out_m(i) by {
                                assert(L::rank_m(inner0.in_m(i)) <= L::rank_m(mid.in_m(i)));
                                assert(inner0.out_m(i) == mid.out_m(i));
                                assert(self.out_m(i) == inner0.out_m(i));
                                if i == sn {
                                    L::rank_join(inner0.in_m(sn), inner0.out_m(ni));
                                } else {
                                    assert(self.in_m(i) == inner0.in_m(i));
                                }
                            }
                        }
                    } else {
                        proof {
                            let sn = succ as int;
                            let ni = node as int;
                            assert(joined.model() == self.in_m(sn));
                            // the join added nothing: this edge is absorbed too
                            assert forall|jj: int|
                                0 <= jj < j + 1 implies L::join_m(
                                self.in_m((#[trigger] self.downstream(node as int)[jj]) as int),
                                self.out_m(node as int),
                            ) == self.in_m(self.downstream(node as int)[jj] as int) by {
                                if jj == j {
                                    assert(self.downstream(ni)[jj] == succ);
                                }
                            }
                        }
                    }
                    j = j + 1;
                }
                proof {
                    assert forall|j2: int|
                        0 <= j2 < self.n() implies L::rank_m(
                        (#[trigger] self.nodes@[j2]).result_in.model(),
                    ) <= L::rank_m(mid.nodes@[j2].result_in.model()) && L::rank_m(
                        self.nodes@[j2].result_out.model(),
                    ) <= L::rank_m(mid.nodes@[j2].result_out.model()) by {
                        assert(L::rank_m(self.in_m(j2)) <= L::rank_m(mid.in_m(j2)));
                        assert(self.out_m(j2) == mid.out_m(j2));
                    }
                    lemma_sum_ranks_le::<L>(mid.nodes@, self.nodes@, self.n());
                    // absorption now including the node's own edges
                    assert forall|u: int, jj: int|
                        0 <= u < self.n() && 0 <= jj < self.downstream(u).len() implies L::join_m(
                        self.in_m((#[trigger] self.downstream(u)[jj]) as int),
                        self.out_m(u),
                    ) == self.in_m(self.downstream(u)[jj] as int) || self.out_m(u)
                        == L::bottom_m() by {
                        if u == node as int {
                            assert(L::join_m(
                                self.in_m(self.downstream(node as int)[jj] as int),
                                self.out_m(node as int),
                            ) == self.in_m(self.downstream(node as int)[jj] as int));
                        }
                    }
                    assert(self.ins_absorbed());
                }
            } else {
                proof {
                    let ni = node as int;
                    assert(self.out_m(ni) == self.step_m(ni, self.in_m(ni)));
                    assert forall|i: int|
                        0 <= i < self.n() && !wl_has(self.worklist@, i) implies (
                    #[trigger] self.out_m(i)) == self.step_m(i, self.in_m(i)) by {
                        if i != ni {
                            assert(self.worklist@ == wl1);
                            assert(!wl_has(wl0, i));
                            assert(iter0.outs_done());
                            assert(iter0.out_m(i) == iter0.step_m(i, iter0.in_m(i)));
                            assert(self.out_m(i) == iter0.out_m(i));
                            assert(self.in_m(i) == iter0.in_m(i));
                            assert(self.step_m(i, self.in_m(i)) == iter0.step_m(i, iter0.in_m(i)));
                        }
                    }
                    assert(self.outs_done());
                    assert forall|i: int|
                        0 <= i < self.n() implies leq_m::<L>(
                        #[trigger] self.out_m(i),
                        self.step_m(i, self.in_m(i)),
                    ) by {
                        assert(iter0.outs_below());
                        assert(leq_m::<L>(iter0.out_m(i), iter0.step_m(i, iter0.in_m(i))));
                        assert(self.out_m(i) == iter0.out_m(i));
                        assert(self.in_m(i) == iter0.in_m(i));
                        assert(self.step_m(i, self.in_m(i)) == iter0.step_m(i, iter0.in_m(i)));
                    }
                    assert(self.outs_below());
                    assert forall|u: int, jj: int|
                        0 <= u < self.n() && 0 <= jj < self.downstream(u).len() implies L::join_m(
                        self.in_m((#[trigger] self.downstream(u)[jj]) as int),
                        self.out_m(u),
                    ) == self.in_m(self.downstream(u)[jj] as int) || self.out_m(u)
                        == L::bottom_m() by {
                        assert(iter0.ins_absorbed());
                        assert(iter0.downstream(u)[jj] == self.downstream(u)[jj]);
                        let v = self.downstream(u)[jj] as int;
                        assert(L::join_m(iter0.in_m(v), iter0.out_m(u)) == iter0.in_m(v)
                            || iter0.out_m(u) == L::bottom_m());
                        assert(self.in_m(v) == iter0.in_m(v));
                        assert(self.out_m(u) == iter0.out_m(u));
                    }
                    assert(self.ins_absorbed());
                    assert(self.nodes@ =~= iter0.nodes@);
                    assert forall|v: int| 0 <= v < self.n() implies leq_m::<L>(
                        orig.in_m(v),
                        #[trigger] self.in_m(v),
                    ) by {
                        assert(self.in_m(v) == iter0.in_m(v));
                        assert(leq_m::<L>(orig.in_m(v), iter0.in_m(v)));
                    }
                    assert forall|v: int| 0 <= v < self.n() implies leq_m::<L>(
                        #[trigger] self.in_m(v),
                        self.up_to(orig.in_m(v), v, self.n()),
                    ) by {
                        assert(self.in_m(v) == iter0.in_m(v));
                        assert(leq_m::<L>(iter0.in_m(v), iter0.up_to(orig.in_m(v), v, self.n())));
                        assert forall|u: int| 0 <= u < self.n() implies (
                        #[trigger] self.out_m(u)) == iter0.out_m(u) by {}
                        iter0.lemma_up_to_frame(*self, orig.in_m(v), v, self.n());
                    }
                }
            }
        }
        proof {
            assert forall|i: int| 0 <= i < self.n() implies !wl_has(self.worklist@, i) by {}
            assert(self.outs_done());
            assert forall|i: int|
                0 <= i < self.n() implies self.out_m(i) == self.step_m(i, self.in_m(i)) by {
                assert(!wl_has(self.worklist@, i));
                assert(self.out_m(i) == self.step_m(i, self.in_m(i)));
            }
            assert forall|u: int, j: int|
                0 <= u < self.n() && 0 <= j < self.downstream(u).len() implies L::join_m(
                self.in_m((#[trigger] self.downstream(u)[j]) as int),
                self.out_m(u),
            ) == self.in_m(self.downstream(u)[j] as int) by {
                assert(self.ins_absorbed());
                let v = self.downstream(u)[j] as int;
                if self.out_m(u) == L::bottom_m() {
                    L::join_comm(self.in_m(v), self.out_m(u));
                    L::join_bottom(self.in_m(v));
                }
            }
            assert forall|v: int| 0 <= v < self.n() implies (#[trigger] self.in_m(v))
                == self.up_to(orig.in_m(v), v, self.n()) by {
                assert forall|u: int|
                    0 <= u < self.n() && self.has_edge(u, v) implies leq_m::<L>(
                    #[trigger] self.out_m(u),
                    self.in_m(v),
                ) by {
                    let j = choose|j: int|
                        0 <= j < self.downstream(u).len() && (#[trigger] self.downstream(u)[j])
                            as int == v;
                    assert(L::join_m(self.in_m(v), self.out_m(u)) == self.in_m(v));
                    L::join_comm(self.out_m(u), self.in_m(v));
                }
                self.lemma_up_to_below(orig.in_m(v), v, self.n(), self.in_m(v));
                assert(leq_m::<L>(self.in_m(v), self.up_to(orig.in_m(v), v, self.n())));
                lemma_leq_antisym::<L>(self.in_m(v), self.up_to(orig.in_m(v), v, self.n()));
            }
        }
    }
}

} // verus!
