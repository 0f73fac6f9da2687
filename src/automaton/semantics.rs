use vstd::prelude::*;

use super::transition::EdgeModel;

verus! {

/// The states reached from some member of `s` by one edge labelled `sym`.
pub open spec fn post(rel: Set<EdgeModel>, s: Set<nat>, sym: Seq<char>) -> Set<nat> {
    Set::new(|t: nat| exists|q: nat| #[trigger] s.contains(q) && rel.contains((sym, q, t)))
}

/// The states reached from `s` by at most `k` epsilon edges.
pub open spec fn eps_reach(rel: Set<EdgeModel>, s: Set<nat>, k: nat) -> Set<nat>
    decreases k,
{
    if k == 0 {
        s
    } else {
        let p = eps_reach(rel, s, (k - 1) as nat);
        p.union(post(rel, p, Seq::empty()))
    }
}

/// All states reachable from `s` by zero or more epsilon edges.
pub open spec fn epsilon_closure(rel: Set<EdgeModel>, s: Set<nat>) -> Set<nat> {
    Set::new(|t: nat| exists|k: nat| #[trigger] eps_reach(rel, s, k).contains(t))
}

/// No epsilon edge leaves `s`.
pub open spec fn eps_closed(rel: Set<EdgeModel>, s: Set<nat>) -> bool {
    forall|q: nat, t: nat| #[trigger] s.contains(q) && #[trigger] rel.contains((Seq::empty(), q, t)) ==> s.contains(t)
}

/// The closure holds its seed.
pub proof fn lemma_closure_contains_seed(rel: Set<EdgeModel>, s: Set<nat>)
    ensures
        s.subset_of(epsilon_closure(rel, s)),
{
    assert forall|t: nat| s.contains(t) implies epsilon_closure(rel, s).contains(t) by {
        assert(eps_reach(rel, s, 0).contains(t));
    }
}

/// No epsilon edge leaves the closure.
pub proof fn lemma_closure_closed(rel: Set<EdgeModel>, s: Set<nat>)
    ensures
        eps_closed(rel, epsilon_closure(rel, s)),
{
    let c = epsilon_closure(rel, s);
    assert forall|q: nat, t: nat| #[trigger] c.contains(q) && #[trigger] rel.contains((Seq::empty(), q, t)) implies c.contains(t) by {
        let k = choose|k: nat| #[trigger] eps_reach(rel, s, k).contains(q);
        let p = eps_reach(rel, s, k);
        assert(post(rel, p, Seq::empty()).contains(t));
        assert(eps_reach(rel, s, k + 1).contains(t));
    }
}

/// Every epsilon-closed superset of the seed holds the whole closure.
pub proof fn lemma_closure_least(rel: Set<EdgeModel>, s: Set<nat>, sup: Set<nat>)
    requires
        s.subset_of(sup),
        eps_closed(rel, sup),
    ensures
        epsilon_closure(rel, s).subset_of(sup),
{
    assert forall|t: nat| epsilon_closure(rel, s).contains(t) implies sup.contains(t) by {
        let k = choose|k: nat| #[trigger] eps_reach(rel, s, k).contains(t);
        lemma_reach_within(rel, s, sup, k);
    }
}

proof fn lemma_reach_within(rel: Set<EdgeModel>, s: Set<nat>, sup: Set<nat>, k: nat)
    requires
        s.subset_of(sup),
        eps_closed(rel, sup),
    ensures
        eps_reach(rel, s, k).subset_of(sup),
    decreases k,
{
    if k > 0 {
        let p = eps_reach(rel, s, (k - 1) as nat);
        lemma_reach_within(rel, s, sup, (k - 1) as nat);
        assert forall|t: nat| post(rel, p, Seq::empty()).contains(t) implies sup.contains(t) by {
            let q = choose|q: nat| #[trigger] p.contains(q) && rel.contains((Seq::empty(), q, t));
            assert(sup.contains(q));
        }
    }
}

/// A set is its own closure exactly when no epsilon edge leaves it.
pub proof fn lemma_closure_of_closed(rel: Set<EdgeModel>, s: Set<nat>)
    requires
        eps_closed(rel, s),
    ensures
        epsilon_closure(rel, s) == s,
{
    lemma_closure_contains_seed(rel, s);
    lemma_closure_least(rel, s, s);
    assert(epsilon_closure(rel, s) =~= s);
}

/// Closing a set twice gives the same set as closing it once.
pub proof fn lemma_closure_idempotent(rel: Set<EdgeModel>, s: Set<nat>)
    ensures
        epsilon_closure(rel, epsilon_closure(rel, s)) == epsilon_closure(rel, s),
{
    lemma_closure_closed(rel, s);
    lemma_closure_of_closed(rel, epsilon_closure(rel, s));
}

/// The empty set is closed, and nothing leaves it.
pub proof fn lemma_empty_stays_empty(rel: Set<EdgeModel>, sym: Seq<char>)
    ensures
        post(rel, Set::empty(), sym) == Set::<nat>::empty(),
        epsilon_closure(rel, Set::empty()) == Set::<nat>::empty(),
{
    assert(post(rel, Set::empty(), sym) =~= Set::<nat>::empty());
    lemma_closure_of_closed(rel, Set::empty());
}

/// One step of the automaton over sets of states: follow the edges labelled `c`, then close
/// under epsilon edges.
pub open spec fn dfa_step(rel: Set<EdgeModel>, s: Set<nat>, c: char) -> Set<nat> {
    epsilon_closure(rel, post(rel, s, seq![c]))
}

/// The set of states reached from `s` by feeding `w` to the automaton over sets of states.
pub open spec fn dfa_run(rel: Set<EdgeModel>, s: Set<nat>, w: Seq<char>) -> Set<nat>
    decreases w.len(),
{
    if w.len() == 0 {
        s
    } else {
        dfa_step(rel, dfa_run(rel, s, w.drop_last()), w.last())
    }
}

/// Simulation of the nondeterministic automaton itself: from the set `s`, take every edge
/// labelled with the next symbol, close under epsilon edges, and go on with the rest of `w`.
pub open spec fn simulate(rel: Set<EdgeModel>, s: Set<nat>, w: Seq<char>) -> Set<nat>
    decreases w.len(),
{
    if w.len() == 0 {
        s
    } else {
        simulate(rel, epsilon_closure(rel, post(rel, s, seq![w[0]])), w.drop_first())
    }
}

/// The states the nondeterministic automaton can be in after reading `w` from `start`.
pub open spec fn nfa_reachable(rel: Set<EdgeModel>, start: nat, w: Seq<char>) -> Set<nat> {
    simulate(rel, epsilon_closure(rel, set![start]), w)
}

/// Whether the nondeterministic automaton accepts the whole of `w`.
pub open spec fn nfa_accepts(rel: Set<EdgeModel>, start: nat, accepts: Set<nat>, w: Seq<char>) -> bool {
    !nfa_reachable(rel, start, w).disjoint(accepts)
}

proof fn lemma_dfa_run_first(rel: Set<EdgeModel>, s: Set<nat>, w: Seq<char>)
    requires
        w.len() > 0,
    ensures
        dfa_run(rel, s, w) == dfa_run(rel, dfa_step(rel, s, w[0]), w.drop_first()),
    decreases w.len(),
{
    if w.len() > 1 {
        lemma_dfa_run_first(rel, s, w.drop_last());
        assert(w.drop_last().drop_first() =~= w.drop_first().drop_last());
        assert(w.drop_last()[0] == w[0]);
        assert(w.drop_first().last() == w.last());
        let t = dfa_step(rel, s, w[0]);
        assert(dfa_run(rel, t, w.drop_first()) == dfa_step(rel, dfa_run(rel, t, w.drop_first().drop_last()), w.drop_first().last()));
        assert(dfa_run(rel, s, w.drop_last()) == dfa_run(rel, t, w.drop_last().drop_first()));
    } else {
        assert(w.drop_last() =~= Seq::<char>::empty());
        assert(w.drop_first() =~= Seq::<char>::empty());
        assert(dfa_run(rel, s, w.drop_last()) == s);
        assert(w.last() == w[0]);
        assert(dfa_run(rel, dfa_step(rel, s, w[0]), w.drop_first()) == dfa_step(rel, s, w[0]));
    }
}

/// Running the automaton over sets of states gives, on every input, the same set as the
/// direct simulation of the nondeterministic automaton.
pub proof fn lemma_dfa_agrees_with_simulation(rel: Set<EdgeModel>, s: Set<nat>, w: Seq<char>)
    ensures
        dfa_run(rel, s, w) == simulate(rel, s, w),
    decreases w.len(),
{
    if w.len() > 0 {
        lemma_dfa_run_first(rel, s, w);
        lemma_dfa_agrees_with_simulation(rel, dfa_step(rel, s, w[0]), w.drop_first());
    }
}

/// Once the set of states is empty it stays empty whatever follows, and it accepts nothing.
pub proof fn lemma_empty_rejects(rel: Set<EdgeModel>, accepts: Set<nat>, w: Seq<char>)
    ensures
        dfa_run(rel, Set::empty(), w) == Set::<nat>::empty(),
        dfa_run(rel, Set::empty(), w).disjoint(accepts),
    decreases w.len(),
{
    if w.len() > 0 {
        lemma_empty_rejects(rel, accepts, w.drop_last());
        lemma_empty_stays_empty(rel, seq![w.last()]);
    }
}

} // verus!
