use vstd::prelude::*;

use super::dfa::DFA;
use super::semantics::{
    epsilon_closure, eps_closed, lemma_closure_closed, lemma_closure_contains_seed,
    lemma_closure_least,
};
use super::state_set::StateSet;
use super::transition::{targets, NFAInput, TransitionMap};
use super::State;
use crate::viz::graph_viz::{endpoints, graph_text, GraphViz};

verus! {

/// A finished nondeterministic automaton: start state, accepting states and transition relation.
#[derive(Debug, Clone)]
pub struct NFA {
    pub start: State,
    pub accepts: StateSet,
    pub map: TransitionMap,
}

impl NFA {
    /// The states reached from `input.current_state` by one edge labelled `input.input`;
    /// empty where there is none.
    pub fn transition(&self, input: &NFAInput) -> (r: StateSet)
        ensures
            r.wf(),
            r@ == targets(self.map@, input.input@, input.current_state@),
    {
        self.map.lookup(&input.input, input.current_state)
    }

    /// The epsilon closure of `states`: every state reachable from them by epsilon edges.
    pub fn epsilon_expand(&self, states: StateSet) -> (r: StateSet)
        ensures
            r.wf(),
            r@ == epsilon_closure(self.map@, states@),
    {
        let ghost rel = self.map@;
        let ghost seed = states@;
        let ghost closure = epsilon_closure(rel, seed);
        proof {
            lemma_closure_contains_seed(rel, seed);
            lemma_closure_closed(rel, seed);
        }
        let mut que = StateSet::new();
        que.extend(&states);
        let mut done = StateSet::new();
        while !que.is_empty()
            invariant
                rel == self.map@,
                closure == epsilon_closure(rel, seed),
                eps_closed(rel, closure),
                que.wf(),
                done.wf(),
                que@.disjoint(done@),
                seed.subset_of(que@.union(done@)),
                que@.union(done@).subset_of(closure),
                forall|d: nat, t: nat| #[trigger] done@.contains(d) && #[trigger] rel.contains((Seq::empty(), d, t))
                    ==> que@.contains(t) || done@.contains(t),
            decreases usize::MAX - done.elems().len(),
        {
            proof {
                que.lemma_view_elems();
                assert(que@.contains(que.elems()[0]@));
                done.lemma_len_bound();
            }
            let state = que.pop_first();
            done.insert(state);
            proof {
                done.lemma_len_bound();
            }
            let input = NFAInput::new(String::new(), state);
            let next_states = self.transition(&input);
            let mut i: usize = 0;
            while i < next_states.len()
                invariant
                    rel == self.map@,
                    closure == epsilon_closure(rel, seed),
                    eps_closed(rel, closure),
                    next_states@ == targets(rel, Seq::empty(), state@),
                    closure.contains(state@),
                    done@.contains(state@),
                    que.wf(),
                    done.wf(),
                    i <= next_states.elems().len(),
                    que@.disjoint(done@),
                    seed.subset_of(que@.union(done@)),
                    que@.union(done@).subset_of(closure),
                    forall|d: nat, t: nat| #[trigger] done@.contains(d) && #[trigger] rel.contains((Seq::empty(), d, t))
                        && d != state@ ==> que@.contains(t) || done@.contains(t),
                    forall|j: int| 0 <= j < i ==> que@.contains(#[trigger] next_states.elems()[j]@)
                        || done@.contains(next_states.elems()[j]@),
                decreases next_states.elems().len() - i,
            {
                let next_state = next_states.get(i);
                proof {
                    next_states.lemma_view_elems();
                    assert(next_states@.contains(next_state@));
                    assert(rel.contains((Seq::empty(), state@, next_state@)));
                }
                if !done.contains(&next_state) {
                    que.insert(next_state);
                }
                i = i + 1;
            }
            proof {
                next_states.lemma_view_elems();
                assert forall|t: nat| #[trigger] rel.contains((Seq::empty(), state@, t)) implies
                    que@.contains(t) || done@.contains(t) by {
                    assert(next_states@.contains(t));
                    let j = choose|j: int| 0 <= j < next_states.elems().len() && next_states.elems()[j]@ == t;
                    assert(que@.contains(next_states.elems()[j]@) || done@.contains(next_states.elems()[j]@));
                }
            }
        }
        proof {
            assert(que@.union(done@) =~= done@);
            lemma_closure_least(rel, seed, done@);
            assert(done@ =~= closure);
        }
        done
    }

    /// The deterministic automaton over sets of this automaton's states, computed on demand.
    pub fn nfa2dfa(&self) -> (r: DFA<'_>)
        ensures
            r.start.wf(),
            r.start@ == epsilon_closure(self.map@, set![self.start@]),
            r.nfa == self,
    {
        let mut tmp = StateSet::new();
        tmp.insert(self.start);
        assert(tmp@ =~= set![self.start@]);
        let dfa_start = self.epsilon_expand(tmp);
        DFA { start: dfa_start, nfa: self }
    }

    /// The automaton in the Graphviz language: its states as nodes, accepting ones with two
    /// borders, and its edges labelled with their symbols, epsilon edges with the empty label.
    pub fn render_nfa_graph(&self) -> (r: String)
        ensures
            exists|ids: Seq<nat>| {
                &&& forall|i: int, j: int| 0 <= i < j < ids.len() ==> ids[i] < ids[j]
                &&& ids.to_set() == endpoints(self.map.edge_list())
                &&& r@ == graph_text(ids, self.accepts@, self.map.edge_list())
            },
    {
        let viz = GraphViz {};
        viz.render_nfa_graph(self)
    }
}

} // verus!
