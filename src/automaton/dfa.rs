use vstd::prelude::*;

use super::nfa::NFA;
use super::semantics::{epsilon_closure, lemma_empty_stays_empty, post};
use super::state_set::StateSet;
use super::transition::NFAInput;

verus! {

/// The deterministic automaton whose states are sets of states of `nfa`.
/// A set is accepting when it meets the accepting states of `nfa`; its transitions are computed
/// on demand.
pub struct DFA<'a> {
    pub start: StateSet,
    pub nfa: &'a NFA,
}

impl<'a> DFA<'a> {
    /// Whether the set `states` is accepting: it holds an accepting state of the automaton.
    pub fn is_accepting(&self, states: &StateSet) -> (r: bool)
        ensures
            r == !states@.disjoint(self.nfa.accepts@),
    {
        let r = self.nfa.accepts.intersects(states);
        assert(self.nfa.accepts@.disjoint(states@) == states@.disjoint(self.nfa.accepts@));
        r
    }

    /// The set reached from `prev_states` on `input`: every state one `input` edge away from
    /// a member, closed under epsilon edges.
    pub fn transition(&self, prev_states: &StateSet, input: &String) -> (r: StateSet)
        ensures
            r.wf(),
            r@ == epsilon_closure(self.nfa.map@, post(self.nfa.map@, prev_states@, input@)),
            prev_states@ == Set::<nat>::empty() ==> r@ == Set::<nat>::empty(),
    {
        let ghost rel = self.nfa.map@;
        let mut new_states = StateSet::new();
        let mut i: usize = 0;
        while i < prev_states.len()
            invariant
                rel == self.nfa.map@,
                new_states.wf(),
                i <= prev_states.elems().len(),
                new_states@ == post(rel, Set::new(|q: nat| exists|j: int| 0 <= j < i && prev_states.elems()[j]@ == q), input@),
            decreases prev_states.elems().len() - i,
        {
            let state = prev_states.get(i);
            let key = NFAInput::new(input.clone(), state);
            let next_states = self.nfa.transition(&key);
            let ghost before = new_states@;
            new_states.extend(&next_states);
            proof {
                let s_old = Set::new(|q: nat| exists|j: int| 0 <= j < i && prev_states.elems()[j]@ == q);
                let s_new = Set::new(|q: nat| exists|j: int| 0 <= j < i + 1 && prev_states.elems()[j]@ == q);
                assert(s_new =~= s_old.insert(state@)) by {
                    assert forall|q: nat| s_new.contains(q) implies s_old.insert(state@).contains(q) by {
                        let j = choose|j: int| 0 <= j < i + 1 && prev_states.elems()[j]@ == q;
                        if j < i {
                            assert(s_old.contains(q));
                        }
                    }
                    assert forall|q: nat| s_old.insert(state@).contains(q) implies s_new.contains(q) by {
                        if q == state@ {
                            assert(prev_states.elems()[i as int]@ == q);
                        } else {
                            let j = choose|j: int| 0 <= j < i && prev_states.elems()[j]@ == q;
                            assert(0 <= j < i + 1 && prev_states.elems()[j]@ == q);
                        }
                    }
                }
                assert(new_states@ =~= post(rel, s_new, input@)) by {
                    assert forall|t: nat| post(rel, s_new, input@).contains(t) implies new_states@.contains(t) by {
                        let q = choose|q: nat| #[trigger] s_new.contains(q) && rel.contains((input@, q, t));
                        if q != state@ {
                            assert(s_old.contains(q));
                            assert(before.contains(t));
                        } else {
                            assert(next_states@.contains(t));
                        }
                    }
                    assert forall|t: nat| new_states@.contains(t) implies post(rel, s_new, input@).contains(t) by {
                        if before.contains(t) {
                            let q = choose|q: nat| #[trigger] s_old.contains(q) && rel.contains((input@, q, t));
                            assert(s_new.contains(q));
                        } else {
                            assert(next_states@.contains(t));
                            assert(s_new.contains(state@));
                        }
                    }
                }
            }
            i = i + 1;
        }
        proof {
            prev_states.lemma_view_elems();
            assert(Set::new(|q: nat| exists|j: int| 0 <= j < prev_states.elems().len() && prev_states.elems()[j]@ == q)
                =~= prev_states@);
            lemma_empty_stays_empty(rel, input@);
        }
        self.nfa.epsilon_expand(new_states)
    }
}

} // verus!
