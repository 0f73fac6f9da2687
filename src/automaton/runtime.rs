use vstd::prelude::*;
use vstd::string::StrSliceExecFns;

use super::dfa::DFA;
use super::semantics::{dfa_run, epsilon_closure, lemma_empty_rejects, post};
use super::state_set::StateSet;

verus! {

/// Drives a `DFA` over an input, one symbol at a time.
pub struct Runtime<'a> {
    dfa: &'a DFA<'a>,
    current_state: StateSet,
}

impl<'a> Runtime<'a> {
    /// The automaton being driven.
    pub closed spec fn automaton(&self) -> &'a DFA<'a> {
        self.dfa
    }

    /// The set of states the runtime is in.
    pub closed spec fn current(&self) -> Set<nat> {
        self.current_state@
    }

    pub fn new(dfa: &'a DFA) -> (r: Runtime<'a>)
        ensures
            r.automaton() == dfa,
            r.current() == dfa.start@,
    {
        Runtime { dfa, current_state: dfa.start.copy() }
    }

    /// Feeds every symbol of `input`, in order, and reports whether the set reached is accepting.
    pub fn run(&mut self, input: String) -> (r: bool)
        ensures
            final(self).automaton() == old(self).automaton(),
            final(self).current() == dfa_run(old(self).automaton().nfa.map@, old(self).current(), input@),
            r == !final(self).current().disjoint(old(self).automaton().nfa.accepts@),
            old(self).current() == Set::<nat>::empty() ==> !r,
    {
        let ghost rel = self.dfa.nfa.map@;
        let ghost init = self.current_state@;
        let text = input.as_str();
        let n = text.unicode_len();
        let mut i: usize = 0;
        while i < n
            invariant
                text@ == input@,
                n == input@.len(),
                i <= n,
                rel == self.dfa.nfa.map@,
                self.dfa == old(self).dfa,
                self.current_state@ == dfa_run(rel, init, input@.take(i as int)),
            decreases n - i,
        {
            let symbol = text.substring_char(i, i + 1).to_owned();
            assert(symbol@ =~= seq![input@[i as int]]);
            self.do_transition(symbol);
            assert(input@.take(i + 1).drop_last() =~= input@.take(i as int));
            i = i + 1;
        }
        assert(input@.take(n as int) =~= input@);
        proof {
            lemma_empty_rejects(rel, self.dfa.nfa.accepts@, input@);
        }
        self.is_accept()
    }

    /// Moves to the set reached on `input`: every state one `input` edge away from a current
    /// state, closed under epsilon edges.
    fn do_transition(&mut self, input: String)
        ensures
            final(self).dfa == old(self).dfa,
            final(self).current_state@ == epsilon_closure(
                old(self).dfa.nfa.map@,
                post(old(self).dfa.nfa.map@, old(self).current_state@, input@),
            ),
    {
        let next_state = self.dfa.transition(&self.current_state, &input);
        self.current_state = next_state;
    }

    fn is_accept(&self) -> (r: bool)
        ensures
            r == !self.current_state@.disjoint(self.dfa.nfa.accepts@),
    {
        self.dfa.is_accepting(&self.current_state)
    }
}

} // verus!
