use vstd::prelude::*;

pub mod dfa;
pub mod nfa;
pub mod runtime;
pub mod semantics;
pub mod state_set;
pub mod transition;

use dfa::DFA;
use nfa::NFA;

verus! {

/// A state of an automaton: a small integer handle, unique within one compiled automaton.
#[derive(Debug, Clone, Copy, PartialEq, Eq, Structural, Hash, PartialOrd, Ord)]
pub struct State {
    pub id: usize,
}

impl View for State {
    type V = nat;

    open spec fn view(&self) -> nat {
        self.id as nat
    }
}

impl State {
    pub fn new(id: usize) -> (r: State)
        ensures
            r.id == id,
    {
        State { id }
    }
}

/// Either kind of automaton.
pub enum FiniteAutomaton<'a> {
    NFA(NFA),
    DFA(DFA<'a>),
}

} // verus!
