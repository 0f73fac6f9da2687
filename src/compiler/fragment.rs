use vstd::prelude::*;

use crate::automaton::nfa::NFA;
use crate::automaton::state_set::StateSet;
use crate::automaton::transition::{EdgeModel, NFAInput, TransitionMap};
use crate::automaton::State;
use crate::error::RegexError;

verus! {

/// The mathematical content of a finished fragment.
pub struct FragmentModel {
    pub start: nat,
    pub accepts: Set<nat>,
    pub edges: Set<EdgeModel>,
}

/// A partly built automaton: the result of compiling one subtree of the pattern.
pub struct NFAFragment {
    pub start: Option<State>,
    pub accepts: Option<StateSet>,
    pub map: TransitionMap,
}

impl Default for NFAFragment {
    fn default() -> (r: NFAFragment)
        ensures
            r.wf(),
            r.start is None,
            r.accepts is None,
            r.map@ == Set::<EdgeModel>::empty(),
    {
        NFAFragment { start: None, accepts: None, map: TransitionMap::new() }
    }
}

impl NFAFragment {
    pub open spec fn wf(&self) -> bool {
        &&& self.map.wf()
        &&& self.accepts matches Some(a) ==> a.wf()
    }

    /// The fragment has a start and accepting states, and its content is `m`.
    pub open spec fn models(&self, m: FragmentModel) -> bool {
        &&& self.start matches Some(s) && s@ == m.start
        &&& self.accepts matches Some(a) && a@ == m.accepts
        &&& self.map@ == m.edges
    }

    pub fn new(start: State, accepts: StateSet, map: Option<TransitionMap>) -> (r: NFAFragment)
        requires
            accepts.wf(),
            map matches Some(m) ==> m.wf(),
        ensures
            r.wf(),
            r.start == Some(start),
            r.accepts == Some(accepts),
            r.map@ == (match map {
                Some(m) => m@,
                None => Set::<EdgeModel>::empty(),
            }),
    {
        match map {
            Some(m) => NFAFragment { start: Some(start), accepts: Some(accepts), map: m },
            None => NFAFragment { start: Some(start), accepts: Some(accepts), map: TransitionMap::new() },
        }
    }

    /// Adds the edge from `nfa_input.current_state` to `next` labelled `nfa_input.input`.
    pub fn connect(&mut self, nfa_input: NFAInput, next: State)
        requires
            old(self).wf(),
        ensures
            final(self).wf(),
            final(self).start == old(self).start,
            final(self).accepts == old(self).accepts,
            final(self).map@ == old(self).map@.insert((nfa_input.input@, nfa_input.current_state@, next@)),
    {
        self.map.connect(nfa_input, next);
    }

    /// Adds every edge of `fragment`.
    pub fn union(&mut self, fragment: &NFAFragment)
        requires
            old(self).wf(),
        ensures
            final(self).wf(),
            final(self).start == old(self).start,
            final(self).accepts == old(self).accepts,
            final(self).map@ == old(self).map@.union(fragment.map@),
    {
        self.map.extend(&fragment.map);
    }

    /// A fragment with the same edges and neither start nor accepting states.
    pub fn new_skeleton(&self) -> (r: NFAFragment)
        requires
            self.wf(),
        ensures
            r.wf(),
            r.start is None,
            r.accepts is None,
            r.map@ == self.map@,
    {
        NFAFragment { start: None, accepts: None, map: self.map.copy() }
    }

    /// The finished automaton; an error where the start or the accepting states are missing.
    pub fn build(&self) -> (r: Result<NFA, RegexError>)
        requires
            self.wf(),
        ensures
            (self.start is Some && self.accepts is Some) <==> r is Ok,
            r is Err ==> r == Err::<NFA, RegexError>(RegexError::InternalInvariantError),
            r matches Ok(nfa) ==> {
                &&& Some(nfa.start) == self.start
                &&& self.accepts matches Some(a) && nfa.accepts@ == a@ && nfa.accepts.wf()
                &&& nfa.map@ == self.map@
                &&& nfa.map.wf()
            },
    {
        match (&self.start, &self.accepts) {
            (Some(start), Some(accepts)) => {
                Ok(NFA { start: *start, accepts: accepts.copy(), map: self.map.copy() })
            },
            _ => Err(RegexError::InternalInvariantError),
        }
    }
}

} // verus!
