use vstd::prelude::*;

use crate::automaton::nfa::NFA;
use crate::automaton::State;
use crate::error::RegexError;
use ast::{allocations, fragment_states, id_range, lemma_ids_contiguous, thompson, Interpreter, NewNode, Pattern};
use fragment::FragmentModel;

pub mod ast;
pub mod fragment;
pub mod lexer;
pub mod parser;
pub mod token;

verus! {

/// Issues fresh state ids during one compilation: each call returns the counter and advances it.
pub struct Context {
    pub current_state: usize,
}

impl Default for Context {
    fn default() -> (r: Context)
        ensures
            r.current_state == 0,
    {
        Context { current_state: 0 }
    }
}

impl Context {
    pub fn new_state(&mut self) -> (r: State)
        requires
            old(self).current_state < usize::MAX,
        ensures
            r.id == old(self).current_state,
            final(self).current_state == old(self).current_state + 1,
    {
        self.current_state = self.current_state + 1;
        State::new(self.current_state - 1)
    }
}

/// The automaton's start, accepting states and edges are those of `m`.
pub open spec fn nfa_models(nfa: NFA, m: FragmentModel) -> bool {
    &&& nfa.start@ == m.start
    &&& nfa.accepts@ == m.accepts
    &&& nfa.accepts.wf()
    &&& nfa.map@ == m.edges
    &&& nfa.map.wf()
}

/// The number of state ids that compiling `node` takes; `None` where a `usize` cannot count them.
pub fn count_allocations(node: &NewNode) -> (r: Option<usize>)
    ensures
        allocations(node@) <= usize::MAX ==> r == Some(allocations(node@) as usize),
        allocations(node@) > usize::MAX ==> r is None,
    decreases node,
{
    match node {
        NewNode::Char(_) => Some(2),
        NewNode::Union(u) => match (count_allocations(&u.left), count_allocations(&u.right)) {
            (Some(a), Some(b)) => {
                if a < usize::MAX - b {
                    Some(a + b + 1)
                } else {
                    None
                }
            },
            _ => None,
        },
        NewNode::Concat(c) => match (count_allocations(&c.left), count_allocations(&c.right)) {
            (Some(a), Some(b)) => {
                if a <= usize::MAX - b {
                    Some(a + b)
                } else {
                    None
                }
            },
            _ => None,
        },
        NewNode::Star(s) => match count_allocations(&s.origin) {
            Some(a) => {
                if a < usize::MAX {
                    Some(a + 1)
                } else {
                    None
                }
            },
            None => None,
        },
    }
}

/// What compiling a pattern gives: the fragment that Thompson's construction builds from id
/// zero, or an error where a `usize` cannot count its states.
pub open spec fn compile_spec(pat: Pattern) -> Result<FragmentModel, RegexError> {
    if allocations(pat) <= usize::MAX {
        Ok(thompson(pat, 0).0)
    } else {
        Err(RegexError::TooManyStates)
    }
}

/// Compiles a pattern tree into an automaton by Thompson's construction, with ids from zero.
pub fn compile(node: &NewNode) -> (r: Result<NFA, RegexError>)
    ensures
        match compile_spec(node@) {
            Ok(m) => r matches Ok(nfa) && nfa_models(nfa, m)
                    && fragment_states(m) == id_range(0, allocations(node@)),
            Err(e) => r == Err::<NFA, RegexError>(e),
        },
{
    proof {
        lemma_ids_contiguous(node@, 0);
    }
    match count_allocations(node) {
        None => Err(RegexError::TooManyStates),
        Some(_) => {
            let mut context = Context::default();
            let fragment = node.assemble(&mut context);
            fragment.build()
        },
    }
}

} // verus!
