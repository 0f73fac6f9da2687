use vstd::prelude::*;

use crate::automaton::nfa::NFA;
use crate::automaton::runtime::Runtime;
use crate::automaton::semantics::{lemma_dfa_agrees_with_simulation, nfa_accepts};
use crate::compiler::ast::{allocations, fragment_states, id_range, Pattern};
use crate::compiler::lexer::{lex_from, Lexer};
use crate::compiler::parser::{parse_expr, Parser};
use crate::compiler::{compile_spec, nfa_models};
use crate::error::RegexError;
use crate::viz::graph_viz::{endpoints, graph_text, GraphViz};

verus! {

/// The pattern that the text `s` denotes: its tokens read by the grammar.
pub open spec fn pattern_spec(s: Seq<char>) -> Result<Pattern, RegexError> {
    match lex_from(s, 0) {
        Err(e) => Err(e),
        Ok(ts) => parse_expr(ts, 0),
    }
}

/// A compiled pattern.
pub struct RegExp {
    nfa: NFA,
}

impl RegExp {
    /// The automaton the pattern compiled to.
    pub closed spec fn automaton(&self) -> NFA {
        self.nfa
    }

    /// Compiles `regex`: tokens, then a tree, then an automaton by Thompson's construction.
    pub fn new(regex: String) -> (r: Result<RegExp, RegexError>)
        ensures
            match pattern_spec(regex@) {
                Err(e) => r == Err::<RegExp, RegexError>(e),
                Ok(pat) => match compile_spec(pat) {
                    Ok(m) => r matches Ok(re) && nfa_models(re.automaton(), m)
                        && fragment_states(m) == id_range(0, allocations(pat)),
                    Err(e) => r == Err::<RegExp, RegexError>(e),
                },
            },
    {
        let mut lexer = Lexer::new(regex);
        let tokens = match lexer.tokenize() {
            Ok(tokens) => tokens,
            Err(e) => return Err(e),
        };
        let mut parser = Parser::new(tokens);
        match parser.parse() {
            Ok(nfa) => Ok(RegExp { nfa }),
            Err(e) => Err(e),
        }
    }

    /// Whether the whole of `input` matches the pattern.
    pub fn matches(&self, input: String) -> (r: bool)
        ensures
            r == nfa_accepts(self.automaton().map@, self.automaton().start@, self.automaton().accepts@, input@),
    {
        let dfa = self.nfa.nfa2dfa();
        let mut runtime = Runtime::new(&dfa);
        proof {
            lemma_dfa_agrees_with_simulation(self.nfa.map@, dfa.start@, input@);
        }
        runtime.run(input)
    }

    /// The automaton in the Graphviz language; writing it out is left to the caller.
    pub fn render_nfa(&self) -> (r: String)
        ensures
            exists|ids: Seq<nat>| {
                &&& forall|i: int, j: int| 0 <= i < j < ids.len() ==> ids[i] < ids[j]
                &&& ids.to_set() == endpoints(self.automaton().map.edge_list())
                &&& r@ == graph_text(ids, self.automaton().accepts@, self.automaton().map.edge_list())
            },
    {
        let viz = GraphViz {};
        viz.render_nfa_graph(&self.nfa)
    }

    /// The compiled automaton.
    pub fn nfa(&self) -> (r: &NFA)
        ensures
            *r == self.automaton(),
    {
        &self.nfa
    }
}

} // verus!
