use thompson_regex::automaton::nfa::NFA;
use thompson_regex::automaton::runtime::Runtime;
use thompson_regex::automaton::state_set::StateSet;
use thompson_regex::automaton::transition::NFAInput;
use thompson_regex::automaton::State;
use thompson_regex::compiler::ast::{CharacterNode, ConcatNode, Interpreter, NewNode, NodeKind, StarNode, UnionNode};
use thompson_regex::compiler::fragment::NFAFragment;
use thompson_regex::compiler::lexer::Lexer;
use thompson_regex::compiler::parser::Parser;
use thompson_regex::compiler::token::TokenKind;
use thompson_regex::compiler::{compile, Context};
use thompson_regex::{RegExp, RegexError};

fn set_of(ids: &[usize]) -> StateSet {
    let mut s = StateSet::new();
    for id in ids {
        s.insert(State::new(*id));
    }
    s
}

fn ids_of(s: &StateSet) -> Vec<usize> {
    let mut v = Vec::new();
    for i in 0..s.len() {
        v.push(s.get(i).id);
    }
    v
}

fn char_node(c: &str) -> NewNode {
    NewNode::Char(CharacterNode { ch: c.to_string() })
}

fn regexp(p: &str) -> RegExp {
    RegExp::new(p.to_string()).unwrap()
}

/// The states reachable after `input`, tracked set by set on the automaton itself.
fn simulate(nfa: &NFA, input: &str) -> StateSet {
    let mut current = nfa.epsilon_expand(set_of(&[nfa.start.id]));
    for c in input.chars() {
        let mut next = StateSet::new();
        for i in 0..current.len() {
            let step = nfa.transition(&NFAInput::new(c.to_string(), current.get(i)));
            next.extend(&step);
        }
        current = nfa.epsilon_expand(next);
    }
    current
}

#[test]
fn concat_assemble() {
    let node = ConcatNode {
        left: Box::new(NewNode::Char(CharacterNode { ch: "a".to_string() })),
        right: Box::new(NewNode::Char(CharacterNode { ch: "b".to_string() })),
    };

    let mut ctx = Context::default();
    let fragment = node.assemble(&mut ctx);

    let left_start = State::new(0);
    let left_accept = State::new(1);
    let right_start = State::new(2);
    let right_accept = State::new(3);

    assert_eq!(fragment.start, Some(left_start));
    assert_eq!(fragment.accepts, Some(set_of(&[right_accept.id])));
    assert_eq!(fragment.map.len(), 3);
    assert_eq!(fragment.map.lookup(&"a".to_string(), left_start), set_of(&[left_accept.id]));
    assert_eq!(fragment.map.lookup(&"".to_string(), left_accept), set_of(&[right_start.id]));
    assert_eq!(fragment.map.lookup(&"b".to_string(), right_start), set_of(&[right_accept.id]));
}

#[test]
fn union_matches() {
    let re = regexp("a|b");
    assert!(re.matches("a".to_string()));
    assert!(re.matches("b".to_string()));
    assert!(!re.matches("c".to_string()));
    assert!(!re.matches("ab".to_string()));
}

#[test]
fn concat_matches() {
    let re = regexp("ab");
    assert!(re.matches("ab".to_string()));
    assert!(!re.matches("a".to_string()));
    assert!(!re.matches("".to_string()));
}

#[test]
fn repetition_matches() {
    let re = regexp("a*");
    assert!(re.matches("".to_string()));
    assert!(re.matches("aaaa".to_string()));
    assert!(!re.matches("aab".to_string()));
}

#[test]
fn nesting_matches() {
    let re = regexp("(ab)*");
    assert!(re.matches("abab".to_string()));
    assert!(!re.matches("aba".to_string()));
}

#[test]
fn mixed_pattern_matches() {
    let re = regexp("a|(bc)*");
    assert!(re.matches("abcbc".to_string()) == false);
    assert!(re.matches("bcbc".to_string()));
    assert!(re.matches("a".to_string()));
    assert!(re.matches("".to_string()));
    assert!(!re.matches("bcb".to_string()));
}

#[test]
fn empty_alternative_matches_empty_input() {
    let re = regexp("a|");
    assert!(re.matches("".to_string()));
    assert!(re.matches("a".to_string()));
    assert!(!re.matches("aa".to_string()));
    let empty = regexp("");
    assert!(empty.matches("".to_string()));
    assert!(!empty.matches("a".to_string()));
}

#[test]
fn closure_is_idempotent() {
    let re = regexp("(a|b*)*c");
    let nfa = re.nfa();
    for id in 0..nfa.map.len() + 4 {
        let once = nfa.epsilon_expand(set_of(&[id]));
        let twice = nfa.epsilon_expand(once.clone());
        assert_eq!(once, twice);
    }
    let all = nfa.epsilon_expand(set_of(&[0, 2, 5]));
    assert_eq!(nfa.epsilon_expand(all.clone()), all);
}

#[test]
fn closure_follows_epsilon_cycles() {
    let re = regexp("a*");
    let nfa = re.nfa();
    // a: 0 -a-> 1; star start 2; 1 -e-> 0; 2 -e-> 0
    assert_eq!(nfa.start, State::new(2));
    assert_eq!(ids_of(&nfa.epsilon_expand(set_of(&[2]))), vec![0, 2]);
    assert_eq!(ids_of(&nfa.epsilon_expand(set_of(&[1]))), vec![0, 1]);
    assert_eq!(ids_of(&nfa.epsilon_expand(StateSet::new())), Vec::<usize>::new());
}

#[test]
fn state_ids_are_contiguous() {
    let mut ctx = Context::default();
    assert_eq!(ctx.new_state(), State::new(0));
    assert_eq!(ctx.new_state(), State::new(1));
    assert_eq!(ctx.new_state(), State::new(2));
    assert_eq!(ctx.current_state, 3);

    let node = NewNode::Union(UnionNode {
        left: Box::new(char_node("a")),
        right: Box::new(NewNode::Star(StarNode {
            origin: Box::new(NewNode::Concat(ConcatNode {
                left: Box::new(char_node("b")),
                right: Box::new(char_node("c")),
            })),
        })),
    });
    let mut ctx = Context::default();
    let fragment = node.assemble(&mut ctx);
    // two per literal, one for the repetition, one for the union
    assert_eq!(ctx.current_state, 8);
    assert_eq!(fragment.start, Some(State::new(7)));
    assert_eq!(fragment.accepts, Some(set_of(&[1, 5, 6])));
    let nfa = fragment.build().unwrap();
    let mut seen = StateSet::new();
    for id in 0..8 {
        for sym in ["", "a", "b", "c"] {
            let next = nfa.transition(&NFAInput::new(sym.to_string(), State::new(id)));
            if next.len() > 0 {
                seen.insert(State::new(id));
            }
            for n in ids_of(&next) {
                assert!(n < 8);
                seen.insert(State::new(n));
            }
        }
    }
    assert_eq!(ids_of(&seen), vec![0, 1, 2, 3, 4, 5, 6, 7]);
}

#[test]
fn dfa_agrees_with_simulation() {
    let patterns = ["a|b", "ab", "a*", "(ab)*", "a|(bc)*", "(a|b)*abb", "a|", "(a*b*)*c"];
    let inputs = ["", "a", "b", "ab", "abb", "aabb", "babb", "bcbc", "c", "abc", "aaabbbc", "ba"];
    for p in patterns {
        let re = regexp(p);
        let nfa = re.nfa();
        for input in inputs {
            let reached = simulate(nfa, input);
            let expected = reached.intersects(&nfa.accepts);
            assert_eq!(re.matches(input.to_string()), expected, "{} on {}", p, input);
            let dfa = nfa.nfa2dfa();
            let mut runtime = Runtime::new(&dfa);
            assert_eq!(runtime.run(input.to_string()), expected);
        }
    }
}

#[test]
fn empty_set_stays_empty() {
    let re = regexp("ab");
    let nfa = re.nfa();
    let dfa = nfa.nfa2dfa();
    let after_c = dfa.transition(&dfa.start, &"c".to_string());
    assert!(after_c.is_empty());
    let after_a = dfa.transition(&after_c, &"a".to_string());
    assert!(after_a.is_empty());
    let after_b = dfa.transition(&after_a, &"b".to_string());
    assert!(after_b.is_empty());
    assert!(!re.matches("cab".to_string()));
    assert!(!re.matches("cabab".to_string()));
}

#[test]
fn dfa_transition_closes_result() {
    let re = regexp("ab");
    let nfa = re.nfa();
    let dfa = nfa.nfa2dfa();
    assert_eq!(ids_of(&dfa.start), vec![0]);
    assert_eq!(ids_of(&dfa.transition(&dfa.start, &"a".to_string())), vec![1, 2]);
    assert_eq!(ids_of(&nfa.accepts), vec![3]);
    assert!(!dfa.is_accepting(&dfa.start));
    let end = dfa.transition(&dfa.transition(&dfa.start, &"a".to_string()), &"b".to_string());
    assert!(dfa.is_accepting(&end));
}

#[test]
fn lexer_tokens() {
    let mut lexer = Lexer::new("a|(b)*".to_string());
    let tokens = lexer.tokenize().unwrap();
    let kinds: Vec<TokenKind> = tokens.iter().map(|t| t.kind).collect();
    assert_eq!(
        kinds,
        vec![
            TokenKind::Char,
            TokenKind::Union,
            TokenKind::LParen,
            TokenKind::Char,
            TokenKind::RParen,
            TokenKind::Star,
            TokenKind::Eof
        ]
    );
    assert_eq!(tokens[0].val, Some("a".to_string()));
    assert_eq!(tokens[3].val, Some("b".to_string()));
    assert_eq!(tokens[1].val, None);
}

#[test]
fn invalid_character_is_syntax_error() {
    assert_eq!(RegExp::new("a#b".to_string()).err(), Some(RegexError::SyntaxError { position: 1 }));
    assert_eq!(RegExp::new("A".to_string()).err(), Some(RegexError::SyntaxError { position: 0 }));
    let mut lexer = Lexer::new("ab?".to_string());
    assert_eq!(lexer.tokenize().err(), Some(RegexError::SyntaxError { position: 2 }));
}

#[test]
fn misplaced_tokens_are_syntax_errors() {
    assert_eq!(RegExp::new("a**".to_string()).err(), Some(RegexError::SyntaxError { position: 2 }));
    assert_eq!(RegExp::new("(a".to_string()).err(), Some(RegexError::SyntaxError { position: 2 }));
    assert_eq!(RegExp::new(")".to_string()).err(), Some(RegexError::SyntaxError { position: 0 }));
    assert_eq!(RegExp::new("a)".to_string()).err(), Some(RegexError::SyntaxError { position: 1 }));
    assert_eq!(RegExp::new("*a".to_string()).err(), Some(RegexError::SyntaxError { position: 0 }));
}

#[test]
fn missing_children_are_internal_errors() {
    assert_eq!(
        NewNode::new(NodeKind::Union, None, Some(char_node("a")), None).err(),
        Some(RegexError::InternalInvariantError)
    );
    assert_eq!(
        NewNode::new(NodeKind::Concat, None, None, Some(char_node("a"))).err(),
        Some(RegexError::InternalInvariantError)
    );
    assert_eq!(NewNode::new(NodeKind::Star, None, None, None).err(), Some(RegexError::InternalInvariantError));
    assert_eq!(NewNode::new(NodeKind::Char, None, None, None).err(), Some(RegexError::InternalInvariantError));
    assert!(NewNode::new(NodeKind::Char, Some("a".to_string()), None, None).is_ok());
    assert!(NFAFragment::default().build().err() == Some(RegexError::InternalInvariantError));
}

#[test]
fn parser_without_eof_is_internal_error() {
    let mut lexer = Lexer::new("ab".to_string());
    let mut tokens = lexer.tokenize().unwrap();
    tokens.pop();
    let mut parser = Parser::new(tokens);
    assert_eq!(parser.parse().err(), Some(RegexError::InternalInvariantError));
}

#[test]
fn parser_steps() {
    let mut lexer = Lexer::new("a|b".to_string());
    let tokens = lexer.tokenize().unwrap();
    let mut parser = Parser::new(tokens);
    assert_eq!(parser.peek().unwrap().kind, TokenKind::Char);
    let first = parser.seq().unwrap();
    assert!(matches!(first, NewNode::Char(ref c) if c.ch == "a"));
    assert_eq!(parser.expect(TokenKind::Star), Err(RegexError::SyntaxError { position: 1 }));
    assert_eq!(parser.expect(TokenKind::Union), Ok(()));
    assert_eq!(parser.next_token().unwrap().kind, TokenKind::Char);
    assert_eq!(parser.peek().unwrap().kind, TokenKind::Eof);
}

#[test]
fn compile_counts_states_from_zero() {
    let nfa = compile(&char_node("x")).unwrap();
    assert_eq!(nfa.start, State::new(0));
    assert_eq!(ids_of(&nfa.accepts), vec![1]);
    assert_eq!(ids_of(&nfa.transition(&NFAInput::new("x".to_string(), State::new(0)))), vec![1]);
    assert!(nfa.transition(&NFAInput::new("y".to_string(), State::new(0))).is_empty());
}

#[test]
fn state_set_keeps_order() {
    let mut s = StateSet::new();
    assert!(s.insert(State::new(5)));
    assert!(s.insert(State::new(1)));
    assert!(!s.insert(State::new(5)));
    assert!(s.insert(State::new(3)));
    assert_eq!(ids_of(&s), vec![1, 3, 5]);
    assert!(s.contains(&State::new(3)));
    assert!(!s.contains(&State::new(4)));
    assert_eq!(s.pop_first(), State::new(1));
    assert_eq!(ids_of(&s), vec![3, 5]);
    assert_eq!(set_of(&[5, 3]), set_of(&[3, 5]));
}

#[test]
fn render_concat_graph() {
    let re = regexp("ab");
    let expected = [
        "digraph G {\n",
        "  rankdir = LR;\n",
        "  node [shape = circle];\n",
        "  0 [label = \"0\";shape = \"circle\"];\n",
        "  1 [label = \"1\";shape = \"circle\"];\n",
        "  2 [label = \"2\";shape = \"circle\"];\n",
        "  3 [label = \"3\";shape = \"doublecircle\"];\n",
        "  0 -> 1 [label = \"a\"];\n",
        "  2 -> 3 [label = \"b\"];\n",
        "  1 -> 2 [label = \"\"];\n",
        "}",
    ]
    .concat();
    assert_eq!(re.render_nfa(), expected);
}

#[test]
fn render_writes_multi_digit_ids() {
    let re = regexp("abcdef");
    let text = re.render_nfa();
    assert!(text.contains("  10 -> 11 [label = \"f\"];\n"));
    assert!(text.contains("  11 [label = \"11\";shape = \"doublecircle\"];\n"));
    assert!(text.contains("  10 [label = \"10\";shape = \"circle\"];\n"));
    assert!(text.starts_with("digraph G {\n"));
    assert!(text.ends_with("}"));
}

#[test]
fn empty_group_matches_empty_input() {
    let re = regexp("()");
    assert!(re.matches("".to_string()));
    assert!(!re.matches("a".to_string()));
    let alt = regexp("(a|)");
    assert!(alt.matches("".to_string()));
    assert!(alt.matches("a".to_string()));
    assert!(!alt.matches("aa".to_string()));
    let star = regexp("(|b)*c");
    assert!(star.matches("bbc".to_string()));
    assert!(star.matches("c".to_string()));
    assert!(!star.matches("b".to_string()));
}

#[test]
fn lexer_moves_past_the_end() {
    let mut lexer = Lexer::new("ab".to_string());
    assert_eq!(lexer.tokenize().unwrap().len(), 3);
    let again = lexer.tokenize().unwrap();
    assert_eq!(again.len(), 1);
    assert_eq!(again[0].kind, TokenKind::Eof);
}

#[test]
fn nfa_renders_like_regexp() {
    let re = regexp("a|(bc)*");
    assert_eq!(re.nfa().render_nfa_graph(), re.render_nfa());
    assert!(re.render_nfa().contains("  6 [label = \"6\";shape = \"doublecircle\"];\n"));
    assert!(re.render_nfa().contains("  7 [label = \"7\";shape = \"circle\"];\n"));
}

#[test]
fn expect_keeps_position_on_mismatch() {
    let mut lexer = Lexer::new("a".to_string());
    let mut parser = Parser::new(lexer.tokenize().unwrap());
    assert_eq!(parser.expect(TokenKind::Eof), Err(RegexError::SyntaxError { position: 0 }));
    assert_eq!(parser.peek().unwrap().kind, TokenKind::Char);
}
