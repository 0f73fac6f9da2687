use vstd::prelude::*;

use super::ast::{allocations, fragment_states, id_range, NewNode, NodeKind, Pattern};
use super::token::{token_models, Token, TokenKind, TokenModel};
use super::{compile, compile_spec, nfa_models};
use crate::automaton::nfa::NFA;
use crate::error::RegexError;

verus! {

// The grammar, read from position `p` of a token list. Each rule gives the pattern it reads
// and the position after it. A token the grammar does not allow is a syntax error at its
// position; running off the end of the list (which a lexer's `Eof` prevents) is an internal
// error. The checks `q < p` and `q <= p` never hold; they let the definitions terminate.

/// expr := sub_expr Eof
pub open spec fn parse_expr(ts: Seq<TokenModel>, p: int) -> Result<Pattern, RegexError> {
    match parse_sub_expr(ts, p) {
        Err(e) => Err(e),
        Ok((node, q)) => if !(0 <= q < ts.len()) {
            Err(RegexError::InternalInvariantError)
        } else if ts[q].0 == TokenKind::Eof {
            Ok(node)
        } else {
            Err(RegexError::SyntaxError { position: q as usize })
        },
    }
}

/// sub_expr := seq '|' sub_expr | seq
pub open spec fn parse_sub_expr(ts: Seq<TokenModel>, p: int) -> Result<(Pattern, int), RegexError>
    decreases ts.len() - p, 4int,
{
    if !(0 <= p < ts.len()) {
        Err(RegexError::InternalInvariantError)
    } else {
        match parse_seq(ts, p) {
            Err(e) => Err(e),
            Ok((node, q)) => if !(0 <= q < ts.len()) {
                Err(RegexError::InternalInvariantError)
            } else if ts[q].0 == TokenKind::Union {
                if q < p {
                    Err(RegexError::InternalInvariantError)
                } else {
                    match parse_sub_expr(ts, q + 1) {
                        Err(e) => Err(e),
                        Ok((right, q2)) => Ok((Pattern::Union(Box::new(node), Box::new(right)), q2)),
                    }
                }
            } else {
                Ok((node, q))
            },
        }
    }
}

/// seq := sub_seq | (empty, read as the empty literal before `|`, `)` or the end)
pub open spec fn parse_seq(ts: Seq<TokenModel>, p: int) -> Result<(Pattern, int), RegexError>
    decreases ts.len() - p, 3int,
{
    if !(0 <= p < ts.len()) {
        Err(RegexError::InternalInvariantError)
    } else if ts[p].0 == TokenKind::LParen || ts[p].0 == TokenKind::Char {
        parse_sub_seq(ts, p)
    } else if ts[p].0 == TokenKind::Union || ts[p].0 == TokenKind::RParen || ts[p].0 == TokenKind::Eof {
        Ok((Pattern::Literal(Seq::empty()), p))
    } else {
        Err(RegexError::SyntaxError { position: p as usize })
    }
}

/// sub_seq := star sub_seq | star
pub open spec fn parse_sub_seq(ts: Seq<TokenModel>, p: int) -> Result<(Pattern, int), RegexError>
    decreases ts.len() - p, 2int,
{
    if !(0 <= p < ts.len()) {
        Err(RegexError::InternalInvariantError)
    } else {
        match parse_star(ts, p) {
            Err(e) => Err(e),
            Ok((node, q)) => if !(0 <= q < ts.len()) {
                Err(RegexError::InternalInvariantError)
            } else if ts[q].0 == TokenKind::LParen || ts[q].0 == TokenKind::Char {
                if q <= p {
                    Err(RegexError::InternalInvariantError)
                } else {
                    match parse_sub_seq(ts, q) {
                        Err(e) => Err(e),
                        Ok((right, q2)) => Ok((Pattern::Concat(Box::new(node), Box::new(right)), q2)),
                    }
                }
            } else if ts[q].0 == TokenKind::Star {
                Err(RegexError::SyntaxError { position: q as usize })
            } else {
                Ok((node, q))
            },
        }
    }
}

/// star := primary '*' | primary
pub open spec fn parse_star(ts: Seq<TokenModel>, p: int) -> Result<(Pattern, int), RegexError>
    decreases ts.len() - p, 1int,
{
    if !(0 <= p < ts.len()) {
        Err(RegexError::InternalInvariantError)
    } else {
        match parse_primary(ts, p) {
            Err(e) => Err(e),
            Ok((node, q)) => if !(0 <= q < ts.len()) {
                Err(RegexError::InternalInvariantError)
            } else if ts[q].0 == TokenKind::Star {
                Ok((Pattern::Star(Box::new(node)), q + 1))
            } else {
                Ok((node, q))
            },
        }
    }
}

/// primary := '(' sub_expr ')' | CHAR
pub open spec fn parse_primary(ts: Seq<TokenModel>, p: int) -> Result<(Pattern, int), RegexError>
    decreases ts.len() - p, 0int,
{
    if !(0 <= p < ts.len()) {
        Err(RegexError::InternalInvariantError)
    } else if ts[p].0 == TokenKind::Char {
        match ts[p].1 {
            Some(v) => Ok((Pattern::Literal(v), p + 1)),
            None => Err(RegexError::InternalInvariantError),
        }
    } else if ts[p].0 == TokenKind::LParen {
        match parse_sub_expr(ts, p + 1) {
            Err(e) => Err(e),
            Ok((node, q)) => if !(0 <= q < ts.len()) {
                Err(RegexError::InternalInvariantError)
            } else if ts[q].0 == TokenKind::RParen {
                Ok((node, q + 1))
            } else {
                Err(RegexError::SyntaxError { position: q as usize })
            },
        }
    } else {
        Err(RegexError::SyntaxError { position: p as usize })
    }
}

/// The result `r` of reading a rule is the rule's result `spec`: the same error, or a tree for
/// the same pattern and the same position after it.
pub open spec fn agrees(
    r: Result<(NewNode, usize), RegexError>,
    spec: Result<(Pattern, int), RegexError>,
) -> bool {
    match spec {
        Ok((pat, q)) => r matches Ok((n, q2)) && n@ == pat && q2 == q,
        Err(e) => r == Err::<(NewNode, usize), RegexError>(e),
    }
}

/// Reads a list of tokens by recursive descent and compiles what it reads.
pub struct Parser {
    tokens: Vec<Token>,
    current: usize,
}

impl Parser {
    /// The tokens being read.
    pub closed spec fn tokens(&self) -> Seq<TokenModel> {
        token_models(self.tokens@)
    }

    /// The position of the next token.
    pub closed spec fn position(&self) -> int {
        self.current as int
    }

    /// A position is a `usize`.
    pub proof fn lemma_position_bound(&self)
        ensures
            0 <= self.position() <= usize::MAX,
    {
    }

    pub fn new(tokens: Vec<Token>) -> (r: Parser)
        ensures
            r.tokens() == token_models(tokens@),
            r.position() == 0,
    {
        Parser { tokens, current: 0 }
    }

    /// Reads a whole pattern and compiles it.
    pub fn parse(&mut self) -> (r: Result<NFA, RegexError>)
        ensures
            final(self).tokens() == old(self).tokens(),
            match parse_expr(old(self).tokens(), old(self).position()) {
                Err(e) => r == Err::<NFA, RegexError>(e),
                Ok(pat) => match compile_spec(pat) {
                    Ok(m) => r matches Ok(nfa) && nfa_models(nfa, m)
                    && fragment_states(m) == id_range(0, allocations(pat)),
                    Err(e) => r == Err::<NFA, RegexError>(e),
                },
            },
    {
        self.expr()
    }

    /// expr := sub_expr Eof; compiles the pattern read.
    pub fn expr(&mut self) -> (r: Result<NFA, RegexError>)
        ensures
            final(self).tokens() == old(self).tokens(),
            match parse_expr(old(self).tokens(), old(self).position()) {
                Err(e) => r == Err::<NFA, RegexError>(e),
                Ok(pat) => match compile_spec(pat) {
                    Ok(m) => r matches Ok(nfa) && nfa_models(nfa, m)
                    && fragment_states(m) == id_range(0, allocations(pat)),
                    Err(e) => r == Err::<NFA, RegexError>(e),
                },
            },
    {
        let node = match self.sub_expr() {
            Ok(node) => node,
            Err(e) => return Err(e),
        };
        match self.expect(TokenKind::Eof) {
            Ok(()) => {},
            Err(e) => return Err(e),
        }
        compile(&node)
    }

    /// sub_expr := seq '|' sub_expr | seq
    pub fn sub_expr(&mut self) -> (r: Result<NewNode, RegexError>)
        ensures
            final(self).tokens() == old(self).tokens(),
            match parse_sub_expr(old(self).tokens(), old(self).position()) {
                Ok((pat, q)) => r matches Ok(n) && n@ == pat && final(self).position() == q,
                Err(e) => r == Err::<NewNode, RegexError>(e),
            },
    {
        match self.sub_expr_at(self.current) {
            Ok((node, q)) => {
                self.current = q;
                Ok(node)
            },
            Err(e) => Err(e),
        }
    }

    /// seq := sub_seq | (empty)
    pub fn seq(&mut self) -> (r: Result<NewNode, RegexError>)
        ensures
            final(self).tokens() == old(self).tokens(),
            match parse_seq(old(self).tokens(), old(self).position()) {
                Ok((pat, q)) => r matches Ok(n) && n@ == pat && final(self).position() == q,
                Err(e) => r == Err::<NewNode, RegexError>(e),
            },
    {
        match self.seq_at(self.current) {
            Ok((node, q)) => {
                self.current = q;
                Ok(node)
            },
            Err(e) => Err(e),
        }
    }

    /// sub_seq := star sub_seq | star
    pub fn sub_seq(&mut self) -> (r: Result<NewNode, RegexError>)
        ensures
            final(self).tokens() == old(self).tokens(),
            match parse_sub_seq(old(self).tokens(), old(self).position()) {
                Ok((pat, q)) => r matches Ok(n) && n@ == pat && final(self).position() == q,
                Err(e) => r == Err::<NewNode, RegexError>(e),
            },
    {
        match self.sub_seq_at(self.current) {
            Ok((node, q)) => {
                self.current = q;
                Ok(node)
            },
            Err(e) => Err(e),
        }
    }

    /// star := primary '*' | primary
    pub fn star(&mut self) -> (r: Result<NewNode, RegexError>)
        ensures
            final(self).tokens() == old(self).tokens(),
            match parse_star(old(self).tokens(), old(self).position()) {
                Ok((pat, q)) => r matches Ok(n) && n@ == pat && final(self).position() == q,
                Err(e) => r == Err::<NewNode, RegexError>(e),
            },
    {
        match self.star_at(self.current) {
            Ok((node, q)) => {
                self.current = q;
                Ok(node)
            },
            Err(e) => Err(e),
        }
    }

    /// primary := '(' sub_expr ')' | CHAR
    pub fn primary(&mut self) -> (r: Result<NewNode, RegexError>)
        ensures
            final(self).tokens() == old(self).tokens(),
            match parse_primary(old(self).tokens(), old(self).position()) {
                Ok((pat, q)) => r matches Ok(n) && n@ == pat && final(self).position() == q,
                Err(e) => r == Err::<NewNode, RegexError>(e),
            },
    {
        match self.primary_at(self.current) {
            Ok((node, q)) => {
                self.current = q;
                Ok(node)
            },
            Err(e) => Err(e),
        }
    }

    fn kind_at(&self, p: usize) -> (r: Option<TokenKind>)
        ensures
            p < self.tokens().len() ==> r == Some(self.tokens()[p as int].0),
            p >= self.tokens().len() ==> r is None,
    {
        if p < self.tokens.len() {
            Some(self.tokens[p].kind)
        } else {
            None
        }
    }

    fn sub_expr_at(&self, p: usize) -> (r: Result<(NewNode, usize), RegexError>)
        ensures
            agrees(r, parse_sub_expr(self.tokens(), p as int)),
            r matches Ok((_, q)) ==> q >= p,
        decreases self.tokens@.len() - p, 4int,
    {
        if p >= self.tokens.len() {
            return Err(RegexError::InternalInvariantError);
        }
        let (node, q) = match self.seq_at(p) {
            Ok(found) => found,
            Err(e) => return Err(e),
        };
        match self.kind_at(q) {
            None => Err(RegexError::InternalInvariantError),
            Some(TokenKind::Union) => {
                let (right, q2) = match self.sub_expr_at(q + 1) {
                    Ok(found) => found,
                    Err(e) => return Err(e),
                };
                match self.new_union(Some(node), Some(right)) {
                    Ok(n) => Ok((n, q2)),
                    Err(e) => Err(e),
                }
            },
            Some(_) => Ok((node, q)),
        }
    }

    fn seq_at(&self, p: usize) -> (r: Result<(NewNode, usize), RegexError>)
        ensures
            agrees(r, parse_seq(self.tokens(), p as int)),
            r matches Ok((_, q)) ==> q >= p,
        decreases self.tokens@.len() - p, 3int,
    {
        match self.kind_at(p) {
            None => Err(RegexError::InternalInvariantError),
            Some(TokenKind::LParen) | Some(TokenKind::Char) => self.sub_seq_at(p),
            Some(TokenKind::Union) | Some(TokenKind::RParen) | Some(TokenKind::Eof) => {
                let empty = String::new();
                assert(empty@ =~= Seq::<char>::empty());
                match self.new_char(empty) {
                    Ok(n) => Ok((n, p)),
                    Err(e) => Err(e),
                }
            },
            Some(_) => Err(RegexError::SyntaxError { position: p }),
        }
    }

    fn sub_seq_at(&self, p: usize) -> (r: Result<(NewNode, usize), RegexError>)
        ensures
            agrees(r, parse_sub_seq(self.tokens(), p as int)),
            r matches Ok((_, q)) ==> q > p,
        decreases self.tokens@.len() - p, 2int,
    {
        if p >= self.tokens.len() {
            return Err(RegexError::InternalInvariantError);
        }
        let (node, q) = match self.star_at(p) {
            Ok(found) => found,
            Err(e) => return Err(e),
        };
        match self.kind_at(q) {
            None => Err(RegexError::InternalInvariantError),
            Some(TokenKind::LParen) | Some(TokenKind::Char) => {
                let (right, q2) = match self.sub_seq_at(q) {
                    Ok(found) => found,
                    Err(e) => return Err(e),
                };
                match self.new_concat(Some(node), Some(right)) {
                    Ok(n) => Ok((n, q2)),
                    Err(e) => Err(e),
                }
            },
            Some(TokenKind::Star) => Err(RegexError::SyntaxError { position: q }),
            Some(_) => Ok((node, q)),
        }
    }

    fn star_at(&self, p: usize) -> (r: Result<(NewNode, usize), RegexError>)
        ensures
            agrees(r, parse_star(self.tokens(), p as int)),
            r matches Ok((_, q)) ==> q > p,
        decreases self.tokens@.len() - p, 1int,
    {
        if p >= self.tokens.len() {
            return Err(RegexError::InternalInvariantError);
        }
        let (node, q) = match self.primary_at(p) {
            Ok(found) => found,
            Err(e) => return Err(e),
        };
        match self.kind_at(q) {
            None => Err(RegexError::InternalInvariantError),
            Some(TokenKind::Star) => match self.new_star(Some(node)) {
                Ok(n) => Ok((n, q + 1)),
                Err(e) => Err(e),
            },
            Some(_) => Ok((node, q)),
        }
    }

    fn primary_at(&self, p: usize) -> (r: Result<(NewNode, usize), RegexError>)
        ensures
            agrees(r, parse_primary(self.tokens(), p as int)),
            r matches Ok((_, q)) ==> q > p,
        decreases self.tokens@.len() - p, 0int,
    {
        if p >= self.tokens.len() {
            return Err(RegexError::InternalInvariantError);
        }
        let token = &self.tokens[p];
        assert(self.tokens()[p as int] == token@);
        match token.kind {
            TokenKind::Char => match &token.val {
                Some(v) => match self.new_char(v.clone()) {
                    Ok(n) => Ok((n, p + 1)),
                    Err(e) => Err(e),
                },
                None => Err(RegexError::InternalInvariantError),
            },
            TokenKind::LParen => {
                let (node, q) = match self.sub_expr_at(p + 1) {
                    Ok(found) => found,
                    Err(e) => return Err(e),
                };
                match self.kind_at(q) {
                    None => Err(RegexError::InternalInvariantError),
                    Some(TokenKind::RParen) => Ok((node, q + 1)),
                    Some(_) => Err(RegexError::SyntaxError { position: q }),
                }
            },
            _ => Err(RegexError::SyntaxError { position: p }),
        }
    }

    /// The next token, which is then consumed.
    pub fn next_token(&mut self) -> (r: Result<&Token, RegexError>)
        ensures
            final(self).tokens() == old(self).tokens(),
            old(self).position() < old(self).tokens().len() ==> (r matches Ok(t) && t@ == old(
                self,
            ).tokens()[old(self).position()] && final(self).position() == old(self).position() + 1),
            old(self).position() >= old(self).tokens().len() ==> r == Err::<&Token, RegexError>(
                RegexError::InternalInvariantError,
            ),
    {
        if self.current >= self.tokens.len() {
            return Err(RegexError::InternalInvariantError);
        }
        self.current = self.current + 1;
        Ok(&self.tokens[self.current - 1])
    }

    /// The next token, left in place.
    pub fn peek(&self) -> (r: Result<&Token, RegexError>)
        ensures
            self.position() < self.tokens().len() ==> (r matches Ok(t) && t@ == self.tokens()[self.position()]),
            self.position() >= self.tokens().len() ==> r == Err::<&Token, RegexError>(
                RegexError::InternalInvariantError,
            ),
    {
        if self.current >= self.tokens.len() {
            return Err(RegexError::InternalInvariantError);
        }
        Ok(&self.tokens[self.current])
    }

    /// Consumes the next token if it is of the given kind; a syntax error at its position if not,
    /// with the position left where it was.
    pub fn expect(&mut self, kind: TokenKind) -> (r: Result<(), RegexError>)
        ensures
            final(self).tokens() == old(self).tokens(),
            old(self).position() >= old(self).tokens().len() ==> r == Err::<(), RegexError>(
                RegexError::InternalInvariantError,
            ) && final(self).position() == old(self).position(),
            old(self).position() < old(self).tokens().len() ==> if old(self).tokens()[old(
                self,
            ).position()].0 == kind {
                r == Ok::<(), RegexError>(()) && final(self).position() == old(self).position() + 1
            } else {
                r == Err::<(), RegexError>(RegexError::SyntaxError { position: old(self).position() as usize })
                    && final(self).position() == old(self).position()
            },
    {
        match self.kind_at(self.current) {
            None => Err(RegexError::InternalInvariantError),
            Some(k) => {
                if k == kind {
                    assert(self.current < self.tokens.len());
                    self.current = self.current + 1;
                    Ok(())
                } else {
                    Err(RegexError::SyntaxError { position: self.current })
                }
            },
        }
    }

    pub fn new_union(&self, left: Option<NewNode>, right: Option<NewNode>) -> (r: Result<NewNode, RegexError>)
        ensures
            match (left, right) {
                (Some(l), Some(rt)) => r matches Ok(n) && n@ == Pattern::Union(Box::new(l@), Box::new(rt@)),
                _ => r == Err::<NewNode, RegexError>(RegexError::InternalInvariantError),
            },
    {
        NewNode::new(NodeKind::Union, None, left, right)
    }

    pub fn new_concat(&self, left: Option<NewNode>, right: Option<NewNode>) -> (r: Result<NewNode, RegexError>)
        ensures
            match (left, right) {
                (Some(l), Some(rt)) => r matches Ok(n) && n@ == Pattern::Concat(Box::new(l@), Box::new(rt@)),
                _ => r == Err::<NewNode, RegexError>(RegexError::InternalInvariantError),
            },
    {
        NewNode::new(NodeKind::Concat, None, left, right)
    }

    pub fn new_star(&self, origin: Option<NewNode>) -> (r: Result<NewNode, RegexError>)
        ensures
            match origin {
                Some(o) => r matches Ok(n) && n@ == Pattern::Star(Box::new(o@)),
                None => r == Err::<NewNode, RegexError>(RegexError::InternalInvariantError),
            },
    {
        NewNode::new(NodeKind::Star, None, origin, None)
    }

    pub fn new_char(&self, ch: String) -> (r: Result<NewNode, RegexError>)
        ensures
            r matches Ok(n) && n@ == Pattern::Literal(ch@),
    {
        NewNode::new(NodeKind::Char, Some(ch), None, None)
    }
}

} // verus!
