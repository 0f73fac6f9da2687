use vstd::prelude::*;

verus! {

#[derive(Debug, Clone, Copy, PartialEq, Eq, Structural)]
pub enum TokenKind {
    Char,
    Union,
    Star,
    LParen,
    RParen,
    Eof,
}

/// A token of a pattern; a `Char` token carries its symbol in `val`.
#[derive(Debug)]
pub struct Token {
    pub kind: TokenKind,
    pub val: Option<String>,
}

/// What a token holds: its kind, and its symbol if any.
pub type TokenModel = (TokenKind, Option<Seq<char>>);

impl View for Token {
    type V = TokenModel;

    open spec fn view(&self) -> TokenModel {
        (
            self.kind,
            match self.val {
                Some(v) => Some(v@),
                None => None,
            },
        )
    }
}

/// The contents of a list of tokens.
pub open spec fn token_models(ts: Seq<Token>) -> Seq<TokenModel> {
    ts.map_values(|t: Token| t@)
}

impl Token {
    pub fn new(kind: TokenKind, val: Option<String>) -> (r: Token)
        ensures
            r.kind == kind,
            r.val == val,
    {
        Token { kind, val }
    }
}

} // verus!
