use vstd::prelude::*;
use vstd::string::StrSliceExecFns;

use super::token::{Token, TokenKind, TokenModel};
use crate::error::RegexError;

verus! {

/// The kind of token that the character `c` is read as; `None` outside the pattern alphabet.
pub open spec fn token_kind_of(c: char) -> Option<TokenKind> {
    if 'a' <= c && c <= 'z' {
        Some(TokenKind::Char)
    } else if c == '|' {
        Some(TokenKind::Union)
    } else if c == '*' {
        Some(TokenKind::Star)
    } else if c == '(' {
        Some(TokenKind::LParen)
    } else if c == ')' {
        Some(TokenKind::RParen)
    } else {
        None
    }
}

/// The token read for the character `c`, which is in the alphabet.
pub open spec fn token_of(c: char) -> TokenModel {
    let kind = token_kind_of(c)->Some_0;
    (kind, if kind == TokenKind::Char { Some(seq![c]) } else { None })
}

/// The position of the first character of `s` from `p` on that is outside the alphabet.
pub open spec fn first_invalid(s: Seq<char>, p: int) -> Option<int>
    decreases s.len() - p,
{
    if p < 0 || p >= s.len() {
        None
    } else if token_kind_of(s[p]) is None {
        Some(p)
    } else {
        first_invalid(s, p + 1)
    }
}

/// The tokens of `s` from position `p` on, ended by `Eof`; a syntax error at the first
/// character outside the alphabet.
pub open spec fn lex_from(s: Seq<char>, p: int) -> Result<Seq<TokenModel>, RegexError> {
    match first_invalid(s, p) {
        Some(k) => Err(RegexError::SyntaxError { position: k as usize }),
        None => Ok(
            Seq::new(
                ((if p < s.len() { s.len() - p } else { 0 }) + 1) as nat,
                |i: int| if p + i < s.len() { token_of(s[p + i]) } else { (TokenKind::Eof, None) },
            ),
        ),
    }
}

/// Where reading from position `p` to the end and then the end itself leaves a lexer: one past
/// the end, or one past `p` where `p` is already beyond it. A position stops at `usize::MAX`.
pub open spec fn position_after_end(len: int, p: int) -> int {
    let last = if p < len { len } else { p };
    if last < usize::MAX { last + 1 } else { last }
}

proof fn lemma_first_invalid(s: Seq<char>, p: int)
    requires
        0 <= p,
    ensures
        first_invalid(s, p) is None <==> forall|i: int| p <= i < s.len() ==> token_kind_of(#[trigger] s[i]) is Some,
        first_invalid(s, p) matches Some(k) ==> p <= k < s.len() && token_kind_of(s[k]) is None,
    decreases s.len() - p,
{
    if p < s.len() {
        lemma_first_invalid(s, p + 1);
    }
}

/// Splits a pattern into tokens, one per character.
pub struct Lexer {
    input: String,
    pos: usize,
}

impl Lexer {
    /// The text being read.
    pub closed spec fn text(&self) -> Seq<char> {
        self.input@
    }

    /// The position of the next character to read.
    pub closed spec fn position(&self) -> int {
        self.pos as int
    }

    /// A position is a `usize`.
    pub proof fn lemma_position_bound(&self)
        ensures
            0 <= self.position() <= usize::MAX,
    {
    }

    pub fn new(input: String) -> (r: Lexer)
        ensures
            r.text() == input@,
            r.position() == 0,
    {
        Lexer { input, pos: 0 }
    }

    /// The token at the position, which moves one on; `Eof` at or past the end. A character
    /// outside the alphabet is a syntax error, with the position left where it was.
    fn next(&mut self) -> (r: Result<Token, RegexError>)
        ensures
            final(self).text() == old(self).text(),
            old(self).position() >= old(self).text().len() ==> (r matches Ok(t) && t@ == (TokenKind::Eof, None::<Seq<char>>)
                && final(self).position() == position_after_end(old(self).text().len() as int, old(self).position())),
            old(self).position() < old(self).text().len() ==> {
                let c = old(self).text()[old(self).position()];
                if token_kind_of(c) is Some {
                    r matches Ok(t) && t@ == token_of(c) && final(self).position() == old(self).position() + 1
                } else {
                    r == Err::<Token, RegexError>(RegexError::SyntaxError { position: old(self).pos })
                        && final(self).position() == old(self).position()
                }
            },
    {
        let text = self.input.as_str();
        if self.pos >= text.unicode_len() {
            if self.pos < usize::MAX {
                self.pos = self.pos + 1;
            }
            return Ok(Token::new(TokenKind::Eof, None));
        }
        let ch = text.get_char(self.pos);
        let at = self.pos;
        self.pos = self.pos + 1;
        if 'a' <= ch && ch <= 'z' {
            let symbol = text.substring_char(at, at + 1).to_owned();
            assert(symbol@ =~= seq![ch]);
            Ok(Token::new(TokenKind::Char, Some(symbol)))
        } else if ch == '|' {
            Ok(Token::new(TokenKind::Union, None))
        } else if ch == '*' {
            Ok(Token::new(TokenKind::Star, None))
        } else if ch == '(' {
            Ok(Token::new(TokenKind::LParen, None))
        } else if ch == ')' {
            Ok(Token::new(TokenKind::RParen, None))
        } else {
            self.pos = at;
            Err(RegexError::SyntaxError { position: at })
        }
    }

    /// The tokens of the rest of the text, ended by `Eof`; a syntax error at the first
    /// character outside the alphabet `a`..`z`, `|`, `*`, `(`, `)`.
    pub fn tokenize(&mut self) -> (r: Result<Vec<Token>, RegexError>)
        ensures
            final(self).text() == old(self).text(),
            match lex_from(old(self).text(), old(self).position()) {
                Ok(ts) => r matches Ok(tokens) && tokens@.map_values(|t: Token| t@) == ts
                    && final(self).position() == position_after_end(old(self).text().len() as int, old(self).position()),
                Err(e) => r == Err::<Vec<Token>, RegexError>(e),
            },
    {
        let ghost s = self.input@;
        let ghost p = self.pos as int;
        proof {
            lemma_first_invalid(s, p);
        }
        let n = self.input.as_str().unicode_len();
        let mut tokens: Vec<Token> = Vec::new();
        while self.pos < n
            invariant
                self.input@ == s,
                s == old(self).text(),
                p == old(self).position(),
                n == s.len(),
                p <= self.pos,
                self.pos <= n || self.pos == p,
                tokens@.len() == self.pos - p,
                forall|i: int| p <= i < self.pos ==> token_kind_of(#[trigger] s[i]) is Some,
                forall|i: int| 0 <= i < tokens@.len() ==> (#[trigger] tokens@[i])@ == token_of(s[p + i]),
                first_invalid(s, p) is None <==> forall|i: int| p <= i < s.len() ==> token_kind_of(#[trigger] s[i]) is Some,
                first_invalid(s, p) matches Some(k) ==> p <= k < s.len() && token_kind_of(s[k]) is None,
            decreases n - self.pos,
        {
            let ghost at = self.pos as int;
            match self.next() {
                Ok(token) => tokens.push(token),
                Err(e) => {
                    proof {
                        assert(token_kind_of(s[at]) is None);
                        lemma_first_invalid_least(s, p, at);
                        let k = first_invalid(s, p)->Some_0;
                        assert(k == at) by {
                            if k < at {
                                assert(token_kind_of(s[k]) is Some);
                            }
                        }
                    }
                    return Err(e);
                },
            }
        }
        let eof = self.next();
        match eof {
            Ok(token) => tokens.push(token),
            Err(e) => return Err(e),
        }
        proof {
            let expected = lex_from(s, p)->Ok_0;
            assert(tokens@.map_values(|t: Token| t@) =~= expected);
        }
        Ok(tokens)
    }
}

proof fn lemma_first_invalid_least(s: Seq<char>, p: int, k: int)
    requires
        0 <= p <= k < s.len(),
        token_kind_of(s[k]) is None,
    ensures
        first_invalid(s, p) matches Some(j) && j <= k,
    decreases k - p,
{
    if p < k && token_kind_of(s[p]) is Some {
        lemma_first_invalid_least(s, p + 1, k);
    }
}

} // verus!
