//! A cursor over a token sequence.
use vstd::prelude::*;

use crate::error::{ErrorKind, ParserError};
use crate::lexer::{Token, TokenType};
use crate::text::same_text;

verus! {

/// Whether two token kinds are the same kind (a `Block` matches any `Block`).
pub open spec fn same_kind(a: TokenType, b: TokenType) -> bool {
    match (a, b) {
        (TokenType::Block(_), TokenType::Block(_)) => true,
        _ => a == b,
    }
}

/// Tests whether two token kinds are the same kind.
pub fn kind_eq(a: &TokenType, b: &TokenType) -> (r: bool)
    ensures
        r == same_kind(*a, *b),
{
    match (a, b) {
        (TokenType::IntLiteral, TokenType::IntLiteral) => true,
        (TokenType::FloatLiteral, TokenType::FloatLiteral) => true,
        (TokenType::StringLiteral, TokenType::StringLiteral) => true,
        (TokenType::BoolLiteral, TokenType::BoolLiteral) => true,
        (TokenType::Identifier, TokenType::Identifier) => true,
        (TokenType::Keyword, TokenType::Keyword) => true,
        (TokenType::Type, TokenType::Type) => true,
        (TokenType::Symbol, TokenType::Symbol) => true,
        (TokenType::Operator, TokenType::Operator) => true,
        (TokenType::EOL, TokenType::EOL) => true,
        (TokenType::Block(_), TokenType::Block(_)) => true,
        _ => false,
    }
}

/// A token sequence with a current index, which may stand one past the
/// last token.
pub struct Traveler {
    pub tokens: Vec<Token>,
    pub index: usize,
}

impl Traveler {
    pub open spec fn wf(&self) -> bool {
        self.index <= self.tokens.len()
    }

    pub fn new(tokens: Vec<Token>) -> (r: Traveler)
        ensures
            r.tokens@ == tokens@,
            r.index == 0,
            r.wf(),
    {
        Traveler { tokens, index: 0 }
    }

    /// The token under the cursor.
    pub fn current(&self) -> (r: &Token)
        requires
            self.index < self.tokens.len(),
        ensures
            *r == self.tokens@[self.index as int],
    {
        &self.tokens[self.index]
    }

    /// The kind of the token under the cursor.
    pub fn current_kind(&self) -> (r: &TokenType)
        requires
            self.index < self.tokens.len(),
        ensures
            *r == self.tokens@[self.index as int].token_type,
    {
        &self.tokens[self.index].token_type
    }

    /// The token `n` places after the cursor, if there is one.
    pub fn peek(&self, n: usize) -> (r: Option<&Token>)
        requires
            self.wf(),
        ensures
            self.index + n < self.tokens.len() ==> r == Some(&self.tokens@[self.index + n]),
            self.index + n >= self.tokens.len() ==> r is None,
    {
        if n < self.tokens.len() - self.index {
            Some(&self.tokens[self.index + n])
        } else {
            None
        }
    }

    /// The text of the token under the cursor, or an empty text at the end.
    pub fn current_content(&self) -> (r: String)
        ensures
            self.index < self.tokens.len() ==> r@ == self.tokens@[self.index as int].content@,
            self.index >= self.tokens.len() ==> r@.len() == 0,
    {
        if self.index < self.tokens.len() {
            self.tokens[self.index].content.clone()
        } else {
            String::new()
        }
    }

    /// Steps forward; false (and no move) at the end.
    pub fn next(&mut self) -> (r: bool)
        ensures
            r == (old(self).index < old(self).tokens.len()),
            final(self).tokens@ == old(self).tokens@,
            final(self).index == if r { old(self).index + 1 } else { old(self).index as int },
    {
        if self.index < self.tokens.len() {
            self.index = self.index + 1;
            true
        } else {
            false
        }
    }

    /// Steps back; false (and no move) at the start.
    pub fn prev(&mut self) -> (r: bool)
        ensures
            r == (old(self).index > 0),
            final(self).tokens@ == old(self).tokens@,
            final(self).index == if r { old(self).index - 1 } else { old(self).index as int },
    {
        if self.index > 0 {
            self.index = self.index - 1;
            true
        } else {
            false
        }
    }

    /// How many tokens are left, the current one included.
    pub fn remaining(&self) -> (r: usize)
        requires
            self.wf(),
        ensures
            r == self.tokens.len() - self.index,
    {
        self.tokens.len() - self.index
    }

    /// The text of the current token if it has the given kind.
    pub fn expect(&self, kind: TokenType) -> (r: Result<String, ParserError>)
        ensures
            r is Ok <==> (self.index < self.tokens.len() && same_kind(self.tokens@[self.index as int].token_type, kind)),
            r matches Ok(s) ==> s@ == self.tokens@[self.index as int].content@,
            r matches Err(e) ==> e.kind == ErrorKind::ExpectedKind
                && (self.index < self.tokens.len() ==> e.position == Some(self.tokens@[self.index as int].position)),
    {
        if self.index < self.tokens.len() {
            let t = &self.tokens[self.index];
            if kind_eq(&t.token_type, &kind) {
                Ok(t.content.clone())
            } else {
                Err(ParserError::new_pos(ErrorKind::ExpectedKind, t.position, "unexpected kind of token"))
            }
        } else {
            Err(ParserError::new(ErrorKind::ExpectedKind, "unexpected end of tokens"))
        }
    }

    /// Succeeds if the current token's text is `text`.
    pub fn expect_content(&self, text: &str) -> (r: Result<(), ParserError>)
        ensures
            r is Ok <==> (self.index < self.tokens.len() && self.tokens@[self.index as int].content@ == text@),
            r matches Err(e) ==> e.kind == ErrorKind::ExpectedContent
                && (self.index < self.tokens.len() ==> e.position == Some(self.tokens@[self.index as int].position)),
    {
        if self.index < self.tokens.len() {
            let t = &self.tokens[self.index];
            if same_text(t.content.as_str(), text) {
                Ok(())
            } else {
                Err(ParserError::new_pos(ErrorKind::ExpectedContent, t.position, "unexpected text"))
            }
        } else {
            Err(ParserError::new(ErrorKind::ExpectedContent, "unexpected end of tokens"))
        }
    }
}

} // verus!
