//! The token model: the closed set of lexical categories, the token value
//! type, and the keyword table.

use vstd::prelude::*;
use vstd::string::StringExecFns;

verus! {

/// The closed set of lexical categories. The scanner creates exactly one
/// token per lexical unit; consumers match on these kinds.
#[derive(Debug, Clone, Copy, PartialEq, Eq, Structural)]
pub enum TokenKind {
    Illegal,
    Eof,
    Ident,
    Int,
    Assign,
    Plus,
    Minus,
    Bang,
    Asterisk,
    Slash,
    Lt,
    Gt,
    Eq,
    NotEq,
    Comma,
    Semicolon,
    LParen,
    RParen,
    LBrace,
    RBrace,
    Function,
    Let,
    True,
    False,
    If,
    Else,
    Return,
}

/// One lexical unit: its category and the literal text it was scanned from.
/// Tokens are immutable value objects; nothing mutates a kind after creation.
#[derive(Debug)]
pub struct Token {
    pub token_kind: TokenKind,
    pub literal: String,
}

impl Clone for Token {
    fn clone(&self) -> (r: Token)
        ensures
            r == *self,
    {
        Token { token_kind: self.token_kind, literal: self.literal.clone() }
    }
}

impl PartialEq for Token {
    fn eq(&self, other: &Token) -> (r: bool) {
        self.token_kind == other.token_kind && self.literal == other.literal
    }
}

impl vstd::std_specs::cmp::PartialEqSpecImpl for Token {
    open spec fn obeys_eq_spec() -> bool {
        true
    }

    open spec fn eq_spec(&self, other: &Token) -> bool {
        self.token_kind == other.token_kind && self.literal@ == other.literal@
    }
}

/// The kind the scanner gives a maximal letter run: one of the seven
/// keywords, or `Ident` for every other name.
pub open spec fn spec_lookup_ident(s: Seq<char>) -> TokenKind {
    if s == "fn"@ {
        TokenKind::Function
    } else if s == "let"@ {
        TokenKind::Let
    } else if s == "true"@ {
        TokenKind::True
    } else if s == "false"@ {
        TokenKind::False
    } else if s == "if"@ {
        TokenKind::If
    } else if s == "else"@ {
        TokenKind::Else
    } else if s == "return"@ {
        TokenKind::Return
    } else {
        TokenKind::Ident
    }
}

/// Resolves a scanned identifier against the fixed keyword table.
pub fn lookup_ident(ident: &str) -> (kind: TokenKind)
    ensures
        kind == spec_lookup_ident(ident@),
{
    let s = String::from_str(ident);
    if s == String::from_str("fn") {
        TokenKind::Function
    } else if s == String::from_str("let") {
        TokenKind::Let
    } else if s == String::from_str("true") {
        TokenKind::True
    } else if s == String::from_str("false") {
        TokenKind::False
    } else if s == String::from_str("if") {
        TokenKind::If
    } else if s == String::from_str("else") {
        TokenKind::Else
    } else if s == String::from_str("return") {
        TokenKind::Return
    } else {
        TokenKind::Ident
    }
}

} // verus!
