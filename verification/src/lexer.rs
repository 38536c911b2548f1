//! The lexer: a deterministic, single-pass, one-character-lookahead scanner
//! that turns source text into a stream of tokens, one per call.
//!
//! The spec-level scanner [`spec_next_token`] says exactly which token a scan
//! starting at a given cursor position yields and where the cursor stands
//! afterwards; [`Lexer::next_token`] is verified against it.

use vstd::prelude::*;
use vstd::string::StrSliceExecFns;
use vstd::string::StringExecFns;

use crate::token::lookup_ident;
use crate::token::spec_lookup_ident;
use crate::token::Token;
use crate::token::TokenKind;

verus! {

/// The spec-level image of a token: its kind and the characters of its
/// literal text.
pub ghost struct SpecToken {
    pub kind: TokenKind,
    pub literal: Seq<char>,
}

/// Characters that may appear in an identifier: letters and underscore.
pub open spec fn spec_is_letter(c: char) -> bool {
    ('a' as u32 <= c as u32 && c as u32 <= 'z' as u32) || ('A' as u32 <= c as u32 && c as u32
        <= 'Z' as u32) || c == '_'
}

/// Decimal digits.
pub open spec fn spec_is_digit(c: char) -> bool {
    '0' as u32 <= c as u32 && c as u32 <= '9' as u32
}

/// The whitespace the scanner consumes between tokens.
pub open spec fn spec_is_whitespace(c: char) -> bool {
    c == ' ' || c == '\t' || c == '\n' || c == '\r'
}

/// The first position at or after `pos` that does not hold whitespace, or
/// the end of the input.
pub open spec fn skip_ws_from(s: Seq<char>, pos: int) -> int
    decreases s.len() - pos,
{
    if 0 <= pos < s.len() && spec_is_whitespace(s[pos]) {
        skip_ws_from(s, pos + 1)
    } else {
        pos
    }
}

/// The end of the maximal run of identifier characters starting at `pos`.
pub open spec fn ident_end(s: Seq<char>, pos: int) -> int
    decreases s.len() - pos,
{
    if 0 <= pos < s.len() && spec_is_letter(s[pos]) {
        ident_end(s, pos + 1)
    } else {
        pos
    }
}

/// The end of the maximal run of digits starting at `pos`.
pub open spec fn number_end(s: Seq<char>, pos: int) -> int
    decreases s.len() - pos,
{
    if 0 <= pos < s.len() && spec_is_digit(s[pos]) {
        number_end(s, pos + 1)
    } else {
        pos
    }
}

/// A token of one character taken from position `p` of the input.
pub open spec fn spec_single(kind: TokenKind, s: Seq<char>, p: int) -> SpecToken {
    SpecToken { kind, literal: s.subrange(p, p + 1) }
}

/// The token a scan starting at position `pos` yields, together with the
/// cursor position after it: skip whitespace, then dispatch on the character
/// under the cursor. At the end of the input the result is `Eof`, from a
/// position that no further scan moves.
pub open spec fn spec_next_token(s: Seq<char>, pos: int) -> (SpecToken, int) {
    let p = skip_ws_from(s, pos);
    if !(0 <= p < s.len()) {
        (SpecToken { kind: TokenKind::Eof, literal: Seq::empty() }, p)
    } else {
        let c = s[p];
        if c == '=' {
            if p + 1 < s.len() && s[p + 1] == '=' {
                (SpecToken { kind: TokenKind::Eq, literal: s.subrange(p, p + 2) }, p + 2)
            } else {
                (spec_single(TokenKind::Assign, s, p), p + 1)
            }
        } else if c == '!' {
            if p + 1 < s.len() && s[p + 1] == '=' {
                (SpecToken { kind: TokenKind::NotEq, literal: s.subrange(p, p + 2) }, p + 2)
            } else {
                (spec_single(TokenKind::Bang, s, p), p + 1)
            }
        } else if c == '+' {
            (spec_single(TokenKind::Plus, s, p), p + 1)
        } else if c == '-' {
            (spec_single(TokenKind::Minus, s, p), p + 1)
        } else if c == '/' {
            (spec_single(TokenKind::Slash, s, p), p + 1)
        } else if c == '*' {
            (spec_single(TokenKind::Asterisk, s, p), p + 1)
        } else if c == '<' {
            (spec_single(TokenKind::Lt, s, p), p + 1)
        } else if c == '>' {
            (spec_single(TokenKind::Gt, s, p), p + 1)
        } else if c == ';' {
            (spec_single(TokenKind::Semicolon, s, p), p + 1)
        } else if c == '(' {
            (spec_single(TokenKind::LParen, s, p), p + 1)
        } else if c == ')' {
            (spec_single(TokenKind::RParen, s, p), p + 1)
        } else if c == ',' {
            (spec_single(TokenKind::Comma, s, p), p + 1)
        } else if c == '{' {
            (spec_single(TokenKind::LBrace, s, p), p + 1)
        } else if c == '}' {
            (spec_single(TokenKind::RBrace, s, p), p + 1)
        } else if spec_is_letter(c) {
            let q = ident_end(s, p);
            (SpecToken { kind: spec_lookup_ident(s.subrange(p, q)), literal: s.subrange(p, q) }, q)
        } else if spec_is_digit(c) {
            let q = number_end(s, p);
            (SpecToken { kind: TokenKind::Int, literal: s.subrange(p, q) }, q)
        } else {
            (SpecToken { kind: TokenKind::Illegal, literal: Seq::empty() }, p + 1)
        }
    }
}

/// The cursor never moves backwards and stays within the input.
pub proof fn lemma_skip_ws_bounds(s: Seq<char>, pos: int)
    requires
        0 <= pos <= s.len(),
    ensures
        pos <= skip_ws_from(s, pos) <= s.len(),
    decreases s.len() - pos,
{
    if pos < s.len() && spec_is_whitespace(s[pos]) {
        lemma_skip_ws_bounds(s, pos + 1);
    }
}

/// An identifier run ends within the input, and strictly after a position
/// that holds a letter.
pub proof fn lemma_ident_end_bounds(s: Seq<char>, pos: int)
    requires
        0 <= pos <= s.len(),
    ensures
        pos <= ident_end(s, pos) <= s.len(),
        spec_is_letter(s[pos]) && pos < s.len() ==> pos + 1 <= ident_end(s, pos),
    decreases s.len() - pos,
{
    if pos < s.len() && spec_is_letter(s[pos]) {
        lemma_ident_end_bounds(s, pos + 1);
    }
}

/// A digit run ends within the input, and strictly after a position that
/// holds a digit.
pub proof fn lemma_number_end_bounds(s: Seq<char>, pos: int)
    requires
        0 <= pos <= s.len(),
    ensures
        pos <= number_end(s, pos) <= s.len(),
        spec_is_digit(s[pos]) && pos < s.len() ==> pos + 1 <= number_end(s, pos),
    decreases s.len() - pos,
{
    if pos < s.len() && spec_is_digit(s[pos]) {
        lemma_number_end_bounds(s, pos + 1);
    }
}

/// A scan never moves the cursor backwards, never moves it past the end of
/// the input, and moves it strictly forward whenever the token is not `Eof`.
pub proof fn lemma_scan_progress(s: Seq<char>, pos: int)
    requires
        0 <= pos <= s.len(),
    ensures
        pos <= spec_next_token(s, pos).1 <= s.len(),
        spec_next_token(s, pos).0.kind != TokenKind::Eof ==> pos < spec_next_token(s, pos).1,
{
    lemma_skip_ws_bounds(s, pos);
    let p = skip_ws_from(s, pos);
    if 0 <= p < s.len() {
        lemma_ident_end_bounds(s, p);
        lemma_number_end_bounds(s, p);
    }
}

/// Idempotent termination: once a scan yields `Eof`, every later scan yields
/// the same `Eof` token again, from an unchanged cursor position.
pub proof fn lemma_eof_is_terminal(s: Seq<char>, pos: int)
    requires
        0 <= pos <= s.len(),
        spec_next_token(s, pos).0.kind == TokenKind::Eof,
    ensures
        spec_next_token(s, pos).1 == s.len(),
        spec_next_token(s, spec_next_token(s, pos).1) == spec_next_token(s, pos),
{
    lemma_skip_ws_bounds(s, pos);
}

/// A cursor-driven scanner over the characters of an owned copy of the
/// source text. `position` indexes the character under the cursor, `ch`
/// caches it (the NUL sentinel once the input is exhausted), and
/// `read_position` indexes the next unread character.
pub struct Lexer {
    input: String,
    length: usize,
    position: usize,
    read_position: usize,
    ch: char,
}

impl Lexer {
    /// Internal consistency of the cursor: it stands on a character of the
    /// input, or at the end with the sentinel cached.
    pub closed spec fn wf(&self) -> bool {
        &&& self.length == self.input@.len()
        &&& self.position <= self.length
        &&& if self.position < self.length {
            self.read_position == self.position + 1 && self.ch == self.input@[
                self.position as int]
        } else {
            self.read_position == self.position && self.ch == '\0'
        }
    }

    /// The characters of the source text this scanner was built over.
    pub closed spec fn spec_input(&self) -> Seq<char> {
        self.input@
    }

    /// The position of the character under the cursor.
    pub closed spec fn spec_pos(&self) -> int {
        self.position as int
    }

    /// Builds a scanner over `input` with the cursor on its first character.
    pub fn new(input: String) -> (l: Lexer)
        ensures
            l.wf(),
            l.spec_input() == input@,
            l.spec_pos() == 0,
    {
        let length = input.as_str().unicode_len();
        let mut l = Lexer { input, length, position: 0, read_position: 0, ch: '\0' };
        if length > 0 {
            l.ch = l.input.as_str().get_char(0);
            l.read_position = 1;
        }
        l
    }

    /// Shifts the cursor one character forward; at the end of the input it
    /// stays put and keeps the sentinel. Always succeeds.
    fn read_char(&mut self)
        requires
            old(self).wf(),
        ensures
            final(self).wf(),
            final(self).spec_input() == old(self).spec_input(),
            final(self).spec_pos() == if old(self).spec_pos() < old(self).spec_input().len() {
                old(self).spec_pos() + 1
            } else {
                old(self).spec_pos()
            },
    {
        if self.read_position < self.length {
            let c = self.input.as_str().get_char(self.read_position);
            self.ch = c;
            self.position = self.read_position;
            self.read_position = self.read_position + 1;
        } else {
            self.ch = '\0';
            self.position = self.length;
            self.read_position = self.length;
        }
    }

    /// The character after the one under the cursor, without consuming it;
    /// the NUL sentinel at the end of the input.
    fn peek_char(&self) -> (c: char)
        requires
            self.wf(),
        ensures
            c == if self.spec_pos() + 1 < self.spec_input().len() {
                self.spec_input()[self.spec_pos() + 1]
            } else {
                '\0'
            },
    {
        if self.read_position < self.length {
            self.input.as_str().get_char(self.read_position)
        } else {
            '\0'
        }
    }

    /// Whether `ch` may appear in an identifier.
    fn is_letter(ch: &char) -> (r: bool)
        ensures
            r == spec_is_letter(*ch),
    {
        let c = *ch;
        ('a' as u32 <= c as u32 && c as u32 <= 'z' as u32) || ('A' as u32 <= c as u32 && c as u32
            <= 'Z' as u32) || c == '_'
    }

    /// Whether `ch` is a decimal digit.
    fn is_digit(ch: &char) -> (r: bool)
        ensures
            r == spec_is_digit(*ch),
    {
        let c = *ch;
        '0' as u32 <= c as u32 && c as u32 <= '9' as u32
    }

    /// Consumes whitespace until the cursor stands on something else.
    fn skip_whitespace(&mut self)
        requires
            old(self).wf(),
        ensures
            final(self).wf(),
            final(self).spec_input() == old(self).spec_input(),
            final(self).spec_pos() == skip_ws_from(old(self).spec_input(), old(self).spec_pos()),
    {
        while self.position < self.length && (self.ch == ' ' || self.ch == '\t' || self.ch == '\n'
            || self.ch == '\r')
            invariant
                self.wf(),
                self.spec_input() == old(self).spec_input(),
                skip_ws_from(self.spec_input(), self.spec_pos()) == skip_ws_from(
                    old(self).spec_input(),
                    old(self).spec_pos(),
                ),
            decreases self.spec_input().len() - self.spec_pos(),
        {
            self.read_char();
        }
    }

    /// A token of one character taken from under the cursor.
    fn new_token(&self, token_kind: TokenKind) -> (tok: Token)
        requires
            self.wf(),
            self.spec_pos() < self.spec_input().len(),
        ensures
            tok.token_kind == token_kind,
            tok.literal@ == self.spec_input().subrange(self.spec_pos(), self.spec_pos() + 1),
    {
        let lit = self.input.as_str().substring_char(self.position, self.position + 1);
        Token { token_kind, literal: String::from_str(lit) }
    }

    /// The two characters under the cursor, as the literal of a
    /// two-character operator.
    fn two_char_literal(&self) -> (lit: String)
        requires
            self.wf(),
            self.spec_pos() + 1 < self.spec_input().len(),
        ensures
            lit@ == self.spec_input().subrange(self.spec_pos(), self.spec_pos() + 2),
    {
        let lit = self.input.as_str().substring_char(self.position, self.position + 2);
        String::from_str(lit)
    }

    /// Consumes the maximal run of identifier characters under the cursor.
    fn read_identifier(&mut self) -> (r: String)
        requires
            old(self).wf(),
            old(self).spec_pos() < old(self).spec_input().len(),
            spec_is_letter(old(self).spec_input()[old(self).spec_pos()]),
        ensures
            final(self).wf(),
            final(self).spec_input() == old(self).spec_input(),
            final(self).spec_pos() == ident_end(old(self).spec_input(), old(self).spec_pos()),
            r@ == old(self).spec_input().subrange(old(self).spec_pos(), final(self).spec_pos()),
    {
        let start = self.position;
        while self.position < self.length && Self::is_letter(&self.ch)
            invariant
                self.wf(),
                self.spec_input() == old(self).spec_input(),
                start <= self.position,
                ident_end(self.spec_input(), self.spec_pos()) == ident_end(
                    old(self).spec_input(),
                    old(self).spec_pos(),
                ),
            decreases self.spec_input().len() - self.spec_pos(),
        {
            self.read_char();
        }
        let lit = self.input.as_str().substring_char(start, self.position);
        String::from_str(lit)
    }

    /// Consumes the maximal run of digits under the cursor.
    fn read_number(&mut self) -> (r: String)
        requires
            old(self).wf(),
            old(self).spec_pos() < old(self).spec_input().len(),
            spec_is_digit(old(self).spec_input()[old(self).spec_pos()]),
        ensures
            final(self).wf(),
            final(self).spec_input() == old(self).spec_input(),
            final(self).spec_pos() == number_end(old(self).spec_input(), old(self).spec_pos()),
            r@ == old(self).spec_input().subrange(old(self).spec_pos(), final(self).spec_pos()),
    {
        let start = self.position;
        while self.position < self.length && Self::is_digit(&self.ch)
            invariant
                self.wf(),
                self.spec_input() == old(self).spec_input(),
                start <= self.position,
                number_end(self.spec_input(), self.spec_pos()) == number_end(
                    old(self).spec_input(),
                    old(self).spec_pos(),
                ),
            decreases self.spec_input().len() - self.spec_pos(),
        {
            self.read_char();
        }
        let lit = self.input.as_str().substring_char(start, self.position);
        String::from_str(lit)
    }

    /// Scans and returns the next token, advancing the cursor past it.
    /// Scanning never fails: unrecognized characters come back as `Illegal`
    /// tokens, and at the end of the input every call returns `Eof`.
    pub fn next_token(&mut self) -> (tok: Token)
        requires
            old(self).wf(),
        ensures
            final(self).wf(),
            final(self).spec_input() == old(self).spec_input(),
            ({
                let (st, end) = spec_next_token(old(self).spec_input(), old(self).spec_pos());
                &&& tok.token_kind == st.kind
                &&& tok.literal@ == st.literal
                &&& final(self).spec_pos() == end
            }),
    {
        self.skip_whitespace();
        if self.position >= self.length {
            return Token { token_kind: TokenKind::Eof, literal: String::new() };
        }
        let c = self.ch;
        let tok: Token;
        if c == '=' {
            if self.peek_char() == '=' {
                let lit = self.two_char_literal();
                self.read_char();
                tok = Token { token_kind: TokenKind::Eq, literal: lit };
            } else {
                tok = self.new_token(TokenKind::Assign);
            }
        } else if c == '!' {
            if self.peek_char() == '=' {
                let lit = self.two_char_literal();
                self.read_char();
                tok = Token { token_kind: TokenKind::NotEq, literal: lit };
            } else {
                tok = self.new_token(TokenKind::Bang);
            }
        } else if c == '+' {
            tok = self.new_token(TokenKind::Plus);
        } else if c == '-' {
            tok = self.new_token(TokenKind::Minus);
        } else if c == '/' {
            tok = self.new_token(TokenKind::Slash);
        } else if c == '*' {
            tok = self.new_token(TokenKind::Asterisk);
        } else if c == '<' {
            tok = self.new_token(TokenKind::Lt);
        } else if c == '>' {
            tok = self.new_token(TokenKind::Gt);
        } else if c == ';' {
            tok = self.new_token(TokenKind::Semicolon);
        } else if c == '(' {
            tok = self.new_token(TokenKind::LParen);
        } else if c == ')' {
            tok = self.new_token(TokenKind::RParen);
        } else if c == ',' {
            tok = self.new_token(TokenKind::Comma);
        } else if c == '{' {
            tok = self.new_token(TokenKind::LBrace);
        } else if c == '}' {
            tok = self.new_token(TokenKind::RBrace);
        } else if Self::is_letter(&c) {
            let lit = self.read_identifier();
            let kind = lookup_ident(lit.as_str());
            return Token { token_kind: kind, literal: lit };
        } else if Self::is_digit(&c) {
            let lit = self.read_number();
            return Token { token_kind: TokenKind::Int, literal: lit };
        } else {
            tok = Token { token_kind: TokenKind::Illegal, literal: String::new() };
        }
        self.read_char();
        tok
    }
}

} // verus!
