//! Tokens, their model, and the character classes of the language.

use vstd::prelude::*;
use vstd::utf8::encode_utf8;
use crate::text::str_eq;

verus! {

/// A token of the source language.
#[derive(Debug)]
pub enum Token {
    IntLiteral(String),
    FloatLiteral(String),
    StrLiteral(String),
    Ident(String),
    Op(String),
    DocComment(String),
    Proc,
    If,
    Elif,
    Else,
    While,
    Loop,
    Var,
    Const,
    Return,
    Use,
    Break,
    Continue,
    LParen,
    RParen,
    LBracket,
    RBracket,
    LBrace,
    RBrace,
    Comma,
    Equals,
    Colon,
    Newline,
    /// End of input; the parser makes it, the lexer never does.
    EOF,
}

/// The model of a token: its text is a sequence of characters.
pub enum SpecToken {
    IntLiteral(Seq<char>),
    FloatLiteral(Seq<char>),
    StrLiteral(Seq<char>),
    Ident(Seq<char>),
    Op(Seq<char>),
    DocComment(Seq<char>),
    Proc,
    If,
    Elif,
    Else,
    While,
    Loop,
    Var,
    Const,
    Return,
    Use,
    Break,
    Continue,
    LParen,
    RParen,
    LBracket,
    RBracket,
    LBrace,
    RBrace,
    Comma,
    Equals,
    Colon,
    Newline,
    EOF,
}

impl DeepView for Token {
    type V = SpecToken;

    open spec fn deep_view(&self) -> SpecToken {
        match *self {
            Token::IntLiteral(s) => SpecToken::IntLiteral(s@),
            Token::FloatLiteral(s) => SpecToken::FloatLiteral(s@),
            Token::StrLiteral(s) => SpecToken::StrLiteral(s@),
            Token::Ident(s) => SpecToken::Ident(s@),
            Token::Op(s) => SpecToken::Op(s@),
            Token::DocComment(s) => SpecToken::DocComment(s@),
            Token::Proc => SpecToken::Proc,
            Token::If => SpecToken::If,
            Token::Elif => SpecToken::Elif,
            Token::Else => SpecToken::Else,
            Token::While => SpecToken::While,
            Token::Loop => SpecToken::Loop,
            Token::Var => SpecToken::Var,
            Token::Const => SpecToken::Const,
            Token::Return => SpecToken::Return,
            Token::Use => SpecToken::Use,
            Token::Break => SpecToken::Break,
            Token::Continue => SpecToken::Continue,
            Token::LParen => SpecToken::LParen,
            Token::RParen => SpecToken::RParen,
            Token::LBracket => SpecToken::LBracket,
            Token::RBracket => SpecToken::RBracket,
            Token::LBrace => SpecToken::LBrace,
            Token::RBrace => SpecToken::RBrace,
            Token::Comma => SpecToken::Comma,
            Token::Equals => SpecToken::Equals,
            Token::Colon => SpecToken::Colon,
            Token::Newline => SpecToken::Newline,
            Token::EOF => SpecToken::EOF,
        }
    }
}

impl Token {
    /// Whether two tokens are of the same kind and hold the same text.
    pub fn same(&self, other: &Token) -> (r: bool)
        ensures
            r == (self.deep_view() == other.deep_view()),
    {
        match (self, other) {
            (Token::IntLiteral(a), Token::IntLiteral(b)) => *a == *b,
            (Token::FloatLiteral(a), Token::FloatLiteral(b)) => *a == *b,
            (Token::StrLiteral(a), Token::StrLiteral(b)) => *a == *b,
            (Token::Ident(a), Token::Ident(b)) => *a == *b,
            (Token::Op(a), Token::Op(b)) => *a == *b,
            (Token::DocComment(a), Token::DocComment(b)) => *a == *b,
            (Token::Proc, Token::Proc) => true,
            (Token::If, Token::If) => true,
            (Token::Elif, Token::Elif) => true,
            (Token::Else, Token::Else) => true,
            (Token::While, Token::While) => true,
            (Token::Loop, Token::Loop) => true,
            (Token::Var, Token::Var) => true,
            (Token::Const, Token::Const) => true,
            (Token::Return, Token::Return) => true,
            (Token::Use, Token::Use) => true,
            (Token::Break, Token::Break) => true,
            (Token::Continue, Token::Continue) => true,
            (Token::LParen, Token::LParen) => true,
            (Token::RParen, Token::RParen) => true,
            (Token::LBracket, Token::LBracket) => true,
            (Token::RBracket, Token::RBracket) => true,
            (Token::LBrace, Token::LBrace) => true,
            (Token::RBrace, Token::RBrace) => true,
            (Token::Comma, Token::Comma) => true,
            (Token::Equals, Token::Equals) => true,
            (Token::Colon, Token::Colon) => true,
            (Token::Newline, Token::Newline) => true,
            (Token::EOF, Token::EOF) => true,
            _ => false,
        }
    }
}

impl Clone for Token {
    fn clone(&self) -> (r: Token)
        ensures
            r.deep_view() == self.deep_view(),
    {
        match self {
            Token::IntLiteral(s) => Token::IntLiteral(s.clone()),
            Token::FloatLiteral(s) => Token::FloatLiteral(s.clone()),
            Token::StrLiteral(s) => Token::StrLiteral(s.clone()),
            Token::Ident(s) => Token::Ident(s.clone()),
            Token::Op(s) => Token::Op(s.clone()),
            Token::DocComment(s) => Token::DocComment(s.clone()),
            Token::Proc => Token::Proc,
            Token::If => Token::If,
            Token::Elif => Token::Elif,
            Token::Else => Token::Else,
            Token::While => Token::While,
            Token::Loop => Token::Loop,
            Token::Var => Token::Var,
            Token::Const => Token::Const,
            Token::Return => Token::Return,
            Token::Use => Token::Use,
            Token::Break => Token::Break,
            Token::Continue => Token::Continue,
            Token::LParen => Token::LParen,
            Token::RParen => Token::RParen,
            Token::LBracket => Token::LBracket,
            Token::RBracket => Token::RBracket,
            Token::LBrace => Token::LBrace,
            Token::RBrace => Token::RBrace,
            Token::Comma => Token::Comma,
            Token::Equals => Token::Equals,
            Token::Colon => Token::Colon,
            Token::Newline => Token::Newline,
            Token::EOF => Token::EOF,
        }
    }
}

impl PartialEq for Token {
    fn eq(&self, other: &Token) -> (r: bool) {
        self.same(other)
    }
}

impl vstd::std_specs::cmp::PartialEqSpecImpl for Token {
    open spec fn obeys_eq_spec() -> bool {
        true
    }

    open spec fn eq_spec(&self, other: &Token) -> bool {
        self.deep_view() == other.deep_view()
    }
}

/// A letter of the ASCII alphabet.
pub open spec fn is_ascii_letter(ch: char) -> bool {
    ('a' <= ch <= 'z') || ('A' <= ch <= 'Z')
}

/// An ASCII decimal digit.
pub open spec fn is_ascii_digit(ch: char) -> bool {
    '0' <= ch <= '9'
}

/// ASCII white space: space, tab, line feed, form feed, carriage return.
pub open spec fn spec_is_whitespace(ch: char) -> bool {
    ch == ' ' || ch == '\t' || ch == '\n' || ch == '\x0C' || ch == '\r'
}

/// A character that may continue an identifier.
pub open spec fn spec_is_ident(ch: char) -> bool {
    is_ascii_letter(ch) || is_ascii_digit(ch) || ch == '_'
}

/// A character that may start an identifier.
pub open spec fn spec_is_ident_start(ch: char) -> bool {
    is_ascii_letter(ch) || ch == '_'
}

/// A character that may continue a number: a digit, or the first decimal
/// point.
pub open spec fn spec_is_number(ch: char, decimal_passed: bool) -> bool {
    is_ascii_digit(ch) || (ch == '.' && !decimal_passed)
}

/// One of the nine characters that are tokens by themselves.
pub open spec fn spec_is_special(ch: char) -> bool {
    ch == '(' || ch == ')' || ch == '[' || ch == ']' || ch == '{' || ch == '}' || ch == ','
        || ch == '=' || ch == ':'
}

/// ASCII punctuation, of which operators are made.
pub open spec fn spec_is_op(ch: char) -> bool {
    ('!' <= ch <= '/') || (':' <= ch <= '@') || ('[' <= ch <= '`') || ('{' <= ch <= '~')
}

/// The keyword that `s` spells, if it spells one.
pub open spec fn spec_str_to_keyword(s: Seq<char>) -> Option<SpecToken> {
    if s == "proc"@ {
        Some(SpecToken::Proc)
    } else if s == "if"@ {
        Some(SpecToken::If)
    } else if s == "else"@ {
        Some(SpecToken::Else)
    } else if s == "elif"@ {
        Some(SpecToken::Elif)
    } else if s == "while"@ {
        Some(SpecToken::While)
    } else if s == "loop"@ {
        Some(SpecToken::Loop)
    } else if s == "var"@ {
        Some(SpecToken::Var)
    } else if s == "const"@ {
        Some(SpecToken::Const)
    } else if s == "return"@ {
        Some(SpecToken::Return)
    } else if s == "use"@ {
        Some(SpecToken::Use)
    } else if s == "break"@ {
        Some(SpecToken::Break)
    } else if s == "continue"@ {
        Some(SpecToken::Continue)
    } else {
        None
    }
}

/// The token that a word is: a keyword, or else an identifier.
pub open spec fn word_token(s: Seq<char>) -> SpecToken {
    match spec_str_to_keyword(s) {
        Some(keyword) => keyword,
        None => SpecToken::Ident(s),
    }
}

/// The token that a special character is.
pub open spec fn special_token(ch: char) -> SpecToken
    recommends
        spec_is_special(ch),
{
    if ch == '(' {
        SpecToken::LParen
    } else if ch == ')' {
        SpecToken::RParen
    } else if ch == '[' {
        SpecToken::LBracket
    } else if ch == ']' {
        SpecToken::RBracket
    } else if ch == '{' {
        SpecToken::LBrace
    } else if ch == '}' {
        SpecToken::RBrace
    } else if ch == ',' {
        SpecToken::Comma
    } else if ch == '=' {
        SpecToken::Equals
    } else {
        SpecToken::Colon
    }
}

/// The length of a token in the source: for a token with text, the number
/// of bytes of the text in UTF-8 (two more for a documentation comment's
/// marker); for the others, the length of their spelling.
pub open spec fn spec_token_len(t: SpecToken) -> nat
    recommends
        !(t is EOF),
{
    match t {
        SpecToken::IntLiteral(s) => encode_utf8(s).len(),
        SpecToken::FloatLiteral(s) => encode_utf8(s).len(),
        SpecToken::StrLiteral(s) => encode_utf8(s).len(),
        SpecToken::Ident(s) => encode_utf8(s).len(),
        SpecToken::Op(s) => encode_utf8(s).len(),
        SpecToken::DocComment(s) => encode_utf8(s).len() + 2,
        SpecToken::Proc => 4,
        SpecToken::If => 2,
        SpecToken::Else => 4,
        SpecToken::Elif => 4,
        SpecToken::While => 5,
        SpecToken::Loop => 4,
        SpecToken::Var => 3,
        SpecToken::Const => 5,
        SpecToken::Return => 6,
        SpecToken::Use => 3,
        SpecToken::Break => 5,
        SpecToken::Continue => 8,
        SpecToken::LParen => 1,
        SpecToken::RParen => 1,
        SpecToken::LBracket => 1,
        SpecToken::RBracket => 1,
        SpecToken::LBrace => 1,
        SpecToken::RBrace => 1,
        SpecToken::Comma => 1,
        SpecToken::Equals => 1,
        SpecToken::Colon => 1,
        SpecToken::Newline => 1,
        SpecToken::EOF => 0,
    }
}

#[verifier::when_used_as_spec(spec_is_ident)]
pub fn is_ident(ch: char) -> (r: bool)
    ensures
        r == spec_is_ident(ch),
{
    ('a' <= ch && ch <= 'z') || ('A' <= ch && ch <= 'Z') || ('0' <= ch && ch <= '9') || ch == '_'
}

#[verifier::when_used_as_spec(spec_is_ident_start)]
pub fn is_ident_start(ch: char) -> (r: bool)
    ensures
        r == spec_is_ident_start(ch),
{
    ('a' <= ch && ch <= 'z') || ('A' <= ch && ch <= 'Z') || ch == '_'
}

#[verifier::when_used_as_spec(spec_is_number)]
pub fn is_number(ch: char, decimal_passed: bool) -> (r: bool)
    ensures
        r == spec_is_number(ch, decimal_passed),
{
    ('0' <= ch && ch <= '9') || (ch == '.' && !decimal_passed)
}

#[verifier::when_used_as_spec(spec_is_special)]
pub fn is_special(ch: char) -> (r: bool)
    ensures
        r == spec_is_special(ch),
{
    ch == '(' || ch == ')' || ch == '[' || ch == ']' || ch == '{' || ch == '}' || ch == ','
        || ch == '=' || ch == ':'
}

#[verifier::when_used_as_spec(spec_is_op)]
pub fn is_op(ch: char) -> (r: bool)
    ensures
        r == spec_is_op(ch),
{
    ('!' <= ch && ch <= '/') || (':' <= ch && ch <= '@') || ('[' <= ch && ch <= '`') || ('{' <= ch
        && ch <= '~')
}

#[verifier::when_used_as_spec(spec_is_whitespace)]
pub fn is_whitespace(ch: char) -> (r: bool)
    ensures
        r == spec_is_whitespace(ch),
{
    ch == ' ' || ch == '\t' || ch == '\n' || ch == '\x0C' || ch == '\r'
}

/// The keyword that `s` spells, if it spells one.
pub fn str_to_keyword(s: &str) -> (keyword: Option<Token>)
    ensures
        match spec_str_to_keyword(s@) {
            Some(k) => keyword is Some && keyword->Some_0.deep_view() == k,
            None => keyword is None,
        },
{
    if str_eq(s, "proc") {
        Some(Token::Proc)
    } else if str_eq(s, "if") {
        Some(Token::If)
    } else if str_eq(s, "else") {
        Some(Token::Else)
    } else if str_eq(s, "elif") {
        Some(Token::Elif)
    } else if str_eq(s, "while") {
        Some(Token::While)
    } else if str_eq(s, "loop") {
        Some(Token::Loop)
    } else if str_eq(s, "var") {
        Some(Token::Var)
    } else if str_eq(s, "const") {
        Some(Token::Const)
    } else if str_eq(s, "return") {
        Some(Token::Return)
    } else if str_eq(s, "use") {
        Some(Token::Use)
    } else if str_eq(s, "break") {
        Some(Token::Break)
    } else if str_eq(s, "continue") {
        Some(Token::Continue)
    } else {
        None
    }
}

/// The identifier token that `s` spells.
pub fn str_to_ident(s: &str) -> (ident: Token)
    ensures
        ident.deep_view() == SpecToken::Ident(s@),
{
    Token::Ident(s.to_owned())
}

/// The length of a token in the source.
pub fn token_len(t: &Token) -> (n: usize)
    requires
        !(t.deep_view() is EOF),
        t.deep_view() is DocComment ==> spec_token_len(t.deep_view()) <= usize::MAX,
    ensures
        n == spec_token_len(t.deep_view()),
{
    match t {
        Token::IntLiteral(s) => s.as_str().as_bytes().len(),
        Token::FloatLiteral(s) => s.as_str().as_bytes().len(),
        Token::StrLiteral(s) => s.as_str().as_bytes().len(),
        Token::Ident(s) => s.as_str().as_bytes().len(),
        Token::Op(s) => s.as_str().as_bytes().len(),
        Token::DocComment(s) => s.as_str().as_bytes().len() + 2,
        Token::Proc => 4,
        Token::If => 2,
        Token::Else => 4,
        Token::Elif => 4,
        Token::While => 5,
        Token::Loop => 4,
        Token::Var => 3,
        Token::Const => 5,
        Token::Return => 6,
        Token::Use => 3,
        Token::Break => 5,
        Token::Continue => 8,
        Token::LParen
        | Token::RParen
        | Token::LBracket
        | Token::RBracket
        | Token::LBrace
        | Token::RBrace
        | Token::Comma
        | Token::Equals
        | Token::Colon => 1,
        Token::Newline => 1,
        Token::EOF => 0,
    }
}

/// The length of a token in the source, or `None` where it has none that
/// fits: for the end-of-input marker, or a text too long to be measured.
pub fn checked_token_len(t: &Token) -> (n: Option<usize>)
    ensures
        n == if !(t.deep_view() is EOF) && spec_token_len(t.deep_view()) <= usize::MAX {
            Some(spec_token_len(t.deep_view()) as usize)
        } else {
            None
        },
{
    match t {
        Token::EOF => None,
        Token::DocComment(s) => {
            let bytes = s.as_str().as_bytes().len();
            if bytes > usize::MAX - 2 {
                None
            } else {
                Some(bytes + 2)
            }
        },
        _ => Some(token_len(t)),
    }
}

} // verus!
