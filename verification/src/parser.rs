//! The parser: from tokens to syntax trees.

use vstd::prelude::*;
use vstd::string::StrSliceExecFns;
use crate::ast::{lemma_nodes_view, spanned, Node};
use crate::errors::Span;
use crate::grammar::{
    all_digits,
    decimal_value,
    eof_span,
    peek_token,
    spec_assign_statement,
    spec_block,
    spec_block_items,
    spec_call_args,
    spec_const_statement,
    spec_ensure_ident,
    spec_ensure_next,
    spec_ensure_type,
    spec_expr,
    spec_expr_tail,
    spec_go_items,
    spec_if_statement,
    spec_infix_binding_power,
    spec_loop_statement,
    spec_parse_from,
    spec_parse_usize,
    spec_postfix_binding_power,
    spec_prefix_binding_power,
    spec_proc_params,
    spec_proc_statement,
    spec_return_statement,
    spec_statement,
    spec_var_statement,
    spec_while_statement,
    taken_token,
    type_named,
    undefined_literal,
    ParseError,
    ParseErrorKind,
};
use crate::text::str_eq;
use crate::token::{is_ascii_digit, SpecToken, Token};
use crate::types::Type;

verus! {

/// A longer sequence of digits writes no smaller number.
proof fn lemma_decimal_value_grows(digits: Seq<char>, count: int)
    requires
        all_digits(digits),
        0 <= count <= digits.len(),
    ensures
        decimal_value(digits.take(count)) <= decimal_value(digits),
    decreases digits.len(),
{
    if count < digits.len() {
        let shorter = digits.drop_last();
        assert(shorter.take(count) =~= digits.take(count));
        assert(is_ascii_digit(digits.last()));
        lemma_decimal_value_grows(shorter, count);
    } else {
        assert(digits.take(count) =~= digits);
    }
}

/// Reads an array length: decimal digits after an optional plus sign.
pub fn parse_usize(s: &str) -> (parsed: Option<usize>)
    ensures
        parsed == spec_parse_usize(s@),
{
    let n = s.unicode_len();
    let start: usize = if n > 0 && s.get_char(0) == '+' {
        1
    } else {
        0
    };
    let ghost digits = s@.skip(start as int);
    assert(digits =~= if s@.len() > 0 && s@[0] == '+' {
        s@.drop_first()
    } else {
        s@
    });
    if start == n {
        return None;
    }
    let mut value: usize = 0;
    let mut i: usize = start;
    assert(digits.take(0) =~= Seq::empty());
    while i < n
        invariant
            start <= i <= n,
            n == s@.len(),
            digits == s@.skip(start as int),
            digits == if s@.len() > 0 && s@[0] == '+' {
                s@.drop_first()
            } else {
                s@
            },
            all_digits(digits.take(i - start)),
            value == decimal_value(digits.take(i - start)),
        decreases n - i,
    {
        let ch = s.get_char(i);
        assert(ch == digits[i - start]);
        if !('0' <= ch && ch <= '9') {
            return None;
        }
        let digit = (ch as u32 - '0' as u32) as usize;
        proof {
            let longer = digits.take(i - start + 1);
            assert(longer.drop_last() =~= digits.take(i - start));
            assert(longer.last() == ch);
            assert(all_digits(longer));
            assert(decimal_value(longer) == 10 * value + digit);
            if all_digits(digits) {
                lemma_decimal_value_grows(digits, i - start + 1);
            }
        }
        if value > (usize::MAX - digit) / 10 {
            return None;
        }
        value = value * 10 + digit;
        i += 1;
    }
    assert(digits.take(n - start) =~= digits);
    Some(value)
}

/// The built-in type that `id` names.
pub fn named_type(id: &str) -> (typ: Option<Type>)
    ensures
        typ == type_named(id@),
{
    if str_eq(id, "i8") {
        Some(Type::I8)
    } else if str_eq(id, "i16") {
        Some(Type::I16)
    } else if str_eq(id, "i32") {
        Some(Type::I32)
    } else if str_eq(id, "i64") {
        Some(Type::I64)
    } else if str_eq(id, "i128") {
        Some(Type::I128)
    } else if str_eq(id, "n8") {
        Some(Type::N8)
    } else if str_eq(id, "n16") {
        Some(Type::N16)
    } else if str_eq(id, "n32") {
        Some(Type::N32)
    } else if str_eq(id, "n64") {
        Some(Type::N64)
    } else if str_eq(id, "n128") {
        Some(Type::N128)
    } else if str_eq(id, "f32") {
        Some(Type::F32)
    } else if str_eq(id, "f64") {
        Some(Type::F64)
    } else if str_eq(id, "f128") {
        Some(Type::F128)
    } else if str_eq(id, "bool") {
        Some(Type::Bool)
    } else {
        None
    }
}

/// Whether `op` can stand before an operand.
pub fn is_prefix_operator(op: &String) -> (r: bool)
    ensures
        r == spec_prefix_binding_power(op@) is Some,
{
    str_eq(op.as_str(), "!") || str_eq(op.as_str(), "+") || str_eq(op.as_str(), "-")
}

/// How tightly a prefix operator binds what follows it.
pub fn prefix_binding_power(op: &String) -> (power: ((), u8))
    requires
        spec_prefix_binding_power(op@) is Some,
    ensures
        Some(power.1) == spec_prefix_binding_power(op@),
{
    if str_eq(op.as_str(), "!") {
        ((), 8)
    } else {
        ((), 9)
    }
}

/// How tightly a postfix operator binds what stands before it.
pub fn postfix_binding_power(op: &String) -> (power: Option<(u8, ())>)
    ensures
        match spec_postfix_binding_power(op@) {
            Some(left_bp) => power is Some && power->Some_0.0 == left_bp,
            None => power is None,
        },
{
    if str_eq(op.as_str(), "[") {
        Some((11, ()))
    } else {
        None
    }
}

/// How tightly an infix operator binds to its left and to its right.
pub fn infix_binding_power(op: &String) -> (power: Option<(u8, u8)>)
    ensures
        power == spec_infix_binding_power(op@),
{
    let op = op.as_str();
    if str_eq(op, ">") || str_eq(op, "<") || str_eq(op, ">=") || str_eq(op, "<=") || str_eq(
        op,
        "==",
    ) || str_eq(op, "!=") {
        Some((3, 4))
    } else if str_eq(op, "+") || str_eq(op, "-") {
        Some((5, 6))
    } else if str_eq(op, "*") || str_eq(op, "/") {
        Some((7, 8))
    } else {
        None
    }
}

/// What a parser is at a given moment: its tokens and its cursor.
pub struct ParserState {
    pub tokens: Seq<Span<SpecToken>>,
    pub index: int,
}

/// A parser over a slice of tokens.
pub struct Parser<'p> {
    tokens: &'p [Span<Token>],
    index: usize,
}

impl<'p> View for Parser<'p> {
    type V = ParserState;

    closed spec fn view(&self) -> ParserState {
        ParserState { tokens: self.tokens.deep_view(), index: self.index as int }
    }
}

impl<'p> Parser<'p> {
    /// The tokens, as the grammar sees them.
    spec fn model(&self) -> Seq<Span<SpecToken>> {
        self.tokens.deep_view()
    }

    /// There is a token, and the cursor is not past the end.
    spec fn ready(&self) -> bool {
        &&& 0 < self.tokens@.len() < usize::MAX
        &&& self.index <= self.tokens@.len()
    }

    /// A parser at the start of `tokens`.
    pub fn new(tokens: &'p [Span<Token>]) -> (parser: Self)
        requires
            tokens@.len() < usize::MAX,
        ensures
            parser.well_formed(),
            parser@ == (ParserState { tokens: tokens.deep_view(), index: 0 }),
    {
        Parser { tokens, index: 0 }
    }

    fn eof(&self) -> (token: Span<Token>)
        requires
            self.tokens@.len() > 0,
        ensures
            token.deep_view() == eof_span(self.model()),
    {
        let last = &self.tokens[self.tokens.len() - 1];
        assert(self.model().last() == last.deep_view());
        Span { contents: Token::EOF, pos: last.pos, len: last.len }
    }

    fn next(&mut self) -> (token: Span<Token>)
        requires
            old(self).ready(),
        ensures
            final(self).tokens == old(self).tokens,
            final(self).index == old(self).index + 1,
            token.deep_view() == taken_token(old(self).model(), old(self).index as int),
    {
        self.index += 1;
        if self.index >= self.tokens.len() {
            return self.eof();
        }
        let token = &self.tokens[self.index - 1];
        assert(self.model()[self.index - 1] == token.deep_view());
        Span { contents: token.contents.clone(), pos: token.pos, len: token.len }
    }

    fn peek(&self) -> (token: Span<Token>)
        requires
            self.tokens@.len() > 0,
        ensures
            token.deep_view() == peek_token(self.model(), self.index as int),
    {
        if self.index >= self.tokens.len() {
            return self.eof();
        }
        let token = &self.tokens[self.index];
        assert(self.model()[self.index as int] == token.deep_view());
        Span { contents: token.contents.clone(), pos: token.pos, len: token.len }
    }

    fn ensure_next(&mut self, t: Token) -> (outcome: Result<(), ParseError>)
        requires
            old(self).ready(),
            !(t.deep_view() is EOF),
        ensures
            final(self).tokens == old(self).tokens,
            final(self).ready(),
            match spec_ensure_next(old(self).model(), old(self).index as int, t.deep_view()) {
                Ok(index) => outcome is Ok && final(self).index == index,
                Err(failure) => outcome == Err::<(), ParseError>(failure.error)
                    && final(self).index == old(self).index,
            },
    {
        let here = self.peek();
        if here.contents == t {
            self.next();
            Ok(())
        } else {
            Err(ParseError { kind: ParseErrorKind::ExpectedToken, pos: here.pos, len: here.len })
        }
    }

    fn ensure_ident(&mut self) -> (outcome: Result<String, ParseError>)
        requires
            old(self).ready(),
        ensures
            final(self).tokens == old(self).tokens,
            final(self).ready(),
            match spec_ensure_ident(old(self).model(), old(self).index as int) {
                Ok((id, index)) => outcome is Ok && outcome->Ok_0@ == id && final(self).index
                    == index,
                Err(failure) => outcome == Err::<String, ParseError>(failure.error)
                    && final(self).index
                    == failure.index,
            },
    {
        let here = self.peek();
        if let Token::Ident(id) = here.contents {
            self.next();
            Ok(id)
        } else {
            Err(
                ParseError {
                    kind: ParseErrorKind::ExpectedIdentifier,
                    pos: here.pos,
                    len: here.len,
                },
            )
        }
    }

    fn ensure_type(&mut self) -> (outcome: Result<Type, ParseError>)
        requires
            old(self).ready(),
        ensures
            final(self).tokens == old(self).tokens,
            final(self).ready(),
            match spec_ensure_type(old(self).model(), old(self).index as int) {
                Ok((typ, index)) => outcome == Ok::<Type, ParseError>(typ) && final(self).index
                    == index && old(self).index < index,
                Err(failure) => outcome == Err::<Type, ParseError>(failure.error)
                    && final(self).index
                    == failure.index,
            },
        decreases old(self).tokens@.len() - old(self).index,
    {
        let here = self.peek();
        match here.contents {
            Token::Ident(id) => {
                match named_type(id.as_str()) {
                    Some(typ) => {
                        self.next();
                        Ok(typ)
                    },
                    None => Err(
                        ParseError {
                            kind: ParseErrorKind::ExpectedType,
                            pos: here.pos,
                            len: here.len,
                        },
                    ),
                }
            },
            Token::Op(s) => {
                if str_eq(s.as_str(), "*") {
                    self.next();
                    let content_type = self.ensure_type()?;
                    Ok(Type::Ptr(Box::new(content_type)))
                } else {
                    Err(
                        ParseError {
                            kind: ParseErrorKind::ExpectedType,
                            pos: here.pos,
                            len: here.len,
                        },
                    )
                }
            },
            Token::LBracket => {
                self.next();
                let size_token = self.peek();
                if let Token::IntLiteral(size) = size_token.contents {
                    self.next();
                    self.ensure_next(Token::RBracket)?;
                    let content_type = self.ensure_type()?;
                    match parse_usize(size.as_str()) {
                        Some(length) => Ok(Type::Array(length, Box::new(content_type))),
                        None => Err(
                            ParseError {
                                kind: ParseErrorKind::BadArrayLength,
                                pos: size_token.pos,
                                len: size_token.len,
                            },
                        ),
                    }
                } else {
                    Err(
                        ParseError {
                            kind: ParseErrorKind::ExpectedArrayLength,
                            pos: size_token.pos,
                            len: size_token.len,
                        },
                    )
                }
            },
            _ => Err(
                ParseError { kind: ParseErrorKind::ExpectedType, pos: here.pos, len: here.len },
            ),
        }
    }
}

impl<'p> Parser<'p> {
    #[verifier::loop_isolation(false)]
    fn call_args(&mut self) -> (outcome: Result<Vec<Span<Node>>, ParseError>)
        requires
            old(self).ready(),
        ensures
            final(self).tokens == old(self).tokens,
            match spec_call_args(old(self).model(), old(self).index as int, Seq::empty()) {
                Ok((args, index)) => outcome is Ok && outcome->Ok_0.deep_view() == args
                    && final(self).index == index
                    && old(self).index <= index <= old(self).tokens@.len(),
                Err(failure) => outcome == Err::<Vec<Span<Node>>, ParseError>(failure.error)
                    && final(self).index
                    == failure.index,
            },
        decreases old(self).tokens@.len() - old(self).index, 1int,
    {
        let ghost tokens = self.model();
        let ghost start = self.index as int;
        let mut args: Vec<Span<Node>> = Vec::new();
        assert(args.deep_view() =~= Seq::empty());
        loop
            invariant
                self.tokens == old(self).tokens,
                self.ready(),
                start <= self.index,
                spec_call_args(tokens, start, Seq::empty()) == spec_call_args(
                    tokens,
                    self.index as int,
                    args.deep_view(),
                ),
            decreases self.tokens@.len() - self.index,
        {
            if self.peek().contents == Token::RParen {
                return Ok(args);
            }
            let ghost before = args.deep_view();
            let arg = self.expr(0)?;
            args.push(arg);
            assert(args.deep_view() =~= before.push(arg.deep_view()));
            if self.peek().contents != Token::Comma {
                return Ok(args);
            }
            self.ensure_next(Token::Comma)?;
        }
    }

    #[verifier::loop_isolation(false)]
    fn expr_tail(&mut self, left: Span<Node>, min_bp: u8) -> (outcome: Result<
        Span<Node>,
        ParseError,
    >)
        requires
            old(self).ready(),
        ensures
            final(self).tokens == old(self).tokens,
            match spec_expr_tail(
                old(self).model(),
                old(self).index as int,
                left.deep_view(),
                min_bp,
            ) {
                Ok((node, index)) => outcome is Ok && outcome->Ok_0.deep_view() == node
                    && final(self).index == index
                    && old(self).index <= index <= old(self).tokens@.len(),
                Err(failure) => outcome == Err::<Span<Node>, ParseError>(failure.error)
                    && final(self).index
                    == failure.index,
            },
        decreases old(self).tokens@.len() - old(self).index, 2int,
    {
        let ghost tokens = self.model();
        let ghost start = self.index as int;
        let ghost first = left.deep_view();
        let mut left = left;
        loop
            invariant
                self.tokens == old(self).tokens,
                self.ready(),
                start <= self.index,
                spec_expr_tail(tokens, start, first, min_bp) == spec_expr_tail(
                    tokens,
                    self.index as int,
                    left.deep_view(),
                    min_bp,
                ),
            decreases self.tokens@.len() - self.index,
        {
            let here = self.peek();
            let op = match here.contents {
                Token::EOF
                | Token::Newline
                | Token::RParen
                | Token::RBracket
                | Token::Comma
                | Token::LBrace
                | Token::RBrace => return Ok(left),
                Token::Op(op) => op,
                Token::LBracket => "[".to_owned(),
                _ => return Err(
                    ParseError { kind: ParseErrorKind::BadToken, pos: here.pos, len: here.len },
                ),
            };
            if let Some((left_bp, _)) = postfix_binding_power(&op) {
                if left_bp < min_bp {
                    return Ok(left);
                }
                self.next();
                left = if str_eq(op.as_str(), "[") {
                    let right = self.expr(0)?;
                    self.ensure_next(Token::RBracket)?;
                    spanned(Node::IndexOp { object: Box::new(left), index: Box::new(right) }, 0, 0)
                } else {
                    spanned(Node::PostfixOp { op, left: Box::new(left) }, 0, 0)
                };
            } else if let Some((left_bp, right_bp)) = infix_binding_power(&op) {
                if left_bp < min_bp {
                    return Ok(left);
                }
                self.next();
                let right = self.expr(right_bp)?;
                left = spanned(
                    Node::InfixOp { op, left: Box::new(left), right: Box::new(right) },
                    0,
                    0,
                );
            } else {
                return Ok(left);
            }
        }
    }

    fn expr(&mut self, min_bp: u8) -> (outcome: Result<Span<Node>, ParseError>)
        requires
            old(self).ready(),
        ensures
            final(self).tokens == old(self).tokens,
            match spec_expr(old(self).model(), old(self).index as int, min_bp) {
                Ok((node, index)) => outcome is Ok && outcome->Ok_0.deep_view() == node
                    && final(self).index == index
                    && old(self).index < index <= old(self).tokens@.len(),
                Err(failure) => outcome == Err::<Span<Node>, ParseError>(failure.error)
                    && final(self).index
                    == failure.index,
            },
        decreases old(self).tokens@.len() - old(self).index, 0int,
    {
        let first = self.next();
        let left = match first.contents {
            Token::Ident(id) => {
                if self.peek().contents == Token::LParen {
                    self.next();
                    let args = self.call_args()?;
                    self.ensure_next(Token::RParen)?;
                    proof {
                        lemma_nodes_view(args);
                    }
                    spanned(Node::Call { name: id, args }, first.pos, first.len)
                } else {
                    spanned(Node::VariableRef { name: id }, first.pos, first.len)
                }
            },
            Token::IntLiteral(value) => spanned(
                Node::Literal { typ: Type::IntLiteral, value },
                first.pos,
                first.len,
            ),
            Token::FloatLiteral(value) => spanned(
                Node::Literal { typ: Type::FloatLiteral, value },
                first.pos,
                first.len,
            ),
            Token::StrLiteral(value) => spanned(
                Node::Literal { typ: Type::StrLiteral, value },
                first.pos,
                first.len,
            ),
            Token::LParen => {
                let left = self.expr(0)?;
                self.ensure_next(Token::RParen)?;
                left
            },
            Token::Op(op) => {
                if !is_prefix_operator(&op) {
                    return Err(
                        ParseError {
                            kind: ParseErrorKind::UnknownPrefixOperator,
                            pos: first.pos,
                            len: first.len,
                        },
                    );
                }
                let right_bp = prefix_binding_power(&op).1;
                let right = self.expr(right_bp)?;
                spanned(Node::PrefixOp { op, right: Box::new(right) }, first.pos, first.len)
            },
            Token::EOF => {
                return Err(
                    ParseError {
                        kind: ParseErrorKind::UnexpectedEof,
                        pos: first.pos,
                        len: first.len,
                    },
                );
            },
            _ => {
                return Err(
                    ParseError { kind: ParseErrorKind::BadToken, pos: first.pos, len: first.len },
                );
            },
        };
        self.expr_tail(left, min_bp)
    }
}

/// The literal that stands for a missing value.
fn undefined_node() -> (node: Span<Node>)
    ensures
        node.deep_view() == undefined_literal(),
{
    spanned(Node::Literal { typ: Type::Undefined, value: "undefined".to_owned() }, 0, 0)
}

impl<'p> Parser<'p> {
    fn statement(&mut self) -> (outcome: Result<Span<Node>, ParseError>)
        requires
            old(self).ready(),
        ensures
            final(self).tokens == old(self).tokens,
            match spec_statement(old(self).model(), old(self).index as int) {
                Ok((node, index)) => outcome is Ok && outcome->Ok_0.deep_view() == node
                    && final(self).index == index
                        && old(self).index < index <= old(self).tokens@.len(),
                Err(failure) => outcome == Err::<Span<Node>, ParseError>(failure.error)
                    && final(self).index
                    == failure.index,
            },
        decreases old(self).tokens@.len() - old(self).index, 3int,
    {
        let here = self.peek();
        match here.contents {
            Token::If => self.if_statement(true),
            Token::While => self.while_statement(),
            Token::Loop => self.loop_statement(),
            Token::Var => self.var_statement(),
            Token::Const => self.const_statement(),
            Token::Proc => self.proc_statement(),
            Token::Return => self.return_statement(),
            Token::Ident(_) => {
                if self.index + 1 >= self.tokens.len() {
                    return Err(
                        ParseError {
                            kind: ParseErrorKind::MissingToken,
                            pos: here.pos,
                            len: here.len,
                        },
                    );
                }
                assert(self.model()[self.index + 1] == self.tokens[self.index + 1].deep_view());
                if self.tokens[self.index + 1].contents == Token::Equals {
                    self.assign_statement()
                } else {
                    self.expr(0)
                }
            },
            _ => self.expr(0),
        }
    }

    fn if_statement(&mut self, ensure_if: bool) -> (outcome: Result<Span<Node>, ParseError>)
        requires
            old(self).ready(),
        ensures
            final(self).tokens == old(self).tokens,
            match spec_if_statement(old(self).model(), old(self).index as int, ensure_if) {
                Ok((node, index)) => outcome is Ok && outcome->Ok_0.deep_view() == node
                    && final(self).index == index
                        && old(self).index < index <= old(self).tokens@.len(),
                Err(failure) => outcome == Err::<Span<Node>, ParseError>(failure.error)
                    && final(self).index
                    == failure.index,
            },
        decreases old(self).tokens@.len() - old(self).index, 2int,
    {
        if ensure_if {
            self.ensure_next(Token::If)?;
        }
        let condition = self.expr(0)?;
        let body = self.block()?;
        let else_body;
        if self.peek().contents == Token::Elif {
            self.ensure_next(Token::Elif)?;
            else_body = self.if_statement(false)?;
        } else if self.peek().contents == Token::Else {
            self.ensure_next(Token::Else)?;
            else_body = self.block()?;
        } else {
            let mut nodes: Vec<Span<Node>> = Vec::new();
            nodes.push(undefined_node());
            proof {
                lemma_nodes_view(nodes);
                assert(nodes.deep_view() =~= seq![undefined_literal()]);
            }
            else_body = spanned(Node::Block { nodes }, 0, 0);
        }
        Ok(
            spanned(
                Node::IfStatement {
                    condition: Box::new(condition),
                    body: Box::new(body),
                    else_body: Box::new(else_body),
                },
                0,
                0,
            ),
        )
    }

    fn while_statement(&mut self) -> (outcome: Result<Span<Node>, ParseError>)
        requires
            old(self).ready(),
        ensures
            final(self).tokens == old(self).tokens,
            match spec_while_statement(old(self).model(), old(self).index as int) {
                Ok((node, index)) => outcome is Ok && outcome->Ok_0.deep_view() == node
                    && final(self).index == index
                        && old(self).index < index <= old(self).tokens@.len(),
                Err(failure) => outcome == Err::<Span<Node>, ParseError>(failure.error)
                    && final(self).index
                    == failure.index,
            },
        decreases old(self).tokens@.len() - old(self).index, 2int,
    {
        self.ensure_next(Token::While)?;
        let condition = self.expr(0)?;
        let body = self.block()?;
        Ok(
            spanned(
                Node::WhileStatement { condition: Box::new(condition), body: Box::new(body) },
                0,
                0,
            ),
        )
    }

    fn loop_statement(&mut self) -> (outcome: Result<Span<Node>, ParseError>)
        requires
            old(self).ready(),
        ensures
            final(self).tokens == old(self).tokens,
            match spec_loop_statement(old(self).model(), old(self).index as int) {
                Ok((node, index)) => outcome is Ok && outcome->Ok_0.deep_view() == node
                    && final(self).index == index
                        && old(self).index < index <= old(self).tokens@.len(),
                Err(failure) => outcome == Err::<Span<Node>, ParseError>(failure.error)
                    && final(self).index
                    == failure.index,
            },
        decreases old(self).tokens@.len() - old(self).index, 2int,
    {
        self.ensure_next(Token::Loop)?;
        let condition = spanned(
            Node::Literal { typ: Type::Bool, value: "true".to_owned() },
            0,
            0,
        );
        let body = self.block()?;
        Ok(
            spanned(
                Node::WhileStatement { condition: Box::new(condition), body: Box::new(body) },
                0,
                0,
            ),
        )
    }

    #[verifier::loop_isolation(false)]
    fn block(&mut self) -> (outcome: Result<Span<Node>, ParseError>)
        requires
            old(self).ready(),
        ensures
            final(self).tokens == old(self).tokens,
            match spec_block(old(self).model(), old(self).index as int) {
                Ok((node, index)) => outcome is Ok && outcome->Ok_0.deep_view() == node
                    && final(self).index == index
                        && old(self).index < index <= old(self).tokens@.len(),
                Err(failure) => outcome == Err::<Span<Node>, ParseError>(failure.error)
                    && final(self).index
                    == failure.index,
            },
        decreases old(self).tokens@.len() - old(self).index, 2int,
    {
        let ghost tokens = self.model();
        let ghost start = self.index as int;
        let mut nodes: Vec<Span<Node>> = Vec::new();
        assert(nodes.deep_view() =~= Seq::empty());
        self.ensure_next(Token::LBrace)?;
        loop
            invariant
                self.tokens == old(self).tokens,
                self.ready(),
                start < self.index,
                spec_block_items(tokens, start + 1, Seq::empty()) == spec_block_items(
                    tokens,
                    self.index as int,
                    nodes.deep_view(),
                ),
            decreases self.tokens@.len() - self.index,
        {
            let ghost before = nodes.deep_view();
            let _ = self.ensure_next(Token::Newline);
            let node = self.statement()?;
            nodes.push(node);
            assert(nodes.deep_view() =~= before.push(node.deep_view()));
            match self.ensure_next(Token::Newline) {
                Err(_) => {
                    self.ensure_next(Token::RBrace)?;
                    proof {
                        lemma_nodes_view(nodes);
                    }
                    return Ok(spanned(Node::Block { nodes }, 0, 0));
                },
                Ok(()) => {},
            }
            if self.peek().contents == Token::RBrace {
                self.ensure_next(Token::RBrace)?;
                proof {
                    lemma_nodes_view(nodes);
                }
                return Ok(spanned(Node::Block { nodes }, 0, 0));
            }
        }
    }

    fn var_statement(&mut self) -> (outcome: Result<Span<Node>, ParseError>)
        requires
            old(self).ready(),
        ensures
            final(self).tokens == old(self).tokens,
            match spec_var_statement(old(self).model(), old(self).index as int) {
                Ok((node, index)) => outcome is Ok && outcome->Ok_0.deep_view() == node
                    && final(self).index == index
                        && old(self).index < index <= old(self).tokens@.len(),
                Err(failure) => outcome == Err::<Span<Node>, ParseError>(failure.error)
                    && final(self).index
                    == failure.index,
            },
        decreases old(self).tokens@.len() - old(self).index, 2int,
    {
        self.ensure_next(Token::Var)?;
        let name = self.ensure_ident()?;
        let typ;
        match self.ensure_next(Token::Colon) {
            Err(_) => {
                typ = self.ensure_type()?;
            },
            Ok(()) => {
                typ = Type::Unknown;
            },
        }
        let value;
        if self.peek().contents == Token::Equals {
            self.ensure_next(Token::Equals)?;
            value = self.expr(0)?;
        } else {
            value = undefined_node();
        }
        Ok(spanned(Node::VarStatement { name, typ, value: Box::new(value) }, 0, 0))
    }

    fn assign_statement(&mut self) -> (outcome: Result<Span<Node>, ParseError>)
        requires
            old(self).ready(),
        ensures
            final(self).tokens == old(self).tokens,
            match spec_assign_statement(old(self).model(), old(self).index as int) {
                Ok((node, index)) => outcome is Ok && outcome->Ok_0.deep_view() == node
                    && final(self).index == index
                        && old(self).index < index <= old(self).tokens@.len(),
                Err(failure) => outcome == Err::<Span<Node>, ParseError>(failure.error)
                    && final(self).index
                    == failure.index,
            },
        decreases old(self).tokens@.len() - old(self).index, 2int,
    {
        let name = self.ensure_ident()?;
        self.ensure_next(Token::Equals)?;
        let value = self.expr(0)?;
        Ok(spanned(Node::AssignStatement { name, value: Box::new(value) }, 0, 0))
    }

    fn const_statement(&mut self) -> (outcome: Result<Span<Node>, ParseError>)
        requires
            old(self).ready(),
        ensures
            final(self).tokens == old(self).tokens,
            match spec_const_statement(old(self).model(), old(self).index as int) {
                Ok((node, index)) => outcome is Ok && outcome->Ok_0.deep_view() == node
                    && final(self).index == index
                        && old(self).index < index <= old(self).tokens@.len(),
                Err(failure) => outcome == Err::<Span<Node>, ParseError>(failure.error)
                    && final(self).index
                    == failure.index,
            },
        decreases old(self).tokens@.len() - old(self).index, 2int,
    {
        self.ensure_next(Token::Const)?;
        let name = self.ensure_ident()?;
        let typ;
        match self.ensure_next(Token::Colon) {
            Ok(()) => {
                typ = self.ensure_type()?;
            },
            Err(_) => {
                typ = Type::Unknown;
            },
        }
        self.ensure_next(Token::Equals)?;
        let value = self.expr(0)?;
        Ok(spanned(Node::ConstStatement { name, typ, value: Box::new(value) }, 0, 0))
    }

    #[verifier::loop_isolation(false)]
    fn proc_params(&mut self) -> (outcome: Result<(Vec<String>, Vec<Type>), ParseError>)
        requires
            old(self).ready(),
        ensures
            final(self).tokens == old(self).tokens,
            match spec_proc_params(
                old(self).model(),
                old(self).index as int,
                Seq::empty(),
                Seq::empty(),
            ) {
                Ok((params, index)) => outcome is Ok && outcome->Ok_0.0.deep_view() == params.0
                    && outcome->Ok_0.1@ == params.1 && final(self).index == index
                        && old(self).index <= index <= old(self).tokens@.len(),
                Err(failure) => outcome == Err::<(Vec<String>, Vec<Type>), ParseError>(failure.error)
                    && final(self).index
                    == failure.index,
            },
    {
        let ghost tokens = self.model();
        let ghost start = self.index as int;
        let mut args: Vec<String> = Vec::new();
        let mut arg_types: Vec<Type> = Vec::new();
        assert(args.deep_view() =~= Seq::empty());
        loop
            invariant
                self.tokens == old(self).tokens,
                self.ready(),
                start <= self.index,
                spec_proc_params(tokens, start, Seq::empty(), Seq::empty()) == spec_proc_params(
                    tokens,
                    self.index as int,
                    args.deep_view(),
                    arg_types@,
                ),
            decreases self.tokens@.len() - self.index,
        {
            if self.peek().contents == Token::RParen {
                return Ok((args, arg_types));
            }
            let ghost before = args.deep_view();
            let name = self.ensure_ident()?;
            args.push(name);
            assert(args.deep_view() =~= before.push(name@));
            self.ensure_next(Token::Colon)?;
            let typ = self.ensure_type()?;
            arg_types.push(typ);
            if self.peek().contents != Token::Comma {
                return Ok((args, arg_types));
            }
            self.ensure_next(Token::Comma)?;
        }
    }

    fn proc_statement(&mut self) -> (outcome: Result<Span<Node>, ParseError>)
        requires
            old(self).ready(),
        ensures
            final(self).tokens == old(self).tokens,
            match spec_proc_statement(old(self).model(), old(self).index as int) {
                Ok((node, index)) => outcome is Ok && outcome->Ok_0.deep_view() == node
                    && final(self).index == index
                        && old(self).index < index <= old(self).tokens@.len(),
                Err(failure) => outcome == Err::<Span<Node>, ParseError>(failure.error)
                    && final(self).index
                    == failure.index,
            },
        decreases old(self).tokens@.len() - old(self).index, 2int,
    {
        self.ensure_next(Token::Proc)?;
        let name = self.ensure_ident()?;
        self.ensure_next(Token::LParen)?;
        let (args, arg_types) = self.proc_params()?;
        self.ensure_next(Token::RParen)?;
        let ret_type;
        match self.ensure_next(Token::Colon) {
            Ok(()) => {
                ret_type = self.ensure_type()?;
            },
            Err(_) => {
                ret_type = Type::Undefined;
            },
        }
        let body;
        if self.peek().contents == Token::LBrace {
            body = self.block()?;
        } else {
            let nodes: Vec<Span<Node>> = Vec::new();
            proof {
                lemma_nodes_view(nodes);
                assert(nodes.deep_view() =~= Seq::empty());
            }
            body = spanned(Node::Block { nodes }, 0, 0);
        }
        Ok(
            spanned(
                Node::ProcStatement { name, args, arg_types, ret_type, body: Box::new(body) },
                0,
                0,
            ),
        )
    }

    fn return_statement(&mut self) -> (outcome: Result<Span<Node>, ParseError>)
        requires
            old(self).ready(),
        ensures
            final(self).tokens == old(self).tokens,
            match spec_return_statement(old(self).model(), old(self).index as int) {
                Ok((node, index)) => outcome is Ok && outcome->Ok_0.deep_view() == node
                    && final(self).index == index
                        && old(self).index < index <= old(self).tokens@.len(),
                Err(failure) => outcome == Err::<Span<Node>, ParseError>(failure.error)
                    && final(self).index
                    == failure.index,
            },
        decreases old(self).tokens@.len() - old(self).index, 2int,
    {
        self.ensure_next(Token::Return)?;
        let val = self.expr(0)?;
        Ok(spanned(Node::ReturnStatement { val: Box::new(val) }, 0, 0))
    }
}

impl<'p> Parser<'p> {
    /// The slice of tokens is short enough for the cursor to run one past
    /// its end, and the cursor is not beyond it.
    pub closed spec fn well_formed(&self) -> bool {
        &&& self.tokens@.len() < usize::MAX
        &&& self.index <= self.tokens@.len()
    }

    /// Whether the parser can be run: see `well_formed`.
    pub fn is_well_formed(&self) -> (r: bool)
        ensures
            r == self.well_formed(),
    {
        self.tokens.len() < usize::MAX && self.index <= self.tokens.len()
    }

    /// Parses the rest of the tokens into syntax trees, one for each
    /// top-level statement, or tells the first error.
    #[verifier::loop_isolation(false)]
    pub fn parse(&mut self) -> (outcome: Result<Vec<Span<Node>>, ParseError>)
        requires
            old(self).well_formed(),
        ensures
            final(self)@.tokens == old(self)@.tokens,
            match spec_parse_from(old(self)@.tokens, old(self)@.index) {
                Ok((nodes, index)) => outcome is Ok && outcome->Ok_0.deep_view() == nodes
                    && final(self)@.index == index && final(self).well_formed(),
                Err(failure) => outcome == Err::<Vec<Span<Node>>, ParseError>(failure.error)
                    && final(self)@.index == failure.index,
            },
    {
        if self.tokens.len() == 0 {
            return Err(ParseError { kind: ParseErrorKind::MissingToken, pos: 0, len: 0 });
        }
        let ghost tokens = self.model();
        let ghost start = self.index as int;
        let mut nodes: Vec<Span<Node>> = Vec::new();
        assert(nodes.deep_view() =~= Seq::empty());
        loop
            invariant
                self.tokens == old(self).tokens,
                self.ready(),
                start <= self.index,
                spec_go_items(tokens, start, Seq::empty()) == spec_go_items(
                    tokens,
                    self.index as int,
                    nodes.deep_view(),
                ),
            decreases self.tokens@.len() - self.index,
        {
            let ghost before = nodes.deep_view();
            match self.peek().contents {
                Token::DocComment(_) => {
                    self.next();
                },
                Token::Newline => {
                    self.next();
                },
                _ => {
                    let node = self.statement()?;
                    nodes.push(node);
                    assert(nodes.deep_view() =~= before.push(node.deep_view()));
                    self.ensure_next(Token::Newline)?;
                },
            }
            if self.peek().contents == Token::EOF {
                return Ok(nodes);
            }
        }
    }

    /// Parses the rest of the tokens into syntax trees; `None` where the
    /// source has a syntax error.
    ///
    /// The tokens must be such that the parser either reads them to the end
    /// or finds a syntax error: `parse` tells.
    pub fn go(&mut self) -> (nodes: Option<Vec<Span<Node>>>)
        requires
            old(self).well_formed(),
            match spec_parse_from(old(self)@.tokens, old(self)@.index) {
                Ok(_) => true,
                Err(failure) => failure.error.kind.is_syntax_error(),
            },
        ensures
            final(self)@.tokens == old(self)@.tokens,
            match spec_parse_from(old(self)@.tokens, old(self)@.index) {
                Ok((parsed, index)) => nodes is Some && nodes->Some_0.deep_view() == parsed
                    && final(self)@.index == index && final(self).well_formed(),
                Err(failure) => nodes is None && final(self)@.index == failure.index,
            },
    {
        match self.parse() {
            Ok(nodes) => Some(nodes),
            Err(_) => None,
        }
    }
}

} // verus!
