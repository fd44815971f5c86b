//! The grammar of the language, as functions from a token sequence and a
//! cursor to what the parser makes of them.

use vstd::prelude::*;
use crate::ast::SpecNode;
use crate::errors::Span;
use crate::token::{is_ascii_digit, SpecToken};
use crate::types::Type;

verus! {

/// Why the parser gave up.
#[derive(Debug, Clone, Copy, PartialEq, Eq, Structural)]
pub enum ParseErrorKind {
    /// Another token was expected here.
    ExpectedToken,
    /// An identifier was expected here.
    ExpectedIdentifier,
    /// A type was expected here.
    ExpectedType,
    /// An integer was expected as the length of an array type.
    ExpectedArrayLength,
    /// The tokens ended where an expression was expected.
    UnexpectedEof,
    /// This token can neither start nor continue an expression.
    BadToken,
    /// This operator cannot stand before an operand.
    UnknownPrefixOperator,
    /// The length of this array type is no number that fits.
    BadArrayLength,
    /// A token is missing: nothing follows the identifier that starts a
    /// statement, or there are no tokens at all.
    MissingToken,
}

impl ParseErrorKind {
    /// The errors of the source text, as opposed to those of a token
    /// sequence that no source text gives.
    pub open spec fn is_syntax_error(self) -> bool {
        self is ExpectedToken || self is ExpectedIdentifier || self is ExpectedType
            || self is ExpectedArrayLength || self is UnexpectedEof
    }
}

/// A parse failure, with the span of the token at which it was found.
#[derive(Debug, Clone, Copy, PartialEq, Eq, Structural)]
pub struct ParseError {
    pub kind: ParseErrorKind,
    pub pos: usize,
    pub len: usize,
}

/// A parse that gave up: why, and where it left the cursor.
pub struct ParseFailure {
    pub error: ParseError,
    pub index: int,
}

/// The failure of the given kind at the given token, the cursor being left
/// at `index`.
pub open spec fn failure_at(kind: ParseErrorKind, token: Span<SpecToken>, index: int) -> ParseFailure {
    ParseFailure { error: ParseError { kind, pos: token.pos, len: token.len }, index }
}

/// The end-of-input token: it borrows the span of the last token.
pub open spec fn eof_span(tokens: Seq<Span<SpecToken>>) -> Span<SpecToken> {
    Span { contents: SpecToken::EOF, pos: tokens.last().pos, len: tokens.last().len }
}

/// The token under the cursor; the end-of-input token past the end.
pub open spec fn peek_token(tokens: Seq<Span<SpecToken>>, index: int) -> Span<SpecToken> {
    if 0 <= index < tokens.len() {
        tokens[index]
    } else {
        eof_span(tokens)
    }
}

/// The token that the cursor hands out when it moves on from `index`: the
/// token there, but the end-of-input token once the move reaches the end.
pub open spec fn taken_token(tokens: Seq<Span<SpecToken>>, index: int) -> Span<SpecToken> {
    if 0 <= index && index + 1 < tokens.len() {
        tokens[index]
    } else {
        eof_span(tokens)
    }
}

/// A node with the span of the token `at`.
pub open spec fn node_at(node: SpecNode, at: Span<SpecToken>) -> Span<SpecNode> {
    Span { contents: node, pos: at.pos, len: at.len }
}

/// A node without a place in the source.
pub open spec fn node_nowhere(node: SpecNode) -> Span<SpecNode> {
    Span { contents: node, pos: 0, len: 0 }
}

/// The literal that stands for a missing value.
pub open spec fn undefined_literal() -> Span<SpecNode> {
    node_nowhere(SpecNode::Literal { typ: Type::Undefined, value: "undefined"@ })
}

/// A parse result, provided that it moved the cursor forward from `from`
/// and not beyond `limit`. The grammar wraps in it whatever it reads on from,
/// which makes plain that its recursion ends; no result of the grammar ever
/// fails the test, as the lemmas on advancing show.
pub open spec fn progress<T>(parsed: Result<(T, int), ParseFailure>, from: int, limit: int) -> Result<
    (T, int),
    ParseFailure,
> {
    match parsed {
        Ok((_, index)) => if from < index <= limit {
            parsed
        } else {
            Err(
                ParseFailure {
                    error: ParseError { kind: ParseErrorKind::MissingToken, pos: 0, len: 0 },
                    index: from,
                },
            )
        },
        Err(e) => Err(e),
    }
}

/// Moves past the token `t`, which must be the one under the cursor.
pub open spec fn spec_ensure_next(tokens: Seq<Span<SpecToken>>, index: int, t: SpecToken) -> Result<
    int,
    ParseFailure,
> {
    if peek_token(tokens, index).contents == t {
        Ok(index + 1)
    } else {
        Err(failure_at(ParseErrorKind::ExpectedToken, peek_token(tokens, index), index))
    }
}

/// The cursor after an optional token `t`.
pub open spec fn skip_optional(tokens: Seq<Span<SpecToken>>, index: int, t: SpecToken) -> int {
    if peek_token(tokens, index).contents == t {
        index + 1
    } else {
        index
    }
}

/// Moves past an identifier and returns its name.
pub open spec fn spec_ensure_ident(tokens: Seq<Span<SpecToken>>, index: int) -> Result<
    (Seq<char>, int),
    ParseFailure,
> {
    match peek_token(tokens, index).contents {
        SpecToken::Ident(id) => Ok((id, index + 1)),
        _ => Err(failure_at(ParseErrorKind::ExpectedIdentifier, peek_token(tokens, index), index)),
    }
}

/// The built-in type that `id` names.
pub open spec fn type_named(id: Seq<char>) -> Option<Type> {
    if id == "i8"@ {
        Some(Type::I8)
    } else if id == "i16"@ {
        Some(Type::I16)
    } else if id == "i32"@ {
        Some(Type::I32)
    } else if id == "i64"@ {
        Some(Type::I64)
    } else if id == "i128"@ {
        Some(Type::I128)
    } else if id == "n8"@ {
        Some(Type::N8)
    } else if id == "n16"@ {
        Some(Type::N16)
    } else if id == "n32"@ {
        Some(Type::N32)
    } else if id == "n64"@ {
        Some(Type::N64)
    } else if id == "n128"@ {
        Some(Type::N128)
    } else if id == "f32"@ {
        Some(Type::F32)
    } else if id == "f64"@ {
        Some(Type::F64)
    } else if id == "f128"@ {
        Some(Type::F128)
    } else if id == "bool"@ {
        Some(Type::Bool)
    } else {
        None
    }
}

/// The number that a sequence of decimal digits writes.
pub open spec fn decimal_value(digits: Seq<char>) -> nat
    decreases digits.len(),
{
    if digits.len() == 0 {
        0
    } else {
        (10 * decimal_value(digits.drop_last()) + (digits.last() as u32 - '0' as u32)) as nat
    }
}

/// Every character is a decimal digit.
pub open spec fn all_digits(s: Seq<char>) -> bool {
    forall|i: int| 0 <= i < s.len() ==> is_ascii_digit(#[trigger] s[i])
}

/// The array length that `s` writes: decimal digits, at least one, after
/// an optional plus sign, and a value that fits.
pub open spec fn spec_parse_usize(s: Seq<char>) -> Option<usize> {
    let digits = if s.len() > 0 && s[0] == '+' {
        s.drop_first()
    } else {
        s
    };
    if digits.len() > 0 && all_digits(digits) && decimal_value(digits) <= usize::MAX {
        Some(decimal_value(digits) as usize)
    } else {
        None
    }
}

/// Reads a type: a built-in name, `*` and the type pointed to, or `[`,
/// a length, `]` and the element type.
pub open spec fn spec_ensure_type(tokens: Seq<Span<SpecToken>>, index: int) -> Result<
    (Type, int),
    ParseFailure,
>
    decreases tokens.len() - index,
{
    let here = peek_token(tokens, index);
    match here.contents {
        SpecToken::Ident(id) => match type_named(id) {
            Some(typ) => Ok((typ, index + 1)),
            None => Err(failure_at(ParseErrorKind::ExpectedType, here, index)),
        },
        SpecToken::Op(op) => if op == "*"@ {
            match spec_ensure_type(tokens, index + 1) {
                Ok((content_type, after)) => Ok((Type::Ptr(Box::new(content_type)), after)),
                Err(e) => Err(e),
            }
        } else {
            Err(failure_at(ParseErrorKind::ExpectedType, here, index))
        },
        SpecToken::LBracket => {
            let size_token = peek_token(tokens, index + 1);
            match size_token.contents {
                SpecToken::IntLiteral(size) => match spec_ensure_next(
                    tokens,
                    index + 2,
                    SpecToken::RBracket,
                ) {
                    Ok(_) => match spec_ensure_type(tokens, index + 3) {
                        Ok((content_type, after)) => match spec_parse_usize(size) {
                            Some(length) => Ok(
                                (Type::Array(length, Box::new(content_type)), after),
                            ),
                            None => Err(failure_at(ParseErrorKind::BadArrayLength, size_token, after)),
                        },
                        Err(e) => Err(e),
                    },
                    Err(e) => Err(e),
                },
                _ => Err(failure_at(ParseErrorKind::ExpectedArrayLength, size_token, index + 1)),
            }
        },
        _ => Err(failure_at(ParseErrorKind::ExpectedType, here, index)),
    }
}

/// How tightly a prefix operator binds what follows it.
pub open spec fn spec_prefix_binding_power(op: Seq<char>) -> Option<u8> {
    if op == "!"@ {
        Some(8u8)
    } else if op == "+"@ || op == "-"@ {
        Some(9u8)
    } else {
        None
    }
}

/// How tightly a postfix operator binds what stands before it.
pub open spec fn spec_postfix_binding_power(op: Seq<char>) -> Option<u8> {
    if op == "["@ {
        Some(11u8)
    } else {
        None
    }
}

/// How tightly an infix operator binds to its left and to its right.
pub open spec fn spec_infix_binding_power(op: Seq<char>) -> Option<(u8, u8)> {
    if op == ">"@ || op == "<"@ || op == ">="@ || op == "<="@ || op == "=="@ || op == "!="@ {
        Some((3u8, 4u8))
    } else if op == "+"@ || op == "-"@ {
        Some((5u8, 6u8))
    } else if op == "*"@ || op == "/"@ {
        Some((7u8, 8u8))
    } else {
        None
    }
}

/// What the token after an operand means for the expression.
pub enum TailOp {
    /// The expression ends before it.
    Stop,
    /// It may continue the expression, as this operator.
    Operator(Seq<char>),
    /// It cannot stand there.
    Bad,
}

/// How the token after an operand is read.
pub open spec fn tail_op(token: SpecToken) -> TailOp {
    match token {
        SpecToken::EOF => TailOp::Stop,
        SpecToken::Newline => TailOp::Stop,
        SpecToken::RParen => TailOp::Stop,
        SpecToken::RBracket => TailOp::Stop,
        SpecToken::Comma => TailOp::Stop,
        SpecToken::LBrace => TailOp::Stop,
        SpecToken::RBrace => TailOp::Stop,
        SpecToken::Op(op) => TailOp::Operator(op),
        SpecToken::LBracket => TailOp::Operator("["@),
        _ => TailOp::Bad,
    }
}

/// An expression all of whose operators bind at least as tightly as
/// `min_bp`: an operand, then what continues it.
pub open spec fn spec_expr(tokens: Seq<Span<SpecToken>>, index: int, min_bp: u8) -> Result<
    (Span<SpecNode>, int),
    ParseFailure,
>
    decreases tokens.len() - index, 0int,
{
    let first = taken_token(tokens, index);
    let at = index + 1;
    match first.contents {
        SpecToken::Ident(id) => if peek_token(tokens, at).contents == SpecToken::LParen {
            match progress(spec_call_args(tokens, at + 1, Seq::empty()), at, tokens.len() as int) {
                Ok((args, before_paren)) => match spec_ensure_next(
                    tokens,
                    before_paren,
                    SpecToken::RParen,
                ) {
                    Ok(after) => spec_expr_tail(
                        tokens,
                        after,
                        node_at(SpecNode::Call { name: id, args }, first),
                        min_bp,
                    ),
                    Err(e) => Err(e),
                },
                Err(e) => Err(e),
            }
        } else {
            spec_expr_tail(tokens, at, node_at(SpecNode::VariableRef { name: id }, first), min_bp)
        },
        SpecToken::IntLiteral(value) => spec_expr_tail(
            tokens,
            at,
            node_at(SpecNode::Literal { typ: Type::IntLiteral, value }, first),
            min_bp,
        ),
        SpecToken::FloatLiteral(value) => spec_expr_tail(
            tokens,
            at,
            node_at(SpecNode::Literal { typ: Type::FloatLiteral, value }, first),
            min_bp,
        ),
        SpecToken::StrLiteral(value) => spec_expr_tail(
            tokens,
            at,
            node_at(SpecNode::Literal { typ: Type::StrLiteral, value }, first),
            min_bp,
        ),
        SpecToken::LParen => match progress(spec_expr(tokens, at, 0), at, tokens.len() as int) {
            Ok((inner, before_paren)) => match spec_ensure_next(
                tokens,
                before_paren,
                SpecToken::RParen,
            ) {
                Ok(after) => spec_expr_tail(tokens, after, inner, min_bp),
                Err(e) => Err(e),
            },
            Err(e) => Err(e),
        },
        SpecToken::Op(op) => match spec_prefix_binding_power(op) {
            Some(right_bp) => match progress(
                spec_expr(tokens, at, right_bp),
                at,
                tokens.len() as int,
            ) {
                Ok((right, after)) => spec_expr_tail(
                    tokens,
                    after,
                    node_at(SpecNode::PrefixOp { op, right: Box::new(right) }, first),
                    min_bp,
                ),
                Err(e) => Err(e),
            },
            None => Err(failure_at(ParseErrorKind::UnknownPrefixOperator, first, at)),
        },
        SpecToken::EOF => Err(failure_at(ParseErrorKind::UnexpectedEof, first, at)),
        _ => Err(failure_at(ParseErrorKind::BadToken, first, at)),
    }
}

/// The arguments of a call, from the cursor to just before the closing
/// parenthesis, `args` having been read before.
pub open spec fn spec_call_args(
    tokens: Seq<Span<SpecToken>>,
    index: int,
    args: Seq<Span<SpecNode>>,
) -> Result<(Seq<Span<SpecNode>>, int), ParseFailure>
    decreases tokens.len() - index, 1int,
{
    if peek_token(tokens, index).contents == SpecToken::RParen {
        Ok((args, index))
    } else {
        match progress(spec_expr(tokens, index, 0), index, tokens.len() as int) {
            Ok((arg, after)) => if peek_token(tokens, after).contents == SpecToken::Comma {
                spec_call_args(tokens, after + 1, args.push(arg))
            } else {
                Ok((args.push(arg), after))
            },
            Err(e) => Err(e),
        }
    }
}

/// What continues the operand `left`: index and infix operators that bind
/// at least as tightly as `min_bp`, each taking `left` as its left side.
pub open spec fn spec_expr_tail(
    tokens: Seq<Span<SpecToken>>,
    index: int,
    left: Span<SpecNode>,
    min_bp: u8,
) -> Result<(Span<SpecNode>, int), ParseFailure>
    decreases tokens.len() - index, 2int,
{
    let here = peek_token(tokens, index);
    match tail_op(here.contents) {
        TailOp::Stop => Ok((left, index)),
        TailOp::Bad => Err(failure_at(ParseErrorKind::BadToken, here, index)),
        TailOp::Operator(op) => match spec_postfix_binding_power(op) {
            Some(left_bp) => if left_bp < min_bp {
                Ok((left, index))
            } else {
                match progress(spec_expr(tokens, index + 1, 0), index + 1, tokens.len() as int) {
                    Ok((right, before_bracket)) => match spec_ensure_next(
                        tokens,
                        before_bracket,
                        SpecToken::RBracket,
                    ) {
                        Ok(after) => spec_expr_tail(
                            tokens,
                            after,
                            node_nowhere(
                                SpecNode::IndexOp {
                                    object: Box::new(left),
                                    index: Box::new(right),
                                },
                            ),
                            min_bp,
                        ),
                        Err(e) => Err(e),
                    },
                    Err(e) => Err(e),
                }
            },
            None => match spec_infix_binding_power(op) {
                Some((left_bp, right_bp)) => if left_bp < min_bp {
                    Ok((left, index))
                } else {
                    match progress(
                        spec_expr(tokens, index + 1, right_bp),
                        index + 1,
                        tokens.len() as int,
                    ) {
                        Ok((right, after)) => spec_expr_tail(
                            tokens,
                            after,
                            node_nowhere(
                                SpecNode::InfixOp {
                                    op,
                                    left: Box::new(left),
                                    right: Box::new(right),
                                },
                            ),
                            min_bp,
                        ),
                        Err(e) => Err(e),
                    }
                },
                None => Ok((left, index)),
            },
        },
    }
}

/// A statement: one of the keyword statements, an assignment, or else an
/// expression.
pub open spec fn spec_statement(tokens: Seq<Span<SpecToken>>, index: int) -> Result<
    (Span<SpecNode>, int),
    ParseFailure,
>
    decreases tokens.len() - index, 3int,
{
    let here = peek_token(tokens, index);
    match here.contents {
        SpecToken::If => spec_if_statement(tokens, index, true),
        SpecToken::While => spec_while_statement(tokens, index),
        SpecToken::Loop => spec_loop_statement(tokens, index),
        SpecToken::Var => spec_var_statement(tokens, index),
        SpecToken::Const => spec_const_statement(tokens, index),
        SpecToken::Proc => spec_proc_statement(tokens, index),
        SpecToken::Return => spec_return_statement(tokens, index),
        SpecToken::Ident(_) => if index + 1 >= tokens.len() {
            Err(failure_at(ParseErrorKind::MissingToken, here, index))
        } else if tokens[index + 1].contents == SpecToken::Equals {
            spec_assign_statement(tokens, index)
        } else {
            spec_expr(tokens, index, 0)
        },
        _ => spec_expr(tokens, index, 0),
    }
}

/// `if`, a condition and a block; then `elif` with the same again, or
/// `else` and a block, or nothing. With `ensure_if` false the `if` has
/// been read already.
pub open spec fn spec_if_statement(tokens: Seq<Span<SpecToken>>, index: int, ensure_if: bool) -> Result<
    (Span<SpecNode>, int),
    ParseFailure,
>
    decreases tokens.len() - index, 2int,
{
    let start = if ensure_if {
        spec_ensure_next(tokens, index, SpecToken::If)
    } else {
        Ok(index)
    };
    match start {
        Ok(at) => match progress(spec_expr(tokens, at, 0), at, tokens.len() as int) {
            Ok((condition, after_condition)) => match progress(
                spec_block(tokens, after_condition),
                after_condition,
                tokens.len() as int,
            ) {
                Ok((body, after_body)) => {
                    let next = peek_token(tokens, after_body).contents;
                    if next == SpecToken::Elif {
                        match spec_if_statement(tokens, after_body + 1, false) {
                            Ok((else_body, after)) => Ok(
                                (
                                    node_nowhere(
                                        SpecNode::IfStatement {
                                            condition: Box::new(condition),
                                            body: Box::new(body),
                                            else_body: Box::new(else_body),
                                        },
                                    ),
                                    after,
                                ),
                            ),
                            Err(e) => Err(e),
                        }
                    } else if next == SpecToken::Else {
                        match spec_block(tokens, after_body + 1) {
                            Ok((else_body, after)) => Ok(
                                (
                                    node_nowhere(
                                        SpecNode::IfStatement {
                                            condition: Box::new(condition),
                                            body: Box::new(body),
                                            else_body: Box::new(else_body),
                                        },
                                    ),
                                    after,
                                ),
                            ),
                            Err(e) => Err(e),
                        }
                    } else {
                        Ok(
                            (
                                node_nowhere(
                                    SpecNode::IfStatement {
                                        condition: Box::new(condition),
                                        body: Box::new(body),
                                        else_body: Box::new(
                                            node_nowhere(
                                                SpecNode::Block { nodes: seq![undefined_literal()] },
                                            ),
                                        ),
                                    },
                                ),
                                after_body,
                            ),
                        )
                    }
                },
                Err(e) => Err(e),
            },
            Err(e) => Err(e),
        },
        Err(e) => Err(e),
    }
}

/// `while`, a condition and a block.
pub open spec fn spec_while_statement(tokens: Seq<Span<SpecToken>>, index: int) -> Result<
    (Span<SpecNode>, int),
    ParseFailure,
>
    decreases tokens.len() - index, 2int,
{
    match spec_ensure_next(tokens, index, SpecToken::While) {
        Ok(at) => match progress(spec_expr(tokens, at, 0), at, tokens.len() as int) {
            Ok((condition, after_condition)) => match spec_block(tokens, after_condition) {
                Ok((body, after)) => Ok(
                    (
                        node_nowhere(
                            SpecNode::WhileStatement {
                                condition: Box::new(condition),
                                body: Box::new(body),
                            },
                        ),
                        after,
                    ),
                ),
                Err(e) => Err(e),
            },
            Err(e) => Err(e),
        },
        Err(e) => Err(e),
    }
}

/// `loop` and a block: a `while` whose condition is the literal `true`.
pub open spec fn spec_loop_statement(tokens: Seq<Span<SpecToken>>, index: int) -> Result<
    (Span<SpecNode>, int),
    ParseFailure,
>
    decreases tokens.len() - index, 2int,
{
    match spec_ensure_next(tokens, index, SpecToken::Loop) {
        Ok(at) => match spec_block(tokens, at) {
            Ok((body, after)) => Ok(
                (
                    node_nowhere(
                        SpecNode::WhileStatement {
                            condition: Box::new(
                                node_nowhere(
                                    SpecNode::Literal { typ: Type::Bool, value: "true"@ },
                                ),
                            ),
                            body: Box::new(body),
                        },
                    ),
                    after,
                ),
            ),
            Err(e) => Err(e),
        },
        Err(e) => Err(e),
    }
}

/// `{`, statements that line breaks separate, `}`.
pub open spec fn spec_block(tokens: Seq<Span<SpecToken>>, index: int) -> Result<
    (Span<SpecNode>, int),
    ParseFailure,
>
    decreases tokens.len() - index, 2int,
{
    match spec_ensure_next(tokens, index, SpecToken::LBrace) {
        Ok(at) => match spec_block_items(tokens, at, Seq::empty()) {
            Ok((nodes, after)) => Ok((node_nowhere(SpecNode::Block { nodes }), after)),
            Err(e) => Err(e),
        },
        Err(e) => Err(e),
    }
}

/// The statements of a block from the cursor on, up to and with the
/// closing brace, `nodes` having been read before.
pub open spec fn spec_block_items(
    tokens: Seq<Span<SpecToken>>,
    index: int,
    nodes: Seq<Span<SpecNode>>,
) -> Result<(Seq<Span<SpecNode>>, int), ParseFailure>
    decreases tokens.len() - index, 4int,
{
    let at = skip_optional(tokens, index, SpecToken::Newline);
    match progress(spec_statement(tokens, at), at, tokens.len() as int) {
        Ok((node, after)) => if peek_token(tokens, after).contents == SpecToken::Newline {
            if peek_token(tokens, after + 1).contents == SpecToken::RBrace {
                Ok((nodes.push(node), after + 2))
            } else {
                spec_block_items(tokens, after + 1, nodes.push(node))
            }
        } else {
            match spec_ensure_next(tokens, after, SpecToken::RBrace) {
                Ok(end) => Ok((nodes.push(node), end)),
                Err(e) => Err(e),
            }
        },
        Err(e) => Err(e),
    }
}

/// `var`, a name, a type unless a colon follows the name, and `=` with a
/// value or nothing.
pub open spec fn spec_var_statement(tokens: Seq<Span<SpecToken>>, index: int) -> Result<
    (Span<SpecNode>, int),
    ParseFailure,
>
    decreases tokens.len() - index, 2int,
{
    match spec_ensure_next(tokens, index, SpecToken::Var) {
        Ok(at) => match spec_ensure_ident(tokens, at) {
            Ok((name, after_name)) => {
                let typed = if peek_token(tokens, after_name).contents == SpecToken::Colon {
                    Ok((Type::Unknown, after_name + 1))
                } else {
                    progress(spec_ensure_type(tokens, after_name), after_name, tokens.len() as int)
                };
                match typed {
                    Ok((typ, after_type)) => if peek_token(tokens, after_type).contents
                        == SpecToken::Equals {
                        match spec_expr(tokens, after_type + 1, 0) {
                            Ok((value, after)) => Ok(
                                (
                                    node_nowhere(
                                        SpecNode::VarStatement {
                                            name,
                                            typ,
                                            value: Box::new(value),
                                        },
                                    ),
                                    after,
                                ),
                            ),
                            Err(e) => Err(e),
                        }
                    } else {
                        Ok(
                            (
                                node_nowhere(
                                    SpecNode::VarStatement {
                                        name,
                                        typ,
                                        value: Box::new(undefined_literal()),
                                    },
                                ),
                                after_type,
                            ),
                        )
                    },
                    Err(e) => Err(e),
                }
            },
            Err(e) => Err(e),
        },
        Err(e) => Err(e),
    }
}

/// A name, `=` and a value.
pub open spec fn spec_assign_statement(tokens: Seq<Span<SpecToken>>, index: int) -> Result<
    (Span<SpecNode>, int),
    ParseFailure,
>
    decreases tokens.len() - index, 2int,
{
    match spec_ensure_ident(tokens, index) {
        Ok((name, after_name)) => match spec_ensure_next(tokens, after_name, SpecToken::Equals) {
            Ok(at) => match spec_expr(tokens, at, 0) {
                Ok((value, after)) => Ok(
                    (
                        node_nowhere(SpecNode::AssignStatement { name, value: Box::new(value) }),
                        after,
                    ),
                ),
                Err(e) => Err(e),
            },
            Err(e) => Err(e),
        },
        Err(e) => Err(e),
    }
}

/// `const`, a name, a colon with a type or nothing, `=` and a value.
pub open spec fn spec_const_statement(tokens: Seq<Span<SpecToken>>, index: int) -> Result<
    (Span<SpecNode>, int),
    ParseFailure,
>
    decreases tokens.len() - index, 2int,
{
    match spec_ensure_next(tokens, index, SpecToken::Const) {
        Ok(at) => match spec_ensure_ident(tokens, at) {
            Ok((name, after_name)) => {
                let typed = if peek_token(tokens, after_name).contents == SpecToken::Colon {
                    progress(
                        spec_ensure_type(tokens, after_name + 1),
                        after_name + 1,
                        tokens.len() as int,
                    )
                } else {
                    Ok((Type::Unknown, after_name))
                };
                match typed {
                    Ok((typ, after_type)) => match spec_ensure_next(
                        tokens,
                        after_type,
                        SpecToken::Equals,
                    ) {
                        Ok(before_value) => match spec_expr(tokens, before_value, 0) {
                            Ok((value, after)) => Ok(
                                (
                                    node_nowhere(
                                        SpecNode::ConstStatement {
                                            name,
                                            typ,
                                            value: Box::new(value),
                                        },
                                    ),
                                    after,
                                ),
                            ),
                            Err(e) => Err(e),
                        },
                        Err(e) => Err(e),
                    },
                    Err(e) => Err(e),
                }
            },
            Err(e) => Err(e),
        },
        Err(e) => Err(e),
    }
}

/// The parameters of a procedure, from the cursor to just before the
/// closing parenthesis: names with their types, commas between, `args` and
/// `arg_types` having been read before.
pub open spec fn spec_proc_params(
    tokens: Seq<Span<SpecToken>>,
    index: int,
    args: Seq<Seq<char>>,
    arg_types: Seq<Type>,
) -> Result<((Seq<Seq<char>>, Seq<Type>), int), ParseFailure>
    decreases tokens.len() - index,
{
    if peek_token(tokens, index).contents == SpecToken::RParen {
        Ok(((args, arg_types), index))
    } else {
        match spec_ensure_ident(tokens, index) {
            Ok((name, after_name)) => match spec_ensure_next(
                tokens,
                after_name,
                SpecToken::Colon,
            ) {
                Ok(before_type) => match progress(
                    spec_ensure_type(tokens, before_type),
                    before_type,
                    tokens.len() as int,
                ) {
                    Ok((typ, after)) => if peek_token(tokens, after).contents
                        == SpecToken::Comma {
                        spec_proc_params(tokens, after + 1, args.push(name), arg_types.push(typ))
                    } else {
                        Ok(((args.push(name), arg_types.push(typ)), after))
                    },
                    Err(e) => Err(e),
                },
                Err(e) => Err(e),
            },
            Err(e) => Err(e),
        }
    }
}

/// `proc`, a name, the parameters in parentheses, a colon with the return
/// type or nothing, and a block or nothing.
pub open spec fn spec_proc_statement(tokens: Seq<Span<SpecToken>>, index: int) -> Result<
    (Span<SpecNode>, int),
    ParseFailure,
>
    decreases tokens.len() - index, 2int,
{
    match spec_ensure_next(tokens, index, SpecToken::Proc) {
        Ok(at) => match spec_ensure_ident(tokens, at) {
            Ok((name, after_name)) => match spec_ensure_next(
                tokens,
                after_name,
                SpecToken::LParen,
            ) {
                Ok(before_params) => match progress(
                    spec_proc_params(tokens, before_params, Seq::empty(), Seq::empty()),
                    after_name,
                    tokens.len() as int,
                ) {
                    Ok((params, before_paren)) => match spec_ensure_next(
                        tokens,
                        before_paren,
                        SpecToken::RParen,
                    ) {
                        Ok(after_params) => {
                            let declared = if peek_token(tokens, after_params).contents
                                == SpecToken::Colon {
                                progress(
                                    spec_ensure_type(tokens, after_params + 1),
                                    after_params + 1,
                                    tokens.len() as int,
                                )
                            } else {
                                Ok((Type::Undefined, after_params))
                            };
                            match declared {
                                Ok((ret_type, before_body)) => if peek_token(
                                    tokens,
                                    before_body,
                                ).contents == SpecToken::LBrace {
                                    match spec_block(tokens, before_body) {
                                        Ok((body, after)) => Ok(
                                            (
                                                node_nowhere(
                                                    SpecNode::ProcStatement {
                                                        name,
                                                        args: params.0,
                                                        arg_types: params.1,
                                                        ret_type,
                                                        body: Box::new(body),
                                                    },
                                                ),
                                                after,
                                            ),
                                        ),
                                        Err(e) => Err(e),
                                    }
                                } else {
                                    Ok(
                                        (
                                            node_nowhere(
                                                SpecNode::ProcStatement {
                                                    name,
                                                    args: params.0,
                                                    arg_types: params.1,
                                                    ret_type,
                                                    body: Box::new(
                                                        node_nowhere(
                                                            SpecNode::Block { nodes: Seq::empty() },
                                                        ),
                                                    ),
                                                },
                                            ),
                                            before_body,
                                        ),
                                    )
                                },
                                Err(e) => Err(e),
                            }
                        },
                        Err(e) => Err(e),
                    },
                    Err(e) => Err(e),
                },
                Err(e) => Err(e),
            },
            Err(e) => Err(e),
        },
        Err(e) => Err(e),
    }
}

/// `return` and a value.
pub open spec fn spec_return_statement(tokens: Seq<Span<SpecToken>>, index: int) -> Result<
    (Span<SpecNode>, int),
    ParseFailure,
>
    decreases tokens.len() - index, 2int,
{
    match spec_ensure_next(tokens, index, SpecToken::Return) {
        Ok(at) => match spec_expr(tokens, at, 0) {
            Ok((val, after)) => Ok(
                (node_nowhere(SpecNode::ReturnStatement { val: Box::new(val) }), after),
            ),
            Err(e) => Err(e),
        },
        Err(e) => Err(e),
    }
}

/// The top level from the cursor on, `nodes` having been read before:
/// documentation comments and line breaks are passed over, and every
/// statement ends with a line break.
pub open spec fn spec_go_items(
    tokens: Seq<Span<SpecToken>>,
    index: int,
    nodes: Seq<Span<SpecNode>>,
) -> Result<(Seq<Span<SpecNode>>, int), ParseFailure>
    decreases tokens.len() - index, 5int,
{
    let here = peek_token(tokens, index).contents;
    if here is DocComment || here is Newline {
        if peek_token(tokens, index + 1).contents is EOF {
            Ok((nodes, index + 1))
        } else {
            spec_go_items(tokens, index + 1, nodes)
        }
    } else {
        match progress(spec_statement(tokens, index), index, tokens.len() as int) {
            Ok((node, after)) => match spec_ensure_next(tokens, after, SpecToken::Newline) {
                Ok(end) => if peek_token(tokens, end).contents is EOF {
                    Ok((nodes.push(node), end))
                } else {
                    spec_go_items(tokens, end, nodes.push(node))
                },
                Err(e) => Err(e),
            },
            Err(e) => Err(e),
        }
    }
}

/// The syntax trees of the tokens from the cursor on, one for each
/// top-level statement, and where the cursor ends.
pub open spec fn spec_parse_from(tokens: Seq<Span<SpecToken>>, index: int) -> Result<
    (Seq<Span<SpecNode>>, int),
    ParseFailure,
> {
    if tokens.len() == 0 {
        Err(
            ParseFailure {
                error: ParseError { kind: ParseErrorKind::MissingToken, pos: 0, len: 0 },
                index,
            },
        )
    } else {
        spec_go_items(tokens, index, Seq::empty())
    }
}

/// The syntax trees of a token sequence, one for each top-level statement.
pub open spec fn spec_parse(tokens: Seq<Span<SpecToken>>) -> Result<
    Seq<Span<SpecNode>>,
    ParseError,
> {
    match spec_parse_from(tokens, 0) {
        Ok((nodes, _)) => Ok(nodes),
        Err(failure) => Err(failure.error),
    }
}

} // verus!
