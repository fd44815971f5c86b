//! Every successful parse moves the cursor forward and leaves it inside the
//! tokens. The grammar tests this wherever it goes on after a part has been
//! read (`progress`); the lemmas here show that the test never fails.

use vstd::prelude::*;
use crate::ast::SpecNode;
use crate::errors::Span;
use crate::grammar::{
    node_at,
    node_nowhere,
    peek_token,
    progress,
    skip_optional,
    spec_assign_statement,
    spec_block,
    spec_block_items,
    spec_call_args,
    spec_const_statement,
    spec_ensure_ident,
    spec_ensure_next,
    spec_ensure_type,
    spec_expr,
    spec_expr_tail,
    spec_go_items,
    spec_if_statement,
    spec_infix_binding_power,
    spec_loop_statement,
    spec_postfix_binding_power,
    spec_prefix_binding_power,
    spec_proc_params,
    spec_proc_statement,
    spec_return_statement,
    spec_statement,
    spec_var_statement,
    spec_while_statement,
    tail_op,
    taken_token,
    ParseFailure,
    TailOp,
};
use crate::token::SpecToken;
use crate::types::Type;

verus! {

/// The cursor after a successful parse from `index`: further on, and not
/// beyond the end.
pub open spec fn advanced<T>(parsed: Result<(T, int), ParseFailure>, index: int, limit: int) -> bool {
    parsed matches Ok((_, after)) ==> index < after <= limit
}

/// The cursor after a successful parse from `index` that may have read
/// nothing: not before `index`, and not beyond the end.
pub open spec fn not_behind<T>(parsed: Result<(T, int), ParseFailure>, index: int, limit: int) -> bool {
    parsed matches Ok((_, after)) ==> index <= after <= limit
}

/// Where a parse has advanced, `progress` changes nothing.
pub proof fn lemma_progress_is_idle<T>(parsed: Result<(T, int), ParseFailure>, index: int, limit: int)
    requires
        advanced(parsed, index, limit),
    ensures
        progress(parsed, index, limit) == parsed,
{
}

/// A type takes at least one token.
pub proof fn lemma_type_advances(tokens: Seq<Span<SpecToken>>, index: int)
    requires
        0 <= index <= tokens.len(),
    ensures
        advanced(spec_ensure_type(tokens, index), index, tokens.len() as int),
    decreases tokens.len() - index,
{
    match peek_token(tokens, index).contents {
        SpecToken::Op(op) => {
            if op == "*"@ {
                lemma_type_advances(tokens, index + 1);
            }
        },
        SpecToken::LBracket => {
            if peek_token(tokens, index + 1).contents is IntLiteral && peek_token(
                tokens,
                index + 2,
            ).contents == SpecToken::RBracket {
                lemma_type_advances(tokens, index + 3);
            }
        },
        _ => {},
    }
}

/// A parameter list leaves the cursor where it was or further on.
pub proof fn lemma_params_advance(
    tokens: Seq<Span<SpecToken>>,
    index: int,
    args: Seq<Seq<char>>,
    arg_types: Seq<Type>,
)
    requires
        0 <= index <= tokens.len(),
    ensures
        not_behind(spec_proc_params(tokens, index, args, arg_types), index, tokens.len() as int),
    decreases tokens.len() - index,
{
    if peek_token(tokens, index).contents != SpecToken::RParen {
        if let Ok((name, after_name)) = spec_ensure_ident(tokens, index) {
            if let Ok(before_type) = spec_ensure_next(tokens, after_name, SpecToken::Colon) {
                lemma_type_advances(tokens, before_type);
                if let Ok((typ, after)) = spec_ensure_type(tokens, before_type) {
                    if peek_token(tokens, after).contents == SpecToken::Comma {
                        lemma_params_advance(
                            tokens,
                            after + 1,
                            args.push(name),
                            arg_types.push(typ),
                        );
                    }
                }
            }
        }
    }
}

/// An expression takes at least one token.
pub proof fn lemma_expr_advances(tokens: Seq<Span<SpecToken>>, index: int, min_bp: u8)
    requires
        0 <= index <= tokens.len(),
    ensures
        advanced(spec_expr(tokens, index, min_bp), index, tokens.len() as int),
    decreases tokens.len() - index, 0int,
{
    let first = taken_token(tokens, index);
    let at = index + 1;
    match first.contents {
        SpecToken::Ident(id) => {
            if peek_token(tokens, at).contents == SpecToken::LParen {
                lemma_call_args_advance(tokens, at + 1, Seq::empty());
                if let Ok((args, before_paren)) = spec_call_args(tokens, at + 1, Seq::empty()) {
                    if let Ok(after) = spec_ensure_next(tokens, before_paren, SpecToken::RParen) {
                        lemma_expr_tail_advances(
                            tokens,
                            after,
                            node_at(SpecNode::Call { name: id, args }, first),
                            min_bp,
                        );
                    }
                }
            } else {
                lemma_expr_tail_advances(
                    tokens,
                    at,
                    node_at(SpecNode::VariableRef { name: id }, first),
                    min_bp,
                );
            }
        },
        SpecToken::IntLiteral(value) => {
            lemma_expr_tail_advances(
                tokens,
                at,
                node_at(SpecNode::Literal { typ: Type::IntLiteral, value }, first),
                min_bp,
            );
        },
        SpecToken::FloatLiteral(value) => {
            lemma_expr_tail_advances(
                tokens,
                at,
                node_at(SpecNode::Literal { typ: Type::FloatLiteral, value }, first),
                min_bp,
            );
        },
        SpecToken::StrLiteral(value) => {
            lemma_expr_tail_advances(
                tokens,
                at,
                node_at(SpecNode::Literal { typ: Type::StrLiteral, value }, first),
                min_bp,
            );
        },
        SpecToken::LParen => {
            lemma_expr_advances(tokens, at, 0);
            if let Ok((inner, before_paren)) = spec_expr(tokens, at, 0) {
                if let Ok(after) = spec_ensure_next(tokens, before_paren, SpecToken::RParen) {
                    lemma_expr_tail_advances(tokens, after, inner, min_bp);
                }
            }
        },
        SpecToken::Op(op) => {
            if let Some(right_bp) = spec_prefix_binding_power(op) {
                lemma_expr_advances(tokens, at, right_bp);
                if let Ok((right, after)) = spec_expr(tokens, at, right_bp) {
                    lemma_expr_tail_advances(
                        tokens,
                        after,
                        node_at(SpecNode::PrefixOp { op, right: Box::new(right) }, first),
                        min_bp,
                    );
                }
            }
        },
        _ => {},
    }
}

/// The arguments of a call leave the cursor where it was or further on.
pub proof fn lemma_call_args_advance(
    tokens: Seq<Span<SpecToken>>,
    index: int,
    args: Seq<Span<SpecNode>>,
)
    requires
        0 <= index <= tokens.len(),
    ensures
        not_behind(spec_call_args(tokens, index, args), index, tokens.len() as int),
    decreases tokens.len() - index, 1int,
{
    if peek_token(tokens, index).contents != SpecToken::RParen {
        lemma_expr_advances(tokens, index, 0);
        if let Ok((arg, after)) = spec_expr(tokens, index, 0) {
            if peek_token(tokens, after).contents == SpecToken::Comma {
                lemma_call_args_advance(tokens, after + 1, args.push(arg));
            }
        }
    }
}

/// What continues an operand leaves the cursor where it was or further on.
pub proof fn lemma_expr_tail_advances(
    tokens: Seq<Span<SpecToken>>,
    index: int,
    left: Span<SpecNode>,
    min_bp: u8,
)
    requires
        0 <= index <= tokens.len(),
    ensures
        not_behind(spec_expr_tail(tokens, index, left, min_bp), index, tokens.len() as int),
    decreases tokens.len() - index, 2int,
{
    if let TailOp::Operator(op) = tail_op(peek_token(tokens, index).contents) {
        match spec_postfix_binding_power(op) {
            Some(left_bp) => {
                if left_bp >= min_bp {
                    lemma_expr_advances(tokens, index + 1, 0);
                    if let Ok((right, before_bracket)) = spec_expr(tokens, index + 1, 0) {
                        if let Ok(after) = spec_ensure_next(
                            tokens,
                            before_bracket,
                            SpecToken::RBracket,
                        ) {
                            lemma_expr_tail_advances(
                                tokens,
                                after,
                                node_nowhere(
                                    SpecNode::IndexOp {
                                        object: Box::new(left),
                                        index: Box::new(right),
                                    },
                                ),
                                min_bp,
                            );
                        }
                    }
                }
            },
            None => {
                if let Some((left_bp, right_bp)) = spec_infix_binding_power(op) {
                    if left_bp >= min_bp {
                        lemma_expr_advances(tokens, index + 1, right_bp);
                        if let Ok((right, after)) = spec_expr(tokens, index + 1, right_bp) {
                            lemma_expr_tail_advances(
                                tokens,
                                after,
                                node_nowhere(
                                    SpecNode::InfixOp {
                                        op,
                                        left: Box::new(left),
                                        right: Box::new(right),
                                    },
                                ),
                                min_bp,
                            );
                        }
                    }
                }
            },
        }
    }
}

/// A statement takes at least one token.
pub proof fn lemma_statement_advances(tokens: Seq<Span<SpecToken>>, index: int)
    requires
        0 <= index <= tokens.len(),
    ensures
        advanced(spec_statement(tokens, index), index, tokens.len() as int),
    decreases tokens.len() - index, 3int,
{
    match peek_token(tokens, index).contents {
        SpecToken::If => lemma_if_advances(tokens, index, true),
        SpecToken::While => lemma_while_advances(tokens, index),
        SpecToken::Loop => lemma_loop_advances(tokens, index),
        SpecToken::Var => lemma_var_advances(tokens, index),
        SpecToken::Const => lemma_const_advances(tokens, index),
        SpecToken::Proc => lemma_proc_advances(tokens, index),
        SpecToken::Return => lemma_return_advances(tokens, index),
        SpecToken::Ident(_) => {
            if index + 1 < tokens.len() {
                if tokens[index + 1].contents == SpecToken::Equals {
                    lemma_assign_advances(tokens, index);
                } else {
                    lemma_expr_advances(tokens, index, 0);
                }
            }
        },
        _ => lemma_expr_advances(tokens, index, 0),
    }
}

/// An `if` statement takes at least one token.
pub proof fn lemma_if_advances(tokens: Seq<Span<SpecToken>>, index: int, ensure_if: bool)
    requires
        0 <= index <= tokens.len(),
    ensures
        advanced(spec_if_statement(tokens, index, ensure_if), index, tokens.len() as int),
    decreases tokens.len() - index, 2int,
{
    let start: Result<int, ParseFailure> = if ensure_if {
        spec_ensure_next(tokens, index, SpecToken::If)
    } else {
        Ok(index)
    };
    if let Ok(at) = start {
        lemma_expr_advances(tokens, at, 0);
        if let Ok((_, after_condition)) = spec_expr(tokens, at, 0) {
            lemma_block_advances(tokens, after_condition);
            if let Ok((_, after_body)) = spec_block(tokens, after_condition) {
                let next = peek_token(tokens, after_body).contents;
                if next == SpecToken::Elif {
                    lemma_if_advances(tokens, after_body + 1, false);
                } else if next == SpecToken::Else {
                    lemma_block_advances(tokens, after_body + 1);
                }
            }
        }
    }
}

/// A `while` statement takes at least one token.
pub proof fn lemma_while_advances(tokens: Seq<Span<SpecToken>>, index: int)
    requires
        0 <= index <= tokens.len(),
    ensures
        advanced(spec_while_statement(tokens, index), index, tokens.len() as int),
    decreases tokens.len() - index, 2int,
{
    if let Ok(at) = spec_ensure_next(tokens, index, SpecToken::While) {
        lemma_expr_advances(tokens, at, 0);
        if let Ok((_, after_condition)) = spec_expr(tokens, at, 0) {
            lemma_block_advances(tokens, after_condition);
        }
    }
}

/// A `loop` statement takes at least one token.
pub proof fn lemma_loop_advances(tokens: Seq<Span<SpecToken>>, index: int)
    requires
        0 <= index <= tokens.len(),
    ensures
        advanced(spec_loop_statement(tokens, index), index, tokens.len() as int),
    decreases tokens.len() - index, 2int,
{
    if let Ok(at) = spec_ensure_next(tokens, index, SpecToken::Loop) {
        lemma_block_advances(tokens, at);
    }
}

/// A block takes at least one token.
pub proof fn lemma_block_advances(tokens: Seq<Span<SpecToken>>, index: int)
    requires
        0 <= index <= tokens.len(),
    ensures
        advanced(spec_block(tokens, index), index, tokens.len() as int),
    decreases tokens.len() - index, 2int,
{
    if let Ok(at) = spec_ensure_next(tokens, index, SpecToken::LBrace) {
        lemma_block_items_advance(tokens, at, Seq::empty());
    }
}

/// The statements of a block take at least one token.
pub proof fn lemma_block_items_advance(
    tokens: Seq<Span<SpecToken>>,
    index: int,
    nodes: Seq<Span<SpecNode>>,
)
    requires
        0 <= index <= tokens.len(),
    ensures
        advanced(spec_block_items(tokens, index, nodes), index, tokens.len() as int),
    decreases tokens.len() - index, 4int,
{
    let at = skip_optional(tokens, index, SpecToken::Newline);
    lemma_statement_advances(tokens, at);
    if let Ok((node, after)) = spec_statement(tokens, at) {
        if peek_token(tokens, after).contents == SpecToken::Newline && peek_token(
            tokens,
            after + 1,
        ).contents != SpecToken::RBrace {
            lemma_block_items_advance(tokens, after + 1, nodes.push(node));
        }
    }
}

/// A `var` statement takes at least one token.
pub proof fn lemma_var_advances(tokens: Seq<Span<SpecToken>>, index: int)
    requires
        0 <= index <= tokens.len(),
    ensures
        advanced(spec_var_statement(tokens, index), index, tokens.len() as int),
    decreases tokens.len() - index, 2int,
{
    if let Ok(at) = spec_ensure_next(tokens, index, SpecToken::Var) {
        if let Ok((_, after_name)) = spec_ensure_ident(tokens, at) {
            let typed: Result<(Type, int), ParseFailure> = if peek_token(
                tokens,
                after_name,
            ).contents == SpecToken::Colon {
                Ok((Type::Unknown, after_name + 1))
            } else {
                lemma_type_advances(tokens, after_name);
                spec_ensure_type(tokens, after_name)
            };
            if let Ok((_, after_type)) = typed {
                if peek_token(tokens, after_type).contents == SpecToken::Equals {
                    lemma_expr_advances(tokens, after_type + 1, 0);
                }
            }
        }
    }
}

/// An assignment takes at least one token.
pub proof fn lemma_assign_advances(tokens: Seq<Span<SpecToken>>, index: int)
    requires
        0 <= index <= tokens.len(),
    ensures
        advanced(spec_assign_statement(tokens, index), index, tokens.len() as int),
    decreases tokens.len() - index, 2int,
{
    if let Ok((_, after_name)) = spec_ensure_ident(tokens, index) {
        if let Ok(at) = spec_ensure_next(tokens, after_name, SpecToken::Equals) {
            lemma_expr_advances(tokens, at, 0);
        }
    }
}

/// A `const` statement takes at least one token.
pub proof fn lemma_const_advances(tokens: Seq<Span<SpecToken>>, index: int)
    requires
        0 <= index <= tokens.len(),
    ensures
        advanced(spec_const_statement(tokens, index), index, tokens.len() as int),
    decreases tokens.len() - index, 2int,
{
    if let Ok(at) = spec_ensure_next(tokens, index, SpecToken::Const) {
        if let Ok((_, after_name)) = spec_ensure_ident(tokens, at) {
            let typed: Result<(Type, int), ParseFailure> = if peek_token(
                tokens,
                after_name,
            ).contents == SpecToken::Colon {
                lemma_type_advances(tokens, after_name + 1);
                spec_ensure_type(tokens, after_name + 1)
            } else {
                Ok((Type::Unknown, after_name))
            };
            if let Ok((_, after_type)) = typed {
                if let Ok(before_value) = spec_ensure_next(tokens, after_type, SpecToken::Equals) {
                    lemma_expr_advances(tokens, before_value, 0);
                }
            }
        }
    }
}

/// A `proc` statement takes at least one token.
pub proof fn lemma_proc_advances(tokens: Seq<Span<SpecToken>>, index: int)
    requires
        0 <= index <= tokens.len(),
    ensures
        advanced(spec_proc_statement(tokens, index), index, tokens.len() as int),
    decreases tokens.len() - index, 2int,
{
    if let Ok(at) = spec_ensure_next(tokens, index, SpecToken::Proc) {
        if let Ok((_, after_name)) = spec_ensure_ident(tokens, at) {
            if let Ok(before_params) = spec_ensure_next(tokens, after_name, SpecToken::LParen) {
                lemma_params_advance(tokens, before_params, Seq::empty(), Seq::empty());
                if let Ok((_, before_paren)) = spec_proc_params(
                    tokens,
                    before_params,
                    Seq::empty(),
                    Seq::empty(),
                ) {
                    if let Ok(after_params) = spec_ensure_next(
                        tokens,
                        before_paren,
                        SpecToken::RParen,
                    ) {
                        let declared: Result<(Type, int), ParseFailure> = if peek_token(
                            tokens,
                            after_params,
                        ).contents == SpecToken::Colon {
                            lemma_type_advances(tokens, after_params + 1);
                            spec_ensure_type(tokens, after_params + 1)
                        } else {
                            Ok((Type::Undefined, after_params))
                        };
                        if let Ok((_, before_body)) = declared {
                            if peek_token(tokens, before_body).contents == SpecToken::LBrace {
                                lemma_block_advances(tokens, before_body);
                            }
                        }
                    }
                }
            }
        }
    }
}

/// A `return` statement takes at least one token.
pub proof fn lemma_return_advances(tokens: Seq<Span<SpecToken>>, index: int)
    requires
        0 <= index <= tokens.len(),
    ensures
        advanced(spec_return_statement(tokens, index), index, tokens.len() as int),
    decreases tokens.len() - index, 2int,
{
    if let Ok(at) = spec_ensure_next(tokens, index, SpecToken::Return) {
        lemma_expr_advances(tokens, at, 0);
    }
}

/// The top level takes at least one token.
pub proof fn lemma_go_items_advance(
    tokens: Seq<Span<SpecToken>>,
    index: int,
    nodes: Seq<Span<SpecNode>>,
)
    requires
        0 <= index <= tokens.len(),
    ensures
        advanced(spec_go_items(tokens, index, nodes), index, tokens.len() as int),
    decreases tokens.len() - index, 5int,
{
    let here = peek_token(tokens, index).contents;
    if here is DocComment || here is Newline {
        if !(peek_token(tokens, index + 1).contents is EOF) {
            lemma_go_items_advance(tokens, index + 1, nodes);
        }
    } else {
        lemma_statement_advances(tokens, index);
        if let Ok((node, after)) = spec_statement(tokens, index) {
            if let Ok(end) = spec_ensure_next(tokens, after, SpecToken::Newline) {
                if !(peek_token(tokens, end).contents is EOF) {
                    lemma_go_items_advance(tokens, end, nodes.push(node));
                }
            }
        }
    }
}

} // verus!
