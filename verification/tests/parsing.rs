use elgin::ast::{spanned, Node};
use elgin::errors::Span;
use elgin::grammar::{ParseError, ParseErrorKind};
use elgin::lexer::Lexer;
use elgin::parser::{
    infix_binding_power, is_prefix_operator, named_type, parse_usize, postfix_binding_power,
    prefix_binding_power, Parser,
};
use elgin::token::Token;
use elgin::types::Type;

fn tokens_of(source: &str) -> Vec<Span<Token>> {
    let code: Vec<char> = source.chars().collect();
    let mut lexer = Lexer::new(&code);
    lexer.tokenize().unwrap()
}

fn tok(contents: Token, pos: usize, len: usize) -> Span<Token> {
    Span { contents, pos, len }
}

fn ident(name: &str) -> Token {
    Token::Ident(name.to_string())
}

fn op(text: &str) -> Token {
    Token::Op(text.to_string())
}

fn number(text: &str) -> Token {
    Token::IntLiteral(text.to_string())
}

/// Tokens at positions 10, 20, 30, ... with length 1, 2, 3, ...
fn placed(tokens: Vec<Token>) -> Vec<Span<Token>> {
    tokens.into_iter().enumerate().map(|(i, t)| tok(t, 10 * (i + 1), i + 1)).collect()
}

fn show(node: &Span<Node>) -> String {
    match &node.contents {
        Node::Literal { typ, value } => format!("{:?}:{:?}", value, typ),
        Node::Call { name, args } => {
            let shown: Vec<String> = args.iter().map(show).collect();
            format!("{}({})", name, shown.join(", "))
        }
        Node::InfixOp { op, left, right } => format!("({} {} {})", show(left), op, show(right)),
        Node::PrefixOp { op, right } => format!("({} {})", op, show(right)),
        Node::PostfixOp { op, left } => format!("({} {})", show(left), op),
        Node::IndexOp { object, index } => format!("{}[{}]", show(object), show(index)),
        Node::VariableRef { name } => name.clone(),
        Node::IfStatement { condition, body, else_body } => {
            format!("if {} {} else {}", show(condition), show(body), show(else_body))
        }
        Node::WhileStatement { condition, body } => {
            format!("while {} {}", show(condition), show(body))
        }
        Node::Block { nodes } => {
            let shown: Vec<String> = nodes.iter().map(show).collect();
            format!("{{{}}}", shown.join("; "))
        }
        Node::VarStatement { name, typ, value } => {
            format!("var {}: {:?} = {}", name, typ, show(value))
        }
        Node::ConstStatement { name, typ, value } => {
            format!("const {}: {:?} = {}", name, typ, show(value))
        }
        Node::AssignStatement { name, value } => format!("{} = {}", name, show(value)),
        Node::ProcStatement { name, args, arg_types, ret_type, body } => {
            let params: Vec<String> =
                args.iter().zip(arg_types).map(|(a, t)| format!("{}: {:?}", a, t)).collect();
            format!("proc {}({}): {:?} {}", name, params.join(", "), ret_type, show(body))
        }
        Node::ReturnStatement { val } => format!("return {}", show(val)),
    }
}

fn parse_tokens(tokens: &[Span<Token>]) -> Result<Vec<String>, ParseError> {
    let mut parser = Parser::new(tokens);
    assert!(parser.is_well_formed());
    parser.parse().map(|nodes| nodes.iter().map(show).collect())
}

fn parse(source: &str) -> Result<Vec<String>, ParseError> {
    parse_tokens(&tokens_of(source))
}

fn parsed(source: &str) -> Vec<String> {
    parse(source).unwrap()
}

fn kind_of(source: &str) -> ParseErrorKind {
    parse(source).unwrap_err().kind
}

#[test]
fn operators_bind_by_their_powers() {
    assert_eq!(parsed("a + b * c\n"), vec!["(a + (b * c))"]);
    assert_eq!(parsed("a * b + c\n"), vec!["((a * b) + c)"]);
    assert_eq!(parsed("a - b - c\n"), vec!["((a - b) - c)"]);
    assert_eq!(parsed("a / b / c\n"), vec!["((a / b) / c)"]);
    assert_eq!(parsed("a + b < c * d\n"), vec!["((a + b) < (c * d))"]);
    assert_eq!(parsed("a == b != c\n"), vec!["((a == b) != c)"]);
    assert_eq!(parsed("a <= b >= c > d\n"), vec!["(((a <= b) >= c) > d)"]);
}

#[test]
fn operands() {
    assert_eq!(parsed("x\n"), vec!["x"]);
    assert_eq!(parsed("12\n"), vec!["\"12\":IntLiteral"]);
    assert_eq!(parsed("1.5\n"), vec!["\"1.5\":FloatLiteral"]);
    assert_eq!(parsed("\"hi\"\n"), vec!["\"hi\":StrLiteral"]);
    assert_eq!(parsed("(a + b) * c\n"), vec!["((a + b) * c)"]);
    assert_eq!(parsed("((a))\n"), vec!["a"]);
}

#[test]
fn prefix_operators() {
    assert_eq!(parsed("- a * b\n"), vec!["((- a) * b)"]);
    assert_eq!(parsed("! a == b\n"), vec!["((! a) == b)"]);
    assert_eq!(parsed("+ a + b\n"), vec!["((+ a) + b)"]);
    assert_eq!(parsed("! a * b\n"), vec!["((! a) * b)"]);
    assert_eq!(parsed("- a + b\n"), vec!["((- a) + b)"]);
    assert_eq!(parsed("- - a\n"), vec!["(- (- a))"]);
}

#[test]
fn calls_and_indexing() {
    assert_eq!(parsed("f()\n"), vec!["f()"]);
    assert_eq!(parsed("f(a)\n"), vec!["f(a)"]);
    assert_eq!(parsed("f(a, b + 1, g(c))\n"), vec!["f(a, (b + \"1\":IntLiteral), g(c))"]);
    assert_eq!(parsed("f(a,)\n"), vec!["f(a)"]);
    assert_eq!(parsed("a[i]\n"), vec!["a[i]"]);
    assert_eq!(parsed("a[i][j + 1]\n"), vec!["a[i][(j + \"1\":IntLiteral)]"]);
    assert_eq!(parsed("a + b[i]\n"), vec!["(a + b[i])"]);
    assert_eq!(parsed("- a[i]\n"), vec!["(- a[i])"]);
    assert_eq!(parsed("f(a)[i] * 2\n"), vec!["(f(a)[i] * \"2\":IntLiteral)"]);
}

#[test]
fn an_unknown_infix_operator_ends_the_expression() {
    // "%" binds nothing: the expression ends before it, and the statement
    // then lacks its line break
    assert_eq!(
        parse("a % b\n"),
        Err(ParseError { kind: ParseErrorKind::ExpectedToken, pos: 3, len: 1 })
    );
}

#[test]
fn operands_take_the_span_of_their_first_token() {
    let tokens = placed(vec![ident("f"), Token::LParen, number("7"), Token::RParen, Token::Newline]);
    let mut parser = Parser::new(&tokens);
    let nodes = parser.parse().unwrap();
    assert_eq!(nodes.len(), 1);
    assert_eq!((nodes[0].pos, nodes[0].len), (10, 1));
    match &nodes[0].contents {
        Node::Call { name, args } => {
            assert_eq!(name, "f");
            assert_eq!(args.len(), 1);
            assert_eq!((args[0].pos, args[0].len), (30, 3));
        }
        other => panic!("not a call: {:?}", other),
    }

    let tokens = placed(vec![op("-"), ident("a"), op("+"), ident("b"), Token::Newline]);
    let mut parser = Parser::new(&tokens);
    let nodes = parser.parse().unwrap();
    // an infix node has no place, its operands have
    assert_eq!((nodes[0].pos, nodes[0].len), (0, 0));
    match &nodes[0].contents {
        Node::InfixOp { left, right, .. } => {
            assert_eq!((left.pos, left.len), (10, 1));
            assert_eq!((right.pos, right.len), (40, 4));
        }
        other => panic!("not an infix operator: {:?}", other),
    }
}

#[test]
fn statements() {
    assert_eq!(parsed("x = y + 1\n"), vec!["x = (y + \"1\":IntLiteral)"]);
    assert_eq!(parsed("return a + b\n"), vec!["return (a + b)"]);
    assert_eq!(
        parsed("const k: i64 = 3\n"),
        vec!["const k: I64 = \"3\":IntLiteral"]
    );
    assert_eq!(parsed("const k = 3\n"), vec!["const k: Unknown = \"3\":IntLiteral"]);
    assert_eq!(
        parsed("a = 1\nb = 2\n\n#: about c\nc\n"),
        vec!["a = \"1\":IntLiteral", "b = \"2\":IntLiteral", "c"]
    );
}

#[test]
fn var_statement_reads_a_type_unless_a_colon_follows_the_name() {
    assert_eq!(parsed("var x i32 = 5\n"), vec!["var x: I32 = \"5\":IntLiteral"]);
    assert_eq!(parsed("var x: = 5\n"), vec!["var x: Unknown = \"5\":IntLiteral"]);
    assert_eq!(parsed("var x:\n"), vec!["var x: Unknown = \"undefined\":Undefined"]);
    assert_eq!(parsed("var x bool\n"), vec!["var x: Bool = \"undefined\":Undefined"]);
    assert_eq!(
        parse("var x = 5\n"),
        Err(ParseError { kind: ParseErrorKind::ExpectedType, pos: 7, len: 1 })
    );
}

#[test]
fn types() {
    for (name, typ) in [
        ("i8", Type::I8),
        ("i16", Type::I16),
        ("i32", Type::I32),
        ("i64", Type::I64),
        ("i128", Type::I128),
        ("n8", Type::N8),
        ("n16", Type::N16),
        ("n32", Type::N32),
        ("n64", Type::N64),
        ("n128", Type::N128),
        ("f32", Type::F32),
        ("f64", Type::F64),
        ("f128", Type::F128),
        ("bool", Type::Bool),
    ] {
        assert_eq!(named_type(name), Some(typ.clone()));
        assert_eq!(
            parsed(&format!("const k: {} = 1\n", name)),
            vec![format!("const k: {:?} = \"1\":IntLiteral", typ)]
        );
    }
    assert_eq!(named_type("int"), None);
    assert_eq!(named_type(""), None);
    // "*" before "=" would lex as one operator, so the tokens are given
    let pointer = placed(vec![
        Token::Const,
        ident("p"),
        Token::Colon,
        op("*"),
        op("*"),
        ident("n8"),
        Token::Equals,
        ident("q"),
        Token::Newline,
    ]);
    assert_eq!(parse_tokens(&pointer), Ok(vec!["const p: Ptr(Ptr(N8)) = q".to_string()]));
    assert_eq!(
        parsed("const a: [4][2]bool = b\n"),
        vec!["const a: Array(4, Array(2, Bool)) = b"]
    );
    assert_eq!(kind_of("const a: int = b\n"), ParseErrorKind::ExpectedType);
    assert_eq!(kind_of("const a: 4 = b\n"), ParseErrorKind::ExpectedType);
    assert_eq!(kind_of("const a: [n]i8 = b\n"), ParseErrorKind::ExpectedArrayLength);
    assert_eq!(kind_of("const a: [4 i8 = b\n"), ParseErrorKind::ExpectedToken);
    assert_eq!(kind_of("const a: [4]u8 = b\n"), ParseErrorKind::ExpectedType);
    assert_eq!(
        parse("const a: [99999999999999999999999999]i8 = b\n"),
        Err(ParseError { kind: ParseErrorKind::BadArrayLength, pos: 36, len: 26 })
    );
}

#[test]
fn array_lengths() {
    assert_eq!(parse_usize("0"), Some(0));
    assert_eq!(parse_usize("42"), Some(42));
    assert_eq!(parse_usize("+42"), Some(42));
    assert_eq!(parse_usize("007"), Some(7));
    assert_eq!(parse_usize(&usize::MAX.to_string()), Some(usize::MAX));
    assert_eq!(parse_usize(&format!("{}0", usize::MAX)), None);
    assert_eq!(parse_usize("18446744073709551616"), "18446744073709551616".parse().ok());
    assert_eq!(parse_usize(""), None);
    assert_eq!(parse_usize("+"), None);
    assert_eq!(parse_usize("-1"), None);
    assert_eq!(parse_usize("++1"), None);
    assert_eq!(parse_usize("1+"), None);
    assert_eq!(parse_usize("1 "), None);
    assert_eq!(parse_usize(" 1"), None);
    assert_eq!(parse_usize("1_000"), None);
    assert_eq!(parse_usize("12a"), None);
    assert_eq!(parse_usize("1\0"), None);
    assert_eq!(parse_usize("\u{663}"), None);
    for s in ["0", "9", "10", "+0", "65535", "4294967296", "a", "1.5", "0x10"] {
        assert_eq!(parse_usize(s), s.parse::<usize>().ok());
    }
}

#[test]
fn binding_powers() {
    let s = |t: &str| t.to_string();
    assert_eq!(prefix_binding_power(&s("!")), ((), 8));
    assert_eq!(prefix_binding_power(&s("+")), ((), 9));
    assert_eq!(prefix_binding_power(&s("-")), ((), 9));
    assert!(is_prefix_operator(&s("!")) && is_prefix_operator(&s("-")));
    assert!(!is_prefix_operator(&s("*")) && !is_prefix_operator(&s("--")));
    assert_eq!(postfix_binding_power(&s("[")), Some((11, ())));
    assert_eq!(postfix_binding_power(&s("]")), None);
    for o in [">", "<", ">=", "<=", "==", "!="] {
        assert_eq!(infix_binding_power(&s(o)), Some((3, 4)));
    }
    assert_eq!(infix_binding_power(&s("+")), Some((5, 6)));
    assert_eq!(infix_binding_power(&s("-")), Some((5, 6)));
    assert_eq!(infix_binding_power(&s("*")), Some((7, 8)));
    assert_eq!(infix_binding_power(&s("/")), Some((7, 8)));
    assert_eq!(infix_binding_power(&s("%")), None);
    assert_eq!(infix_binding_power(&s("[")), None);
}

#[test]
fn blocks_and_control_flow() {
    assert_eq!(
        parsed("if a < b {\n x = 1\n}\n"),
        vec!["if (a < b) {x = \"1\":IntLiteral} else {\"undefined\":Undefined}"]
    );
    assert_eq!(
        parsed("if a {\n b\n} else {\n c\n d\n}\n"),
        vec!["if a {b} else {c; d}"]
    );
    assert_eq!(
        parsed("if a { b } elif c { d } elif e { f } else { g }\n"),
        vec!["if a {b} else if c {d} else if e {f} else {g}"]
    );
    assert_eq!(parsed("while i < n {\n i = i + 1\n}\n"), vec![
        "while (i < n) {i = (i + \"1\":IntLiteral)}"
    ]);
    assert_eq!(parsed("loop {\n f()\n}\n"), vec!["while \"true\":Bool {f()}"]);
    // a block may hold its statements on one line, and needs at least one
    assert_eq!(parsed("loop { f() }\n"), vec!["while \"true\":Bool {f()}"]);
    assert_eq!(kind_of("loop { }\n"), ParseErrorKind::BadToken);
    assert_eq!(kind_of("loop { a b }\n"), ParseErrorKind::BadToken);
    assert_eq!(kind_of("loop { a\n b\n"), ParseErrorKind::UnexpectedEof);
    assert_eq!(kind_of("loop { a\n b ,\n"), ParseErrorKind::ExpectedToken);
}

#[test]
fn procedures() {
    assert_eq!(
        parsed("proc add(a: i32, b: i32): i32 {\n    return a + b\n}\n"),
        vec!["proc add(a: I32, b: I32): I32 {return (a + b)}"]
    );
    assert_eq!(
        parsed("proc f(): i32 {\n var x i32 = 5\n return x\n}\n"),
        vec!["proc f(): I32 {var x: I32 = \"5\":IntLiteral; return x}"]
    );
    assert_eq!(parsed("proc main() {\n f()\n}\n"), vec!["proc main(): Undefined {f()}"]);
    assert_eq!(parsed("proc ext(a: [2]n8,)\n"), vec!["proc ext(a: Array(2, N8)): Undefined {}"]);
    assert_eq!(kind_of("proc (a: i8)\n"), ParseErrorKind::ExpectedIdentifier);
    let no_paren = placed(vec![Token::Proc, ident("f"), ident("a"), Token::Newline]);
    assert_eq!(
        parse_tokens(&no_paren),
        Err(ParseError { kind: ParseErrorKind::ExpectedToken, pos: 30, len: 3 })
    );
    assert_eq!(kind_of("proc f(a i8)\n"), ParseErrorKind::ExpectedToken);
    assert_eq!(kind_of("proc f(a: i8 b: i8)\n"), ParseErrorKind::ExpectedToken);
    assert_eq!(kind_of("proc f(a: )\n"), ParseErrorKind::ExpectedType);
    assert_eq!(kind_of("proc f(1: i8)\n"), ParseErrorKind::ExpectedIdentifier);
}

#[test]
fn the_last_token_is_handed_out_as_the_end_of_input() {
    // without the line break at the end, the operand "b" is never seen
    let tokens = placed(vec![ident("a"), op("+"), ident("b")]);
    assert_eq!(
        parse_tokens(&tokens),
        Err(ParseError { kind: ParseErrorKind::UnexpectedEof, pos: 30, len: 3 })
    );
    let tokens = placed(vec![Token::Return, ident("b")]);
    assert_eq!(
        parse_tokens(&tokens),
        Err(ParseError { kind: ParseErrorKind::UnexpectedEof, pos: 20, len: 2 })
    );
    // a keyword statement may end with the last token where that is a brace
    let tokens = placed(vec![
        Token::Loop,
        Token::LBrace,
        ident("f"),
        Token::Newline,
        Token::RBrace,
    ]);
    assert_eq!(
        parse_tokens(&tokens),
        Err(ParseError { kind: ParseErrorKind::ExpectedToken, pos: 50, len: 5 })
    );
}

#[test]
fn tokens_that_no_source_gives() {
    assert_eq!(
        parse_tokens(&[]),
        Err(ParseError { kind: ParseErrorKind::MissingToken, pos: 0, len: 0 })
    );
    let lone = placed(vec![ident("a")]);
    assert_eq!(
        parse_tokens(&lone),
        Err(ParseError { kind: ParseErrorKind::MissingToken, pos: 10, len: 1 })
    );
    let bad_start = placed(vec![Token::RBrace, Token::Newline]);
    assert_eq!(
        parse_tokens(&bad_start),
        Err(ParseError { kind: ParseErrorKind::BadToken, pos: 10, len: 1 })
    );
    let bad_tail = placed(vec![ident("a"), ident("b"), Token::Newline]);
    assert_eq!(
        parse_tokens(&bad_tail),
        Err(ParseError { kind: ParseErrorKind::BadToken, pos: 20, len: 2 })
    );
    let bad_prefix = placed(vec![op("*"), ident("b"), Token::Newline]);
    assert_eq!(
        parse_tokens(&bad_prefix),
        Err(ParseError { kind: ParseErrorKind::UnknownPrefixOperator, pos: 10, len: 1 })
    );
    let bad_length = placed(vec![
        Token::Const,
        ident("a"),
        Token::Colon,
        Token::LBracket,
        number("1\0"),
        Token::RBracket,
        ident("i8"),
        Token::Equals,
        ident("b"),
        Token::Newline,
    ]);
    assert_eq!(
        parse_tokens(&bad_length),
        Err(ParseError { kind: ParseErrorKind::BadArrayLength, pos: 50, len: 5 })
    );
}

#[test]
fn only_comments_and_line_breaks() {
    assert_eq!(parsed("\n"), Vec::<String>::new());
    assert_eq!(parsed("#: one\n#: two\n"), Vec::<String>::new());
}

#[test]
fn go_returns_the_trees() {
    let tokens = tokens_of("proc main() {\n    x = f(1, 2)[0]\n}\n");
    let mut parser = Parser::new(&tokens);
    let nodes = parser.go().unwrap();
    let shown: Vec<String> = nodes.iter().map(show).collect();
    assert_eq!(
        shown,
        vec![
            "proc main(): Undefined {x = f(\"1\":IntLiteral, \"2\":IntLiteral)[\"0\":IntLiteral]}"
        ]
    );
}

#[test]
fn go_returns_none_for_a_syntax_error() {
    let tokens = tokens_of("x = (1 + 2\n");
    assert_eq!(parse_tokens(&tokens).unwrap_err().kind, ParseErrorKind::UnexpectedEof);
    let mut parser = Parser::new(&tokens);
    assert!(parser.go().is_none());
    let tokens = tokens_of("if a\n");
    assert_eq!(parse_tokens(&tokens).unwrap_err().kind, ParseErrorKind::ExpectedToken);
    let mut parser = Parser::new(&tokens);
    assert!(parser.go().is_none());
}

#[test]
fn a_second_run_starts_where_the_first_ended() {
    let tokens = tokens_of("a\n");
    let mut parser = Parser::new(&tokens);
    assert_eq!(parser.parse().map(|n| n.len()), Ok(1));
    // the cursor is at the end: an expression is expected and none is there
    assert_eq!(
        parser.parse().map(|n| n.len()),
        Err(ParseError { kind: ParseErrorKind::UnexpectedEof, pos: 1, len: 1 })
    );
}

#[test]
fn spanned_tags_a_node() {
    let node = spanned(Node::VariableRef { name: "v".to_string() }, 4, 1);
    assert_eq!((node.pos, node.len), (4, 1));
    assert!(matches!(node.contents, Node::VariableRef { name } if name == "v"));
}
