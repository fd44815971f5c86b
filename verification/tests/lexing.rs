use elgin::errors::Span;
use elgin::lexer::{LexError, Lexer};
use elgin::token::{
    checked_token_len, is_ident, is_ident_start, is_number, is_op, is_special, is_whitespace,
    str_to_ident, str_to_keyword, token_len, Token,
};

fn chars(s: &str) -> Vec<char> {
    s.chars().collect()
}

fn lex(s: &str) -> Result<Vec<(Token, usize, usize)>, LexError> {
    let code = chars(s);
    let mut lexer = Lexer::new(&code);
    lexer.tokenize().map(|ts| ts.into_iter().map(|t| (t.contents, t.pos, t.len)).collect())
}

fn kinds(s: &str) -> Vec<Token> {
    lex(s).unwrap().into_iter().map(|t| t.0).collect()
}

fn text(s: &str) -> String {
    s.to_string()
}

#[test]
fn variable_statement() {
    assert_eq!(
        lex("var x = 5\n"),
        Ok(vec![
            (Token::Var, 3, 3),
            (Token::Ident(text("x")), 5, 1),
            (Token::Equals, 7, 1),
            (Token::IntLiteral(text("5")), 9, 1),
            (Token::Newline, 9, 1),
        ])
    );
}

#[test]
fn go_returns_the_tokens() {
    let code = chars("a == b\n");
    let mut lexer = Lexer::new(&code);
    let tokens: Vec<Span<Token>> = lexer.go().unwrap();
    let seen: Vec<(Token, usize, usize)> =
        tokens.into_iter().map(|t| (t.contents, t.pos, t.len)).collect();
    assert_eq!(
        seen,
        vec![
            (Token::Ident(text("a")), 1, 1),
            (Token::Op(text("==")), 4, 2),
            (Token::Ident(text("b")), 6, 1),
            (Token::Newline, 6, 1),
        ]
    );
}

#[test]
fn go_returns_none_for_a_string_that_does_not_end() {
    let code = chars("x = \"abc");
    let mut lexer = Lexer::new(&code);
    assert!(lexer.go().is_none());
}

#[test]
fn procedure_header() {
    assert_eq!(
        kinds("proc add(a: i32, b: i32): i32 {\n    return a + b\n}\n"),
        vec![
            Token::Proc,
            Token::Ident(text("add")),
            Token::LParen,
            Token::Ident(text("a")),
            Token::Colon,
            Token::Ident(text("i32")),
            Token::Comma,
            Token::Ident(text("b")),
            Token::Colon,
            Token::Ident(text("i32")),
            Token::RParen,
            Token::Colon,
            Token::Ident(text("i32")),
            Token::LBrace,
            Token::Newline,
            Token::Return,
            Token::Ident(text("a")),
            Token::Op(text("+")),
            Token::Ident(text("b")),
            Token::Newline,
            Token::RBrace,
            Token::Newline,
        ]
    );
}

#[test]
fn every_keyword() {
    assert_eq!(
        kinds("proc if elif else while loop var const return use break continue process\n"),
        vec![
            Token::Proc,
            Token::If,
            Token::Elif,
            Token::Else,
            Token::While,
            Token::Loop,
            Token::Var,
            Token::Const,
            Token::Return,
            Token::Use,
            Token::Break,
            Token::Continue,
            Token::Ident(text("process")),
            Token::Newline,
        ]
    );
    assert_eq!(str_to_keyword("while"), Some(Token::While));
    assert_eq!(str_to_keyword("While"), None);
    assert_eq!(str_to_keyword(""), None);
    assert_eq!(str_to_ident("while"), Token::Ident(text("while")));
}

#[test]
fn the_last_character_of_the_input_is_handed_out_as_null() {
    assert_eq!(lex("ab"), Ok(vec![(Token::Ident(text("a\0")), 2, 2)]));
    assert_eq!(lex("12"), Ok(vec![(Token::IntLiteral(text("1\0")), 2, 2)]));
    assert_eq!(lex("1."), Ok(vec![(Token::IntLiteral(text("1\0")), 2, 2)]));
    assert_eq!(lex("+"), Ok(vec![(Token::Op(text("\0")), 1, 1)]));
}

#[test]
fn numbers() {
    assert_eq!(
        kinds("1 2.5 .5 3.4.5 ..\n"),
        vec![
            Token::IntLiteral(text("1")),
            Token::FloatLiteral(text("2.5")),
            Token::FloatLiteral(text(".5")),
            Token::FloatLiteral(text("3.4")),
            Token::FloatLiteral(text(".5")),
            Token::FloatLiteral(text(".")),
            Token::Op(text(".")),
        ]
    );
    assert_eq!(
        lex("a.b\n"),
        Ok(vec![
            (Token::Ident(text("a")), 1, 1),
            (Token::Op(text(".")), 1, 1),
            (Token::Ident(text("b")), 3, 1),
            (Token::Newline, 3, 1),
        ])
    );
}

#[test]
fn operators_and_specials() {
    assert_eq!(
        kinds("a<=b != c==d = e\n"),
        vec![
            Token::Ident(text("a")),
            Token::Op(text("<=")),
            Token::Ident(text("b")),
            Token::Op(text("!=")),
            Token::Ident(text("c")),
            Token::Op(text("==")),
            Token::Ident(text("d")),
            Token::Equals,
            Token::Ident(text("e")),
            Token::Newline,
        ]
    );
    assert_eq!(
        kinds("([{,}]):x\n"),
        vec![
            Token::LParen,
            Token::LBracket,
            Token::LBrace,
            Token::Comma,
            Token::RBrace,
            Token::RBracket,
            Token::RParen,
            Token::Colon,
            Token::Ident(text("x")),
            Token::Newline,
        ]
    );
    // an operator runs on through every punctuation character, brackets too
    assert_eq!(kinds("a+(b\n")[1], Token::Op(text("+(")));
    assert_eq!(lex("a+(b)\n"), Err(LexError::UnbalancedBracket { pos: 4 }));
}

#[test]
fn strings() {
    assert_eq!(
        lex("\"h\u{e9}llo w\" x\n"),
        Ok(vec![
            (Token::StrLiteral(text("h\u{e9}llo w")), 9, 8),
            (Token::Ident(text("x")), 11, 1),
            (Token::Newline, 11, 1),
        ])
    );
    assert_eq!(lex("\"\" "), Ok(vec![(Token::StrLiteral(text("")), 2, 0)]));
}

#[test]
fn string_that_does_not_end() {
    assert_eq!(lex("\"abc"), Err(LexError::UnterminatedString { pos: 4, len: 3 }));
    assert_eq!(lex("\""), Err(LexError::UnterminatedString { pos: 1, len: 0 }));
    assert_eq!(lex("x \"a\0b\" "), Err(LexError::UnterminatedString { pos: 4, len: 1 }));
}

#[test]
fn comments() {
    assert_eq!(
        lex("a # note\nb\n"),
        Ok(vec![
            (Token::Ident(text("a")), 1, 1),
            (Token::Ident(text("b")), 10, 1),
            (Token::Newline, 10, 1),
        ])
    );
    assert_eq!(
        lex("#: adds\nx\n"),
        Ok(vec![
            (Token::DocComment(text(" adds")), 8, 7),
            (Token::Ident(text("x")), 9, 1),
            (Token::Newline, 9, 1),
        ])
    );
    assert_eq!(lex("# to the end"), Ok(vec![]));
    assert_eq!(lex("#: doc"), Ok(vec![(Token::DocComment(text(" do\0")), 7, 6)]));
}

#[test]
fn line_breaks() {
    // dropped after an operator, after a comma, inside brackets, and when repeated
    assert_eq!(
        kinds("a +\nb\n\n\nf(\nc,\nd\n)\n[\n1\n]\n"),
        vec![
            Token::Ident(text("a")),
            Token::Op(text("+")),
            Token::Ident(text("b")),
            Token::Newline,
            Token::Ident(text("f")),
            Token::LParen,
            Token::Ident(text("c")),
            Token::Comma,
            Token::Ident(text("d")),
            Token::RParen,
            Token::Newline,
            Token::LBracket,
            Token::IntLiteral(text("1")),
            Token::RBracket,
            Token::Newline,
        ]
    );
    assert_eq!(lex("\n"), Ok(vec![(Token::Newline, 0, 1)]));
    assert_eq!(lex(" \t\r\x0C"), Ok(vec![]));
    assert_eq!(lex(""), Ok(vec![]));
}

#[test]
fn null_character_ends_the_input() {
    assert_eq!(lex("a \0 b c"), Ok(vec![(Token::Ident(text("a")), 1, 1)]));
}

#[test]
fn characters_that_start_no_token() {
    assert_eq!(lex("a \u{e9} "), Err(LexError::UnexpectedCharacter { pos: 2 }));
    assert_eq!(lex("\x0B "), Err(LexError::UnexpectedCharacter { pos: 0 }));
    assert_eq!(lex("\x7F "), Err(LexError::UnexpectedCharacter { pos: 0 }));
}

#[test]
fn characters_that_lack_the_one_after() {
    assert_eq!(lex("x ."), Err(LexError::UnexpectedEnd { pos: 2 }));
    assert_eq!(lex("x ="), Err(LexError::UnexpectedEnd { pos: 2 }));
    assert_eq!(lex("x #"), Err(LexError::UnexpectedEnd { pos: 2 }));
    assert_eq!(lex("f("), Err(LexError::UnexpectedEnd { pos: 1 }));
    assert_eq!(lex("{ }"), Err(LexError::UnexpectedEnd { pos: 2 }));
}

#[test]
fn brackets_that_close_nothing() {
    assert_eq!(lex("a) "), Err(LexError::UnbalancedBracket { pos: 1 }));
    assert_eq!(lex("(a)] "), Err(LexError::UnbalancedBracket { pos: 3 }));
    assert_eq!(lex(")"), Err(LexError::UnbalancedBracket { pos: 0 }));
    // braces are not counted
    assert_eq!(kinds("} "), vec![Token::RBrace]);
}

#[test]
fn character_classes() {
    for ch in ['a', 'z', 'A', 'Z', '_'] {
        assert!(is_ident_start(ch) && is_ident(ch));
    }
    for ch in ['0', '9'] {
        assert!(!is_ident_start(ch) && is_ident(ch) && is_number(ch, true));
    }
    for ch in ['-', ' ', '\0', '\u{e9}', '{', '`', '@', '['] {
        assert!(!is_ident_start(ch) && !is_ident(ch) && !is_number(ch, false));
    }
    assert!(is_number('.', false) && !is_number('.', true));
    for ch in ['(', ')', '[', ']', '{', '}', ',', '=', ':'] {
        assert!(is_special(ch) && is_op(ch));
    }
    assert!(!is_special(';') && !is_special('<'));
    for ch in ['!', '/', ':', '@', '[', '`', '{', '~', '"', '#', '.'] {
        assert!(is_op(ch));
    }
    for ch in [' ', '0', '9', 'A', 'Z', 'a', 'z', '\x7F', '\u{e9}', '\n'] {
        assert!(!is_op(ch));
    }
    for ch in [' ', '\t', '\n', '\x0C', '\r'] {
        assert!(is_whitespace(ch));
    }
    assert!(!is_whitespace('\x0B') && !is_whitespace('a') && !is_whitespace('\u{a0}'));
    for code in 0u32..=0x2FF {
        let ch = char::from_u32(code).unwrap();
        assert_eq!(is_ident(ch), ch.is_ascii_alphanumeric() || ch == '_');
        assert_eq!(is_ident_start(ch), ch.is_ascii_alphabetic() || ch == '_');
        assert_eq!(is_number(ch, false), ch.is_ascii_digit() || ch == '.');
        assert_eq!(is_number(ch, true), ch.is_ascii_digit());
        assert_eq!(is_op(ch), ch.is_ascii_punctuation());
        assert_eq!(is_whitespace(ch), ch.is_ascii_whitespace());
    }
}

#[test]
fn token_lengths() {
    assert_eq!(token_len(&Token::IntLiteral(text("123"))), 3);
    assert_eq!(token_len(&Token::FloatLiteral(text("1.5"))), 3);
    assert_eq!(token_len(&Token::StrLiteral(text("h\u{e9}"))), 3);
    assert_eq!(token_len(&Token::Ident(text("name"))), 4);
    assert_eq!(token_len(&Token::Op(text("<="))), 2);
    assert_eq!(token_len(&Token::DocComment(text(" x"))), 4);
    let fixed = [
        (Token::Proc, 4),
        (Token::If, 2),
        (Token::Else, 4),
        (Token::Elif, 4),
        (Token::While, 5),
        (Token::Loop, 4),
        (Token::Var, 3),
        (Token::Const, 5),
        (Token::Return, 6),
        (Token::Use, 3),
        (Token::Break, 5),
        (Token::Continue, 8),
        (Token::LParen, 1),
        (Token::RParen, 1),
        (Token::LBracket, 1),
        (Token::RBracket, 1),
        (Token::LBrace, 1),
        (Token::RBrace, 1),
        (Token::Comma, 1),
        (Token::Equals, 1),
        (Token::Colon, 1),
        (Token::Newline, 1),
    ];
    for (token, len) in fixed {
        assert_eq!(token_len(&token), len);
        assert_eq!(checked_token_len(&token), Some(len));
    }
    assert_eq!(checked_token_len(&Token::EOF), None);
    assert_eq!(checked_token_len(&Token::DocComment(text("ab"))), Some(4));
}

#[test]
fn tokens_compare_by_kind_and_text() {
    assert!(Token::Ident(text("a")).same(&Token::Ident(text("a"))));
    assert!(!Token::Ident(text("a")).same(&Token::Ident(text("b"))));
    assert!(!Token::Ident(text("a")).same(&Token::Op(text("a"))));
    assert!(Token::EOF.same(&Token::EOF));
    assert!(!Token::Newline.same(&Token::EOF));
    assert_eq!(Token::StrLiteral(text("s")).clone(), Token::StrLiteral(text("s")));
}
