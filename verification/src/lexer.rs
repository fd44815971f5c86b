//! The lexer: from characters to tokens.

use vstd::prelude::*;
use vstd::utf8::encode_utf8;
use crate::errors::Span;
use crate::text::push_char;
use crate::token::{
    is_ident,
    is_ident_start,
    is_number,
    is_op,
    is_special,
    is_whitespace,
    special_token,
    spec_is_ident,
    spec_is_ident_start,
    spec_is_number,
    spec_is_op,
    spec_is_special,
    spec_is_whitespace,
    spec_token_len,
    str_to_ident,
    str_to_keyword,
    token_len,
    word_token,
    SpecToken,
    Token,
};

verus! {

/// The longest input that a lexer takes: short enough that the byte length
/// of any text cut from it can be counted.
pub const MAX_CODE_LEN: usize = usize::MAX / 4 - 1;

/// Why the lexer gave up.
#[derive(Debug, Clone, Copy, PartialEq, Eq, Structural)]
pub enum LexError {
    /// The input ended inside a string literal. `pos` is where it ended,
    /// `len` the byte length of the text read so far.
    UnterminatedString { pos: usize, len: usize },
    /// The character at `pos` starts no token.
    UnexpectedCharacter { pos: usize },
    /// The character at `pos` needs a character after it, and is the last.
    UnexpectedEnd { pos: usize },
    /// The closing bracket at `pos` closes nothing.
    UnbalancedBracket { pos: usize },
}

/// A run that gave up: why, and where it left the cursor and the bracket
/// depth.
pub struct LexFailure {
    pub error: LexError,
    pub index: int,
    pub nesting: int,
}

/// The character under the cursor; the null character past the end.
pub open spec fn peek_at(code: Seq<char>, index: int) -> char {
    if 0 <= index < code.len() {
        code[index]
    } else {
        '\0'
    }
}

/// The character that the cursor hands out when it moves on from `index`:
/// the character there, but the null character once the move reaches the
/// end of the input.
pub open spec fn taken_at(code: Seq<char>, index: int) -> char {
    if 0 <= index && index + 1 < code.len() {
        code[index]
    } else {
        '\0'
    }
}

/// The characters handed out by `count` moves from `from` on.
pub open spec fn taken(code: Seq<char>, from: int, count: nat) -> Seq<char> {
    Seq::new(count, |k: int| taken_at(code, from + k))
}

/// How many identifier characters stand at `from`.
pub open spec fn ident_run(code: Seq<char>, from: int) -> nat
    decreases code.len() - from,
{
    if 0 <= from < code.len() && spec_is_ident(code[from]) {
        1 + ident_run(code, from + 1)
    } else {
        0
    }
}

/// How many operator characters stand at `from`.
pub open spec fn op_run(code: Seq<char>, from: int) -> nat
    decreases code.len() - from,
{
    if 0 <= from < code.len() && spec_is_op(code[from]) {
        1 + op_run(code, from + 1)
    } else {
        0
    }
}

/// How many characters stand at `from` before the line or the input ends.
pub open spec fn line_run(code: Seq<char>, from: int) -> nat
    decreases code.len() - from,
{
    if 0 <= from < code.len() && code[from] != '\n' && code[from] != '\0' {
        1 + line_run(code, from + 1)
    } else {
        0
    }
}

/// How many characters stand at `from` before a double quote or the end of
/// the input.
pub open spec fn string_run(code: Seq<char>, from: int) -> nat
    decreases code.len() - from,
{
    if 0 <= from < code.len() && code[from] != '"' && code[from] != '\0' {
        1 + string_run(code, from + 1)
    } else {
        0
    }
}

/// How many characters of a number stand at `from`, and whether a decimal
/// point was handed out among them or before.
pub open spec fn number_run(code: Seq<char>, from: int, decimal_passed: bool) -> (nat, bool)
    decreases code.len() - from,
{
    if 0 <= from < code.len() && spec_is_number(code[from], decimal_passed) {
        let rest = number_run(code, from + 1, decimal_passed || taken_at(code, from) == '.');
        ((1 + rest.0) as nat, rest.1)
    } else {
        (0, decimal_passed)
    }
}

/// A token with the span that the lexer gives it when its cursor is at
/// `index`.
pub open spec fn spanned_at(token: SpecToken, index: int) -> Span<SpecToken> {
    Span { contents: token, pos: index as usize, len: spec_token_len(token) as usize }
}

/// What one step of the lexer yields.
pub struct Scan {
    /// The token read, if the step read one.
    pub token: Option<Span<SpecToken>>,
    /// Where the cursor is after the step.
    pub index: int,
    /// The bracket depth after the step.
    pub nesting: int,
    /// Whether the step found the end of the input.
    pub at_end: bool,
}

/// A step that read `token` and left the cursor at `index`.
pub open spec fn scanned(token: SpecToken, index: int, nesting: int) -> Scan {
    Scan { token: Some(spanned_at(token, index)), index, nesting, at_end: false }
}

/// A step that read no token and left the cursor at `index`.
pub open spec fn skipped(index: int, nesting: int) -> Scan {
    Scan { token: None, index, nesting, at_end: false }
}

/// A number read from `index` on.
pub open spec fn number_scan(code: Seq<char>, index: int, nesting: int) -> Scan {
    let run = number_run(code, index, false);
    let text = taken(code, index, run.0);
    scanned(
        if run.1 {
            SpecToken::FloatLiteral(text)
        } else {
            SpecToken::IntLiteral(text)
        },
        index + run.0,
        nesting,
    )
}

/// An operator read from `index` on.
pub open spec fn operator_scan(code: Seq<char>, index: int, nesting: int) -> Scan {
    let count = op_run(code, index);
    scanned(SpecToken::Op(taken(code, index, count)), index + count, nesting)
}

/// The special character at `index`. An opening bracket deepens the
/// nesting, a closing one needs something to close, and the character must
/// not be the last of the input.
pub open spec fn special_scan(code: Seq<char>, index: int, nesting: int) -> Result<
    Scan,
    LexFailure,
> {
    let ch = code[index];
    let depth = if ch == '(' || ch == '[' {
        nesting + 1
    } else if ch == ')' || ch == ']' {
        nesting - 1
    } else {
        nesting
    };
    if (ch == ')' || ch == ']') && nesting <= 0 {
        Err(LexFailure { error: LexError::UnbalancedBracket { pos: index as usize }, index, nesting })
    } else if index + 1 >= code.len() {
        Err(
            LexFailure {
                error: LexError::UnexpectedEnd { pos: index as usize },
                index: index + 1,
                nesting: depth,
            },
        )
    } else {
        Ok(scanned(special_token(ch), index + 1, depth))
    }
}

/// The string literal whose opening quote is at `index`.
pub open spec fn string_scan(code: Seq<char>, index: int, nesting: int) -> Result<
    Scan,
    LexFailure,
> {
    let count = string_run(code, index + 1);
    let close = index + 1 + count;
    let text = taken(code, index + 1, count);
    if peek_at(code, close) == '"' {
        Ok(scanned(SpecToken::StrLiteral(text), close + 1, nesting))
    } else {
        Err(
            LexFailure {
                error: LexError::UnterminatedString {
                    pos: close as usize,
                    len: encode_utf8(text).len() as usize,
                },
                index: close,
                nesting,
            },
        )
    }
}

/// Whether a line break after `last` is dropped: inside brackets, after an
/// operator or a comma, and after another line break.
pub open spec fn newline_suppressed(nesting: int, last: Option<SpecToken>) -> bool {
    nesting != 0 || match last {
        Some(SpecToken::Newline) => true,
        Some(SpecToken::Op(_)) => true,
        Some(SpecToken::Comma) => true,
        _ => false,
    }
}

/// One step of the lexer with the cursor at `index`, `last` being the token
/// read before, if any.
pub open spec fn lex_token(code: Seq<char>, index: int, nesting: int, last: Option<SpecToken>) -> Result<
    Scan,
    LexFailure,
> {
    let ch = peek_at(code, index);
    if spec_is_ident_start(ch) {
        let count = ident_run(code, index);
        Ok(scanned(word_token(taken(code, index, count)), index + count, nesting))
    } else if ch == '.' {
        if index + 1 >= code.len() {
            Err(LexFailure { error: LexError::UnexpectedEnd { pos: index as usize }, index, nesting })
        } else if spec_is_number(code[index + 1], false) {
            Ok(number_scan(code, index, nesting))
        } else {
            Ok(
                Scan {
                    token: Some(spanned_at(SpecToken::Op("."@), index)),
                    index: index + 1,
                    nesting,
                    at_end: false,
                },
            )
        }
    } else if spec_is_number(ch, false) {
        Ok(number_scan(code, index, nesting))
    } else if ch == '=' {
        if index + 1 >= code.len() {
            Err(LexFailure { error: LexError::UnexpectedEnd { pos: index as usize }, index, nesting })
        } else if code[index + 1] == '=' {
            Ok(operator_scan(code, index, nesting))
        } else {
            special_scan(code, index, nesting)
        }
    } else if ch == '#' {
        if index + 1 >= code.len() {
            Err(LexFailure { error: LexError::UnexpectedEnd { pos: index as usize }, index, nesting })
        } else if code[index + 1] == ':' {
            let count = line_run(code, index + 2);
            Ok(
                scanned(
                    SpecToken::DocComment(taken(code, index + 2, count)),
                    index + 2 + count + 1,
                    nesting,
                ),
            )
        } else {
            Ok(skipped(index + 1 + line_run(code, index + 1) + 1, nesting))
        }
    } else if spec_is_special(ch) {
        special_scan(code, index, nesting)
    } else if ch == '"' {
        string_scan(code, index, nesting)
    } else if spec_is_op(ch) {
        Ok(operator_scan(code, index, nesting))
    } else if ch == '\n' {
        if newline_suppressed(nesting, last) {
            Ok(skipped(index + 1, nesting))
        } else {
            Ok(
                Scan {
                    token: Some(spanned_at(SpecToken::Newline, index)),
                    index: index + 1,
                    nesting,
                    at_end: false,
                },
            )
        }
    } else if spec_is_whitespace(ch) {
        Ok(skipped(index + 1, nesting))
    } else if ch == '\0' {
        Ok(Scan { token: None, index, nesting, at_end: true })
    } else {
        Err(
            LexFailure {
                error: LexError::UnexpectedCharacter { pos: index as usize },
                index,
                nesting,
            },
        )
    }
}

/// The last token read.
pub open spec fn last_token(tokens: Seq<Span<SpecToken>>) -> Option<SpecToken> {
    if tokens.len() > 0 {
        Some(tokens.last().contents)
    } else {
        None
    }
}

/// What a whole run of the lexer leaves.
pub struct LexRun {
    pub tokens: Seq<Span<SpecToken>>,
    pub index: int,
    pub nesting: int,
}

/// The run of the lexer from `index` on, `tokens` having been read before:
/// step after step until the end of the input or the first error.
pub open spec fn lex_from(code: Seq<char>, index: int, nesting: int, tokens: Seq<Span<SpecToken>>) -> Result<
    LexRun,
    LexFailure,
>
    decreases code.len() + 1 - index,
    via lex_from_terminates
{
    match lex_token(code, index, nesting, last_token(tokens)) {
        Err(e) => Err(e),
        Ok(scan) => if scan.at_end {
            Ok(LexRun { tokens, index, nesting })
        } else {
            lex_from(
                code,
                scan.index,
                scan.nesting,
                match scan.token {
                    Some(token) => tokens.push(token),
                    None => tokens,
                },
            )
        },
    }
}

#[via_fn]
proof fn lex_from_terminates(code: Seq<char>, index: int, nesting: int, tokens: Seq<Span<SpecToken>>) {
    lemma_step_advances(code, index, nesting, last_token(tokens));
}

/// A run ends inside the input.
pub proof fn lemma_runs_end_in_input(code: Seq<char>, from: int)
    requires
        0 <= from <= code.len(),
    ensures
        from + ident_run(code, from) <= code.len(),
        from + op_run(code, from) <= code.len(),
        from + line_run(code, from) <= code.len(),
        from + string_run(code, from) <= code.len(),
        from + number_run(code, from, false).0 <= code.len(),
        from + number_run(code, from, true).0 <= code.len(),
    decreases code.len() - from,
{
    if from < code.len() {
        lemma_runs_end_in_input(code, from + 1);
    }
}

/// A step that does not end the run moves the cursor forward, and starts
/// inside the input.
pub proof fn lemma_step_advances(code: Seq<char>, index: int, nesting: int, last: Option<SpecToken>)
    ensures
        lex_token(code, index, nesting, last) matches Ok(scan) ==> scan.at_end || (0 <= index
            < code.len() && index < scan.index <= code.len() + 1),
{
    if 0 <= index < code.len() {
        lemma_runs_end_in_input(code, index);
        lemma_runs_end_in_input(code, index + 1);
        if index + 2 <= code.len() {
            lemma_runs_end_in_input(code, index + 2);
        }
    }
}

/// The tokens of `code`, or the reason why it has none.
pub open spec fn spec_lex(code: Seq<char>) -> Result<Seq<Span<SpecToken>>, LexError> {
    match lex_from(code, 0, 0, Seq::empty()) {
        Ok(run) => Ok(run.tokens),
        Err(failure) => Err(failure.error),
    }
}

/// The UTF-8 encoding of a text has at most four bytes to the character.
pub proof fn lemma_encoding_is_bounded(text: Seq<char>)
    ensures
        encode_utf8(text).len() <= 4 * text.len(),
    decreases text.len(),
{
    if text.len() > 0 {
        lemma_encoding_is_bounded(text.drop_first());
    }
}

/// One more move hands out one more character.
proof fn lemma_taken_grows(code: Seq<char>, from: int, count: nat)
    ensures
        taken(code, from, count + 1) == taken(code, from, count).push(taken_at(code, from + count)),
{
    assert(taken(code, from, count + 1) =~= taken(code, from, count).push(
        taken_at(code, from + count),
    ));
}

/// What a lexer is at a given moment: its input, its cursor, and how many
/// brackets are open.
pub struct LexerState {
    pub code: Seq<char>,
    pub index: int,
    pub nesting: int,
}

/// A lexer over a slice of characters.
pub struct Lexer<'l> {
    code: &'l [char],
    index: usize,
    nesting: usize,
}

impl<'l> View for Lexer<'l> {
    type V = LexerState;

    closed spec fn view(&self) -> LexerState {
        LexerState { code: self.code@, index: self.index as int, nesting: self.nesting as int }
    }
}

impl<'l> Lexer<'l> {
    /// The cursor is at most one past the end of an input of admissible
    /// length, and no more brackets are open than characters were read.
    pub closed spec fn well_formed(&self) -> bool {
        &&& self.code@.len() <= MAX_CODE_LEN
        &&& self.index <= self.code@.len() + 1
        &&& self.nesting <= self.index
    }

    /// A lexer at the start of `code`.
    pub fn new(code: &'l [char]) -> (lexer: Self)
        requires
            code@.len() <= MAX_CODE_LEN,
        ensures
            lexer.well_formed(),
            lexer@ == (LexerState { code: code@, index: 0, nesting: 0 }),
    {
        Lexer { code, index: 0, nesting: 0 }
    }

    fn peek(&self) -> (ch: char)
        ensures
            ch == peek_at(self.code@, self.index as int),
    {
        if self.index >= self.code.len() {
            return '\0';
        }
        self.code[self.index]
    }

    fn next(&mut self) -> (ch: char)
        requires
            old(self).well_formed(),
            old(self).index <= old(self).code@.len(),
        ensures
            final(self).well_formed(),
            final(self).code == old(self).code,
            final(self).nesting == old(self).nesting,
            final(self).index == old(self).index + 1,
            ch == taken_at(old(self).code@, old(self).index as int),
    {
        self.index += 1;
        if self.index >= self.code.len() {
            return '\0';
        }
        let ch = self.code[self.index - 1];
        ch
    }

    fn ident_str(&mut self) -> (ident: String)
        requires
            old(self).well_formed(),
            old(self).index <= old(self).code@.len(),
        ensures
            final(self).well_formed(),
            final(self).code == old(self).code,
            final(self).nesting == old(self).nesting,
            final(self).index == old(self).index + ident_run(
                old(self).code@,
                old(self).index as int,
            ),
            final(self).index <= final(self).code@.len(),
            ident@ == taken(
                old(self).code@,
                old(self).index as int,
                ident_run(old(self).code@, old(self).index as int),
            ),
    {
        let mut ident = String::new();
        let ghost start = self.index as int;
        let ghost code = self.code@;
        assert(ident@ =~= taken(code, start, 0));
        while is_ident(self.peek())
            invariant
                self.well_formed(),
                self.code == old(self).code,
                self.nesting == old(self).nesting,
                code == self.code@,
                start == old(self).index,
                start <= self.index <= code.len(),
                ident_run(code, start) == (self.index - start) + ident_run(code, self.index as int),
                ident@ == taken(code, start, (self.index - start) as nat),
            decreases code.len() - self.index,
        {
            proof {
                lemma_taken_grows(code, start, (self.index - start) as nat);
            }
            let ch = self.next();
            push_char(&mut ident, ch);
        }
        ident
    }

    fn number(&mut self) -> (number: Token)
        requires
            old(self).well_formed(),
            old(self).index <= old(self).code@.len(),
        ensures
            final(self).well_formed(),
            final(self).code == old(self).code,
            final(self).nesting == old(self).nesting,
            final(self).index <= final(self).code@.len(),
            ({
                let scan = number_scan(old(self).code@, old(self).index as int, 0);
                &&& final(self).index == scan.index
                &&& number.deep_view() == scan.token->Some_0.contents
            }),
    {
        let mut number = String::new();
        let mut decimal_passed = false;
        let ghost start = self.index as int;
        let ghost code = self.code@;
        assert(number@ =~= taken(code, start, 0));
        while is_number(self.peek(), decimal_passed)
            invariant
                self.well_formed(),
                self.code == old(self).code,
                self.nesting == old(self).nesting,
                code == self.code@,
                start == old(self).index,
                start <= self.index <= code.len(),
                number_run(code, start, false).0 == (self.index - start) + number_run(
                    code,
                    self.index as int,
                    decimal_passed,
                ).0,
                number_run(code, start, false).1 == number_run(
                    code,
                    self.index as int,
                    decimal_passed,
                ).1,
                number@ == taken(code, start, (self.index - start) as nat),
            decreases code.len() - self.index,
        {
            proof {
                lemma_taken_grows(code, start, (self.index - start) as nat);
            }
            let ch = self.next();
            if ch == '.' {
                decimal_passed = true;
            }
            push_char(&mut number, ch);
        }
        if decimal_passed {
            Token::FloatLiteral(number)
        } else {
            Token::IntLiteral(number)
        }
    }

    fn operator(&mut self) -> (operator: Token)
        requires
            old(self).well_formed(),
            old(self).index <= old(self).code@.len(),
        ensures
            final(self).well_formed(),
            final(self).code == old(self).code,
            final(self).nesting == old(self).nesting,
            final(self).index <= final(self).code@.len(),
            ({
                let scan = operator_scan(old(self).code@, old(self).index as int, 0);
                &&& final(self).index == scan.index
                &&& operator.deep_view() == scan.token->Some_0.contents
            }),
    {
        let mut op = String::new();
        let ghost start = self.index as int;
        let ghost code = self.code@;
        assert(op@ =~= taken(code, start, 0));
        while is_op(self.peek())
            invariant
                self.well_formed(),
                self.code == old(self).code,
                self.nesting == old(self).nesting,
                code == self.code@,
                start == old(self).index,
                start <= self.index <= code.len(),
                op_run(code, start) == (self.index - start) + op_run(code, self.index as int),
                op@ == taken(code, start, (self.index - start) as nat),
            decreases code.len() - self.index,
        {
            proof {
                lemma_taken_grows(code, start, (self.index - start) as nat);
            }
            let ch = self.next();
            push_char(&mut op, ch);
        }
        Token::Op(op)
    }

    fn string(&mut self) -> (string: Result<Token, LexError>)
        requires
            old(self).well_formed(),
            old(self).index < old(self).code@.len(),
        ensures
            final(self).well_formed(),
            final(self).code == old(self).code,
            final(self).nesting == old(self).nesting,
            final(self).index <= final(self).code@.len(),
            match string_scan(old(self).code@, old(self).index as int, 0) {
                Ok(scan) => string is Ok && final(self).index == scan.index
                    && string->Ok_0.deep_view() == scan.token->Some_0.contents,
                Err(failure) => string == Err::<Token, LexError>(failure.error)
                    && final(self).index == failure.index,
            },
    {
        let mut string = String::new();
        self.next();
        let ghost start = self.index as int;
        let ghost code = self.code@;
        assert(string@ =~= taken(code, start, 0));
        while self.peek() != '"'
            invariant
                self.well_formed(),
                self.code == old(self).code,
                self.nesting == old(self).nesting,
                code == self.code@,
                start == old(self).index + 1,
                start <= self.index <= code.len(),
                string_run(code, start) == (self.index - start) + string_run(
                    code,
                    self.index as int,
                ),
                string@ == taken(code, start, (self.index - start) as nat),
            decreases code.len() - self.index,
        {
            if self.peek() == '\0' {
                return Err(
                    LexError::UnterminatedString {
                        pos: self.index,
                        len: string.as_str().as_bytes().len(),
                    },
                );
            }
            proof {
                lemma_taken_grows(code, start, (self.index - start) as nat);
            }
            let ch = self.next();
            push_char(&mut string, ch);
        }
        self.next();
        Ok(Token::StrLiteral(string))
    }

    fn special(&mut self) -> (special: Result<Token, LexError>)
        requires
            old(self).well_formed(),
            old(self).index < old(self).code@.len(),
            spec_is_special(old(self).code@[old(self).index as int]),
        ensures
            final(self).well_formed(),
            final(self).code == old(self).code,
            final(self).index <= final(self).code@.len(),
            match special_scan(old(self).code@, old(self).index as int, old(self).nesting as int) {
                Ok(scan) => special is Ok && final(self).index == scan.index && final(self).nesting
                    == scan.nesting && special->Ok_0.deep_view() == scan.token->Some_0.contents,
                Err(failure) => special == Err::<Token, LexError>(failure.error)
                    && final(self).index == failure.index && final(self).nesting == failure.nesting,
            },
    {
        let at = self.index;
        let ch = self.peek();
        if (ch == ')' || ch == ']') && self.nesting == 0 {
            return Err(LexError::UnbalancedBracket { pos: at });
        }
        let taken = self.next();
        if ch == '(' || ch == '[' {
            self.nesting += 1;
        } else if ch == ')' || ch == ']' {
            self.nesting -= 1;
        }
        if taken == '(' {
            Ok(Token::LParen)
        } else if taken == ')' {
            Ok(Token::RParen)
        } else if taken == '[' {
            Ok(Token::LBracket)
        } else if taken == ']' {
            Ok(Token::RBracket)
        } else if taken == '{' {
            Ok(Token::LBrace)
        } else if taken == '}' {
            Ok(Token::RBrace)
        } else if taken == ',' {
            Ok(Token::Comma)
        } else if taken == '=' {
            Ok(Token::Equals)
        } else if taken == ':' {
            Ok(Token::Colon)
        } else {
            Err(LexError::UnexpectedEnd { pos: at })
        }
    }

    fn comment(&mut self)
        requires
            old(self).well_formed(),
            old(self).index < old(self).code@.len(),
        ensures
            final(self).well_formed(),
            final(self).code == old(self).code,
            final(self).nesting == old(self).nesting,
            final(self).index == old(self).index + 1 + line_run(
                old(self).code@,
                old(self).index + 1,
            ) + 1,
    {
        self.next();
        let ghost start = self.index as int;
        let ghost code = self.code@;
        while self.peek() != '\n' && self.peek() != '\0'
            invariant
                self.well_formed(),
                self.code == old(self).code,
                self.nesting == old(self).nesting,
                code == self.code@,
                start == old(self).index + 1,
                start <= self.index <= code.len(),
                line_run(code, start) == (self.index - start) + line_run(code, self.index as int),
            decreases code.len() - self.index,
        {
            self.next();
        }
        self.next();
    }

    fn doc_comment(&mut self) -> (doc_comment: Token)
        requires
            old(self).well_formed(),
            old(self).index + 1 < old(self).code@.len(),
        ensures
            final(self).well_formed(),
            final(self).code == old(self).code,
            final(self).nesting == old(self).nesting,
            final(self).index == old(self).index + 2 + line_run(
                old(self).code@,
                old(self).index + 2,
            ) + 1,
            doc_comment.deep_view() == SpecToken::DocComment(
                taken(
                    old(self).code@,
                    old(self).index + 2,
                    line_run(old(self).code@, old(self).index + 2),
                ),
            ),
    {
        self.next();
        self.next();
        let mut doc_comment = String::new();
        let ghost start = self.index as int;
        let ghost code = self.code@;
        assert(doc_comment@ =~= taken(code, start, 0));
        while self.peek() != '\n' && self.peek() != '\0'
            invariant
                self.well_formed(),
                self.code == old(self).code,
                self.nesting == old(self).nesting,
                code == self.code@,
                start == old(self).index + 2,
                start <= self.index <= code.len(),
                line_run(code, start) == (self.index - start) + line_run(code, self.index as int),
                doc_comment@ == taken(code, start, (self.index - start) as nat),
            decreases code.len() - self.index,
        {
            proof {
                lemma_taken_grows(code, start, (self.index - start) as nat);
            }
            let ch = self.next();
            push_char(&mut doc_comment, ch);
        }
        self.next();
        Token::DocComment(doc_comment)
    }

    fn spanned(&self, token: Token) -> (span: Span<Token>)
        requires
            !(token.deep_view() is EOF),
            token.deep_view() is DocComment ==> spec_token_len(token.deep_view()) <= usize::MAX,
        ensures
            span.deep_view() == spanned_at(token.deep_view(), self.index as int),
    {
        let len = token_len(&token);
        Span { contents: token, pos: self.index, len }
    }
}

impl<'l> Lexer<'l> {
    fn emit(&self, tokens: &mut Vec<Span<Token>>, token: Token)
        requires
            !(token.deep_view() is EOF),
            token.deep_view() is DocComment ==> spec_token_len(token.deep_view()) <= usize::MAX,
        ensures
            final(tokens).deep_view() == old(tokens).deep_view().push(
                spanned_at(token.deep_view(), self.index as int),
            ),
    {
        let ghost before = tokens.deep_view();
        let span = self.spanned(token);
        tokens.push(span);
        assert(tokens.deep_view() =~= before.push(span.deep_view()));
    }

    /// Reads the rest of the input into tokens.
    ///
    /// Returns the tokens in the order in which they stand, or the reason
    /// why the input has none: the first string literal that does not end,
    /// character that starts no token, character that lacks the one after
    /// it, or bracket that closes nothing.
    pub fn tokenize(&mut self) -> (outcome: Result<Vec<Span<Token>>, LexError>)
        requires
            old(self).well_formed(),
        ensures
            final(self).well_formed(),
            final(self)@.code == old(self)@.code,
            match lex_from(old(self)@.code, old(self)@.index, old(self)@.nesting, Seq::empty()) {
                Ok(run) => outcome is Ok && outcome->Ok_0.deep_view() == run.tokens
                    && final(self)@.index == run.index && final(self)@.nesting == run.nesting,
                Err(failure) => outcome == Err::<Vec<Span<Token>>, LexError>(failure.error)
                    && final(self)@.index == failure.index && final(self)@.nesting
                    == failure.nesting,
            },
    {
        let mut tokens: Vec<Span<Token>> = Vec::new();
        let ghost code = self.code@;
        assert(tokens.deep_view() =~= Seq::empty());
        loop
            invariant
                self.well_formed(),
                self.code == old(self).code,
                code == self.code@,
                lex_from(code, old(self).index as int, old(self).nesting as int, Seq::empty())
                    == lex_from(code, self.index as int, self.nesting as int, tokens.deep_view()),
            decreases code.len() + 1 - self.index,
        {
            let ghost before = tokens.deep_view();
            let ghost at = self.index as int;
            let ghost depth = self.nesting as int;
            proof {
                lemma_step_advances(code, at, depth, last_token(before));
            }
            let ch = self.peek();
            if is_ident_start(ch) {
                let id = self.ident_str();
                let token = match str_to_keyword(id.as_str()) {
                    Some(keyword) => keyword,
                    None => str_to_ident(id.as_str()),
                };
                self.emit(&mut tokens, token);
            } else if ch == '.' {
                if self.index + 1 >= self.code.len() {
                    return Err(LexError::UnexpectedEnd { pos: self.index });
                }
                if is_number(self.code[self.index + 1], false) {
                    let number = self.number();
                    self.emit(&mut tokens, number);
                } else {
                    self.emit(&mut tokens, Token::Op(".".to_owned()));
                    self.next();
                }
            } else if is_number(ch, false) {
                let number = self.number();
                self.emit(&mut tokens, number);
            } else if ch == '=' {
                if self.index + 1 >= self.code.len() {
                    return Err(LexError::UnexpectedEnd { pos: self.index });
                }
                if self.code[self.index + 1] == '=' {
                    let operator = self.operator();
                    self.emit(&mut tokens, operator);
                } else {
                    let special = match self.special() {
                        Ok(special) => special,
                        Err(e) => return Err(e),
                    };
                    self.emit(&mut tokens, special);
                }
            } else if ch == '#' {
                if self.index + 1 >= self.code.len() {
                    return Err(LexError::UnexpectedEnd { pos: self.index });
                }
                if self.code[self.index + 1] == ':' {
                    let doc_comment = self.doc_comment();
                    proof {
                        let text = taken(code, at + 2, line_run(code, at + 2));
                        lemma_encoding_is_bounded(text);
                    }
                    self.emit(&mut tokens, doc_comment);
                } else {
                    self.comment();
                }
            } else if is_special(ch) {
                let special = match self.special() {
                    Ok(special) => special,
                    Err(e) => return Err(e),
                };
                self.emit(&mut tokens, special);
            } else if ch == '"' {
                let string = match self.string() {
                    Ok(string) => string,
                    Err(e) => return Err(e),
                };
                self.emit(&mut tokens, string);
            } else if is_op(ch) {
                let operator = self.operator();
                self.emit(&mut tokens, operator);
            } else if ch == '\n' {
                let after_break = tokens.len() > 0 && match &tokens[tokens.len() - 1].contents {
                    Token::Newline => true,
                    Token::Op(_) => true,
                    Token::Comma => true,
                    _ => false,
                };
                assert(after_break == match last_token(before) {
                    Some(SpecToken::Newline) => true,
                    Some(SpecToken::Op(_)) => true,
                    Some(SpecToken::Comma) => true,
                    _ => false,
                }) by {
                    if tokens.len() > 0 {
                        assert(before.last() == tokens[tokens.len() - 1].deep_view());
                    }
                }
                if !after_break && self.nesting == 0 {
                    self.emit(&mut tokens, Token::Newline);
                }
                self.next();
            } else if is_whitespace(ch) {
                self.next();
            } else if ch == '\0' {
                return Ok(tokens);
            } else {
                return Err(LexError::UnexpectedCharacter { pos: self.index });
            }
        }
    }

    /// Reads the rest of the input into tokens; `None` where a string
    /// literal does not end.
    ///
    /// The input must be one that can be read to its end or to such a
    /// string: `tokenize` tells.
    pub fn go(&mut self) -> (tokens: Option<Vec<Span<Token>>>)
        requires
            old(self).well_formed(),
            match lex_from(old(self)@.code, old(self)@.index, old(self)@.nesting, Seq::empty()) {
                Ok(_) => true,
                Err(failure) => failure.error is UnterminatedString,
            },
        ensures
            final(self).well_formed(),
            final(self)@.code == old(self)@.code,
            match lex_from(old(self)@.code, old(self)@.index, old(self)@.nesting, Seq::empty()) {
                Ok(run) => tokens is Some && tokens->Some_0.deep_view() == run.tokens
                    && final(self)@.index == run.index && final(self)@.nesting == run.nesting,
                Err(failure) => tokens is None && final(self)@.index == failure.index
                    && final(self)@.nesting == failure.nesting,
            },
    {
        match self.tokenize() {
            Ok(tokens) => Some(tokens),
            Err(_) => None,
        }
    }
}

} // verus!
