//! The scanner: turns a sequence of characters into tokens.
use vstd::prelude::*;

use crate::sym::{Strings, string_from_chars};
use crate::text::{decimal, push_decimal, push_signed_decimal, push_str, signed_decimal};

verus! {

#[derive(Clone, Copy, Debug, PartialEq, Eq, Structural)]
pub enum TokenKind {
    Comma,  // ,
    Semi,  // ;
    Colon,  // :
    Assign,  // =
    Plus,  // +
    Minus,  // -
    Star,  // *
    Slash,  // /
    Incr,  // ++
    Decr,  // --
    Caret,  // ^
    Not,  // !
    Mod,  // %
    And,  // &&
    Or,  // ||
    Eql,  // ==
    Neq,  // !=
    Lss,  // <
    Leq,  // <=
    Gtr,  // >
    Geq,  // >=
    LeftBrk,  // [
    RightBrk,  // ]
    LeftParen,  // (
    RightParen,  // )
    LeftAngl,  // {
    RightAngl,  // }
    // Types
    Array,  // array
    Bool,  // boolean
    Char,  // char
    Integer,  // integer
    String,  // string
    Void,  // void
    // Other Keywords
    Else,  // else
    For,  // for
    Function,  // function
    If,  // if
    Print,  // print
    Return,  // return
    /// An identifier: its index in the string table.
    Ident(usize),
    // Literals
    True,  // true
    False,  // false
    IntLit(i64),
    CharLit(char),
    /// A string literal: its index in the string table.
    StringLit(usize),
}

/// A position in the source: line and column, both counted from 1.
#[derive(Clone, Copy, Debug, PartialEq, Eq, Structural)]
pub struct Pos {
    pub line: usize,
    pub col: usize,
}

impl Pos {
    pub fn at(line: usize, col: usize) -> (r: Self)
        ensures
            r == (Pos { line, col }),
    {
        Pos { line, col }
    }
}

/// A token and where it starts.  Two tokens are equal when their kinds are,
/// wherever they stand.
#[derive(Clone, Copy, Debug)]
pub struct Token {
    pub kind: TokenKind,
    pub pos: Pos,
}

impl PartialEq for Token {
    fn eq(&self, other: &Self) -> (r: bool) {
        self.kind == other.kind
    }
}

impl vstd::std_specs::cmp::PartialEqSpecImpl for Token {
    open spec fn obeys_eq_spec() -> bool {
        true
    }

    open spec fn eq_spec(&self, other: &Self) -> bool {
        self.kind == other.kind
    }
}

impl Eq for Token {

}

impl Token {
    pub fn at(kind: TokenKind, pos: Pos) -> (r: Self)
        ensures
            r == (Token { kind, pos }),
    {
        Token { kind, pos }
    }

    /// The tokens that may start a variable's type.
    pub fn is_type(&self) -> (r: bool)
        ensures
            r == is_type_kind(self.kind),
    {
        match self.kind {
            TokenKind::Array | TokenKind::Bool | TokenKind::Char | TokenKind::Integer
            | TokenKind::String => true,
            _ => false,
        }
    }

    /// The tokens that may start a function's return type.
    pub fn is_function_type(&self) -> (r: bool)
        ensures
            r == (self.kind == TokenKind::Void || is_type_kind(self.kind)),
    {
        self.kind == TokenKind::Void || self.is_type()
    }

}

impl From<TokenKind> for Token {
    /// A token with no meaningful position.
    fn from(value: TokenKind) -> (r: Token) {
        Token::at(value, Pos::at(0, 0))
    }
}

impl vstd::std_specs::convert::FromSpecImpl<TokenKind> for Token {
    open spec fn obeys_from_spec() -> bool {
        true
    }

    open spec fn from_spec(v: TokenKind) -> Token {
        Token { kind: v, pos: Pos { line: 0, col: 0 } }
    }
}

pub open spec fn is_type_kind(k: TokenKind) -> bool {
    k is Array || k is Bool || k is Char || k is Integer || k is String
}

} // verus!

verus! {

/// A character read from the source, with its position.
#[derive(Clone, Copy, Debug, PartialEq, Eq, Structural)]
pub struct Char {
    pub c: char,
    pub pos: Pos,
}

impl Char {
    pub fn at(c: char, pos: Pos) -> (r: Self)
        ensures
            r == (Char { c, pos }),
    {
        Char { c, pos }
    }
}

/// Why the scanner or the parser gave up.
#[derive(Clone, Copy, Debug, PartialEq, Eq, Structural)]
pub enum ErrorKind {
    // Scanner
    UnterminatedComment,
    ExpectedAmpersands,
    ExpectedPipes,
    EmptyCharacter,
    EofInCharLiteral,
    EofExpectingChar(char),
    ExpectedChar { expected: char, found: char },
    UnterminatedString,
    UnrecognizedCharacter(char),
    IntegerTooLarge,
    IdentifierTooLong,
    StringTooLong,
    EofExpectingToken(TokenKind),
    ExpectedToken(TokenKind),
    // Parser
    ExpectedAssignment,
    ExpectedCommaOrSemi,
    EofInForInit,
    ExpectedCommaOrParen,
    EofInForPost,
    EofInPrint,
    EofAfterIdentifier,
    EofExpectingStatement,
    ExpectedReturnType,
    EofExpectingType,
    InitializerInSignature,
    EofInArguments,
    ExpectedVarDecl,
    EofExpectingDeclaration,
    ExpectedCommaOrBracket,
    EofInArrayInitializer,
    EofInInitializer,
    ExpectedArraySize,
    EofExpectingArraySize,
    ExpectedTypeDecl,
    ExpectedOperand,
    EofExpectingExpression,
    ExpectedIdentBeforePostfix,
    ExpectedIdentBeforeSubscript,
    ExpectedIdentBeforeCall,
    ExpectedIdentBeforeAssign,
    ExpectedOperator,
    ExpectedIdentifier,
    ExpectedSemiOrAssign,
    EofInFunction,
    ExpectedFunctionOrType,
    EofInDeclaration,
}

/// A fatal error of the front end: what went wrong, where (when known), and
/// the token found there (when there was one).
#[derive(Clone, Copy, Debug, PartialEq, Eq, Structural)]
pub struct SyntaxError {
    pub kind: ErrorKind,
    pub pos: Option<Pos>,
    pub found: Option<TokenKind>,
}

/// The error `kind`, found at `pos`.
pub fn fatal(kind: ErrorKind, pos: Pos) -> (r: SyntaxError)
    ensures
        r == fatal_spec(kind, pos),
{
    SyntaxError { kind, pos: Some(pos), found: None }
}

/// The error `kind`, found at the token `tok`.
pub fn fatal_tok(kind: ErrorKind, tok: Token) -> (r: SyntaxError)
    ensures
        r == fatal_tok_spec(kind, tok),
{
    SyntaxError { kind, pos: Some(tok.pos), found: Some(tok.kind) }
}

/// The error `kind`, met at the end of the input.
pub fn fatal_eof(kind: ErrorKind) -> (r: SyntaxError)
    ensures
        r == eof_spec(kind),
{
    SyntaxError { kind, pos: None, found: None }
}

pub open spec fn fatal_spec(kind: ErrorKind, pos: Pos) -> SyntaxError {
    SyntaxError { kind, pos: Some(pos), found: None }
}

pub open spec fn fatal_tok_spec(kind: ErrorKind, tok: Token) -> SyntaxError {
    SyntaxError { kind, pos: Some(tok.pos), found: Some(tok.kind) }
}

pub open spec fn eof_spec(kind: ErrorKind) -> SyntaxError {
    SyntaxError { kind, pos: None, found: None }
}

// ---------------------------------------------------------------------------
// Character classes
// ---------------------------------------------------------------------------

/// A test on the next character.
#[derive(Clone, Copy)]
pub enum CharClass {
    Any,
    Is(char),
    IdentPart,
    Digit,
}

pub open spec fn is_digit_char(c: char) -> bool {
    '0' <= c && c <= '9'
}

pub open spec fn is_alpha_char(c: char) -> bool {
    ('a' <= c && c <= 'z') || ('A' <= c && c <= 'Z')
}

pub open spec fn class_holds(cls: CharClass, c: char) -> bool {
    match cls {
        CharClass::Any => true,
        CharClass::Is(x) => c == x,
        CharClass::IdentPart => is_alpha_char(c) || is_digit_char(c) || c == '_',
        CharClass::Digit => is_digit_char(c),
    }
}

/// The value of `c` as a digit in base `radix` (2 to 36), as `char::to_digit`
/// documents it.
pub open spec fn digit_value(c: char, radix: u32) -> Option<u32> {
    let v: int = if '0' <= c && c <= '9' {
        c as int - '0' as int
    } else if 'a' <= c && c <= 'z' {
        c as int - 'a' as int + 10
    } else if 'A' <= c && c <= 'Z' {
        c as int - 'A' as int + 10
    } else {
        99
    };
    if v < radix {
        Some(v as u32)
    } else {
        None
    }
}

/// The most characters an identifier, or the text of a string literal, may
/// have.
pub const MAX_NAME_LEN: usize = 256;

/// White space: space, tab, line feed and carriage return.
pub open spec fn is_space(c: char) -> bool {
    c == ' ' || c == '\t' || c == '\n' || c == '\r'
}

/// Whether `c` is white space.
fn is_space_char(c: char) -> (r: bool)
    ensures
        r == is_space(c),
{
    c == ' ' || c == '\t' || c == '\n' || c == '\r'
}

// ---------------------------------------------------------------------------
// The lexer as functions on a state
// ---------------------------------------------------------------------------

/// The state of the scanner at the level of characters: the source, how far
/// it has been read, the position of the next character, a character that
/// was put back, and the string table.
pub struct LexState {
    pub src: Seq<char>,
    pub idx: int,
    pub line: usize,
    pub col: usize,
    pub last: Option<Char>,
    pub strings: Seq<Seq<char>>,
}

pub open spec fn lx_wf(s: LexState) -> bool {
    &&& 0 <= s.idx <= s.src.len()
    &&& s.src.len() < usize::MAX
    &&& 1 <= s.line <= s.idx + 1
    &&& 1 <= s.col <= s.idx + 1
}

/// How much is left to read.
pub open spec fn lx_measure(s: LexState) -> int {
    (if 0 <= s.idx <= s.src.len() {
        s.src.len() - s.idx
    } else {
        0int
    }) + if s.last is Some {
        1int
    } else {
        0int
    }
}

/// Reads the character at the current position.
pub open spec fn lx_advance(s: LexState) -> (Char, LexState) {
    let c = s.src[s.idx];
    let ch = Char { c, pos: Pos { line: s.line, col: s.col } };
    if c == '\n' {
        (ch, LexState { idx: s.idx + 1, line: (s.line + 1) as usize, col: 1, ..s })
    } else {
        (ch, LexState { idx: s.idx + 1, col: (s.col + 1) as usize, ..s })
    }
}

/// The next character, if one was put back (whatever the test), or if the
/// next character of the source passes the test.
pub open spec fn lx_next_if(s: LexState, cls: CharClass) -> Option<(Char, LexState)> {
    match s.last {
        Some(ch) => Some((ch, LexState { last: None, ..s })),
        None => if s.idx < s.src.len() && 0 <= s.idx && class_holds(cls, s.src[s.idx]) {
            Some(lx_advance(s))
        } else {
            None
        },
    }
}

pub open spec fn lx_next(s: LexState) -> Option<(Char, LexState)> {
    lx_next_if(s, CharClass::Any)
}

/// Skips white space; the first other character, if any.
pub open spec fn lx_skip(s: LexState) -> (Option<Char>, LexState)
    decreases lx_measure(s),
{
    match lx_next(s) {
        Some((ch, s2)) => if is_space(ch.c) {
            lx_skip(s2)
        } else {
            (Some(ch), s2)
        },
        None => (None, s),
    }
}

/// Skips the rest of a line, its line feed included.
pub open spec fn lx_line_comment(s: LexState) -> LexState
    decreases lx_measure(s),
{
    match lx_next(s) {
        Some((ch, s2)) => if ch.c == '\n' {
            s2
        } else {
            lx_line_comment(s2)
        },
        None => s,
    }
}

/// Skips the rest of a block comment, up to `*/`; `star` tells whether the
/// character read just before was a `*`.  The end of the input before `*/`
/// is an error.
pub open spec fn lx_block_comment(s: LexState, start: Pos, star: bool) -> Result<LexState, SyntaxError>
    decreases lx_measure(s),
{
    match lx_next(s) {
        Some((ch, s2)) => if star && ch.c == '/' {
            Ok(s2)
        } else {
            lx_block_comment(s2, start, ch.c == '*')
        },
        None => Err(fatal_spec(ErrorKind::UnterminatedComment, start)),
    }
}

/// Reads the character `c`.
pub open spec fn lx_must_be(s: LexState, c: char) -> Result<LexState, SyntaxError> {
    match lx_next(s) {
        None => Err(eof_spec(ErrorKind::EofExpectingChar(c))),
        Some((ch, s2)) => if ch.c != c {
            Err(fatal_spec(ErrorKind::ExpectedChar { expected: c, found: ch.c }, ch.pos))
        } else {
            Ok(s2)
        },
    }
}

/// Reads the rest of a character literal, after its opening quote.
pub open spec fn lx_char_lit(s: LexState) -> Result<(char, LexState), SyntaxError> {
    match lx_next(s) {
        None => Err(eof_spec(ErrorKind::EofInCharLiteral)),
        Some((ch, s2)) => {
            let body: Result<(char, LexState), SyntaxError> = if ch.c == '\'' {
                Err(fatal_spec(ErrorKind::EmptyCharacter, ch.pos))
            } else if ch.c == '\\' {
                match lx_next_if(s2, CharClass::Is('n')) {
                    Some((_, s3)) => Ok(('\n', s3)),
                    None => match lx_next_if(s2, CharClass::Is('0')) {
                        Some((_, s3)) => Ok(('\0', s3)),
                        None => match lx_next(s2) {
                            Some((c3, s3)) => Ok((c3.c, s3)),
                            None => Err(eof_spec(ErrorKind::EofInCharLiteral)),
                        },
                    },
                }
            } else {
                Ok((ch.c, s2))
            };
            match body {
                Ok((v, s3)) => match lx_must_be(s3, '\'') {
                    Ok(s4) => Ok((v, s4)),
                    Err(e) => Err(e),
                },
                Err(e) => Err(e),
            }
        },
    }
}

/// The character that a backslash followed by `c` stands for.
pub open spec fn escaped(c: char) -> char {
    if c == 'n' {
        '\n'
    } else if c == '0' {
        '\0'
    } else {
        c
    }
}

/// Reads the rest of a string literal, after `acc` and up to its closing
/// quote.
pub open spec fn lx_string(s: LexState, start: Pos, acc: Seq<char>) -> Result<
    (Seq<char>, LexState),
    SyntaxError,
>
    decreases lx_measure(s),
{
    match lx_next(s) {
        None => Err(fatal_spec(ErrorKind::UnterminatedString, start)),
        Some((ch, s2)) => if ch.c == '"' {
            if acc.len() > MAX_NAME_LEN {
                Err(fatal_spec(ErrorKind::StringTooLong, start))
            } else {
                Ok((acc, s2))
            }
        } else if ch.c == '\\' {
            match lx_next(s2) {
                None => Err(fatal_spec(ErrorKind::UnterminatedString, start)),
                Some((c3, s3)) => lx_string(s3, start, acc.push(escaped(c3.c))),
            }
        } else {
            lx_string(s2, start, acc.push(ch.c))
        },
    }
}

/// Reads the rest of an identifier.
pub open spec fn lx_ident(s: LexState) -> (Seq<char>, LexState)
    decreases lx_measure(s),
{
    match lx_next_if(s, CharClass::IdentPart) {
        Some((ch, s2)) => {
            let (rest, s3) = lx_ident(s2);
            (seq![ch.c] + rest, s3)
        },
        None => (seq![], s),
    }
}

/// Reads the rest of a number whose value so far is `acc`: each further
/// digit multiplies the value by ten and adds the digit.
pub open spec fn lx_number(s: LexState, acc: int, radix: u32) -> (int, LexState)
    decreases lx_measure(s),
{
    match lx_next_if(s, CharClass::Digit) {
        Some((ch, s2)) => {
            let d: int = match digit_value(ch.c, radix) {
                Some(d) => d as int,
                None => 0,
            };
            lx_number(s2, acc * 10 + d, radix)
        },
        None => (acc, s),
    }
}

/// Every character that [`lx_number`] reads is a digit in base `radix`.
pub open spec fn lx_digits_ok(s: LexState, radix: u32) -> bool
    decreases lx_measure(s),
{
    match lx_next_if(s, CharClass::Digit) {
        Some((ch, s2)) => digit_value(ch.c, radix) is Some && lx_digits_ok(s2, radix),
        None => true,
    }
}

/// The keyword spelled `name`, if it is one.
pub open spec fn keyword_of(name: Seq<char>) -> Option<TokenKind> {
    if name == seq!['a', 'r', 'r', 'a', 'y'] {
        Some(TokenKind::Array)
    } else if name == seq!['b', 'o', 'o', 'l', 'e', 'a', 'n'] {
        Some(TokenKind::Bool)
    } else if name == seq!['c', 'h', 'a', 'r'] {
        Some(TokenKind::Char)
    } else if name == seq!['i', 'n', 't', 'e', 'g', 'e', 'r'] {
        Some(TokenKind::Integer)
    } else if name == seq!['s', 't', 'r', 'i', 'n', 'g'] {
        Some(TokenKind::String)
    } else if name == seq!['v', 'o', 'i', 'd'] {
        Some(TokenKind::Void)
    } else if name == seq!['e', 'l', 's', 'e'] {
        Some(TokenKind::Else)
    } else if name == seq!['f', 'o', 'r'] {
        Some(TokenKind::For)
    } else if name == seq!['f', 'u', 'n', 'c', 't', 'i', 'o', 'n'] {
        Some(TokenKind::Function)
    } else if name == seq!['i', 'f'] {
        Some(TokenKind::If)
    } else if name == seq!['p', 'r', 'i', 'n', 't'] {
        Some(TokenKind::Print)
    } else if name == seq!['r', 'e', 't', 'u', 'r', 'n'] {
        Some(TokenKind::Return)
    } else if name == seq!['t', 'r', 'u', 'e'] {
        Some(TokenKind::True)
    } else if name == seq!['f', 'a', 'l', 's', 'e'] {
        Some(TokenKind::False)
    } else {
        None
    }
}

/// Interning: the index of `t` in the table, adding it at the end if it is
/// not there yet.
pub open spec fn intern(strs: Seq<Seq<char>>, t: Seq<char>) -> (usize, Seq<Seq<char>>) {
    if strs.contains(t) {
        (strs.index_of(t) as usize, strs)
    } else {
        (strs.len() as usize, strs.push(t))
    }
}

/// The outcome of reading one token.
pub enum Lex {
    Tok(Token, LexState),
    Eof(LexState),
    Fail(SyntaxError),
}

/// An operator of one or two characters: `if_true` when the next character
/// is `follower`, else `if_false`.
pub open spec fn lx_alt(s: LexState, pos: Pos, follower: char, if_true: TokenKind, if_false: TokenKind) -> Lex {
    match lx_next_if(s, CharClass::Is(follower)) {
        Some((_, s2)) => Lex::Tok(Token { kind: if_true, pos }, s2),
        None => Lex::Tok(Token { kind: if_false, pos }, s),
    }
}

/// The token whose single character is `c`, if there is one.
pub open spec fn single_char_token(c: char) -> Option<TokenKind> {
    if c == ',' {
        Some(TokenKind::Comma)
    } else if c == ';' {
        Some(TokenKind::Semi)
    } else if c == ':' {
        Some(TokenKind::Colon)
    } else if c == '^' {
        Some(TokenKind::Caret)
    } else if c == '*' {
        Some(TokenKind::Star)
    } else if c == '%' {
        Some(TokenKind::Mod)
    } else if c == '(' {
        Some(TokenKind::LeftParen)
    } else if c == ')' {
        Some(TokenKind::RightParen)
    } else if c == '[' {
        Some(TokenKind::LeftBrk)
    } else if c == ']' {
        Some(TokenKind::RightBrk)
    } else if c == '{' {
        Some(TokenKind::LeftAngl)
    } else if c == '}' {
        Some(TokenKind::RightAngl)
    } else {
        None
    }
}

/// Reads the next token of the source.
pub open spec fn lx_token(s: LexState) -> Lex
    decreases lx_measure(s),
{
    let (oc, s1) = lx_skip(s);
    match oc {
        None => Lex::Eof(s1),
        Some(ch) => {
            let c = ch.c;
            let pos = ch.pos;
            proof {
                lemma_skip_measure(s);
            }
            if single_char_token(c) is Some {
                Lex::Tok(Token { kind: single_char_token(c)->0, pos }, s1)
            } else if c == '<' {
                lx_alt(s1, pos, '=', TokenKind::Leq, TokenKind::Lss)
            } else if c == '>' {
                lx_alt(s1, pos, '=', TokenKind::Geq, TokenKind::Gtr)
            } else if c == '!' {
                lx_alt(s1, pos, '=', TokenKind::Neq, TokenKind::Not)
            } else if c == '=' {
                lx_alt(s1, pos, '=', TokenKind::Eql, TokenKind::Assign)
            } else if c == '+' {
                lx_alt(s1, pos, '+', TokenKind::Incr, TokenKind::Plus)
            } else if c == '-' {
                lx_alt(s1, pos, '-', TokenKind::Decr, TokenKind::Minus)
            } else if c == '/' {
                match lx_next(s1) {
                    Some((c2, s2)) => if c2.c == '/' {
                        proof {
                            lemma_line_comment_measure(s2);
                        }
                        lx_token(lx_line_comment(s2))
                    } else if c2.c == '*' {
                        proof {
                            lemma_block_comment_measure(s2, pos, false);
                        }
                        match lx_block_comment(s2, pos, false) {
                            Ok(s3) => lx_token(s3),
                            Err(e) => Lex::Fail(e),
                        }
                    } else {
                        Lex::Tok(Token { kind: TokenKind::Slash, pos }, LexState { last: Some(c2), ..s2 })
                    },
                    None => Lex::Tok(Token { kind: TokenKind::Slash, pos }, s1),
                }
            } else if c == '&' {
                match lx_next_if(s1, CharClass::Is('&')) {
                    Some((_, s2)) => Lex::Tok(Token { kind: TokenKind::And, pos }, s2),
                    None => Lex::Fail(fatal_spec(ErrorKind::ExpectedAmpersands, pos)),
                }
            } else if c == '|' {
                match lx_next_if(s1, CharClass::Is('|')) {
                    Some((_, s2)) => Lex::Tok(Token { kind: TokenKind::Or, pos }, s2),
                    None => Lex::Fail(fatal_spec(ErrorKind::ExpectedPipes, pos)),
                }
            } else if c == '\'' {
                match lx_char_lit(s1) {
                    Ok((v, s2)) => Lex::Tok(Token { kind: TokenKind::CharLit(v), pos }, s2),
                    Err(e) => Lex::Fail(e),
                }
            } else if c == '"' {
                match lx_string(s1, pos, seq![]) {
                    Ok((text, s2)) => {
                        let (id, strs) = intern(s2.strings, text);
                        Lex::Tok(
                            Token { kind: TokenKind::StringLit(id), pos },
                            LexState { strings: strs, ..s2 },
                        )
                    },
                    Err(e) => Lex::Fail(e),
                }
            } else if is_digit_char(c) {
                let (v, s2) = lx_number(s1, c as int - '0' as int, 10);
                if v > i64::MAX {
                    Lex::Fail(fatal_spec(ErrorKind::IntegerTooLarge, pos))
                } else {
                    Lex::Tok(Token { kind: TokenKind::IntLit(v as i64), pos }, s2)
                }
            } else if is_alpha_char(c) || c == '_' {
                let (rest, s2) = lx_ident(s1);
                let name = seq![c] + rest;
                if name.len() > MAX_NAME_LEN {
                    Lex::Fail(fatal_spec(ErrorKind::IdentifierTooLong, pos))
                } else {
                    match keyword_of(name) {
                        Some(k) => Lex::Tok(Token { kind: k, pos }, s2),
                        None => {
                            let (id, strs) = intern(s2.strings, name);
                            Lex::Tok(
                                Token { kind: TokenKind::Ident(id), pos },
                                LexState { strings: strs, ..s2 },
                            )
                        },
                    }
                }
            } else {
                Lex::Fail(fatal_spec(ErrorKind::UnrecognizedCharacter(c), pos))
            }
        },
    }
}

// ---------------------------------------------------------------------------
// Progress of the lexer
// ---------------------------------------------------------------------------

pub proof fn lemma_skip_measure(s: LexState)
    ensures
        lx_skip(s).1.src == s.src,
        lx_skip(s).0 is Some ==> lx_measure(lx_skip(s).1) < lx_measure(s) && lx_skip(s).1.last is None,
        lx_skip(s).0 is None ==> lx_measure(lx_skip(s).1) <= lx_measure(s),
        lx_skip(s).1.strings == s.strings,
    decreases lx_measure(s),
{
    lemma_next_if_measure(s, CharClass::Any);
    if let Some((ch, s2)) = lx_next(s) {
        if is_space(ch.c) {
            lemma_skip_measure(s2);
        }
    }
}

pub proof fn lemma_line_comment_measure(s: LexState)
    ensures
        lx_measure(lx_line_comment(s)) <= lx_measure(s),
        lx_line_comment(s).strings == s.strings,
    decreases lx_measure(s),
{
    if let Some((ch, s2)) = lx_next(s) {
        if ch.c != '\n' {
            lemma_line_comment_measure(s2);
        }
    }
}

pub proof fn lemma_block_comment_measure(s: LexState, start: Pos, star: bool)
    ensures
        lx_block_comment(s, start, star) matches Ok(s2) ==> lx_measure(s2) <= lx_measure(s)
            && s2.strings == s.strings,
    decreases lx_measure(s),
{
    lemma_next_if_measure(s, CharClass::Any);
    if let Some((ch, s2)) = lx_next(s) {
        if !(star && ch.c == '/') {
            lemma_block_comment_measure(s2, start, ch.c == '*');
        }
    }
}


pub proof fn lemma_next_if_measure(s: LexState, cls: CharClass)
    ensures
        lx_next_if(s, cls) matches Some((_, s2)) ==> lx_measure(s2) < lx_measure(s) && s2.src == s.src
            && s2.strings == s.strings && s2.last is None,
        lx_measure(s) >= 0,
{
}

pub proof fn lemma_string_measure(s: LexState, start: Pos, acc: Seq<char>)
    ensures
        lx_string(s, start, acc) matches Ok((_, s2)) ==> lx_measure(s2) < lx_measure(s)
            && s2.strings == s.strings,
    decreases lx_measure(s),
{
    if let Some((ch, s2)) = lx_next(s) {
        if ch.c == '\\' {
            if let Some((c3, s3)) = lx_next(s2) {
                lemma_string_measure(s3, start, acc.push(escaped(c3.c)));
            }
        } else if ch.c != '"' {
            lemma_string_measure(s2, start, acc.push(ch.c));
        }
    }
}

pub proof fn lemma_ident_measure(s: LexState)
    ensures
        lx_measure(lx_ident(s).1) <= lx_measure(s),
        lx_ident(s).1.strings == s.strings,
    decreases lx_measure(s),
{
    if let Some((ch, s2)) = lx_next_if(s, CharClass::IdentPart) {
        lemma_ident_measure(s2);
    }
}

pub proof fn lemma_number_measure(s: LexState, acc: int, radix: u32)
    ensures
        lx_measure(lx_number(s, acc, radix).1) <= lx_measure(s),
        acc >= 0 ==> lx_number(s, acc, radix).0 >= acc,
        lx_number(s, acc, radix).1.strings == s.strings,
    decreases lx_measure(s),
{
    if let Some((ch, s2)) = lx_next_if(s, CharClass::Digit) {
        let d: int = match digit_value(ch.c, radix) {
            Some(d) => d as int,
            None => 0,
        };
        lemma_number_measure(s2, acc * 10 + d, radix);
    }
}

pub proof fn lemma_char_lit_measure(s: LexState)
    ensures
        lx_char_lit(s) matches Ok((_, s2)) ==> lx_measure(s2) < lx_measure(s)
            && s2.strings == s.strings,
{
    lemma_next_if_measure(s, CharClass::Any);
    if let Some((ch, s2)) = lx_next(s) {
        lemma_next_if_measure(s2, CharClass::Any);
        lemma_next_if_measure(s2, CharClass::Is('n'));
        lemma_next_if_measure(s2, CharClass::Is('0'));
        if let Some((_, s3)) = lx_next_if(s2, CharClass::Is('n')) {
            lemma_next_if_measure(s3, CharClass::Any);
        }
        if let Some((_, s3)) = lx_next_if(s2, CharClass::Is('0')) {
            lemma_next_if_measure(s3, CharClass::Any);
        }
        if let Some((_, s3)) = lx_next(s2) {
            lemma_next_if_measure(s3, CharClass::Any);
        }
    }
}

/// Each token read leaves less to read.
pub proof fn lemma_token_progress(s: LexState)
    ensures
        lx_token(s) matches Lex::Tok(_, s2) ==> lx_measure(s2) < lx_measure(s),
    decreases lx_measure(s),
{
    let (oc, s1) = lx_skip(s);
    lemma_skip_measure(s);
    if let Some(ch) = oc {
        let c = ch.c;
        let pos = ch.pos;
        lemma_next_if_measure(s1, CharClass::Any);
        lemma_next_if_measure(s1, CharClass::Is('='));
        lemma_next_if_measure(s1, CharClass::Is('+'));
        lemma_next_if_measure(s1, CharClass::Is('-'));
        lemma_next_if_measure(s1, CharClass::Is('&'));
        lemma_next_if_measure(s1, CharClass::Is('|'));
        if c == '/' {
            if let Some((c2, s2)) = lx_next(s1) {
                if c2.c == '/' {
                    lemma_line_comment_measure(s2);
                    lemma_token_progress(lx_line_comment(s2));
                } else if c2.c == '*' {
                    lemma_block_comment_measure(s2, pos, false);
                    if let Ok(s3) = lx_block_comment(s2, pos, false) {
                        lemma_token_progress(s3);
                    }
                }
            }
        } else if c == '\'' {
            lemma_char_lit_measure(s1);
        } else if c == '"' {
            lemma_string_measure(s1, pos, seq![]);
        } else if is_digit_char(c) {
            lemma_number_measure(s1, c as int - '0' as int, 10);
        } else if is_alpha_char(c) || c == '_' {
            lemma_ident_measure(s1);
        }
    }
}

/// Reading a token only ever adds to the string table: the strings already
/// there keep their indices, and the index in an identifier or string
/// token is one of the table's.
pub proof fn lemma_token_keeps_strings(s: LexState)
    requires
        s.strings.len() < usize::MAX,
    ensures
        lx_token(s) matches Lex::Tok(t, s2) ==> {
            &&& s.strings.len() <= s2.strings.len()
            &&& s2.strings.subrange(0, s.strings.len() as int) == s.strings
            &&& (t.kind matches TokenKind::Ident(id) ==> id < s2.strings.len())
            &&& (t.kind matches TokenKind::StringLit(id) ==> id < s2.strings.len())
        },
    decreases lx_measure(s),
{
    let (oc, s1) = lx_skip(s);
    lemma_skip_measure(s);
    if let Some(ch) = oc {
        let c = ch.c;
        let pos = ch.pos;
        lemma_next_if_measure(s1, CharClass::Any);
        lemma_next_if_measure(s1, CharClass::Is('='));
        lemma_next_if_measure(s1, CharClass::Is('+'));
        lemma_next_if_measure(s1, CharClass::Is('-'));
        lemma_next_if_measure(s1, CharClass::Is('&'));
        lemma_next_if_measure(s1, CharClass::Is('|'));
        assert(s.strings.subrange(0, s.strings.len() as int) =~= s.strings);
        if c == '/' {
            if let Some((c2, s2)) = lx_next(s1) {
                if c2.c == '/' {
                    lemma_line_comment_measure(s2);
                    lemma_token_keeps_strings(lx_line_comment(s2));
                } else if c2.c == '*' {
                    lemma_block_comment_measure(s2, pos, false);
                    if let Ok(s3) = lx_block_comment(s2, pos, false) {
                        lemma_token_keeps_strings(s3);
                    }
                }
            }
        } else if c == '\'' {
            lemma_char_lit_measure(s1);
        } else if c == '"' {
            lemma_string_measure(s1, pos, seq![]);
            if let Ok((text, s2)) = lx_string(s1, pos, seq![]) {
                crate::sym::lemma_intern_stable(s2.strings, text);
            }
        } else if is_digit_char(c) {
            lemma_number_measure(s1, c as int - '0' as int, 10);
        } else if is_alpha_char(c) || c == '_' {
            lemma_ident_measure(s1);
            let (rest, s2) = lx_ident(s1);
            crate::sym::lemma_intern_stable(s2.strings, seq![c] + rest);
        }
    }
}

// ---------------------------------------------------------------------------
// Token streams
// ---------------------------------------------------------------------------

/// What the next token is: a token, the end of the input, or an error.
pub enum Next {
    Tok(Token),
    Eof,
    Fail(SyntaxError),
}

/// The tokens a scanner will produce, in order, and how the sequence ends:
/// at the end of the input (`None`) or at an error.
#[verifier::ext_equal]
pub struct TokStream {
    pub toks: Seq<Token>,
    pub end: Option<SyntaxError>,
}

impl TokStream {
    pub open spec fn head(self) -> Next {
        if self.toks.len() > 0 {
            Next::Tok(self.toks[0])
        } else {
            match self.end {
                Some(e) => Next::Fail(e),
                None => Next::Eof,
            }
        }
    }

    /// The stream after its first token.
    pub open spec fn rest(self) -> TokStream {
        TokStream { toks: self.toks.drop_first(), end: self.end }
    }

    /// The stream with `t` put in front.
    pub open spec fn push_front(self, t: Token) -> TokStream {
        TokStream { toks: seq![t] + self.toks, end: self.end }
    }
}

/// Every token that the lexer reads from `s`, in order.
pub open spec fn lex_all(s: LexState) -> TokStream
    decreases lx_measure(s),
{
    match lx_token(s) {
        Lex::Tok(t, s2) => {
            proof {
                lemma_token_progress(s);
            }
            lex_all(s2).push_front(t)
        },
        Lex::Eof(_) => TokStream { toks: seq![], end: None },
        Lex::Fail(e) => TokStream { toks: seq![], end: Some(e) },
    }
}

/// The lexer reads at most one token per character left.
pub proof fn lemma_lex_all_len(s: LexState)
    ensures
        lex_all(s).toks.len() <= lx_measure(s),
    decreases lx_measure(s),
{
    lemma_next_if_measure(s, CharClass::Any);
    if let Lex::Tok(t, s2) = lx_token(s) {
        lemma_token_progress(s);
        lemma_lex_all_len(s2);
    }
}

/// `s` in reverse order.
pub open spec fn rev<A>(s: Seq<A>) -> Seq<A> {
    Seq::new(s.len(), |i: int| s[s.len() - 1 - i])
}


pub proof fn lemma_rev_push<A>(s: Seq<A>, x: A)
    ensures
        rev(s.push(x)) == seq![x] + rev(s),
{
    assert(rev(s.push(x)) =~= seq![x] + rev(s));
}

pub proof fn lemma_rev_drop_last<A>(s: Seq<A>)
    requires
        s.len() > 0,
    ensures
        rev(s.drop_last()) == rev(s).drop_first(),
        rev(s)[0] == s.last(),
{
    assert(rev(s.drop_last()) =~= rev(s).drop_first());
}

/// After the end of the input, the lexer stays there.
pub proof fn lemma_eof_stays(s: LexState)
    ensures
        lx_token(s) matches Lex::Eof(s2) ==> lex_all(s2) == (TokStream { toks: seq![], end: None }),
    decreases lx_measure(s),
{
    let (oc, s1) = lx_skip(s);
    lemma_skip_none(s);
    lemma_skip_measure(s);
    match oc {
        None => {
            assert(lx_skip(s1) == (None::<Char>, s1));
            assert(lx_token(s1) == Lex::Eof(s1));
        },
        Some(ch) => {
            if ch.c == '/' {
                lemma_next_if_measure(s1, CharClass::Any);
                if let Some((c2, s2)) = lx_next(s1) {
                    if c2.c == '/' {
                        lemma_line_comment_measure(s2);
                        lemma_eof_stays(lx_line_comment(s2));
                    } else if c2.c == '*' {
                        lemma_block_comment_measure(s2, ch.pos, false);
                        if let Ok(s3) = lx_block_comment(s2, ch.pos, false) {
                            lemma_eof_stays(s3);
                        }
                    }
                }
            }
        },
    }
}

/// When white space runs to the end of the input, nothing is left to read.
pub proof fn lemma_skip_none(s: LexState)
    ensures
        lx_skip(s).0 is None ==> lx_next(lx_skip(s).1) is None && lx_skip(lx_skip(s).1) == (
        None::<Char>, lx_skip(s).1),
    decreases lx_measure(s),
{
    if let Some((ch, s2)) = lx_next(s) {
        if is_space(ch.c) {
            lemma_skip_none(s2);
        }
    }
}

fn class_test(cls: CharClass, c: char) -> (r: bool)
    ensures
        r == class_holds(cls, c),
{
    match cls {
        CharClass::Any => true,
        CharClass::Is(x) => c == x,
        CharClass::IdentPart => ('a' <= c && c <= 'z') || ('A' <= c && c <= 'Z') || ('0' <= c && c
            <= '9') || c == '_',
        CharClass::Digit => '0' <= c && c <= '9',
    }
}

/// `char::to_digit` for an ASCII digit or letter.
fn digit_of(c: char, radix: u32) -> (r: Option<u32>)
    requires
        2 <= radix <= 36,
    ensures
        r == digit_value(c, radix),
{
    let v: u32 = if '0' <= c && c <= '9' {
        (c as u32) - ('0' as u32)
    } else if 'a' <= c && c <= 'z' {
        (c as u32) - ('a' as u32) + 10
    } else if 'A' <= c && c <= 'Z' {
        (c as u32) - ('A' as u32) + 10
    } else {
        99
    };
    if v < radix {
        Some(v)
    } else {
        None
    }
}

/// Whether the characters of `name` are those of `kw`.
fn chars_eq(name: &str, kw: &[char]) -> (r: bool)
    ensures
        r == (name@ == kw@),
{
    let n = name.unicode_len();
    if n != kw.len() {
        return false;
    }
    let mut i: usize = 0;
    while i < n
        invariant
            n == name@.len(),
            n == kw@.len(),
            i <= n,
            forall|j: int| 0 <= j < i ==> name@[j] == kw@[j],
        decreases n - i,
    {
        if name.get_char(i) != kw[i] {
            return false;
        }
        i += 1;
    }
    assert(name@ =~= kw@);
    true
}

/// The scanner: reads characters from a source and hands out tokens.  Tokens
/// can be put back, and are then handed out again, last in first out.
pub struct Scanner {
    source: Vec<char>,
    pos: usize,
    line: usize,
    col: usize,
    last_char: Option<Char>,
    token_buffer: Vec<Token>,
    strings: Strings,
}

impl Scanner {
    /// The state of the character reader.
    pub closed spec fn lex_state(&self) -> LexState {
        LexState {
            src: self.source@,
            idx: self.pos as int,
            line: self.line,
            col: self.col,
            last: self.last_char,
            strings: self.strings@,
        }
    }

    /// The tokens put back, the last one on top.
    pub closed spec fn buffer(&self) -> Seq<Token> {
        self.token_buffer@
    }

    pub closed spec fn wf(&self) -> bool {
        lx_wf(self.lex_state())
    }

    /// The tokens this scanner hands out from now on, and how they end.
    pub closed spec fn stream(&self) -> TokStream {
        let l = lex_all(self.lex_state());
        TokStream { toks: rev(self.token_buffer@) + l.toks, end: l.end }
    }

    pub fn new(source: Vec<char>) -> (r: Self)
        requires
            source@.len() < usize::MAX,
        ensures
            r.wf(),
            r.lex_state() == (LexState {
                src: source@,
                idx: 0,
                line: 1,
                col: 1,
                last: None,
                strings: Seq::empty(),
            }),
            r.buffer() == Seq::<Token>::empty(),
            r.stream() == lex_all(r.lex_state()),
            r.stream().toks.len() <= source@.len(),
    {
        let r = Scanner {
            source,
            pos: 0,
            line: 1,
            col: 1,
            last_char: None,
            token_buffer: vec![],
            strings: Strings::new(),
        };
        assert(rev(r.token_buffer@) + lex_all(r.lex_state()).toks =~= lex_all(r.lex_state()).toks);
        proof {
            lemma_lex_all_len(r.lex_state());
        }
        r
    }

    /// The tokens a scanner hands out: those put back, the last one first,
    /// then those lexed from the rest of the source.
    pub proof fn lemma_stream(&self)
        ensures
            self.stream().toks == rev(self.buffer()) + lex_all(self.lex_state()).toks,
            self.stream().end == lex_all(self.lex_state()).end,
    {
    }

    /// The string table, once scanning is over.
    pub fn into_strings(self) -> (r: Strings)
        ensures
            r@ == self.lex_state().strings,
    {
        self.strings
    }

    /// The string table.
    pub fn strings(&self) -> (r: &Strings)
        ensures
            r@ == self.lex_state().strings,
    {
        &self.strings
    }

    /// The character that was put back, if any.
    pub fn last_char(&self) -> (r: Option<Char>)
        ensures
            r == self.lex_state().last,
    {
        self.last_char
    }

    /// How many tokens were put back and not handed out again.
    pub fn buffered(&self) -> (r: usize)
        ensures
            r == self.buffer().len(),
    {
        self.token_buffer.len()
    }

    /// Puts a character back; it is the next one read.
    pub fn put_char(&mut self, c: Char)
        requires
            old(self).wf(),
        ensures
            final(self).wf(),
            final(self).lex_state() == (LexState { last: Some(c), ..old(self).lex_state() }),
            final(self).buffer() == old(self).buffer(),
    {
        self.last_char = Some(c)
    }

    /// Puts a token back; it is the next one handed out.
    pub fn put_token(&mut self, token: Token)
        requires
            old(self).wf(),
        ensures
            final(self).wf(),
            final(self).lex_state() == old(self).lex_state(),
            final(self).buffer() == old(self).buffer().push(token),
            final(self).stream() == old(self).stream().push_front(token),
    {
        self.token_buffer.push(token);
        proof {
            lemma_rev_push(old(self).token_buffer@, token);
            assert(self.stream().toks =~= old(self).stream().push_front(token).toks);
        }
    }

    /// Takes back the last token put back.
    pub fn consume_token(&mut self) -> (r: Token)
        requires
            old(self).wf(),
            old(self).buffer().len() > 0,
        ensures
            final(self).wf(),
            r == old(self).buffer().last(),
            r == old(self).stream().toks[0],
            final(self).buffer() == old(self).buffer().drop_last(),
            final(self).lex_state() == old(self).lex_state(),
            final(self).stream() == old(self).stream().rest(),
    {
        proof {
            lemma_rev_drop_last(self.token_buffer@);
        }
        let r = self.token_buffer.pop().unwrap();
        proof {
            assert(self.stream().toks =~= old(self).stream().rest().toks);
        }
        r
    }

    /// Drops the last token put back, if there is one.
    pub fn discard_token(&mut self)
        requires
            old(self).wf(),
        ensures
            final(self).wf(),
            final(self).lex_state() == old(self).lex_state(),
            old(self).buffer().len() > 0 ==> final(self).buffer() == old(self).buffer().drop_last()
                && final(self).stream() == old(self).stream().rest(),
            old(self).buffer().len() == 0 ==> final(self).buffer() == old(self).buffer(),
    {
        if self.token_buffer.len() > 0 {
            let _ = self.consume_token();
        }
    }

    /// Moves the position past `c`, which was just read; `c` at the position
    /// it was read from.
    fn advance_char(&mut self, c: char) -> (r: Char)
        requires
            old(self).line < usize::MAX,
            old(self).col < usize::MAX,
        ensures
            r == (Char { c, pos: Pos { line: old(self).line, col: old(self).col } }),
            c == '\n' ==> final(self).line == old(self).line + 1 && final(self).col == 1,
            c != '\n' ==> final(self).line == old(self).line && final(self).col == old(self).col + 1,
            final(self).source == old(self).source,
            final(self).pos == old(self).pos,
            final(self).last_char == old(self).last_char,
            final(self).token_buffer == old(self).token_buffer,
            final(self).strings == old(self).strings,
    {
        let (col, line) = (self.col, self.line);
        if c == '\n' {
            self.col = 1;
            self.line = self.line + 1;
        } else {
            self.col = self.col + 1;
        }
        Char::at(c, Pos::at(line, col))
    }

    /// Reads the next character (the one put back, if any) when it passes the
    /// test.
    pub fn next_if(&mut self, cls: CharClass) -> (r: Option<Char>)
        requires
            old(self).wf(),
        ensures
            final(self).wf(),
            final(self).buffer() == old(self).buffer(),
            match lx_next_if(old(self).lex_state(), cls) {
                Some((ch, s2)) => r == Some(ch) && final(self).lex_state() == s2,
                None => r is None && final(self).lex_state() == old(self).lex_state(),
            },
    {
        if let Some(c) = self.last_char {
            self.last_char = None;
            return Some(c);
        }
        if self.pos < self.source.len() && class_test(cls, self.source[self.pos]) {
            let c = self.source[self.pos];
            self.pos = self.pos + 1;
            Some(self.advance_char(c))
        } else {
            None
        }
    }

    /// Reads the next character.
    pub fn next(&mut self) -> (r: Option<Char>)
        requires
            old(self).wf(),
        ensures
            final(self).wf(),
            final(self).buffer() == old(self).buffer(),
            match lx_next(old(self).lex_state()) {
                Some((ch, s2)) => r == Some(ch) && final(self).lex_state() == s2,
                None => r is None && final(self).lex_state() == old(self).lex_state(),
            },
    {
        self.next_if(CharClass::Any)
    }

    /// Reads the next character if it is `tc`.
    pub fn next_if_eq(&mut self, tc: char) -> (r: Option<Char>)
        requires
            old(self).wf(),
        ensures
            final(self).wf(),
            final(self).buffer() == old(self).buffer(),
            match lx_next_if(old(self).lex_state(), CharClass::Is(tc)) {
                Some((ch, s2)) => r == Some(ch) && final(self).lex_state() == s2,
                None => r is None && final(self).lex_state() == old(self).lex_state(),
            },
    {
        self.next_if(CharClass::Is(tc))
    }

    /// Reads the character `c`; anything else is an error.
    pub fn must_be(&mut self, c: char) -> (r: Result<(), SyntaxError>)
        requires
            old(self).wf(),
        ensures
            final(self).wf(),
            final(self).buffer() == old(self).buffer(),
            match lx_must_be(old(self).lex_state(), c) {
                Ok(s2) => r is Ok && final(self).lex_state() == s2,
                Err(e) => r == Err::<(), SyntaxError>(e),
            },
    {
        match self.next() {
            None => Err(fatal_eof(ErrorKind::EofExpectingChar(c))),
            Some(ch) => if ch.c != c {
                Err(fatal(ErrorKind::ExpectedChar { expected: c, found: ch.c }, ch.pos))
            } else {
                Ok(())
            },
        }
    }

    fn process_line_comment(&mut self)
        requires
            old(self).wf(),
        ensures
            final(self).wf(),
            final(self).buffer() == old(self).buffer(),
            final(self).lex_state() == lx_line_comment(old(self).lex_state()),
    {
        loop
            invariant
                self.wf(),
                self.buffer() == old(self).buffer(),
                lx_line_comment(self.lex_state()) == lx_line_comment(old(self).lex_state()),
            decreases lx_measure(self.lex_state()),
        {
            proof {
                lemma_next_if_measure(self.lex_state(), CharClass::Any);
            }
            match self.next() {
                Some(ch) => {
                    if ch.c == '\n' {
                        return;
                    }
                },
                None => return ,
            }
        }
    }

    /// Skips the rest of a block comment, up to `*/`; one left open is an
    /// error reported at `pos`, where it starts.
    fn process_multiline_comment(&mut self, pos: Pos) -> (r: Result<(), SyntaxError>)
        requires
            old(self).wf(),
        ensures
            final(self).wf(),
            final(self).buffer() == old(self).buffer(),
            match lx_block_comment(old(self).lex_state(), pos, false) {
                Ok(s2) => r is Ok && final(self).lex_state() == s2,
                Err(e) => r == Err::<(), SyntaxError>(e),
            },
    {
        let mut star = false;
        loop
            invariant
                self.wf(),
                self.buffer() == old(self).buffer(),
                lx_block_comment(self.lex_state(), pos, star) == lx_block_comment(
                    old(self).lex_state(),
                    pos,
                    false,
                ),
            decreases lx_measure(self.lex_state()),
        {
            proof {
                lemma_next_if_measure(self.lex_state(), CharClass::Any);
            }
            match self.next() {
                Some(ch) => {
                    if star && ch.c == '/' {
                        return Ok(());
                    }
                    star = ch.c == '*';
                },
                None => {
                    return Err(fatal(ErrorKind::UnterminatedComment, pos));
                },
            }
        }
    }

    /// Skips white space and reads the next other character, if any.
    fn skip(&mut self) -> (r: Option<Char>)
        requires
            old(self).wf(),
        ensures
            final(self).wf(),
            final(self).buffer() == old(self).buffer(),
            (r, final(self).lex_state()) == lx_skip(old(self).lex_state()),
    {
        loop
            invariant
                self.wf(),
                self.buffer() == old(self).buffer(),
                lx_skip(self.lex_state()) == lx_skip(old(self).lex_state()),
            decreases lx_measure(self.lex_state()),
        {
            proof {
                lemma_next_if_measure(self.lex_state(), CharClass::Any);
            }
            match self.next() {
                Some(ch) => {
                    if !is_space_char(ch.c) {
                        return Some(ch);
                    }
                },
                None => {
                    return None;
                },
            }
        }
    }

    /// Reads the rest of a character literal, after its opening quote.
    pub fn scan_char(&mut self) -> (r: Result<char, SyntaxError>)
        requires
            old(self).wf(),
        ensures
            final(self).wf(),
            final(self).buffer() == old(self).buffer(),
            match lx_char_lit(old(self).lex_state()) {
                Ok((v, s2)) => r == Ok::<char, SyntaxError>(v) && final(self).lex_state() == s2,
                Err(e) => r == Err::<char, SyntaxError>(e),
            },
    {
        let Some(ch) = self.next() else { return Err(fatal_eof(ErrorKind::EofInCharLiteral)) };
        let ret = if ch.c == '\'' {
            return Err(fatal(ErrorKind::EmptyCharacter, ch.pos));
        } else if ch.c == '\\' {
            if self.next_if_eq('n').is_some() {
                '\n'
            } else if self.next_if_eq('0').is_some() {
                '\0'
            } else if let Some(c3) = self.next() {
                c3.c
            } else {
                return Err(fatal_eof(ErrorKind::EofInCharLiteral));
            }
        } else {
            ch.c
        };
        match self.must_be('\'') {
            Ok(()) => Ok(ret),
            Err(e) => Err(e),
        }
    }

    /// Reads the rest of a string literal, after its opening quote at `pos`.
    /// A backslash makes the next character stand for itself, except that
    /// `\n` is a line feed and `\0` a null character.
    pub fn scan_string(&mut self, pos: Pos) -> (r: Result<String, SyntaxError>)
        requires
            old(self).wf(),
        ensures
            final(self).wf(),
            final(self).buffer() == old(self).buffer(),
            match lx_string(old(self).lex_state(), pos, seq![]) {
                Ok((text, s2)) => r is Ok && r->Ok_0@ == text && final(self).lex_state() == s2,
                Err(e) => r == Err::<String, SyntaxError>(e),
            },
    {
        let mut vec_chars: Vec<char> = Vec::new();
        loop
            invariant
                self.wf(),
                self.buffer() == old(self).buffer(),
                lx_string(self.lex_state(), pos, vec_chars@) == lx_string(
                    old(self).lex_state(),
                    pos,
                    seq![],
                ),
            decreases lx_measure(self.lex_state()),
        {
            proof {
                lemma_next_if_measure(self.lex_state(), CharClass::Any);
            }
            match self.next() {
                None => {
                    return Err(fatal(ErrorKind::UnterminatedString, pos));
                },
                Some(ch) => {
                    if ch.c == '"' {
                        if vec_chars.len() > MAX_NAME_LEN {
                            return Err(fatal(ErrorKind::StringTooLong, pos));
                        }
                        return Ok(string_from_chars(&vec_chars));
                    } else if ch.c == '\\' {
                        proof {
                            lemma_next_if_measure(self.lex_state(), CharClass::Any);
                        }
                        match self.next() {
                            None => {
                                return Err(fatal(ErrorKind::UnterminatedString, pos));
                            },
                            Some(c3) => {
                                let e = if c3.c == 'n' {
                                    '\n'
                                } else if c3.c == '0' {
                                    '\0'
                                } else {
                                    c3.c
                                };
                                vec_chars.push(e);
                            },
                        }
                    } else {
                        vec_chars.push(ch.c);
                    }
                },
            }
        }
    }

    /// Reads the rest of an identifier that starts with `first`, read at
    /// `pos`; one longer than [`MAX_NAME_LEN`] is an error.
    pub fn scan_ident(&mut self, first: char, pos: Pos) -> (r: Result<String, SyntaxError>)
        requires
            old(self).wf(),
        ensures
            final(self).wf(),
            final(self).buffer() == old(self).buffer(),
            final(self).lex_state() == lx_ident(old(self).lex_state()).1,
            ({
                let name = seq![first] + lx_ident(old(self).lex_state()).0;
                if name.len() > MAX_NAME_LEN {
                    r == Err::<String, SyntaxError>(fatal_spec(ErrorKind::IdentifierTooLong, pos))
                } else {
                    r is Ok && r->Ok_0@ == name
                }
            }),
    {
        let v = self.scan_ident_chars(first);
        if v.len() > MAX_NAME_LEN {
            return Err(fatal(ErrorKind::IdentifierTooLong, pos));
        }
        Ok(string_from_chars(&v))
    }

    fn scan_ident_chars(&mut self, first: char) -> (r: Vec<char>)
        requires
            old(self).wf(),
        ensures
            final(self).wf(),
            final(self).buffer() == old(self).buffer(),
            r@ == seq![first] + lx_ident(old(self).lex_state()).0,
            final(self).lex_state() == lx_ident(old(self).lex_state()).1,
    {
        let mut vec_chars: Vec<char> = Vec::new();
        vec_chars.push(first);
        loop
            invariant
                self.wf(),
                self.buffer() == old(self).buffer(),
                vec_chars@.len() >= 1,
                vec_chars@ + lx_ident(self.lex_state()).0 == seq![first] + lx_ident(
                    old(self).lex_state(),
                ).0,
                lx_ident(self.lex_state()).1 == lx_ident(old(self).lex_state()).1,
            decreases lx_measure(self.lex_state()),
        {
            proof {
                lemma_next_if_measure(self.lex_state(), CharClass::IdentPart);
            }
            let ghost before = self.lex_state();
            let ghost old_chars = vec_chars@;
            match self.next_if(CharClass::IdentPart) {
                Some(ch) => {
                    vec_chars.push(ch.c);
                    assert(vec_chars@ + lx_ident(self.lex_state()).0 =~= old_chars + lx_ident(
                        before,
                    ).0);
                },
                None => {
                    assert(vec_chars@ =~= vec_chars@ + lx_ident(self.lex_state()).0);
                    return vec_chars;
                },
            }
        }
    }

    /// Reads the rest of a number whose first digit is `first`; `None` when
    /// its value does not fit in an `i64`.
    pub fn scan_number(&mut self, first: char, radix: u32) -> (r: Option<i64>)
        requires
            old(self).wf(),
            2 <= radix <= 36,
            digit_value(first, radix) is Some,
            lx_digits_ok(old(self).lex_state(), radix),
        ensures
            final(self).wf(),
            final(self).buffer() == old(self).buffer(),
            lx_number(old(self).lex_state(), (digit_value(first, radix)->0) as int, radix).0 <= i64::MAX
                ==> r == Some(lx_number(old(self).lex_state(), (digit_value(first, radix)->0) as int, radix).0 as i64)
                && final(self).lex_state() == lx_number(old(self).lex_state(), (digit_value(first, radix)->0) as int, radix).1,
            lx_number(old(self).lex_state(), (digit_value(first, radix)->0) as int, radix).0 > i64::MAX
                ==> r is None,
    {
        let mut res: i64 = digit_of(first, radix).unwrap() as i64;
        let ghost start = (digit_value(first, radix)->0) as int;
        loop
            invariant
                self.wf(),
                self.buffer() == old(self).buffer(),
                2 <= radix <= 36,
                start == (digit_value(first, radix)->0) as int,
                res >= 0,
                lx_digits_ok(self.lex_state(), radix),
                lx_number(self.lex_state(), res as int, radix) == lx_number(
                    old(self).lex_state(),
                    start,
                    radix,
                ),
            decreases lx_measure(self.lex_state()),
        {
            proof {
                lemma_next_if_measure(self.lex_state(), CharClass::Digit);
            }
            let ghost before = self.lex_state();
            match self.next_if(CharClass::Digit) {
                Some(ch) => {
                    assert(digit_value(ch.c, radix) is Some);
                    let d = digit_of(ch.c, radix).unwrap();
                    assert(lx_number(before, res as int, radix) == lx_number(self.lex_state(), res * 10 + d, radix));
                    let next = match res.checked_mul(10) {
                        Some(m) => m.checked_add(d as i64),
                        None => None,
                    };
                    match next {
                        Some(n) => {
                            assert(n == res * 10 + d);
                            res = n;
                        },
                        None => {
                            proof {
                                lemma_number_measure(self.lex_state(), res * 10 + d, radix);
                                assert(res * 10 + d > i64::MAX);
                                assert(lx_number(old(self).lex_state(), start, radix).0 > i64::MAX);
                            }
                            return None;
                        },
                    }
                },
                None => {
                    assert(lx_number(self.lex_state(), res as int, radix) == (res as int, self.lex_state()));
                    assert(lx_number(old(self).lex_state(), start, radix).0 == res);
                    assert(lx_number(old(self).lex_state(), start, radix).1 == self.lex_state());
                    return Some(res);
                },
            }
        }
    }

    fn scan_alternate_operators(
        &mut self,
        pos: Pos,
        follower: char,
        if_true: TokenKind,
        if_false: TokenKind,
    ) -> (r: Token)
        requires
            old(self).wf(),
        ensures
            final(self).wf(),
            final(self).buffer() == old(self).buffer(),
            lx_alt(old(self).lex_state(), pos, follower, if_true, if_false) == Lex::Tok(
                r,
                final(self).lex_state(),
            ),
    {
        let kind = if self.next_if_eq(follower).is_some() {
            if_true
        } else {
            if_false
        };
        Token { kind, pos }
    }

    /// The keyword spelled `name`, if it is one.
    pub fn keyword(&self, name: &str) -> (r: Option<TokenKind>)
        ensures
            r == keyword_of(name@),
    {
        if chars_eq(name, &['a', 'r', 'r', 'a', 'y']) {
            Some(TokenKind::Array)
        } else if chars_eq(name, &['b', 'o', 'o', 'l', 'e', 'a', 'n']) {
            Some(TokenKind::Bool)
        } else if chars_eq(name, &['c', 'h', 'a', 'r']) {
            Some(TokenKind::Char)
        } else if chars_eq(name, &['i', 'n', 't', 'e', 'g', 'e', 'r']) {
            Some(TokenKind::Integer)
        } else if chars_eq(name, &['s', 't', 'r', 'i', 'n', 'g']) {
            Some(TokenKind::String)
        } else if chars_eq(name, &['v', 'o', 'i', 'd']) {
            Some(TokenKind::Void)
        } else if chars_eq(name, &['e', 'l', 's', 'e']) {
            Some(TokenKind::Else)
        } else if chars_eq(name, &['f', 'o', 'r']) {
            Some(TokenKind::For)
        } else if chars_eq(name, &['f', 'u', 'n', 'c', 't', 'i', 'o', 'n']) {
            Some(TokenKind::Function)
        } else if chars_eq(name, &['i', 'f']) {
            Some(TokenKind::If)
        } else if chars_eq(name, &['p', 'r', 'i', 'n', 't']) {
            Some(TokenKind::Print)
        } else if chars_eq(name, &['r', 'e', 't', 'u', 'r', 'n']) {
            Some(TokenKind::Return)
        } else if chars_eq(name, &['t', 'r', 'u', 'e']) {
            Some(TokenKind::True)
        } else if chars_eq(name, &['f', 'a', 'l', 's', 'e']) {
            Some(TokenKind::False)
        } else {
            None
        }
    }

    /// Reads a token from the source (not from the tokens put back).
    fn scan_source(&mut self) -> (r: Result<Option<Token>, SyntaxError>)
        requires
            old(self).wf(),
        ensures
            final(self).wf(),
            final(self).buffer() == old(self).buffer(),
            match lx_token(old(self).lex_state()) {
                Lex::Tok(t, s2) => r == Ok::<Option<Token>, SyntaxError>(Some(t)) && final(self).lex_state() == s2,
                Lex::Eof(s2) => r == Ok::<Option<Token>, SyntaxError>(None) && final(self).lex_state() == s2,
                Lex::Fail(e) => r == Err::<Option<Token>, SyntaxError>(e),
            },
    {
        loop
            invariant
                self.wf(),
                self.buffer() == old(self).buffer(),
                lx_token(self.lex_state()) == lx_token(old(self).lex_state()),
            decreases lx_measure(self.lex_state()),
        {
            proof {
                lemma_skip_measure(self.lex_state());
            }
            let ghost s0 = self.lex_state();
            let Some(Char { c, pos }) = self.skip() else { return Ok(None) };
            let ghost s1 = self.lex_state();
            assert(lx_skip(s0) == (Some(Char { c, pos }), s1));
            let kind = match c {
                ',' => TokenKind::Comma,
                ';' => TokenKind::Semi,
                ':' => TokenKind::Colon,
                '^' => TokenKind::Caret,
                '*' => TokenKind::Star,
                '%' => TokenKind::Mod,
                '(' => TokenKind::LeftParen,
                ')' => TokenKind::RightParen,
                '[' => TokenKind::LeftBrk,
                ']' => TokenKind::RightBrk,
                '{' => TokenKind::LeftAngl,
                '}' => TokenKind::RightAngl,
                '<' => {
                    return Ok(
                        Some(
                            self.scan_alternate_operators(pos, '=', TokenKind::Leq, TokenKind::Lss),
                        ),
                    );
                },
                '>' => {
                    return Ok(
                        Some(
                            self.scan_alternate_operators(pos, '=', TokenKind::Geq, TokenKind::Gtr),
                        ),
                    );
                },
                '!' => {
                    return Ok(
                        Some(
                            self.scan_alternate_operators(pos, '=', TokenKind::Neq, TokenKind::Not),
                        ),
                    );
                },
                '=' => {
                    return Ok(
                        Some(
                            self.scan_alternate_operators(
                                pos,
                                '=',
                                TokenKind::Eql,
                                TokenKind::Assign,
                            ),
                        ),
                    );
                },
                '+' => {
                    return Ok(
                        Some(
                            self.scan_alternate_operators(pos, '+', TokenKind::Incr, TokenKind::Plus),
                        ),
                    );
                },
                '-' => {
                    return Ok(
                        Some(
                            self.scan_alternate_operators(
                                pos,
                                '-',
                                TokenKind::Decr,
                                TokenKind::Minus,
                            ),
                        ),
                    );
                },
                '/' => {
                    proof {
                        lemma_next_if_measure(s1, CharClass::Any);
                    }
                    match self.next() {
                        Some(c2) => {
                            if c2.c == '/' {
                                proof {
                                    lemma_line_comment_measure(self.lex_state());
                                }
                                self.process_line_comment();
                                continue ;
                            } else if c2.c == '*' {
                                proof {
                                    lemma_block_comment_measure(self.lex_state(), pos, false);
                                }
                                match self.process_multiline_comment(pos) {
                                    Ok(()) => {
                                        continue ;
                                    },
                                    Err(e) => {
                                        return Err(e);
                                    },
                                }
                            } else {
                                self.put_char(c2);
                                return Ok(Some(Token { kind: TokenKind::Slash, pos }));
                            }
                        },
                        None => {
                            return Ok(Some(Token { kind: TokenKind::Slash, pos }));
                        },
                    }
                },
                '&' => {
                    if self.next_if_eq('&').is_some() {
                        return Ok(Some(Token { kind: TokenKind::And, pos }));
                    } else {
                        return Err(fatal(ErrorKind::ExpectedAmpersands, pos));
                    }
                },
                '|' => {
                    if self.next_if_eq('|').is_some() {
                        return Ok(Some(Token { kind: TokenKind::Or, pos }));
                    } else {
                        return Err(fatal(ErrorKind::ExpectedPipes, pos));
                    }
                },
                '\'' => {
                    match self.scan_char() {
                        Ok(v) => {
                            return Ok(Some(Token { kind: TokenKind::CharLit(v), pos }));
                        },
                        Err(e) => {
                            return Err(e);
                        },
                    }
                },
                '"' => {
                    match self.scan_string(pos) {
                        Ok(st) => {
                            let id = self.strings.add(st);
                            return Ok(Some(Token { kind: TokenKind::StringLit(id), pos }));
                        },
                        Err(e) => {
                            return Err(e);
                        },
                    }
                },
                _ => {
                    if '0' <= c && c <= '9' {
                        proof {
                            lemma_digits_ok_decimal(s1);
                        }
                        match self.scan_number(c, 10) {
                            Some(v) => {
                                return Ok(Some(Token { kind: TokenKind::IntLit(v), pos }));
                            },
                            None => {
                                return Err(fatal(ErrorKind::IntegerTooLarge, pos));
                            },
                        }
                    } else if ('a' <= c && c <= 'z') || ('A' <= c && c <= 'Z') || c == '_' {
                        let ident = match self.scan_ident(c, pos) {
                            Ok(ident) => ident,
                            Err(e) => {
                                return Err(e);
                            },
                        };
                        if let Some(kind) = self.keyword(ident.as_str()) {
                            return Ok(Some(Token { kind, pos }));
                        } else {
                            let id = self.strings.add(ident);
                            return Ok(Some(Token { kind: TokenKind::Ident(id), pos }));
                        }
                    } else {
                        return Err(fatal(ErrorKind::UnrecognizedCharacter(c), pos));
                    }
                },
            };
            return Ok(Some(Token { kind, pos }));
        }
    }

    /// Hands out the next token: the last one put back, if any, else one read
    /// from the source; `None` at the end of the input.
    pub fn scan(&mut self) -> (r: Result<Option<Token>, SyntaxError>)
        requires
            old(self).wf(),
        ensures
            final(self).wf(),
            match old(self).stream().head() {
                Next::Tok(t) => r == Ok::<Option<Token>, SyntaxError>(Some(t))
                    && final(self).stream() == old(self).stream().rest(),
                Next::Eof => r == Ok::<Option<Token>, SyntaxError>(None) && final(self).stream()
                    == old(self).stream(),
                Next::Fail(e) => r == Err::<Option<Token>, SyntaxError>(e),
            },
    {
        if self.token_buffer.len() > 0 {
            return Ok(Some(self.consume_token()));
        }
        let ghost ls = self.lex_state();
        proof {
            lemma_eof_stays(ls);
            assert(old(self).stream() =~= lex_all(ls));
        }
        let r = self.scan_source();
        proof {
            assert(self.stream() =~= lex_all(self.lex_state()));
            if let Lex::Tok(t, s2) = lx_token(ls) {
                assert(lex_all(ls) == lex_all(s2).push_front(t));
                assert(lex_all(s2) =~= lex_all(ls).rest());
            }
        }
        r
    }

    /// The next token, which stays the next one.
    pub fn peek(&mut self) -> (r: Result<Option<Token>, SyntaxError>)
        requires
            old(self).wf(),
        ensures
            final(self).wf(),
            match old(self).stream().head() {
                Next::Tok(t) => r == Ok::<Option<Token>, SyntaxError>(Some(t))
                    && final(self).stream() == old(self).stream() && final(self).buffer().len() > 0
                    && final(self).buffer().last() == t,
                Next::Eof => r == Ok::<Option<Token>, SyntaxError>(None) && final(self).stream()
                    == old(self).stream(),
                Next::Fail(e) => r == Err::<Option<Token>, SyntaxError>(e),
            },
    {
        match self.scan() {
            Ok(Some(t)) => {
                self.put_token(t);
                proof {
                    assert(self.stream().toks =~= old(self).stream().toks);
                }
                Ok(Some(t))
            },
            Ok(None) => Ok(None),
            Err(e) => Err(e),
        }
    }

    /// Reads a token of the given kind; anything else is an error.
    pub fn must_be_kind(&mut self, kind: TokenKind) -> (r: Result<(), SyntaxError>)
        requires
            old(self).wf(),
        ensures
            final(self).wf(),
            match old(self).stream().head() {
                Next::Tok(t) => if t.kind == kind {
                    r is Ok && final(self).stream() == old(self).stream().rest()
                } else {
                    r == Err::<(), SyntaxError>(fatal_tok_spec(ErrorKind::ExpectedToken(kind), t))
                },
                Next::Eof => r == Err::<(), SyntaxError>(eof_spec(ErrorKind::EofExpectingToken(kind))),
                Next::Fail(e) => r == Err::<(), SyntaxError>(e),
            },
    {
        match self.scan() {
            Ok(Some(tk)) => {
                if tk.kind != kind {
                    Err(fatal_tok(ErrorKind::ExpectedToken(kind), tk))
                } else {
                    Ok(())
                }
            },
            Ok(None) => Err(fatal_eof(ErrorKind::EofExpectingToken(kind))),
            Err(e) => Err(e),
        }
    }

    /// Whether the input is over.
    pub fn is_eof(&mut self) -> (r: Result<bool, SyntaxError>)
        requires
            old(self).wf(),
        ensures
            final(self).wf(),
            match old(self).stream().head() {
                Next::Tok(t) => r == Ok::<bool, SyntaxError>(false) && final(self).stream() == old(self).stream(),
                Next::Eof => r == Ok::<bool, SyntaxError>(true) && final(self).stream() == old(self).stream(),
                Next::Fail(e) => r == Err::<bool, SyntaxError>(e),
            },
    {
        match self.peek() {
            Ok(Some(_)) => Ok(false),
            Ok(None) => Ok(true),
            Err(e) => Err(e),
        }
    }

    /// Whether the next token is of the given kind; if it is and `discard`
    /// is set, it is read.
    pub fn maybe_kind(&mut self, kind: TokenKind, discard: bool) -> (r: Result<bool, SyntaxError>)
        requires
            old(self).wf(),
        ensures
            final(self).wf(),
            match old(self).stream().head() {
                Next::Tok(t) => if t.kind == kind {
                    r == Ok::<bool, SyntaxError>(true) && final(self).stream() == if discard {
                        old(self).stream().rest()
                    } else {
                        old(self).stream()
                    }
                } else {
                    r == Ok::<bool, SyntaxError>(false) && final(self).stream() == old(self).stream()
                },
                Next::Eof => r == Ok::<bool, SyntaxError>(false) && final(self).stream() == old(
                    self,
                ).stream(),
                Next::Fail(e) => r == Err::<bool, SyntaxError>(e),
            },
    {
        match self.peek() {
            Ok(Some(tk)) => {
                if tk.kind == kind {
                    if discard {
                        self.discard_token();
                    }
                    Ok(true)
                } else {
                    Ok(false)
                }
            },
            Ok(None) => Ok(false),
            Err(e) => Err(e),
        }
    }
}

/// Every digit run is valid in base ten when no character is put back.
pub proof fn lemma_digits_ok_decimal(s: LexState)
    requires
        s.last is None,
    ensures
        lx_digits_ok(s, 10),
    decreases lx_measure(s),
{
    if let Some((ch, s2)) = lx_next_if(s, CharClass::Digit) {
        lemma_next_if_measure(s, CharClass::Digit);
        lemma_digits_ok_decimal(s2);
    }
}


/// A token put back is the next one handed out, and after it the stream is
/// what it was before.
pub proof fn lemma_put_back(s: TokStream, t: Token)
    ensures
        s.push_front(t).head() == Next::Tok(t),
        s.push_front(t).rest() == s,
{
    assert(s.push_front(t).rest() =~= s);
}


// ---------------------------------------------------------------------------
// Messages
// ---------------------------------------------------------------------------

/// How a token kind is written in messages.
pub open spec fn token_text(k: TokenKind) -> Seq<char> {
    match k {
        TokenKind::Comma => ","@,
        TokenKind::Semi => ";"@,
        TokenKind::Colon => ":"@,
        TokenKind::Assign => "="@,
        TokenKind::Plus => "+"@,
        TokenKind::Minus => "-"@,
        TokenKind::Star => "*"@,
        TokenKind::Slash => "/"@,
        TokenKind::Incr => "++"@,
        TokenKind::Decr => "--"@,
        TokenKind::Caret => "^"@,
        TokenKind::Not => "!"@,
        TokenKind::Mod => "%"@,
        TokenKind::And => "&&"@,
        TokenKind::Or => "||"@,
        TokenKind::Eql => "=="@,
        TokenKind::Neq => "!="@,
        TokenKind::Lss => "<"@,
        TokenKind::Leq => "<="@,
        TokenKind::Gtr => ">"@,
        TokenKind::Geq => ">="@,
        TokenKind::LeftBrk => "["@,
        TokenKind::RightBrk => "]"@,
        TokenKind::LeftParen => "("@,
        TokenKind::RightParen => ")"@,
        TokenKind::LeftAngl => "{"@,
        TokenKind::RightAngl => "}"@,
        TokenKind::Array => "array"@,
        TokenKind::Bool => "boolean"@,
        TokenKind::Char => "char"@,
        TokenKind::Integer => "integer"@,
        TokenKind::String => "string"@,
        TokenKind::Void => "void"@,
        TokenKind::Else => "else"@,
        TokenKind::For => "for"@,
        TokenKind::Function => "function"@,
        TokenKind::If => "if"@,
        TokenKind::Print => "print"@,
        TokenKind::Return => "return"@,
        TokenKind::True => "true"@,
        TokenKind::False => "false"@,
        TokenKind::Ident(v) => "Ident("@ + decimal(v as nat) + ")"@,
        TokenKind::IntLit(v) => signed_decimal(v as int),
        TokenKind::CharLit(c) => seq![c],
        TokenKind::StringLit(v) => "String("@ + decimal(v as nat) + ")"@,
    }
}

/// What an error of kind `k` says.
pub open spec fn error_text(k: ErrorKind) -> Seq<char> {
    match k {
        ErrorKind::UnterminatedComment => "Found EOF while processing comment starting"@,
        ErrorKind::ExpectedAmpersands => "Expected '&&'"@,
        ErrorKind::ExpectedPipes => "Expected '||'"@,
        ErrorKind::EmptyCharacter => "Empty character"@,
        ErrorKind::EofInCharLiteral => "Found EOF while processing a character literal"@,
        ErrorKind::UnterminatedString => "Found EOF while recognizing string that started"@,
        ErrorKind::IntegerTooLarge => "Integer literal too large"@,
        ErrorKind::IdentifierTooLong => "Identifier longer than 256 characters"@,
        ErrorKind::StringTooLong => "String longer than 256 characters"@,
        ErrorKind::ExpectedAssignment => "Expected an identifier, got an expression that is not an assignment"@,
        ErrorKind::ExpectedCommaOrSemi => "Expected ',' or ';'"@,
        ErrorKind::EofInForInit => "EOF found when expecting ',' or ';'"@,
        ErrorKind::ExpectedCommaOrParen => "Expected ',' or ')'"@,
        ErrorKind::EofInForPost => "EOF found when expecting ',' or ')'"@,
        ErrorKind::EofInPrint => "EOF found while expecting ',' or ';'"@,
        ErrorKind::EofAfterIdentifier => "Found EOF when expecting '=', ':', or '('"@,
        ErrorKind::EofExpectingStatement => "Found EOF expecting a statement"@,
        ErrorKind::ExpectedReturnType => "Expected a return type declaration"@,
        ErrorKind::EofExpectingType => "Found EOF while expecting a type declaration"@,
        ErrorKind::InitializerInSignature => "No initialization allowed in function signatures"@,
        ErrorKind::EofInArguments => "EOF found parsing function call arguments"@,
        ErrorKind::ExpectedVarDecl => "Expected a variable declaration"@,
        ErrorKind::EofExpectingDeclaration => "EOF found while expecting a declaration"@,
        ErrorKind::ExpectedCommaOrBracket => "Expected ',' or ']'"@,
        ErrorKind::EofInArrayInitializer => "EOF found parsing array initialization"@,
        ErrorKind::EofInInitializer => "Found EOF parsing an initializer"@,
        ErrorKind::ExpectedArraySize => "Expected array size"@,
        ErrorKind::EofExpectingArraySize => "Found EOF while expecting array size"@,
        ErrorKind::ExpectedTypeDecl => "Expected a type declaration"@,
        ErrorKind::ExpectedOperand => "Expected to find '(', '!', '-', a literal, or an identifier"@,
        ErrorKind::EofExpectingExpression => "Found EOF expecting an expression"@,
        ErrorKind::ExpectedIdentBeforePostfix => "Expected identifier before"@,
        ErrorKind::ExpectedIdentBeforeSubscript => "Expected identifier or ']' before subscript"@,
        ErrorKind::ExpectedIdentBeforeCall => "Expected identifier before '('"@,
        ErrorKind::ExpectedIdentBeforeAssign => "Expected identifier before '='"@,
        ErrorKind::ExpectedOperator => "Expected binary operator, (, or ["@,
        ErrorKind::ExpectedIdentifier => "Expected an identifier"@,
        ErrorKind::ExpectedSemiOrAssign => "Expected ';' or '='"@,
        ErrorKind::EofInFunction => "Found EOF when parsing a function"@,
        ErrorKind::ExpectedFunctionOrType => "Expected 'function' or a type"@,
        ErrorKind::EofInDeclaration => "Found EOF parsing a declaration"@,
        ErrorKind::EofExpectingChar(c) => "Found EOF while expecting char '"@ + seq![c] + "'"@,
        ErrorKind::ExpectedChar { expected, found } => "Expected '"@ + seq![expected]
            + "' but found '"@ + seq![found] + "' instead"@,
        ErrorKind::UnrecognizedCharacter(c) => "Unrecognized character '"@ + seq![c] + "'"@,
        ErrorKind::EofExpectingToken(t) => "Found EOF while expecting token '"@ + token_text(t)
            + "'"@,
        ErrorKind::ExpectedToken(t) => "Expected '"@ + token_text(t) + "'"@,
    }
}

/// ` at line,col`
pub open spec fn position_text(p: Pos) -> Seq<char> {
    " at "@ + decimal(p.line as nat) + ","@ + decimal(p.col as nat)
}

/// The message of an error: what went wrong, then the token found and
/// where, when they are known.
pub open spec fn message(e: SyntaxError) -> Seq<char> {
    match e.pos {
        Some(p) => match e.found {
            Some(k) => error_text(e.kind) + ", found "@ + token_text(k) + position_text(p),
            None => error_text(e.kind) + position_text(p),
        },
        None => error_text(e.kind),
    }
}

/// Appends the text of `k` to `out`.
pub fn push_token_text(k: TokenKind, out: &mut Vec<char>)
    ensures
        final(out)@ == old(out)@ + token_text(k),
{
    match k {
        TokenKind::Comma => push_str(",", out),
        TokenKind::Semi => push_str(";", out),
        TokenKind::Colon => push_str(":", out),
        TokenKind::Assign => push_str("=", out),
        TokenKind::Plus => push_str("+", out),
        TokenKind::Minus => push_str("-", out),
        TokenKind::Star => push_str("*", out),
        TokenKind::Slash => push_str("/", out),
        TokenKind::Incr => push_str("++", out),
        TokenKind::Decr => push_str("--", out),
        TokenKind::Caret => push_str("^", out),
        TokenKind::Not => push_str("!", out),
        TokenKind::Mod => push_str("%", out),
        TokenKind::And => push_str("&&", out),
        TokenKind::Or => push_str("||", out),
        TokenKind::Eql => push_str("==", out),
        TokenKind::Neq => push_str("!=", out),
        TokenKind::Lss => push_str("<", out),
        TokenKind::Leq => push_str("<=", out),
        TokenKind::Gtr => push_str(">", out),
        TokenKind::Geq => push_str(">=", out),
        TokenKind::LeftBrk => push_str("[", out),
        TokenKind::RightBrk => push_str("]", out),
        TokenKind::LeftParen => push_str("(", out),
        TokenKind::RightParen => push_str(")", out),
        TokenKind::LeftAngl => push_str("{", out),
        TokenKind::RightAngl => push_str("}", out),
        TokenKind::Array => push_str("array", out),
        TokenKind::Bool => push_str("boolean", out),
        TokenKind::Char => push_str("char", out),
        TokenKind::Integer => push_str("integer", out),
        TokenKind::String => push_str("string", out),
        TokenKind::Void => push_str("void", out),
        TokenKind::Else => push_str("else", out),
        TokenKind::For => push_str("for", out),
        TokenKind::Function => push_str("function", out),
        TokenKind::If => push_str("if", out),
        TokenKind::Print => push_str("print", out),
        TokenKind::Return => push_str("return", out),
        TokenKind::True => push_str("true", out),
        TokenKind::False => push_str("false", out),
        TokenKind::Ident(v) => {
            push_str("Ident(", out);
            push_decimal(v as u64, out);
            push_str(")", out);
            assert(final(out)@ =~= old(out)@ + token_text(k));
        },
        TokenKind::IntLit(v) => push_signed_decimal(v, out),
        TokenKind::CharLit(c) => {
            out.push(c);
            assert(final(out)@ =~= old(out)@ + token_text(k));
        },
        TokenKind::StringLit(v) => {
            push_str("String(", out);
            push_decimal(v as u64, out);
            push_str(")", out);
            assert(final(out)@ =~= old(out)@ + token_text(k));
        },
    }
}

/// Appends the text of an error of kind `k` to `out`.
pub fn push_error_text(k: ErrorKind, out: &mut Vec<char>)
    ensures
        final(out)@ == old(out)@ + error_text(k),
{
    match k {
        ErrorKind::UnterminatedComment => push_str("Found EOF while processing comment starting", out),
        ErrorKind::ExpectedAmpersands => push_str("Expected '&&'", out),
        ErrorKind::ExpectedPipes => push_str("Expected '||'", out),
        ErrorKind::EmptyCharacter => push_str("Empty character", out),
        ErrorKind::EofInCharLiteral => push_str("Found EOF while processing a character literal", out),
        ErrorKind::UnterminatedString => push_str("Found EOF while recognizing string that started", out),
        ErrorKind::IntegerTooLarge => push_str("Integer literal too large", out),
        ErrorKind::IdentifierTooLong => push_str("Identifier longer than 256 characters", out),
        ErrorKind::StringTooLong => push_str("String longer than 256 characters", out),
        ErrorKind::ExpectedAssignment => push_str("Expected an identifier, got an expression that is not an assignment", out),
        ErrorKind::ExpectedCommaOrSemi => push_str("Expected ',' or ';'", out),
        ErrorKind::EofInForInit => push_str("EOF found when expecting ',' or ';'", out),
        ErrorKind::ExpectedCommaOrParen => push_str("Expected ',' or ')'", out),
        ErrorKind::EofInForPost => push_str("EOF found when expecting ',' or ')'", out),
        ErrorKind::EofInPrint => push_str("EOF found while expecting ',' or ';'", out),
        ErrorKind::EofAfterIdentifier => push_str("Found EOF when expecting '=', ':', or '('", out),
        ErrorKind::EofExpectingStatement => push_str("Found EOF expecting a statement", out),
        ErrorKind::ExpectedReturnType => push_str("Expected a return type declaration", out),
        ErrorKind::EofExpectingType => push_str("Found EOF while expecting a type declaration", out),
        ErrorKind::InitializerInSignature => push_str("No initialization allowed in function signatures", out),
        ErrorKind::EofInArguments => push_str("EOF found parsing function call arguments", out),
        ErrorKind::ExpectedVarDecl => push_str("Expected a variable declaration", out),
        ErrorKind::EofExpectingDeclaration => push_str("EOF found while expecting a declaration", out),
        ErrorKind::ExpectedCommaOrBracket => push_str("Expected ',' or ']'", out),
        ErrorKind::EofInArrayInitializer => push_str("EOF found parsing array initialization", out),
        ErrorKind::EofInInitializer => push_str("Found EOF parsing an initializer", out),
        ErrorKind::ExpectedArraySize => push_str("Expected array size", out),
        ErrorKind::EofExpectingArraySize => push_str("Found EOF while expecting array size", out),
        ErrorKind::ExpectedTypeDecl => push_str("Expected a type declaration", out),
        ErrorKind::ExpectedOperand => push_str("Expected to find '(', '!', '-', a literal, or an identifier", out),
        ErrorKind::EofExpectingExpression => push_str("Found EOF expecting an expression", out),
        ErrorKind::ExpectedIdentBeforePostfix => push_str("Expected identifier before", out),
        ErrorKind::ExpectedIdentBeforeSubscript => push_str("Expected identifier or ']' before subscript", out),
        ErrorKind::ExpectedIdentBeforeCall => push_str("Expected identifier before '('", out),
        ErrorKind::ExpectedIdentBeforeAssign => push_str("Expected identifier before '='", out),
        ErrorKind::ExpectedOperator => push_str("Expected binary operator, (, or [", out),
        ErrorKind::ExpectedIdentifier => push_str("Expected an identifier", out),
        ErrorKind::ExpectedSemiOrAssign => push_str("Expected ';' or '='", out),
        ErrorKind::EofInFunction => push_str("Found EOF when parsing a function", out),
        ErrorKind::ExpectedFunctionOrType => push_str("Expected 'function' or a type", out),
        ErrorKind::EofInDeclaration => push_str("Found EOF parsing a declaration", out),
        ErrorKind::EofExpectingChar(c) => {
            push_str("Found EOF while expecting char '", out);
            out.push(c);
            push_str("'", out);
            assert(final(out)@ =~= old(out)@ + error_text(k));
        },
        ErrorKind::ExpectedChar { expected, found } => {
            push_str("Expected '", out);
            out.push(expected);
            push_str("' but found '", out);
            out.push(found);
            push_str("' instead", out);
            assert(final(out)@ =~= old(out)@ + error_text(k));
        },
        ErrorKind::UnrecognizedCharacter(c) => {
            push_str("Unrecognized character '", out);
            out.push(c);
            push_str("'", out);
            assert(final(out)@ =~= old(out)@ + error_text(k));
        },
        ErrorKind::EofExpectingToken(t) => {
            push_str("Found EOF while expecting token '", out);
            push_token_text(t, out);
            push_str("'", out);
            assert(final(out)@ =~= old(out)@ + error_text(k));
        },
        ErrorKind::ExpectedToken(t) => {
            push_str("Expected '", out);
            push_token_text(t, out);
            push_str("'", out);
            assert(final(out)@ =~= old(out)@ + error_text(k));
        },
    }
}

/// Appends ` at line,col` to `out`.
fn push_position(p: Pos, out: &mut Vec<char>)
    ensures
        final(out)@ == old(out)@ + position_text(p),
{
    push_str(" at ", out);
    push_decimal(p.line as u64, out);
    push_str(",", out);
    push_decimal(p.col as u64, out);
    assert(final(out)@ =~= old(out)@ + position_text(p));
}

impl TokenKind {
    /// How the token kind is written in messages.
    pub fn to_string(&self) -> (r: String)
        ensures
            r@ == token_text(*self),
    {
        let mut chars: Vec<char> = Vec::new();
        push_token_text(*self, &mut chars);
        assert(chars@ =~= token_text(*self));
        string_from_chars(&chars)
    }
}

impl SyntaxError {
    /// The error's message.
    pub fn to_string(&self) -> (r: String)
        ensures
            r@ == message(*self),
    {
        let mut chars: Vec<char> = Vec::new();
        push_error_text(self.kind, &mut chars);
        match self.pos {
            Some(p) => {
                match self.found {
                    Some(k) => {
                        push_str(", found ", &mut chars);
                        push_token_text(k, &mut chars);
                    },
                    None => {},
                }
                push_position(p, &mut chars);
            },
            None => {},
        }
        assert(chars@ =~= message(*self));
        string_from_chars(&chars)
    }
}


/// Keywords are not identifiers: a token read as an identifier stands for a
/// word of the string table that is not a keyword.
pub proof fn lemma_identifiers_are_not_keywords(s: LexState)
    requires
        s.strings.len() < usize::MAX,
    ensures
        lx_token(s) matches Lex::Tok(t, s2) ==> (t.kind matches TokenKind::Ident(id) ==> id
            < s2.strings.len() && keyword_of(s2.strings[id as int]) is None),
    decreases lx_measure(s),
{
    let (oc, s1) = lx_skip(s);
    lemma_skip_measure(s);
    if let Some(ch) = oc {
        let c = ch.c;
        if c == '/' {
            lemma_next_if_measure(s1, CharClass::Any);
            if let Some((c2, s2)) = lx_next(s1) {
                if c2.c == '/' {
                    lemma_line_comment_measure(s2);
                    lemma_identifiers_are_not_keywords(lx_line_comment(s2));
                } else if c2.c == '*' {
                    lemma_block_comment_measure(s2, ch.pos, false);
                    if let Ok(s3) = lx_block_comment(s2, ch.pos, false) {
                        lemma_identifiers_are_not_keywords(s3);
                    }
                }
            }
        } else if is_alpha_char(c) || c == '_' {
            lemma_next_if_measure(s1, CharClass::Any);
            lemma_ident_measure(s1);
            let (rest, s2) = lx_ident(s1);
            crate::sym::lemma_intern_stable(s2.strings, seq![c] + rest);
        }
    }
}

/// A character that may continue an identifier: an ASCII letter, an ASCII
/// digit or an underscore.
pub open spec fn word_char(c: char) -> bool {
    ('a' <= c && c <= 'z') || ('A' <= c && c <= 'Z') || ('0' <= c && c <= '9') || c == '_'
}

/// The rest of an identifier is read by maximal munch: exactly the longest
/// run of letters, digits and underscores that follows, nothing more and
/// nothing less.
pub proof fn lemma_ident_maximal(s: LexState)
    requires
        s.last is None,
        0 <= s.idx <= s.src.len(),
    ensures
        ({
            let (w, s2) = lx_ident(s);
            &&& s2.idx == s.idx + w.len()
            &&& s2.idx <= s.src.len()
            &&& w == s.src.subrange(s.idx, s2.idx)
            &&& forall|i: int| 0 <= i < w.len() ==> word_char(#[trigger] w[i])
            &&& s2.idx < s.src.len() ==> !word_char(s.src[s2.idx])
            &&& s2.last is None
            &&& s2.src == s.src
            &&& s2.strings == s.strings
        }),
    decreases s.src.len() - s.idx,
{
    let (w, s2) = lx_ident(s);
    match lx_next_if(s, CharClass::IdentPart) {
        Some((ch, s1)) => {
            lemma_ident_maximal(s1);
            let (rest, s3) = lx_ident(s1);
            assert(w == seq![ch.c] + rest && s2 == s3);
            assert(ch.c == s.src[s.idx]);
            assert(s1.idx == s.idx + 1);
            assert(w =~= s.src.subrange(s.idx, s2.idx));
            assert forall|i: int| 0 <= i < w.len() implies word_char(#[trigger] w[i]) by {
                if i > 0 {
                    assert(w[i] == rest[i - 1]);
                }
            }
        },
        None => {
            assert(w =~= s.src.subrange(s.idx, s2.idx));
        },
    }
}

/// A source that is one word of letters, digits and underscores, starting
/// with a letter or an underscore, at most [`MAX_NAME_LEN`] long and not a
/// keyword, scans to a single identifier token at 1,1 whose interned text
/// is the whole word, and then to the end of the input.
pub proof fn lemma_word_scans_to_one_identifier(word: Seq<char>)
    requires
        0 < word.len() <= MAX_NAME_LEN,
        forall|i: int| 0 <= i < word.len() ==> word_char(#[trigger] word[i]),
        !('0' <= word[0] && word[0] <= '9'),
        keyword_of(word) is None,
    ensures
        ({
            let s = LexState { src: word, idx: 0, line: 1, col: 1, last: None, strings: seq![] };
            lx_token(s) matches Lex::Tok(t, s2) && t == (Token {
                kind: TokenKind::Ident(0),
                pos: Pos { line: 1, col: 1 },
            }) && s2.strings == seq![word] && lx_token(s2) is Eof
        }),
{
    let s = LexState { src: word, idx: 0, line: 1, col: 1, last: None, strings: seq![] };
    let c = word[0];
    assert(word_char(c));
    assert(lx_next(s) == Some(lx_advance(s)));
    let (ch, s1) = lx_advance(s);
    assert(!is_space(c));
    assert(lx_skip(s) == (Some(ch), s1));
    assert(single_char_token(c) is None);
    lemma_ident_maximal(s1);
    let (rest, s2) = lx_ident(s1);
    assert(seq![c] + rest =~= word);
    assert(s2.idx == word.len());
    assert(lx_next(s2) is None);
    assert(lx_skip(s2).0 is None);
}

} // verus!
