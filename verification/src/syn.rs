//! The parser: a recursive-descent parser for declarations and statements,
//! with a Pratt parser for expressions.
use vstd::prelude::*;

use crate::ast::{ids_fresh, node_ids, nodes_ids, 
    AstM,
    AstNode,
    BinaryOp,
    ExprKind,
    ExprM,
    NodeCounter,
    UnaryOp,
    binary_op_of,
    literal_of,
    nodes_model,
    subscript_model,
};
use crate::scan::{
    ErrorKind,
    Next,
    Scanner,
    SyntaxError,
    TokStream,
    Token,
    TokenKind,
    eof_spec,
    fatal,
    fatal_eof,
    fatal_spec,
    fatal_tok,
    fatal_tok_spec,
    is_type_kind,
};
use crate::sym::Strings;
use crate::types::{Param, ParamM, PrimType, Type, TypeM, params_model};

verus! {

// ---------------------------------------------------------------------------
// The grammar, as functions on token streams
// ---------------------------------------------------------------------------

/// The outcome of parsing a prefix of a token stream: the value and the rest
/// of the stream, or an error.
pub enum PRes<T> {
    Done(T, TokStream),
    Fail(SyntaxError),
}

/// How tightly a token binds its operands; `unary` for a prefix operator.
pub open spec fn bp(k: TokenKind, unary: bool) -> u8 {
    match k {
        TokenKind::Assign => 10,
        TokenKind::And | TokenKind::Or => 20,
        TokenKind::Lss | TokenKind::Leq | TokenKind::Gtr | TokenKind::Geq | TokenKind::Eql
        | TokenKind::Neq => 30,
        TokenKind::Plus => 40,
        TokenKind::Minus => if unary {
            70
        } else {
            40
        },
        TokenKind::Star | TokenKind::Slash | TokenKind::Mod => 50,
        TokenKind::Caret => 60,
        TokenKind::Not => 70,
        TokenKind::Incr | TokenKind::Decr => 80,
        TokenKind::LeftBrk => 90,
        TokenKind::LeftParen => 90,
        _ => 0,
    }
}

pub open spec fn shorter(a: TokStream, b: TokStream) -> bool {
    a.toks.len() < b.toks.len()
}

/// The error returned where the stream did not get shorter (which never
/// happens; it keeps the definitions total).
pub open spec fn stuck() -> SyntaxError {
    SyntaxError { kind: ErrorKind::ExpectedOperator, pos: None, found: None }
}

/// Reads a token of kind `k`.
pub open spec fn expect(s: TokStream, k: TokenKind) -> PRes<()> {
    match s.head() {
        Next::Tok(t) => if t.kind == k {
            PRes::Done((), s.rest())
        } else {
            PRes::Fail(fatal_tok_spec(ErrorKind::ExpectedToken(k), t))
        },
        Next::Eof => PRes::Fail(eof_spec(ErrorKind::EofExpectingToken(k))),
        Next::Fail(e) => PRes::Fail(e),
    }
}

/// An expression whose operators bind more tightly than `min_bp`.
pub open spec fn p_expr(s: TokStream, min_bp: u8) -> PRes<AstM>
    decreases s.toks.len(), 0int,
{
    match s.head() {
        Next::Tok(t) => match p_nud(s.rest(), t) {
            PRes::Done(left, s2) => if shorter(s2, s) {
                p_led(s2, min_bp, left)
            } else {
                PRes::Fail(stuck())
            },
            PRes::Fail(e) => PRes::Fail(e),
        },
        Next::Eof => PRes::Fail(eof_spec(ErrorKind::EofExpectingExpression)),
        Next::Fail(e) => PRes::Fail(e),
    }
}

/// What an expression starts with, the token `t` being read already.
pub open spec fn p_nud(s: TokStream, t: Token) -> PRes<AstM>
    decreases s.toks.len(), 1int,
{
    match t.kind {
        TokenKind::LeftParen => match p_expr(s, 0) {
            PRes::Done(e, s2) => match expect(s2, TokenKind::RightParen) {
                PRes::Done(_, s3) => PRes::Done(e, s3),
                PRes::Fail(x) => PRes::Fail(x),
            },
            PRes::Fail(x) => PRes::Fail(x),
        },
        TokenKind::Not => match p_expr(s, bp(t.kind, true)) {
            PRes::Done(e, s2) => PRes::Done(AstM::Expr(ExprM::Unary(UnaryOp::Not, Box::new(e))), s2),
            PRes::Fail(x) => PRes::Fail(x),
        },
        TokenKind::Minus => match p_expr(s, bp(t.kind, true)) {
            PRes::Done(e, s2) => PRes::Done(AstM::Expr(ExprM::Unary(UnaryOp::Minus, Box::new(e))), s2),
            PRes::Fail(x) => PRes::Fail(x),
        },
        TokenKind::Ident(id) => PRes::Done(AstM::Expr(ExprM::Ident(id)), s),
        _ => match literal_of(t.kind) {
            Some(l) => PRes::Done(AstM::Expr(l), s),
            None => PRes::Fail(
                fatal_tok_spec(ErrorKind::ExpectedOperand, t),
            ),
        },
    }
}

/// The operators that follow `left`, as long as they bind more tightly than
/// `min_bp`.
pub open spec fn p_led(s: TokStream, min_bp: u8, left: AstM) -> PRes<AstM>
    decreases s.toks.len(), 0int,
{
    match s.head() {
        Next::Fail(e) => PRes::Fail(e),
        Next::Eof => PRes::Done(left, s),
        Next::Tok(t) => if bp(t.kind, false) <= min_bp {
            PRes::Done(left, s)
        } else {
            let s1 = s.rest();
            if binary_op_of(t.kind) is Some {
                match p_expr(s1, bp(t.kind, false)) {
                    PRes::Done(right, s2) => if shorter(s2, s) {
                        p_led(
                            s2,
                            min_bp,
                            AstM::Expr(
                                ExprM::Binary {
                                    left: Box::new(left),
                                    op: binary_op_of(t.kind)->0,
                                    right: Box::new(right),
                                },
                            ),
                        )
                    } else {
                        PRes::Fail(stuck())
                    },
                    PRes::Fail(e) => PRes::Fail(e),
                }
            } else if t.kind is Incr || t.kind is Decr {
                match left {
                    AstM::Expr(ExprM::Ident(name)) => p_led(
                        s1,
                        min_bp,
                        AstM::Expr(
                            if t.kind is Incr {
                                ExprM::Incr(name)
                            } else {
                                ExprM::Decr(name)
                            },
                        ),
                    ),
                    _ => PRes::Fail(fatal_tok_spec(ErrorKind::ExpectedIdentBeforePostfix, t)),
                }
            } else if t.kind is LeftBrk {
                match p_expr(s1, 0) {
                    PRes::Done(index, s2) => match expect(s2, TokenKind::RightBrk) {
                        PRes::Done(_, s3) => if left matches AstM::Expr(ExprM::Ident(_)) || left matches AstM::Expr(
                            ExprM::Subscript { .. },
                        ) {
                            if shorter(s3, s) {
                                p_led(s3, min_bp, subscript_model(left, index))
                            } else {
                                PRes::Fail(stuck())
                            }
                        } else {
                            PRes::Fail(fatal_spec(ErrorKind::ExpectedIdentBeforeSubscript, t.pos))
                        },
                        PRes::Fail(e) => PRes::Fail(e),
                    },
                    PRes::Fail(e) => PRes::Fail(e),
                }
            } else if t.kind is LeftParen {
                match left {
                    AstM::Expr(ExprM::Ident(name)) => match p_func_args(s1, name) {
                        PRes::Done(call, s2) => if shorter(s2, s) {
                            p_led(s2, min_bp, call)
                        } else {
                            PRes::Fail(stuck())
                        },
                        PRes::Fail(e) => PRes::Fail(e),
                    },
                    _ => PRes::Fail(fatal_spec(ErrorKind::ExpectedIdentBeforeCall, t.pos)),
                }
            } else if t.kind is Assign {
                match left {
                    AstM::Expr(ExprM::Ident(name)) => match p_expr(s1, bp(t.kind, false)) {
                        PRes::Done(r, s2) => if shorter(s2, s) {
                            p_led(
                                s2,
                                min_bp,
                                AstM::Expr(ExprM::Assignment { lvalue: name, rvalue: Box::new(r) }),
                            )
                        } else {
                            PRes::Fail(stuck())
                        },
                        PRes::Fail(e) => PRes::Fail(e),
                    },
                    _ => PRes::Fail(fatal_spec(ErrorKind::ExpectedIdentBeforeAssign, t.pos)),
                }
            } else {
                PRes::Fail(fatal_tok_spec(ErrorKind::ExpectedOperator, t))
            }
        },
    }
}

/// The arguments of a call of `name`, after its opening parenthesis.
pub open spec fn p_func_args(s: TokStream, name: usize) -> PRes<AstM>
    decreases s.toks.len(), 2int,
{
    match s.head() {
        Next::Fail(e) => PRes::Fail(e),
        Next::Tok(t) => if t.kind == TokenKind::RightParen {
            PRes::Done(AstM::Expr(ExprM::FuncCall { name, params: seq![] }), s.rest())
        } else {
            p_args_loop(s, name, seq![])
        },
        Next::Eof => p_args_loop(s, name, seq![]),
    }
}

/// Further arguments of a call of `name`, after the arguments `acc`.
pub open spec fn p_args_loop(s: TokStream, name: usize, acc: Seq<AstM>) -> PRes<AstM>
    decreases s.toks.len(), 1int,
{
    match p_expr(s, 0) {
        PRes::Done(a, s2) => match s2.head() {
            Next::Tok(t) => if t.kind == TokenKind::Comma {
                if shorter(s2.rest(), s) {
                    p_args_loop(s2.rest(), name, acc.push(a))
                } else {
                    PRes::Fail(stuck())
                }
            } else if t.kind == TokenKind::RightParen {
                PRes::Done(AstM::Expr(ExprM::FuncCall { name, params: acc.push(a) }), s2.rest())
            } else {
                PRes::Fail(fatal_tok_spec(ErrorKind::ExpectedCommaOrParen, t))
            },
            Next::Eof => PRes::Fail(eof_spec(ErrorKind::EofInArguments)),
            Next::Fail(e) => PRes::Fail(e),
        },
        PRes::Fail(e) => PRes::Fail(e),
    }
}


/// An expression that must be an assignment (in the head of a `for`).
pub open spec fn p_assign(s: TokStream) -> PRes<AstM> {
    match p_expr(s, 0) {
        PRes::Done(e, s2) => if e matches AstM::Expr(ExprM::Assignment { .. }) {
            PRes::Done(e, s2)
        } else {
            PRes::Fail(SyntaxError { kind: ErrorKind::ExpectedAssignment, pos: None, found: None })
        },
        PRes::Fail(x) => PRes::Fail(x),
    }
}

/// The assignments that start a `for`, after `acc`, up to the `;`.
pub open spec fn p_for_init(s: TokStream, acc: Seq<AstM>) -> PRes<Seq<AstM>>
    decreases s.toks.len(),
{
    match p_assign(s) {
        PRes::Done(a, s2) => match s2.head() {
            Next::Tok(t) => if t.kind == TokenKind::Semi {
                PRes::Done(acc.push(a), s2.rest())
            } else if t.kind == TokenKind::Comma {
                if shorter(s2.rest(), s) {
                    p_for_init(s2.rest(), acc.push(a))
                } else {
                    PRes::Fail(stuck())
                }
            } else {
                PRes::Fail(fatal_tok_spec(ErrorKind::ExpectedCommaOrSemi, t))
            },
            Next::Eof => PRes::Fail(eof_spec(ErrorKind::EofInForInit)),
            Next::Fail(e) => PRes::Fail(e),
        },
        PRes::Fail(e) => PRes::Fail(e),
    }
}

/// The expressions that end the head of a `for`, after `acc`, up to the `)`.
pub open spec fn p_for_post(s: TokStream, acc: Seq<AstM>) -> PRes<Seq<AstM>>
    decreases s.toks.len(),
{
    match p_expr(s, 0) {
        PRes::Done(a, s2) => match s2.head() {
            Next::Tok(t) => if t.kind == TokenKind::RightParen {
                PRes::Done(acc.push(a), s2.rest())
            } else if t.kind == TokenKind::Comma {
                if shorter(s2.rest(), s) {
                    p_for_post(s2.rest(), acc.push(a))
                } else {
                    PRes::Fail(stuck())
                }
            } else {
                PRes::Fail(fatal_tok_spec(ErrorKind::ExpectedCommaOrParen, t))
            },
            Next::Eof => PRes::Fail(eof_spec(ErrorKind::EofInForPost)),
            Next::Fail(e) => PRes::Fail(e),
        },
        PRes::Fail(e) => PRes::Fail(e),
    }
}

/// The expressions of a `print`, after `acc`, up to the `;`.
pub open spec fn p_print_loop(s: TokStream, acc: Seq<AstM>) -> PRes<Seq<AstM>>
    decreases s.toks.len(),
{
    match p_expr(s, 0) {
        PRes::Done(a, s2) => match s2.head() {
            Next::Tok(t) => if t.kind == TokenKind::Semi {
                PRes::Done(acc.push(a), s2.rest())
            } else if t.kind == TokenKind::Comma {
                if shorter(s2.rest(), s) {
                    p_print_loop(s2.rest(), acc.push(a))
                } else {
                    PRes::Fail(stuck())
                }
            } else {
                PRes::Fail(fatal_tok_spec(ErrorKind::ExpectedCommaOrSemi, t))
            },
            Next::Eof => PRes::Fail(eof_spec(ErrorKind::EofInPrint)),
            Next::Fail(e) => PRes::Fail(e),
        },
        PRes::Fail(e) => PRes::Fail(e),
    }
}

/// `print e1, ..., en;`
pub open spec fn p_print(s: TokStream) -> PRes<AstM> {
    match expect(s, TokenKind::Print) {
        PRes::Done(_, s1) => match s1.head() {
            Next::Fail(e) => PRes::Fail(e),
            Next::Tok(t) => if t.kind == TokenKind::Semi {
                PRes::Done(AstM::Print(seq![]), s1.rest())
            } else {
                match p_print_loop(s1, seq![]) {
                    PRes::Done(es, s2) => PRes::Done(AstM::Print(es), s2),
                    PRes::Fail(e) => PRes::Fail(e),
                }
            },
            Next::Eof => match p_print_loop(s1, seq![]) {
                PRes::Done(es, s2) => PRes::Done(AstM::Print(es), s2),
                PRes::Fail(e) => PRes::Fail(e),
            },
        },
        PRes::Fail(e) => PRes::Fail(e),
    }
}

/// `return;` or `return e;`
pub open spec fn p_return(s: TokStream) -> PRes<AstM> {
    match expect(s, TokenKind::Return) {
        PRes::Done(_, s1) => match s1.head() {
            Next::Fail(e) => PRes::Fail(e),
            Next::Tok(t) if t.kind == TokenKind::Semi => PRes::Done(AstM::VoidReturn, s1.rest()),
            _ => match p_expr(s1, 0) {
                PRes::Done(e, s2) => match expect(s2, TokenKind::Semi) {
                    PRes::Done(_, s3) => PRes::Done(AstM::Return(Box::new(e)), s3),
                    PRes::Fail(x) => PRes::Fail(x),
                },
                PRes::Fail(x) => PRes::Fail(x),
            },
        },
        PRes::Fail(e) => PRes::Fail(e),
    }
}

/// A block: `{`, statements and declarations, `}`.
pub open spec fn p_block(s: TokStream) -> PRes<AstM>
    decreases s.toks.len(), 2int,
{
    match s.head() {
        Next::Tok(t) => if t.kind == TokenKind::LeftAngl {
            p_block_loop(s.rest(), seq![])
        } else {
            PRes::Fail(fatal_tok_spec(ErrorKind::ExpectedToken(TokenKind::LeftAngl), t))
        },
        Next::Eof => PRes::Fail(eof_spec(ErrorKind::EofExpectingToken(TokenKind::LeftAngl))),
        Next::Fail(e) => PRes::Fail(e),
    }
}

/// The rest of a block, after the statements `acc`.
pub open spec fn p_block_loop(s: TokStream, acc: Seq<AstM>) -> PRes<AstM>
    decreases s.toks.len(), 4int,
{
    match s.head() {
        Next::Fail(e) => PRes::Fail(e),
        Next::Eof => PRes::Fail(eof_spec(ErrorKind::EofExpectingStatement)),
        Next::Tok(t) => if t.kind == TokenKind::RightAngl {
            PRes::Done(
                if acc.len() == 0 {
                    AstM::EmptyBlock
                } else {
                    AstM::Block(acc)
                },
                s.rest(),
            )
        } else {
            match p_statement(s) {
                PRes::Done(st, s2) => if shorter(s2, s) {
                    p_block_loop(s2, acc.push(st))
                } else {
                    PRes::Fail(stuck())
                },
                PRes::Fail(e) => PRes::Fail(e),
            }
        },
    }
}

/// Reads `;` after `v`.
pub open spec fn then_semi(r: PRes<AstM>) -> PRes<AstM> {
    match r {
        PRes::Done(v, s2) => match expect(s2, TokenKind::Semi) {
            PRes::Done(_, s3) => PRes::Done(v, s3),
            PRes::Fail(e) => PRes::Fail(e),
        },
        PRes::Fail(e) => PRes::Fail(e),
    }
}

/// One statement or declaration of a block.
pub open spec fn p_statement(s: TokStream) -> PRes<AstM>
    decreases s.toks.len(), 3int,
{
    match s.head() {
        Next::Tok(t) => match t.kind {
            TokenKind::LeftAngl => p_block(s),
            TokenKind::Ident(id) => {
                let s1 = s.rest();
                match s1.head() {
                    Next::Tok(t2) => if t2.kind == TokenKind::Colon {
                        then_semi(p_var_decl_with_id(s1.rest(), id))
                    } else if t2.kind == TokenKind::LeftParen {
                        then_semi(p_func_args(s1.rest(), id))
                    } else {
                        then_semi(p_expr(s, 0))
                    },
                    Next::Eof => PRes::Fail(eof_spec(ErrorKind::EofAfterIdentifier)),
                    Next::Fail(e) => PRes::Fail(e),
                }
            },
            TokenKind::If => p_if(s),
            TokenKind::For => p_for(s),
            TokenKind::Print => p_print(s),
            TokenKind::Return => p_return(s),
            _ => p_expr(s, 0),
        },
        Next::Eof => PRes::Fail(eof_spec(ErrorKind::EofExpectingStatement)),
        Next::Fail(e) => PRes::Fail(e),
    }
}

/// `if (cond) block [else block]`
pub open spec fn p_if(s: TokStream) -> PRes<AstM>
    decreases s.toks.len(), 2int,
{
    match expect(s, TokenKind::If) {
        PRes::Done(_, s1) => match expect(s1, TokenKind::LeftParen) {
            PRes::Done(_, s2) => match p_expr(s2, 0) {
                PRes::Done(cond, s3) => match expect(s3, TokenKind::RightParen) {
                    PRes::Done(_, s4) => if shorter(s4, s) {
                        match p_block(s4) {
                            PRes::Done(tb, s5) => match s5.head() {
                                Next::Fail(e) => PRes::Fail(e),
                                Next::Tok(t) if t.kind == TokenKind::Else => if shorter(s5.rest(), s) {
                                    match p_block(s5.rest()) {
                                        PRes::Done(fb, s6) => PRes::Done(
                                            AstM::If {
                                                cond: Box::new(cond),
                                                t_branch: Box::new(tb),
                                                f_branch: Box::new(fb),
                                            },
                                            s6,
                                        ),
                                        PRes::Fail(e) => PRes::Fail(e),
                                    }
                                } else {
                                    PRes::Fail(stuck())
                                },
                                _ => PRes::Done(
                                    AstM::If {
                                        cond: Box::new(cond),
                                        t_branch: Box::new(tb),
                                        f_branch: Box::new(AstM::EmptyBlock),
                                    },
                                    s5,
                                ),
                            },
                            PRes::Fail(e) => PRes::Fail(e),
                        }
                    } else {
                        PRes::Fail(stuck())
                    },
                    PRes::Fail(e) => PRes::Fail(e),
                },
                PRes::Fail(e) => PRes::Fail(e),
            },
            PRes::Fail(e) => PRes::Fail(e),
        },
        PRes::Fail(e) => PRes::Fail(e),
    }
}

/// `for (init; cond; post) block`
pub open spec fn p_for(s: TokStream) -> PRes<AstM>
    decreases s.toks.len(), 2int,
{
    match expect(s, TokenKind::For) {
        PRes::Done(_, s1) => match expect(s1, TokenKind::LeftParen) {
            PRes::Done(_, s2) => {
                let init: PRes<Seq<AstM>> = match s2.head() {
                    Next::Fail(e) => PRes::Fail(e),
                    Next::Tok(t) if t.kind == TokenKind::Semi => PRes::Done(seq![], s2.rest()),
                    _ => p_for_init(s2, seq![]),
                };
                match init {
                    PRes::Done(assign, s3) => match p_expr(s3, 0) {
                        PRes::Done(cond, s4) => match expect(s4, TokenKind::Semi) {
                            PRes::Done(_, s5) => {
                                let post: PRes<Seq<AstM>> = match s5.head() {
                                    Next::Fail(e) => PRes::Fail(e),
                                    Next::Tok(t) if t.kind == TokenKind::RightParen => PRes::Done(
                                        seq![],
                                        s5.rest(),
                                    ),
                                    _ => p_for_post(s5, seq![]),
                                };
                                match post {
                                    PRes::Done(post_op, s6) => if shorter(s6, s) {
                                        match p_block(s6) {
                                            PRes::Done(body, s7) => PRes::Done(
                                                AstM::For {
                                                    assign,
                                                    cond: Box::new(cond),
                                                    post_op,
                                                    body: Box::new(body),
                                                },
                                                s7,
                                            ),
                                            PRes::Fail(e) => PRes::Fail(e),
                                        }
                                    } else {
                                        PRes::Fail(stuck())
                                    },
                                    PRes::Fail(e) => PRes::Fail(e),
                                }
                            },
                            PRes::Fail(e) => PRes::Fail(e),
                        },
                        PRes::Fail(e) => PRes::Fail(e),
                    },
                    PRes::Fail(e) => PRes::Fail(e),
                }
            },
            PRes::Fail(e) => PRes::Fail(e),
        },
        PRes::Fail(e) => PRes::Fail(e),
    }
}

/// A function's return type.
pub open spec fn p_return_type(s: TokStream) -> PRes<TypeM> {
    match s.head() {
        Next::Tok(t) => match t.kind {
            TokenKind::Integer => PRes::Done(TypeM::Scalar(PrimType::Int), s.rest()),
            TokenKind::Char => PRes::Done(TypeM::Scalar(PrimType::Char), s.rest()),
            TokenKind::Bool => PRes::Done(TypeM::Scalar(PrimType::Bool), s.rest()),
            TokenKind::String => PRes::Done(TypeM::Scalar(PrimType::String), s.rest()),
            TokenKind::Void => PRes::Done(TypeM::Scalar(PrimType::Void), s.rest()),
            _ => PRes::Fail(fatal_tok_spec(ErrorKind::ExpectedReturnType, t)),
        },
        Next::Eof => PRes::Fail(eof_spec(ErrorKind::EofExpectingType)),
        Next::Fail(e) => PRes::Fail(e),
    }
}

/// A variable's type: `array [n]` prefixes and a scalar type.
pub open spec fn p_var_decl_type(s: TokStream) -> PRes<TypeM>
    decreases s.toks.len(),
{
    match s.head() {
        Next::Tok(t) => match t.kind {
            TokenKind::Array => {
                let s1 = s.rest();
                match s1.head() {
                    Next::Tok(t1) => if t1.kind == TokenKind::LeftBrk {
                        let s2 = s1.rest();
                        match s2.head() {
                            Next::Tok(t2) => match t2.kind {
                                TokenKind::IntLit(v) => {
                                    let s3 = s2.rest();
                                    match s3.head() {
                                        Next::Tok(t3) => if t3.kind == TokenKind::RightBrk {
                                            match p_var_decl_type(s3.rest()) {
                                                PRes::Done(inner, s4) => PRes::Done(
                                                    TypeM::Array { size: Some(v as usize), dtype: Box::new(inner) },
                                                    s4,
                                                ),
                                                PRes::Fail(e) => PRes::Fail(e),
                                            }
                                        } else {
                                            PRes::Fail(
                                                fatal_tok_spec(
                                                    ErrorKind::ExpectedToken(TokenKind::RightBrk),
                                                    t3,
                                                ),
                                            )
                                        },
                                        Next::Eof => PRes::Fail(
                                            eof_spec(ErrorKind::EofExpectingToken(TokenKind::RightBrk)),
                                        ),
                                        Next::Fail(e) => PRes::Fail(e),
                                    }
                                },
                                _ => PRes::Fail(fatal_tok_spec(ErrorKind::ExpectedArraySize, t2)),
                            },
                            Next::Eof => PRes::Fail(eof_spec(ErrorKind::EofExpectingArraySize)),
                            Next::Fail(e) => PRes::Fail(e),
                        }
                    } else {
                        PRes::Fail(
                            fatal_tok_spec(ErrorKind::ExpectedToken(TokenKind::LeftBrk), t1),
                        )
                    },
                    Next::Eof => PRes::Fail(
                        eof_spec(ErrorKind::EofExpectingToken(TokenKind::LeftBrk)),
                    ),
                    Next::Fail(e) => PRes::Fail(e),
                }
            },
            TokenKind::Integer => PRes::Done(TypeM::Scalar(PrimType::Int), s.rest()),
            TokenKind::Char => PRes::Done(TypeM::Scalar(PrimType::Char), s.rest()),
            TokenKind::Bool => PRes::Done(TypeM::Scalar(PrimType::Bool), s.rest()),
            TokenKind::String => PRes::Done(TypeM::Scalar(PrimType::String), s.rest()),
            _ => PRes::Fail(fatal_tok_spec(ErrorKind::ExpectedTypeDecl, t)),
        },
        Next::Eof => PRes::Fail(eof_spec(ErrorKind::EofExpectingType)),
        Next::Fail(e) => PRes::Fail(e),
    }
}

/// An array initializer, after its `[`.
pub open spec fn p_array_initializer(s: TokStream) -> PRes<AstM>
    decreases s.toks.len(), 2int,
{
    p_array_loop(s, seq![])
}

/// The rest of an array initializer, after the elements `acc`.
pub open spec fn p_array_loop(s: TokStream, acc: Seq<AstM>) -> PRes<AstM>
    decreases s.toks.len(), 1int,
{
    let elem: PRes<AstM> = match s.head() {
        Next::Fail(e) => PRes::Fail(e),
        Next::Tok(t) if t.kind == TokenKind::LeftBrk => p_array_initializer(s.rest()),
        _ => p_expr(s, 0),
    };
    match elem {
        PRes::Done(a, s2) => match s2.head() {
            Next::Tok(t) => if t.kind == TokenKind::Comma {
                if shorter(s2.rest(), s) {
                    p_array_loop(s2.rest(), acc.push(a))
                } else {
                    PRes::Fail(stuck())
                }
            } else if t.kind == TokenKind::RightBrk {
                PRes::Done(AstM::ArrayInitializer(acc.push(a)), s2.rest())
            } else {
                PRes::Fail(fatal_tok_spec(ErrorKind::ExpectedCommaOrBracket, t))
            },
            Next::Eof => PRes::Fail(eof_spec(ErrorKind::EofInArrayInitializer)),
            Next::Fail(e) => PRes::Fail(e),
        },
        PRes::Fail(e) => PRes::Fail(e),
    }
}

/// The rest of a declaration of `id` after its type, read as `r`: an
/// optional initializer.
pub open spec fn p_init(r: PRes<TypeM>, id: usize) -> PRes<AstM> {
    match r {
        PRes::Done(dtype, s1) => match s1.head() {
            Next::Fail(e) => PRes::Fail(e),
            Next::Tok(t) if t.kind == TokenKind::Assign => {
                let s2 = s1.rest();
                match s2.head() {
                    Next::Fail(e) => PRes::Fail(e),
                    Next::Eof => PRes::Fail(eof_spec(ErrorKind::EofInInitializer)),
                    Next::Tok(t2) => {
                        let init = if t2.kind == TokenKind::LeftBrk {
                            p_array_initializer(s2.rest())
                        } else {
                            p_expr(s2, 0)
                        };
                        match init {
                            PRes::Done(v, s3) => PRes::Done(
                                AstM::VarDecl { name: id, dtype, init: Some(Box::new(v)) },
                                s3,
                            ),
                            PRes::Fail(e) => PRes::Fail(e),
                        }
                    },
                }
            },
            _ => PRes::Done(AstM::VarDecl { name: id, dtype, init: None }, s1),
        },
        PRes::Fail(e) => PRes::Fail(e),
    }
}

/// A variable declaration after `name :`: its type and an optional
/// initializer.
pub open spec fn p_var_decl_with_id(s: TokStream, id: usize) -> PRes<AstM> {
    p_init(p_var_decl_type(s), id)
}

/// The type of a parameter: as a variable's, except that the size of an
/// array may be left open, `array [] type`.
pub open spec fn p_param_type(s: TokStream) -> PRes<TypeM>
    decreases s.toks.len(),
{
    match s.head() {
        Next::Tok(t) => if t.kind == TokenKind::Array {
            match expect(s.rest(), TokenKind::LeftBrk) {
                PRes::Done(_, s2) => match s2.head() {
                    Next::Tok(t2) => {
                        let size: PRes<Option<usize>> = match t2.kind {
                            TokenKind::RightBrk => PRes::Done(None, s2.rest()),
                            TokenKind::IntLit(v) => match expect(s2.rest(), TokenKind::RightBrk) {
                                PRes::Done(_, s3) => PRes::Done(Some(v as usize), s3),
                                PRes::Fail(e) => PRes::Fail(e),
                            },
                            _ => PRes::Fail(fatal_tok_spec(ErrorKind::ExpectedArraySize, t2)),
                        };
                        match size {
                            PRes::Done(n, s3) => if shorter(s3, s) {
                                match p_param_type(s3) {
                                    PRes::Done(inner, s4) => PRes::Done(
                                        TypeM::Array { size: n, dtype: Box::new(inner) },
                                        s4,
                                    ),
                                    PRes::Fail(e) => PRes::Fail(e),
                                }
                            } else {
                                PRes::Fail(stuck())
                            },
                            PRes::Fail(e) => PRes::Fail(e),
                        }
                    },
                    Next::Eof => PRes::Fail(eof_spec(ErrorKind::EofExpectingArraySize)),
                    Next::Fail(e) => PRes::Fail(e),
                },
                PRes::Fail(e) => PRes::Fail(e),
            }
        } else {
            p_var_decl_type(s)
        },
        _ => p_var_decl_type(s),
    }
}

/// A parameter declaration: `name : type [= init]`, where an array's size
/// may be left open.  (An initializer is parsed, then refused by the
/// signature.)
pub open spec fn p_var_decl(s: TokStream) -> PRes<AstM> {
    match s.head() {
        Next::Tok(t) => match t.kind {
            TokenKind::Ident(id) => match expect(s.rest(), TokenKind::Colon) {
                PRes::Done(_, s2) => p_init(p_param_type(s2), id),
                PRes::Fail(e) => PRes::Fail(e),
            },
            _ => PRes::Fail(fatal_tok_spec(ErrorKind::ExpectedVarDecl, t)),
        },
        Next::Eof => PRes::Fail(eof_spec(ErrorKind::EofExpectingDeclaration)),
        Next::Fail(e) => PRes::Fail(e),
    }
}

/// The parameters of a signature, after `acc`, up to the `)`.
pub open spec fn p_param_loop(s: TokStream, acc: Seq<ParamM>) -> PRes<Seq<ParamM>>
    decreases s.toks.len(),
{
    match p_var_decl(s) {
        PRes::Done(AstM::VarDecl { name, dtype, init }, s2) => if init is Some {
            PRes::Fail(SyntaxError { kind: ErrorKind::InitializerInSignature, pos: None, found: None })
        } else {
            let acc2 = acc.push(ParamM { name, dtype });
            match s2.head() {
                Next::Tok(t) => if t.kind == TokenKind::Comma {
                    if shorter(s2.rest(), s) {
                        p_param_loop(s2.rest(), acc2)
                    } else {
                        PRes::Fail(stuck())
                    }
                } else if t.kind == TokenKind::RightParen {
                    PRes::Done(acc2, s2.rest())
                } else {
                    PRes::Fail(fatal_tok_spec(ErrorKind::ExpectedCommaOrParen, t))
                },
                Next::Eof => PRes::Fail(eof_spec(ErrorKind::EofInArguments)),
                Next::Fail(e) => PRes::Fail(e),
            }
        },
        PRes::Done(_, _) => PRes::Fail(stuck()),
        PRes::Fail(e) => PRes::Fail(e),
    }
}

/// A function signature after `function`: return type and parameters.
pub open spec fn p_func_sig(s: TokStream) -> PRes<TypeM> {
    match p_return_type(s) {
        PRes::Done(ret, s1) => match expect(s1, TokenKind::LeftParen) {
            PRes::Done(_, s2) => {
                let params: PRes<Seq<ParamM>> = match s2.head() {
                    Next::Fail(e) => PRes::Fail(e),
                    Next::Tok(t) if t.kind == TokenKind::RightParen => PRes::Done(
                        seq![],
                        s2.rest(),
                    ),
                    _ => p_param_loop(s2, seq![]),
                };
                match params {
                    PRes::Done(ps, s3) => PRes::Done(
                        TypeM::Function { dtype: Box::new(ret), params: ps },
                        s3,
                    ),
                    PRes::Fail(e) => PRes::Fail(e),
                }
            },
            PRes::Fail(e) => PRes::Fail(e),
        },
        PRes::Fail(e) => PRes::Fail(e),
    }
}

/// A top-level declaration, or `None` at the end of the input.
/// A function after `name : function`: its signature, then `;` for a
/// forward declaration or `=` and a body.
pub open spec fn p_function(s: TokStream, id: usize) -> PRes<AstM> {
    match p_func_sig(s) {
        PRes::Done(sig, s3) => match s3.head() {
            Next::Tok(t3) => if t3.kind == TokenKind::Semi {
                PRes::Done(AstM::ForwardFunction { name: id, signature: sig }, s3.rest())
            } else if t3.kind == TokenKind::Assign {
                match p_block(s3.rest()) {
                    PRes::Done(body, s4) => PRes::Done(
                        AstM::Function { name: id, signature: sig, body: Box::new(body) },
                        s4,
                    ),
                    PRes::Fail(e) => PRes::Fail(e),
                }
            } else {
                PRes::Fail(fatal_tok_spec(ErrorKind::ExpectedSemiOrAssign, t3))
            },
            Next::Eof => PRes::Fail(eof_spec(ErrorKind::EofInFunction)),
            Next::Fail(e) => PRes::Fail(e),
        },
        PRes::Fail(e) => PRes::Fail(e),
    }
}

/// A top-level declaration, or `None` at the end of the input.
pub open spec fn p_declaration(s: TokStream) -> PRes<Option<AstM>> {
    match s.head() {
        Next::Eof => PRes::Done(None, s),
        Next::Fail(e) => PRes::Fail(e),
        Next::Tok(t) => match t.kind {
            TokenKind::Ident(id) => match expect(s.rest(), TokenKind::Colon) {
                PRes::Done(_, s2) => match s2.head() {
                    Next::Tok(t2) => {
                        let d = if t2.kind == TokenKind::Function {
                            p_function(s2.rest(), id)
                        } else if is_type_kind(t2.kind) {
                            then_semi(p_var_decl_with_id(s2, id))
                        } else {
                            PRes::Fail(fatal_spec(ErrorKind::ExpectedFunctionOrType, t2.pos))
                        };
                        match d {
                            PRes::Done(d, s3) => PRes::Done(Some(d), s3),
                            PRes::Fail(e) => PRes::Fail(e),
                        }
                    },
                    Next::Eof => PRes::Fail(eof_spec(ErrorKind::EofInDeclaration)),
                    Next::Fail(e) => PRes::Fail(e),
                },
                PRes::Fail(e) => PRes::Fail(e),
            },
            _ => PRes::Fail(fatal_spec(ErrorKind::ExpectedIdentifier, t.pos)),
        },
    }
}

/// The declarations of a program, after `acc`, up to the end of the input.
pub open spec fn p_top(s: TokStream, acc: Seq<AstM>) -> PRes<Seq<AstM>>
    decreases s.toks.len(),
{
    match p_declaration(s) {
        PRes::Done(None, s2) => PRes::Done(acc, s2),
        PRes::Done(Some(d), s2) => if shorter(s2, s) {
            p_top(s2, acc.push(d))
        } else {
            PRes::Fail(stuck())
        },
        PRes::Fail(e) => PRes::Fail(e),
    }
}

/// The program that the tokens of `s` spell, or the first error.
pub open spec fn parse_program(s: TokStream) -> Result<Seq<AstM>, SyntaxError> {
    match p_top(s, seq![]) {
        PRes::Done(v, _) => Ok(v),
        PRes::Fail(e) => Err(e),
    }
}

// ---------------------------------------------------------------------------
// The parser
// ---------------------------------------------------------------------------

/// How tightly a token binds its operands; `unary` for a prefix operator.
pub fn binding_power(token: &Token, unary: bool) -> (r: u8)
    ensures
        r == bp(token.kind, unary),
{
    match token.kind {
        TokenKind::Assign => 10,
        TokenKind::And | TokenKind::Or => 20,
        TokenKind::Lss | TokenKind::Leq | TokenKind::Gtr | TokenKind::Geq | TokenKind::Eql
        | TokenKind::Neq => 30,
        TokenKind::Plus => 40,
        TokenKind::Minus => if unary {
            70
        } else {
            40
        },
        TokenKind::Star | TokenKind::Slash | TokenKind::Mod => 50,
        TokenKind::Caret => 60,
        TokenKind::Not => 70,
        TokenKind::Incr | TokenKind::Decr => 80,
        TokenKind::LeftBrk => 90,
        TokenKind::LeftParen => 90,
        _ => 0,
    }
}

/// The parser: reads tokens from a scanner and builds syntax trees, handing
/// out node identities as it goes.
pub struct Parser {
    scanner: Scanner,
    ids: NodeCounter,
}

impl Parser {
    pub closed spec fn wf(&self) -> bool {
        self.scanner.wf()
    }

    /// The identity the next node built will get.
    pub closed spec fn next_node_id(&self) -> usize {
        self.ids.next
    }

    /// The next node identity plus the tokens still to be read.  No parse
    /// makes it grow: each node a parse builds comes after a token it read.
    pub open spec fn budget(&self) -> int {
        self.next_node_id() + self.stream().toks.len()
    }

    /// The node identities cannot run out: there are at least as many left
    /// as tokens still to be read.
    pub open spec fn ids_suffice(&self) -> bool {
        self.budget() <= usize::MAX
    }

    /// The tokens still to be parsed.
    pub closed spec fn stream(&self) -> TokStream {
        self.scanner.stream()
    }

    /// The string table of the scanner.
    pub closed spec fn strings_view(&self) -> Seq<Seq<char>> {
        self.scanner.lex_state().strings
    }

    pub fn new(scanner: Scanner) -> (r: Self)
        requires
            scanner.wf(),
            scanner.stream().toks.len() <= usize::MAX,
        ensures
            r.wf(),
            r.stream() == scanner.stream(),
            r.strings_view() == scanner.lex_state().strings,
            r.next_node_id() == 0,
            r.ids_suffice(),
    {
        Parser { scanner, ids: NodeCounter::new() }
    }

    /// The string table, once parsing is over.
    pub fn into_strings(self) -> (r: Strings)
        ensures
            r@ == self.strings_view(),
    {
        self.scanner.into_strings()
    }

    /// Parses an expression whose operators bind more tightly than `min_bp`.
    pub fn parse_expression(&mut self, min_bp: u8) -> (r: Result<AstNode, SyntaxError>)
        requires
            old(self).wf(),
            old(self).ids_suffice(),
        ensures
            final(self).wf(),
            match p_expr(old(self).stream(), min_bp) {
                PRes::Done(v, s2) => r is Ok && r->Ok_0.model() == v && final(self).stream() == s2
                    && shorter(s2, old(self).stream()),
                PRes::Fail(e) => r == Err::<AstNode, SyntaxError>(e),
            },
            r is Ok ==> old(self).next_node_id() <= final(self).next_node_id(),
            r is Ok ==> final(self).budget() <= old(self).budget(),
            r matches Ok(n) ==> ids_fresh(node_ids(n), old(self).next_node_id() as int, final(self).next_node_id() as int),
        decreases old(self).stream().toks.len(), 0int,
    {
        let ghost s0 = self.stream();
        let ghost lo = self.ids.next;
        let t = match self.scanner.scan() {
            Ok(Some(t)) => t,
            Ok(None) => {
                return Err(fatal_eof(ErrorKind::EofExpectingExpression));
            },
            Err(e) => {
                return Err(e);
            },
        };
        let mut left_node = match self.null_denotation(t) {
            Ok(n) => n,
            Err(e) => {
                return Err(e);
            },
        };
        loop
            invariant
                self.wf(),
                s0 == old(self).stream(),
                shorter(self.stream(), s0),
                p_expr(s0, min_bp) == p_led(self.stream(), min_bp, left_node.model()),
                lo == old(self).next_node_id(),
                lo <= self.next_node_id(),
                self.budget() <= old(self).budget(),
                old(self).ids_suffice(),
                ids_fresh(node_ids(left_node), lo as int, self.next_node_id() as int),
            decreases self.stream().toks.len(),
        {
            let ghost s = self.stream();
            let next_tk = match self.scanner.peek() {
                Ok(Some(t)) => t,
                Ok(None) => {
                    return Ok(left_node);
                },
                Err(e) => {
                    return Err(e);
                },
            };
            if binding_power(&next_tk, false) <= min_bp {
                return Ok(left_node);
            }
            self.scanner.discard_token();
            let ghost left_m = left_node.model();
            let ghost gl = left_node;
            let ghost mid = self.ids.next;
            proof {
                crate::ast::lemma_expr_shape(left_node);
            }
            let result = match next_tk.kind {
                TokenKind::Plus | TokenKind::Minus | TokenKind::Star | TokenKind::Slash
                | TokenKind::Mod | TokenKind::Caret | TokenKind::And | TokenKind::Or
                | TokenKind::Eql | TokenKind::Neq | TokenKind::Lss | TokenKind::Leq
                | TokenKind::Gtr | TokenKind::Geq => {
                    let right = match self.parse_expression(binding_power(&next_tk, false)) {
                        Ok(n) => n,
                        Err(e) => {
                            return Err(e);
                        },
                    };
                    let ghost a = self.ids.next;
                    let ghost gr = right;
                    let n = AstNode::make_binary(next_tk, left_node, right, &mut self.ids);
                    proof {
                        crate::ast::lemma_ids_fresh_node2(a, node_ids(gl), node_ids(gr), lo as int, mid as int);
                    }
                    n
                },
                TokenKind::Incr | TokenKind::Decr => {
                    match left_node {
                        AstNode::Expr { kind: ExprKind::Ident(name), .. } => {
                            let ghost a = self.ids.next;
                            let n = AstNode::make_postfix(next_tk.kind, name, &mut self.ids);
                            proof {
                                crate::ast::lemma_ids_fresh_cons(a, Seq::<usize>::empty(), lo as int);
                                assert(seq![a] + Seq::<usize>::empty() =~= seq![a]);
                            }
                            n
                        },
                        _ => {
                            return Err(fatal_tok(ErrorKind::ExpectedIdentBeforePostfix, next_tk));
                        },
                    }
                },
                TokenKind::LeftBrk => {
                    let index = match self.parse_expression(0) {
                        Ok(n) => n,
                        Err(e) => {
                            return Err(e);
                        },
                    };
                    match self.scanner.must_be_kind(TokenKind::RightBrk) {
                        Ok(()) => {},
                        Err(e) => {
                            return Err(e);
                        },
                    }
                    match left_node {
                        AstNode::Expr { kind: ExprKind::Ident(_), .. }
                        | AstNode::Expr { kind: ExprKind::Subscript { .. }, .. } => {
                            let ghost a = self.ids.next;
                            let ghost gi = index;
                            let n = AstNode::make_subscript(left_node, index, &mut self.ids);
                            proof {
                                if gl->Expr_kind is Ident {
                                    crate::ast::lemma_ids_fresh_widen(node_ids(gi), mid as int, a as int, lo as int, a as int);
                                    crate::ast::lemma_ids_fresh_cons(a, node_ids(gi), lo as int);
                                } else {
                                    crate::ast::lemma_ids_fresh_concat(node_ids(gl), node_ids(gi), lo as int, mid as int, a as int);
                                }
                            }
                            n
                        },
                        _ => {
                            return Err(
                                fatal(ErrorKind::ExpectedIdentBeforeSubscript, next_tk.pos),
                            );
                        },
                    }
                },
                TokenKind::LeftParen => {
                    let AstNode::Expr { kind: ExprKind::Ident(name), .. } = left_node else {
                        return Err(fatal(ErrorKind::ExpectedIdentBeforeCall, next_tk.pos));
                    };
                    match self.parse_func_arguments(name) {
                        Ok(n) => {
                            proof {
                                crate::ast::lemma_ids_fresh_widen(node_ids(n), mid as int, self.ids.next as int, lo as int, self.ids.next as int);
                            }
                            n
                        },
                        Err(e) => {
                            return Err(e);
                        },
                    }
                },
                TokenKind::Assign => {
                    let AstNode::Expr { kind: ExprKind::Ident(name), .. } = left_node else {
                        return Err(fatal(ErrorKind::ExpectedIdentBeforeAssign, next_tk.pos));
                    };
                    let rvalue = match self.parse_expression(binding_power(&next_tk, false)) {
                        Ok(n) => n,
                        Err(e) => {
                            return Err(e);
                        },
                    };
                    let ghost a = self.ids.next;
                    let ghost gr = rvalue;
                    let n = AstNode::make_assignment(name, rvalue, &mut self.ids);
                    proof {
                        crate::ast::lemma_ids_fresh_widen(node_ids(gr), mid as int, a as int, lo as int, a as int);
                        crate::ast::lemma_ids_fresh_cons(a, node_ids(gr), lo as int);
                    }
                    n
                },
                _ => {
                    return Err(fatal_tok(ErrorKind::ExpectedOperator, next_tk));
                },
            };
            left_node = result;
        }
    }

    /// Parses what an expression starts with, the token `tok` being read
    /// already.
    pub fn null_denotation(&mut self, tok: Token) -> (r: Result<AstNode, SyntaxError>)
        requires
            old(self).wf(),
            old(self).budget() < usize::MAX,
        ensures
            final(self).wf(),
            match p_nud(old(self).stream(), tok) {
                PRes::Done(v, s2) => r is Ok && r->Ok_0.model() == v && final(self).stream() == s2
                    && s2.toks.len() <= old(self).stream().toks.len(),
                PRes::Fail(e) => r == Err::<AstNode, SyntaxError>(e),
            },
            r is Ok ==> old(self).next_node_id() <= final(self).next_node_id(),
            r is Ok ==> final(self).budget() <= old(self).budget() + 1,
            r matches Ok(n) ==> ids_fresh(node_ids(n), old(self).next_node_id() as int, final(self).next_node_id() as int),
        decreases old(self).stream().toks.len(), 1int,
    {
        match tok.kind {
            TokenKind::LeftParen => {
                let expr = match self.parse_expression(0) {
                    Ok(n) => n,
                    Err(e) => {
                        return Err(e);
                    },
                };
                match self.scanner.must_be_kind(TokenKind::RightParen) {
                    Ok(()) => Ok(expr),
                    Err(e) => Err(e),
                }
            },
            TokenKind::Not => {
                match self.parse_expression(binding_power(&tok, true)) {
                    Ok(n) => {
                        let ghost a = self.ids.next;
                        let ghost g = n;
                        let r = AstNode::make_not(n, &mut self.ids);
                        proof {
                            crate::ast::lemma_ids_fresh_cons(a, node_ids(g), old(self).next_node_id() as int);
                        }
                        Ok(r)
                    },
                    Err(e) => Err(e),
                }
            },
            TokenKind::Minus => {
                match self.parse_expression(binding_power(&tok, true)) {
                    Ok(n) => {
                        let ghost a = self.ids.next;
                        let ghost g = n;
                        let r = AstNode::make_minus(n, &mut self.ids);
                        proof {
                            crate::ast::lemma_ids_fresh_cons(a, node_ids(g), old(self).next_node_id() as int);
                        }
                        Ok(r)
                    },
                    Err(e) => Err(e),
                }
            },
            TokenKind::IntLit(_) | TokenKind::CharLit(_) | TokenKind::StringLit(_)
            | TokenKind::True | TokenKind::False => {
                let ghost a = self.ids.next;
                let r = AstNode::make_literal(tok, &mut self.ids);
                proof {
                    crate::ast::lemma_ids_fresh_cons(a, Seq::<usize>::empty(), a as int);
                    assert(seq![a] + Seq::<usize>::empty() =~= seq![a]);
                }
                Ok(r)
            },
            TokenKind::Ident(id) => {
                let ghost a = self.ids.next;
                let r = AstNode::make_ident_expr(id, &mut self.ids);
                proof {
                    crate::ast::lemma_ids_fresh_cons(a, Seq::<usize>::empty(), a as int);
                    assert(seq![a] + Seq::<usize>::empty() =~= seq![a]);
                }
                Ok(r)
            },
            _ => Err(fatal_tok(ErrorKind::ExpectedOperand, tok)),
        }
    }

    /// Parses the arguments of a call of `id`, after its opening parenthesis.
    pub fn parse_func_arguments(&mut self, id: usize) -> (r: Result<AstNode, SyntaxError>)
        requires
            old(self).wf(),
            old(self).ids_suffice(),
        ensures
            final(self).wf(),
            match p_func_args(old(self).stream(), id) {
                PRes::Done(v, s2) => r is Ok && r->Ok_0.model() == v && final(self).stream() == s2
                    && shorter(s2, old(self).stream()),
                PRes::Fail(e) => r == Err::<AstNode, SyntaxError>(e),
            },
            r is Ok ==> old(self).next_node_id() <= final(self).next_node_id(),
            r is Ok ==> final(self).budget() <= old(self).budget(),
            r matches Ok(n) ==> ids_fresh(node_ids(n), old(self).next_node_id() as int, final(self).next_node_id() as int),
        decreases old(self).stream().toks.len(), 2int,
    {
        let ghost s0 = self.stream();
        let mut args: Vec<AstNode> = Vec::new();
        match self.scanner.peek() {
            Ok(Some(Token { kind: TokenKind::RightParen, .. })) => {
                self.scanner.discard_token();
                let ghost a = self.ids.next;
                let ghost g_args = args;
                let r = AstNode::make_func_call(id, args, &mut self.ids);
                assert(nodes_model(args) =~= seq![]);
                proof {
                    assert(nodes_ids(g_args, 0) =~= Seq::<usize>::empty());
                    crate::ast::lemma_ids_fresh_cons(a, Seq::<usize>::empty(), a as int);
                    assert(seq![a] + Seq::<usize>::empty() =~= seq![a]);
                }
                return Ok(r);
            },
            Ok(_) => {},
            Err(e) => {
                return Err(e);
            },
        }
        assert(nodes_model(args) =~= seq![]);
        loop
            invariant
                old(self).next_node_id() <= self.next_node_id(),
                self.budget() <= old(self).budget(),
                old(self).ids_suffice(),
                ids_fresh(nodes_ids(args, args@.len() as int), old(self).next_node_id() as int, self.next_node_id() as int),
                self.wf(),
                s0 == old(self).stream(),
                self.stream().toks.len() <= s0.toks.len(),
                p_func_args(s0, id) == p_args_loop(self.stream(), id, nodes_model(args)),
            decreases self.stream().toks.len(),
        {
            let ghost mid = self.ids.next;
            let ghost s = self.stream();
            let a = match self.parse_expression(0) {
                Ok(n) => n,
                Err(e) => {
                    return Err(e);
                },
            };
            let ghost old_args = nodes_model(args);
            let ghost g_acc = args;
            let ghost g_el = a;
            args.push(a);
            proof {
                crate::ast::lemma_nodes_ids_push(g_acc, args, g_el);
                crate::ast::lemma_ids_fresh_concat(nodes_ids(g_acc, g_acc@.len() as int), node_ids(g_el), old(self).next_node_id() as int, mid as int, self.ids.next as int);
            }
            assert(nodes_model(args) =~= old_args.push(a.model()));
            match self.scanner.scan() {
                Ok(Some(Token { kind: TokenKind::Comma, .. })) => {},
                Ok(Some(Token { kind: TokenKind::RightParen, .. })) => {
                    let ghost a = self.ids.next;
                    let ghost g_args = args;
                    let r = AstNode::make_func_call(id, args, &mut self.ids);
                    proof {
                        crate::ast::lemma_ids_fresh_cons(
                            a,
                            nodes_ids(g_args, g_args@.len() as int),
                            old(self).next_node_id() as int,
                        );
                    }
                    return Ok(r);
                },
                Ok(Some(t)) => {
                    return Err(fatal_tok(ErrorKind::ExpectedCommaOrParen, t));
                },
                Ok(None) => {
                    return Err(fatal_eof(ErrorKind::EofInArguments));
                },
                Err(e) => {
                    return Err(e);
                },
            }
        }
    }
}


impl Parser {
    /// Parses a function's return type.
    pub fn parse_return_type(&mut self) -> (r: Result<Type, SyntaxError>)
        requires
            old(self).wf(),
        ensures
            final(self).wf(),
            match p_return_type(old(self).stream()) {
                PRes::Done(v, s2) => r is Ok && r->Ok_0.model() == v && final(self).stream() == s2
                    && shorter(s2, old(self).stream()),
                PRes::Fail(e) => r == Err::<Type, SyntaxError>(e),
            },
            final(self).next_node_id() == old(self).next_node_id(),
            r is Ok ==> final(self).budget() <= old(self).budget(),
    {
        match self.scanner.scan() {
            Ok(Some(t)) => match t.kind {
                TokenKind::Integer => Ok(Type::Scalar(PrimType::Int)),
                TokenKind::Char => Ok(Type::Scalar(PrimType::Char)),
                TokenKind::Bool => Ok(Type::Scalar(PrimType::Bool)),
                TokenKind::String => Ok(Type::Scalar(PrimType::String)),
                TokenKind::Void => Ok(Type::Scalar(PrimType::Void)),
                _ => Err(fatal_tok(ErrorKind::ExpectedReturnType, t)),
            },
            Ok(None) => Err(fatal_eof(ErrorKind::EofExpectingType)),
            Err(e) => Err(e),
        }
    }

    /// Parses a variable's type: `array [n]` prefixes and a scalar type.
    pub fn parse_var_decl_type(&mut self) -> (r: Result<Type, SyntaxError>)
        requires
            old(self).wf(),
        ensures
            final(self).wf(),
            match p_var_decl_type(old(self).stream()) {
                PRes::Done(v, s2) => r is Ok && r->Ok_0.model() == v && final(self).stream() == s2
                    && shorter(s2, old(self).stream()),
                PRes::Fail(e) => r == Err::<Type, SyntaxError>(e),
            },
            final(self).next_node_id() == old(self).next_node_id(),
            r is Ok ==> final(self).budget() <= old(self).budget(),
        decreases old(self).stream().toks.len(),
    {
        match self.scanner.scan() {
            Ok(Some(t)) => match t.kind {
                TokenKind::Array => {
                    match self.scanner.must_be_kind(TokenKind::LeftBrk) {
                        Ok(()) => {},
                        Err(e) => {
                            return Err(e);
                        },
                    }
                    let size: usize = match self.scanner.scan() {
                        Ok(Some(Token { kind: TokenKind::IntLit(val), .. })) => val as usize,
                        Ok(Some(t2)) => {
                            return Err(fatal_tok(ErrorKind::ExpectedArraySize, t2));
                        },
                        Ok(None) => {
                            return Err(fatal_eof(ErrorKind::EofExpectingArraySize));
                        },
                        Err(e) => {
                            return Err(e);
                        },
                    };
                    match self.scanner.must_be_kind(TokenKind::RightBrk) {
                        Ok(()) => {},
                        Err(e) => {
                            return Err(e);
                        },
                    }
                    match self.parse_var_decl_type() {
                        Ok(inner) => Ok(Type::make_array(size, inner)),
                        Err(e) => Err(e),
                    }
                },
                TokenKind::Integer => Ok(Type::Scalar(PrimType::Int)),
                TokenKind::Char => Ok(Type::Scalar(PrimType::Char)),
                TokenKind::Bool => Ok(Type::Scalar(PrimType::Bool)),
                TokenKind::String => Ok(Type::Scalar(PrimType::String)),
                _ => Err(fatal_tok(ErrorKind::ExpectedTypeDecl, t)),
            },
            Ok(None) => Err(fatal_eof(ErrorKind::EofExpectingType)),
            Err(e) => Err(e),
        }
    }

    /// Parses an expression that must be an assignment (in the head of a
    /// `for`).
    pub fn parse_assign(&mut self) -> (r: Result<AstNode, SyntaxError>)
        requires
            old(self).wf(),
            old(self).ids_suffice(),
        ensures
            final(self).wf(),
            match p_assign(old(self).stream()) {
                PRes::Done(v, s2) => r is Ok && r->Ok_0.model() == v && final(self).stream() == s2
                    && shorter(s2, old(self).stream()),
                PRes::Fail(e) => r == Err::<AstNode, SyntaxError>(e),
            },
            r is Ok ==> old(self).next_node_id() <= final(self).next_node_id(),
            r is Ok ==> final(self).budget() <= old(self).budget(),
            r matches Ok(n) ==> ids_fresh(node_ids(n), old(self).next_node_id() as int, final(self).next_node_id() as int),
    {
        let expr = match self.parse_expression(0) {
            Ok(n) => n,
            Err(e) => {
                return Err(e);
            },
        };
        proof {
            crate::ast::lemma_expr_shape(expr);
        }
        match expr {
            AstNode::Expr { kind: ExprKind::Assignment { .. }, .. } => Ok(expr),
            _ => Err(SyntaxError { kind: ErrorKind::ExpectedAssignment, pos: None, found: None }),
        }
    }

    /// Parses `print e1, ..., en;`.
    pub fn parse_print(&mut self) -> (r: Result<AstNode, SyntaxError>)
        requires
            old(self).wf(),
            old(self).ids_suffice(),
        ensures
            final(self).wf(),
            match p_print(old(self).stream()) {
                PRes::Done(v, s2) => r is Ok && r->Ok_0.model() == v && final(self).stream() == s2
                    && shorter(s2, old(self).stream()),
                PRes::Fail(e) => r == Err::<AstNode, SyntaxError>(e),
            },
            r is Ok ==> old(self).next_node_id() <= final(self).next_node_id(),
            r is Ok ==> final(self).budget() <= old(self).budget(),
            r matches Ok(n) ==> ids_fresh(node_ids(n), old(self).next_node_id() as int, final(self).next_node_id() as int),
    {
        let ghost s0 = self.stream();
        let mut exprs: Vec<AstNode> = Vec::new();
        match self.scanner.must_be_kind(TokenKind::Print) {
            Ok(()) => {},
            Err(e) => {
                return Err(e);
            },
        }
        let ghost s1 = self.stream();
        match self.scanner.maybe_kind(TokenKind::Semi, true) {
            Ok(true) => {
                assert(nodes_model(exprs) =~= seq![]);
                assert(nodes_ids(exprs, 0) =~= Seq::<usize>::empty());
                return Ok(AstNode::Print(exprs));
            },
            Ok(false) => {},
            Err(e) => {
                return Err(e);
            },
        }
        assert(nodes_model(exprs) =~= seq![]);
        loop
            invariant
                old(self).next_node_id() <= self.next_node_id(),
                self.budget() <= old(self).budget(),
                old(self).ids_suffice(),
                ids_fresh(nodes_ids(exprs, exprs@.len() as int), old(self).next_node_id() as int, self.next_node_id() as int),
                self.wf(),
                s0 == old(self).stream(),
                shorter(s1, s0),
                self.stream().toks.len() <= s1.toks.len(),
                p_print(s0) == (match p_print_loop(self.stream(), nodes_model(exprs)) {
                    PRes::Done(es, s2) => PRes::Done(AstM::Print(es), s2),
                    PRes::Fail(e) => PRes::Fail(e),
                }),
            decreases self.stream().toks.len(),
        {
            let ghost mid = self.ids.next;
            let a = match self.parse_expression(0) {
                Ok(n) => n,
                Err(e) => {
                    return Err(e);
                },
            };
            let ghost old_exprs = nodes_model(exprs);
            let ghost g_acc = exprs;
            let ghost g_el = a;
            exprs.push(a);
            proof {
                crate::ast::lemma_nodes_ids_push(g_acc, exprs, g_el);
                crate::ast::lemma_ids_fresh_concat(nodes_ids(g_acc, g_acc@.len() as int), node_ids(g_el), old(self).next_node_id() as int, mid as int, self.ids.next as int);
            }
            assert(nodes_model(exprs) =~= old_exprs.push(a.model()));
            match self.scanner.scan() {
                Ok(Some(Token { kind: TokenKind::Semi, .. })) => {
                    return Ok(AstNode::Print(exprs));
                },
                Ok(Some(Token { kind: TokenKind::Comma, .. })) => {},
                Ok(Some(t)) => {
                    return Err(fatal_tok(ErrorKind::ExpectedCommaOrSemi, t));
                },
                Ok(None) => {
                    return Err(fatal_eof(ErrorKind::EofInPrint));
                },
                Err(e) => {
                    return Err(e);
                },
            }
        }
    }
}


impl Parser {
    /// Parses `return;` or `return e;`.
    pub fn parse_return(&mut self) -> (r: Result<AstNode, SyntaxError>)
        requires
            old(self).wf(),
            old(self).ids_suffice(),
        ensures
            final(self).wf(),
            match p_return(old(self).stream()) {
                PRes::Done(v, s2) => r is Ok && r->Ok_0.model() == v && final(self).stream() == s2
                    && shorter(s2, old(self).stream()),
                PRes::Fail(e) => r == Err::<AstNode, SyntaxError>(e),
            },
            r is Ok ==> old(self).next_node_id() <= final(self).next_node_id(),
            r is Ok ==> final(self).budget() <= old(self).budget(),
            r matches Ok(n) ==> ids_fresh(node_ids(n), old(self).next_node_id() as int, final(self).next_node_id() as int),
    {
        match self.scanner.must_be_kind(TokenKind::Return) {
            Ok(()) => {},
            Err(e) => {
                return Err(e);
            },
        }
        match self.scanner.maybe_kind(TokenKind::Semi, true) {
            Ok(true) => {
                return Ok(AstNode::VoidReturn);
            },
            Ok(false) => {},
            Err(e) => {
                return Err(e);
            },
        }
        let e = match self.parse_expression(0) {
            Ok(n) => n,
            Err(e) => {
                return Err(e);
            },
        };
        let ret = AstNode::make_return(e);
        match self.scanner.must_be_kind(TokenKind::Semi) {
            Ok(()) => Ok(ret),
            Err(e) => Err(e),
        }
    }

    /// The assignments that start a `for`, up to the `;`.
    fn parse_for_init(&mut self) -> (r: Result<Vec<AstNode>, SyntaxError>)
        requires
            old(self).wf(),
            old(self).ids_suffice(),
        ensures
            final(self).wf(),
            match p_for_init(old(self).stream(), seq![]) {
                PRes::Done(v, s2) => r is Ok && nodes_model(r->Ok_0) == v && final(self).stream()
                    == s2 && shorter(s2, old(self).stream()),
                PRes::Fail(e) => r == Err::<Vec<AstNode>, SyntaxError>(e),
            },
            r is Ok ==> old(self).next_node_id() <= final(self).next_node_id(),
            r is Ok ==> final(self).budget() <= old(self).budget(),
            r matches Ok(v) ==> ids_fresh(nodes_ids(v, v@.len() as int), old(self).next_node_id() as int, final(self).next_node_id() as int),
    {
        let ghost s0 = self.stream();
        let mut init: Vec<AstNode> = Vec::new();
        assert(nodes_model(init) =~= seq![]);
        loop
            invariant
                old(self).next_node_id() <= self.next_node_id(),
                self.budget() <= old(self).budget(),
                old(self).ids_suffice(),
                ids_fresh(nodes_ids(init, init@.len() as int), old(self).next_node_id() as int, self.next_node_id() as int),
                self.wf(),
                s0 == old(self).stream(),
                self.stream().toks.len() <= s0.toks.len(),
                p_for_init(s0, seq![]) == p_for_init(self.stream(), nodes_model(init)),
            decreases self.stream().toks.len(),
        {
            let ghost mid = self.ids.next;
            let a = match self.parse_assign() {
                Ok(n) => n,
                Err(e) => {
                    return Err(e);
                },
            };
            let ghost old_init = nodes_model(init);
            let ghost g_acc = init;
            let ghost g_el = a;
            init.push(a);
            proof {
                crate::ast::lemma_nodes_ids_push(g_acc, init, g_el);
                crate::ast::lemma_ids_fresh_concat(nodes_ids(g_acc, g_acc@.len() as int), node_ids(g_el), old(self).next_node_id() as int, mid as int, self.ids.next as int);
            }
            assert(nodes_model(init) =~= old_init.push(a.model()));
            match self.scanner.scan() {
                Ok(Some(Token { kind: TokenKind::Semi, .. })) => {
                    return Ok(init);
                },
                Ok(Some(Token { kind: TokenKind::Comma, .. })) => {},
                Ok(Some(t)) => {
                    return Err(fatal_tok(ErrorKind::ExpectedCommaOrSemi, t));
                },
                Ok(None) => {
                    return Err(fatal_eof(ErrorKind::EofInForInit));
                },
                Err(e) => {
                    return Err(e);
                },
            }
        }
    }

    /// The expressions that end the head of a `for`, up to the `)`.
    fn parse_for_post(&mut self) -> (r: Result<Vec<AstNode>, SyntaxError>)
        requires
            old(self).wf(),
            old(self).ids_suffice(),
        ensures
            final(self).wf(),
            match p_for_post(old(self).stream(), seq![]) {
                PRes::Done(v, s2) => r is Ok && nodes_model(r->Ok_0) == v && final(self).stream()
                    == s2 && shorter(s2, old(self).stream()),
                PRes::Fail(e) => r == Err::<Vec<AstNode>, SyntaxError>(e),
            },
            r is Ok ==> old(self).next_node_id() <= final(self).next_node_id(),
            r is Ok ==> final(self).budget() <= old(self).budget(),
            r matches Ok(v) ==> ids_fresh(nodes_ids(v, v@.len() as int), old(self).next_node_id() as int, final(self).next_node_id() as int),
    {
        let ghost s0 = self.stream();
        let mut post: Vec<AstNode> = Vec::new();
        assert(nodes_model(post) =~= seq![]);
        loop
            invariant
                old(self).next_node_id() <= self.next_node_id(),
                self.budget() <= old(self).budget(),
                old(self).ids_suffice(),
                ids_fresh(nodes_ids(post, post@.len() as int), old(self).next_node_id() as int, self.next_node_id() as int),
                self.wf(),
                s0 == old(self).stream(),
                self.stream().toks.len() <= s0.toks.len(),
                p_for_post(s0, seq![]) == p_for_post(self.stream(), nodes_model(post)),
            decreases self.stream().toks.len(),
        {
            let ghost mid = self.ids.next;
            let a = match self.parse_expression(0) {
                Ok(n) => n,
                Err(e) => {
                    return Err(e);
                },
            };
            let ghost old_post = nodes_model(post);
            let ghost g_acc = post;
            let ghost g_el = a;
            post.push(a);
            proof {
                crate::ast::lemma_nodes_ids_push(g_acc, post, g_el);
                crate::ast::lemma_ids_fresh_concat(nodes_ids(g_acc, g_acc@.len() as int), node_ids(g_el), old(self).next_node_id() as int, mid as int, self.ids.next as int);
            }
            assert(nodes_model(post) =~= old_post.push(a.model()));
            match self.scanner.scan() {
                Ok(Some(Token { kind: TokenKind::RightParen, .. })) => {
                    return Ok(post);
                },
                Ok(Some(Token { kind: TokenKind::Comma, .. })) => {},
                Ok(Some(t)) => {
                    return Err(fatal_tok(ErrorKind::ExpectedCommaOrParen, t));
                },
                Ok(None) => {
                    return Err(fatal_eof(ErrorKind::EofInForPost));
                },
                Err(e) => {
                    return Err(e);
                },
            }
        }
    }

    /// Parses an array initializer, after its `[`.
    pub fn parse_array_initializer(&mut self) -> (r: Result<AstNode, SyntaxError>)
        requires
            old(self).wf(),
            old(self).ids_suffice(),
        ensures
            final(self).wf(),
            match p_array_initializer(old(self).stream()) {
                PRes::Done(v, s2) => r is Ok && r->Ok_0.model() == v && final(self).stream() == s2
                    && shorter(s2, old(self).stream()),
                PRes::Fail(e) => r == Err::<AstNode, SyntaxError>(e),
            },
            r is Ok ==> old(self).next_node_id() <= final(self).next_node_id(),
            r is Ok ==> final(self).budget() <= old(self).budget(),
            r matches Ok(n) ==> ids_fresh(node_ids(n), old(self).next_node_id() as int, final(self).next_node_id() as int),
        decreases old(self).stream().toks.len(),
    {
        let ghost s0 = self.stream();
        let mut args: Vec<AstNode> = Vec::new();
        assert(nodes_model(args) =~= seq![]);
        loop
            invariant
                old(self).next_node_id() <= self.next_node_id(),
                self.budget() <= old(self).budget(),
                old(self).ids_suffice(),
                ids_fresh(nodes_ids(args, args@.len() as int), old(self).next_node_id() as int, self.next_node_id() as int),
                self.wf(),
                s0 == old(self).stream(),
                self.stream().toks.len() <= s0.toks.len(),
                p_array_initializer(s0) == p_array_loop(self.stream(), nodes_model(args)),
            decreases self.stream().toks.len(),
        {
            let ghost mid = self.ids.next;
            let a = match self.scanner.maybe_kind(TokenKind::LeftBrk, true) {
                Ok(true) => match self.parse_array_initializer() {
                    Ok(n) => n,
                    Err(e) => {
                        return Err(e);
                    },
                },
                Ok(false) => match self.parse_expression(0) {
                    Ok(n) => n,
                    Err(e) => {
                        return Err(e);
                    },
                },
                Err(e) => {
                    return Err(e);
                },
            };
            let ghost old_args = nodes_model(args);
            let ghost g_acc = args;
            let ghost g_el = a;
            args.push(a);
            proof {
                crate::ast::lemma_nodes_ids_push(g_acc, args, g_el);
                crate::ast::lemma_ids_fresh_concat(nodes_ids(g_acc, g_acc@.len() as int), node_ids(g_el), old(self).next_node_id() as int, mid as int, self.ids.next as int);
            }
            assert(nodes_model(args) =~= old_args.push(a.model()));
            match self.scanner.scan() {
                Ok(Some(Token { kind: TokenKind::Comma, .. })) => {},
                Ok(Some(Token { kind: TokenKind::RightBrk, .. })) => {
                    return Ok(AstNode::ArrayInitializer(args));
                },
                Ok(Some(t)) => {
                    return Err(fatal_tok(ErrorKind::ExpectedCommaOrBracket, t));
                },
                Ok(None) => {
                    return Err(fatal_eof(ErrorKind::EofInArrayInitializer));
                },
                Err(e) => {
                    return Err(e);
                },
            }
        }
    }

    /// Parses the rest of a declaration of `ident` whose type `dtype` has
    /// been read: an optional initializer.
    fn parse_initializer(&mut self, ident: usize, dtype: Type) -> (r: Result<AstNode, SyntaxError>)
        requires
            old(self).wf(),
            old(self).budget() < usize::MAX,
        ensures
            final(self).wf(),
            match p_init(PRes::Done(dtype.model(), old(self).stream()), ident) {
                PRes::Done(v, s2) => r is Ok && r->Ok_0.model() == v && final(self).stream() == s2
                    && s2.toks.len() <= old(self).stream().toks.len(),
                PRes::Fail(e) => r == Err::<AstNode, SyntaxError>(e),
            },
            r is Ok ==> old(self).next_node_id() <= final(self).next_node_id(),
            r is Ok ==> final(self).budget() <= old(self).budget() + 1,
            r matches Ok(n) ==> ids_fresh(node_ids(n), old(self).next_node_id() as int, final(self).next_node_id() as int),
    {
        let init = match self.scanner.peek() {
            Ok(Some(Token { kind: TokenKind::Assign, .. })) => {
                self.scanner.discard_token();
                match self.scanner.maybe_kind(TokenKind::LeftBrk, true) {
                    Ok(true) => match self.parse_array_initializer() {
                        Ok(n) => Some(n),
                        Err(e) => {
                            return Err(e);
                        },
                    },
                    Ok(false) => {
                        match self.scanner.peek() {
                            Ok(Some(_)) => {},
                            Ok(None) => {
                                return Err(fatal_eof(ErrorKind::EofInInitializer));
                            },
                            Err(e) => {
                                return Err(e);
                            },
                        }
                        match self.parse_expression(0) {
                            Ok(n) => Some(n),
                            Err(e) => {
                                return Err(e);
                            },
                        }
                    },
                    Err(e) => {
                        return Err(e);
                    },
                }
            },
            Ok(_) => None,
            Err(e) => {
                return Err(e);
            },
        };
        let ghost a = self.ids.next;
        let ghost g_init = init;
        let r = AstNode::make_var_decl(ident, dtype, init, &mut self.ids);
        proof {
            match g_init {
                Some(n) => crate::ast::lemma_ids_fresh_cons(a, node_ids(n), old(self).next_node_id() as int),
                None => {
                    crate::ast::lemma_ids_fresh_cons(a, Seq::<usize>::empty(), old(self).next_node_id() as int);
                },
            }
            assert(seq![a] + Seq::<usize>::empty() =~= seq![a]);
        }
        Ok(r)
    }

    /// Parses a variable declaration after `name :`: its type and an
    /// optional initializer.
    pub fn parse_var_decl_with_id(&mut self, ident: usize) -> (r: Result<AstNode, SyntaxError>)
        requires
            old(self).wf(),
            old(self).ids_suffice(),
        ensures
            final(self).wf(),
            match p_var_decl_with_id(old(self).stream(), ident) {
                PRes::Done(v, s2) => r is Ok && r->Ok_0.model() == v && final(self).stream() == s2
                    && shorter(s2, old(self).stream()),
                PRes::Fail(e) => r == Err::<AstNode, SyntaxError>(e),
            },
            r is Ok ==> old(self).next_node_id() <= final(self).next_node_id(),
            r is Ok ==> final(self).budget() <= old(self).budget(),
            r matches Ok(n) ==> ids_fresh(node_ids(n), old(self).next_node_id() as int, final(self).next_node_id() as int),
    {
        let dtype = match self.parse_var_decl_type() {
            Ok(t) => t,
            Err(e) => {
                return Err(e);
            },
        };
        self.parse_initializer(ident, dtype)
    }

    /// Parses the type of a parameter: as a variable's type, except that an
    /// array's size may be left open, `array [] type`.
    pub fn parse_param_type(&mut self) -> (r: Result<Type, SyntaxError>)
        requires
            old(self).wf(),
        ensures
            final(self).wf(),
            match p_param_type(old(self).stream()) {
                PRes::Done(v, s2) => r is Ok && r->Ok_0.model() == v && final(self).stream() == s2
                    && shorter(s2, old(self).stream()),
                PRes::Fail(e) => r == Err::<Type, SyntaxError>(e),
            },
            final(self).next_node_id() == old(self).next_node_id(),
            r is Ok ==> final(self).budget() <= old(self).budget(),
        decreases old(self).stream().toks.len(),
    {
        let ghost s0 = self.stream();
        let is_array = match self.scanner.maybe_kind(TokenKind::Array, true) {
            Ok(b) => b,
            Err(e) => {
                return Err(e);
            },
        };
        if !is_array {
            return self.parse_var_decl_type();
        }
        match self.scanner.must_be_kind(TokenKind::LeftBrk) {
            Ok(()) => {},
            Err(e) => {
                return Err(e);
            },
        }
        let size: Option<usize> = match self.scanner.scan() {
            Ok(Some(Token { kind: TokenKind::RightBrk, .. })) => None,
            Ok(Some(Token { kind: TokenKind::IntLit(val), .. })) => {
                match self.scanner.must_be_kind(TokenKind::RightBrk) {
                    Ok(()) => {},
                    Err(e) => {
                        return Err(e);
                    },
                }
                Some(val as usize)
            },
            Ok(Some(t2)) => {
                return Err(fatal_tok(ErrorKind::ExpectedArraySize, t2));
            },
            Ok(None) => {
                return Err(fatal_eof(ErrorKind::EofExpectingArraySize));
            },
            Err(e) => {
                return Err(e);
            },
        };
        let inner = match self.parse_param_type() {
            Ok(t) => t,
            Err(e) => {
                return Err(e);
            },
        };
        match size {
            Some(n) => Ok(Type::make_array(n, inner)),
            None => Ok(Type::make_open_array(inner)),
        }
    }

    /// Parses a parameter declaration: `name : type [= init]`, where an
    /// array's size may be left open.
    pub fn parse_var_decl(&mut self) -> (r: Result<AstNode, SyntaxError>)
        requires
            old(self).wf(),
            old(self).ids_suffice(),
        ensures
            final(self).wf(),
            match p_var_decl(old(self).stream()) {
                PRes::Done(v, s2) => r is Ok && r->Ok_0.model() == v && final(self).stream() == s2
                    && shorter(s2, old(self).stream()),
                PRes::Fail(e) => r == Err::<AstNode, SyntaxError>(e),
            },
            r is Ok ==> old(self).next_node_id() <= final(self).next_node_id(),
            r is Ok ==> final(self).budget() <= old(self).budget(),
            r matches Ok(n) ==> ids_fresh(node_ids(n), old(self).next_node_id() as int, final(self).next_node_id() as int),
    {
        let id = match self.scanner.scan() {
            Ok(Some(Token { kind: TokenKind::Ident(id), .. })) => id,
            Ok(Some(t)) => {
                return Err(fatal_tok(ErrorKind::ExpectedVarDecl, t));
            },
            Ok(None) => {
                return Err(fatal_eof(ErrorKind::EofExpectingDeclaration));
            },
            Err(e) => {
                return Err(e);
            },
        };
        match self.scanner.must_be_kind(TokenKind::Colon) {
            Ok(()) => {},
            Err(e) => {
                return Err(e);
            },
        }
        let dtype = match self.parse_param_type() {
            Ok(t) => t,
            Err(e) => {
                return Err(e);
            },
        };
        self.parse_initializer(id, dtype)
    }

    /// Parses a function signature after `function`: the return type and the
    /// parameters.
    pub fn parse_function_signature(&mut self) -> (r: Result<Type, SyntaxError>)
        requires
            old(self).wf(),
            old(self).ids_suffice(),
        ensures
            final(self).wf(),
            match p_func_sig(old(self).stream()) {
                PRes::Done(v, s2) => r is Ok && r->Ok_0.model() == v && final(self).stream() == s2
                    && shorter(s2, old(self).stream()),
                PRes::Fail(e) => r == Err::<Type, SyntaxError>(e),
            },
            r is Ok ==> old(self).next_node_id() <= final(self).next_node_id(),
            r is Ok ==> final(self).budget() <= old(self).budget(),
    {
        let ghost s0 = self.stream();
        let ret_type = match self.parse_return_type() {
            Ok(t) => t,
            Err(e) => {
                return Err(e);
            },
        };
        let mut params: Vec<Param> = Vec::new();
        match self.scanner.must_be_kind(TokenKind::LeftParen) {
            Ok(()) => {},
            Err(e) => {
                return Err(e);
            },
        }
        let ghost s2 = self.stream();
        assert(params_model(params@) =~= seq![]);
        match self.scanner.peek() {
            Ok(Some(Token { kind: TokenKind::RightParen, .. })) => {
                self.scanner.discard_token();
                return Ok(Type::make_signature(ret_type, params));
            },
            Ok(_) => {},
            Err(e) => {
                return Err(e);
            },
        }
        loop
            invariant
                old(self).next_node_id() <= self.next_node_id(),
                self.budget() <= old(self).budget(),
                old(self).ids_suffice(),
                self.wf(),
                s0 == old(self).stream(),
                shorter(s2, s0),
                self.stream().toks.len() <= s2.toks.len(),
                p_func_sig(s0) == (match p_param_loop(self.stream(), params_model(params@)) {
                    PRes::Done(ps, s3) => PRes::Done(
                        TypeM::Function { dtype: Box::new(ret_type.model()), params: ps },
                        s3,
                    ),
                    PRes::Fail(e) => PRes::Fail(e),
                }),
            decreases self.stream().toks.len(),
        {
            let decl = match self.parse_var_decl() {
                Ok(d) => d,
                Err(e) => {
                    return Err(e);
                },
            };
            match decl {
                AstNode::VarDecl { name, dtype, init, .. } => {
                    if init.is_some() {
                        return Err(
                            SyntaxError {
                                kind: ErrorKind::InitializerInSignature,
                                pos: None,
                                found: None,
                            },
                        );
                    }
                    let ghost old_params = params_model(params@);
                    params.push(Param { name, dtype });
                    assert(params_model(params@) =~= old_params.push(
                        ParamM { name, dtype: dtype.model() },
                    ));
                },
                _ => {
                    return vstd::pervasive::unreached();
                },
            }
            match self.scanner.scan() {
                Ok(Some(Token { kind: TokenKind::Comma, .. })) => {},
                Ok(Some(Token { kind: TokenKind::RightParen, .. })) => {
                    return Ok(Type::make_signature(ret_type, params));
                },
                Ok(Some(t)) => {
                    return Err(fatal_tok(ErrorKind::ExpectedCommaOrParen, t));
                },
                Ok(None) => {
                    return Err(fatal_eof(ErrorKind::EofInArguments));
                },
                Err(e) => {
                    return Err(e);
                },
            }
        }
    }
}


impl Parser {
    /// Parses `if (cond) block [else block]`.
    pub fn parse_if(&mut self) -> (r: Result<AstNode, SyntaxError>)
        requires
            old(self).wf(),
            old(self).ids_suffice(),
        ensures
            final(self).wf(),
            match p_if(old(self).stream()) {
                PRes::Done(v, s2) => r is Ok && r->Ok_0.model() == v && final(self).stream() == s2
                    && shorter(s2, old(self).stream()),
                PRes::Fail(e) => r == Err::<AstNode, SyntaxError>(e),
            },
            r is Ok ==> old(self).next_node_id() <= final(self).next_node_id(),
            r is Ok ==> final(self).budget() <= old(self).budget(),
            r matches Ok(n) ==> ids_fresh(node_ids(n), old(self).next_node_id() as int, final(self).next_node_id() as int),
        decreases old(self).stream().toks.len(), 2int,
    {
        match self.scanner.must_be_kind(TokenKind::If) {
            Ok(()) => {},
            Err(e) => {
                return Err(e);
            },
        }
        match self.scanner.must_be_kind(TokenKind::LeftParen) {
            Ok(()) => {},
            Err(e) => {
                return Err(e);
            },
        }
        let cond = match self.parse_expression(0) {
            Ok(n) => n,
            Err(e) => {
                return Err(e);
            },
        };
        match self.scanner.must_be_kind(TokenKind::RightParen) {
            Ok(()) => {},
            Err(e) => {
                return Err(e);
            },
        }
        let ghost m2 = self.ids.next;
        let true_body = match self.parse_block() {
            Ok(n) => n,
            Err(e) => {
                return Err(e);
            },
        };
        let ghost m3 = self.ids.next;
        let false_body = match self.scanner.peek() {
            Ok(Some(Token { kind: TokenKind::Else, .. })) => {
                self.scanner.discard_token();
                match self.parse_block() {
                    Ok(n) => n,
                    Err(e) => {
                        return Err(e);
                    },
                }
            },
            Ok(_) => AstNode::EmptyBlock,
            Err(e) => {
                return Err(e);
            },
        };
        proof {
            crate::ast::lemma_ids_fresh_concat(node_ids(cond), node_ids(true_body), old(self).next_node_id() as int, m2 as int, m3 as int);
            crate::ast::lemma_ids_fresh_concat(node_ids(cond) + node_ids(true_body), node_ids(false_body), old(self).next_node_id() as int, m3 as int, self.ids.next as int);
        }
        Ok(AstNode::make_if(cond, true_body, false_body))
    }

    /// Parses `for (init; cond; post) block`.
    pub fn parse_for(&mut self) -> (r: Result<AstNode, SyntaxError>)
        requires
            old(self).wf(),
            old(self).ids_suffice(),
        ensures
            final(self).wf(),
            match p_for(old(self).stream()) {
                PRes::Done(v, s2) => r is Ok && r->Ok_0.model() == v && final(self).stream() == s2
                    && shorter(s2, old(self).stream()),
                PRes::Fail(e) => r == Err::<AstNode, SyntaxError>(e),
            },
            r is Ok ==> old(self).next_node_id() <= final(self).next_node_id(),
            r is Ok ==> final(self).budget() <= old(self).budget(),
            r matches Ok(n) ==> ids_fresh(node_ids(n), old(self).next_node_id() as int, final(self).next_node_id() as int),
        decreases old(self).stream().toks.len(), 2int,
    {
        match self.scanner.must_be_kind(TokenKind::For) {
            Ok(()) => {},
            Err(e) => {
                return Err(e);
            },
        }
        match self.scanner.must_be_kind(TokenKind::LeftParen) {
            Ok(()) => {},
            Err(e) => {
                return Err(e);
            },
        }
        let init = match self.scanner.maybe_kind(TokenKind::Semi, true) {
            Ok(true) => {
                let v: Vec<AstNode> = Vec::new();
                assert(nodes_model(v) =~= seq![]);
                assert(nodes_ids(v, 0) =~= Seq::<usize>::empty());
                v
            },
            Ok(false) => match self.parse_for_init() {
                Ok(v) => v,
                Err(e) => {
                    return Err(e);
                },
            },
            Err(e) => {
                return Err(e);
            },
        };
        let ghost m2 = self.ids.next;
        let cond = match self.parse_expression(0) {
            Ok(n) => n,
            Err(e) => {
                return Err(e);
            },
        };
        match self.scanner.must_be_kind(TokenKind::Semi) {
            Ok(()) => {},
            Err(e) => {
                return Err(e);
            },
        }
        let ghost m3 = self.ids.next;
        let post = match self.scanner.maybe_kind(TokenKind::RightParen, true) {
            Ok(true) => {
                let v: Vec<AstNode> = Vec::new();
                assert(nodes_model(v) =~= seq![]);
                assert(nodes_ids(v, 0) =~= Seq::<usize>::empty());
                v
            },
            Ok(false) => match self.parse_for_post() {
                Ok(v) => v,
                Err(e) => {
                    return Err(e);
                },
            },
            Err(e) => {
                return Err(e);
            },
        };
        let ghost m4 = self.ids.next;
        let body = match self.parse_block() {
            Ok(n) => n,
            Err(e) => {
                return Err(e);
            },
        };
        proof {
            let lo = old(self).next_node_id() as int;
            let ia = nodes_ids(init, init@.len() as int);
            let pa = nodes_ids(post, post@.len() as int);
            crate::ast::lemma_ids_fresh_concat(ia, node_ids(cond), lo, m2 as int, m3 as int);
            crate::ast::lemma_ids_fresh_concat(ia + node_ids(cond), pa, lo, m3 as int, m4 as int);
            crate::ast::lemma_ids_fresh_concat(ia + node_ids(cond) + pa, node_ids(body), lo, m4 as int, self.ids.next as int);
        }
        Ok(AstNode::make_for(init, cond, post, body))
    }

    /// Parses a block: `{`, statements and declarations, `}`.
    pub fn parse_block(&mut self) -> (r: Result<AstNode, SyntaxError>)
        requires
            old(self).wf(),
            old(self).ids_suffice(),
        ensures
            final(self).wf(),
            match p_block(old(self).stream()) {
                PRes::Done(v, s2) => r is Ok && r->Ok_0.model() == v && final(self).stream() == s2
                    && shorter(s2, old(self).stream()),
                PRes::Fail(e) => r == Err::<AstNode, SyntaxError>(e),
            },
            r is Ok ==> old(self).next_node_id() <= final(self).next_node_id(),
            r is Ok ==> final(self).budget() <= old(self).budget(),
            r matches Ok(n) ==> ids_fresh(node_ids(n), old(self).next_node_id() as int, final(self).next_node_id() as int),
        decreases old(self).stream().toks.len(), 2int,
    {
        let ghost s0 = self.stream();
        match self.scanner.must_be_kind(TokenKind::LeftAngl) {
            Ok(()) => {},
            Err(e) => {
                return Err(e);
            },
        }
        let mut statements: Vec<AstNode> = Vec::new();
        assert(nodes_model(statements) =~= seq![]);
        loop
            invariant
                old(self).next_node_id() <= self.next_node_id(),
                self.budget() <= old(self).budget(),
                old(self).ids_suffice(),
                ids_fresh(nodes_ids(statements, statements@.len() as int), old(self).next_node_id() as int, self.next_node_id() as int),
                self.wf(),
                s0 == old(self).stream(),
                shorter(self.stream(), s0),
                p_block(s0) == p_block_loop(self.stream(), nodes_model(statements)),
            decreases self.stream().toks.len(),
        {
            let ghost mid = self.ids.next;
            match self.scanner.peek() {
                Ok(Some(Token { kind: TokenKind::RightAngl, .. })) => {
                    self.scanner.discard_token();
                    if statements.len() == 0 {
                        return Ok(AstNode::EmptyBlock);
                    } else {
                        return Ok(AstNode::Block(statements));
                    }
                },
                Ok(Some(_)) => {},
                Ok(None) => {
                    return Err(fatal_eof(ErrorKind::EofExpectingStatement));
                },
                Err(e) => {
                    return Err(e);
                },
            }
            let statement = match self.parse_statement() {
                Ok(n) => n,
                Err(e) => {
                    return Err(e);
                },
            };
            let ghost old_statements = nodes_model(statements);
            let ghost g_acc = statements;
            let ghost g_el = statement;
            statements.push(statement);
            proof {
                crate::ast::lemma_nodes_ids_push(g_acc, statements, g_el);
                crate::ast::lemma_ids_fresh_concat(nodes_ids(g_acc, g_acc@.len() as int), node_ids(g_el), old(self).next_node_id() as int, mid as int, self.ids.next as int);
            }
            assert(nodes_model(statements) =~= old_statements.push(statement.model()));
        }
    }

    /// Parses one statement or declaration of a block.
    fn parse_statement(&mut self) -> (r: Result<AstNode, SyntaxError>)
        requires
            old(self).wf(),
            old(self).ids_suffice(),
        ensures
            final(self).wf(),
            match p_statement(old(self).stream()) {
                PRes::Done(v, s2) => r is Ok && r->Ok_0.model() == v && final(self).stream() == s2
                    && shorter(s2, old(self).stream()),
                PRes::Fail(e) => r == Err::<AstNode, SyntaxError>(e),
            },
            r is Ok ==> old(self).next_node_id() <= final(self).next_node_id(),
            r is Ok ==> final(self).budget() <= old(self).budget(),
            r matches Ok(n) ==> ids_fresh(node_ids(n), old(self).next_node_id() as int, final(self).next_node_id() as int),
        decreases old(self).stream().toks.len(), 3int,
    {
        let ghost s0 = self.stream();
        let peek = match self.scanner.peek() {
            Ok(Some(t)) => t,
            Ok(None) => {
                return Err(fatal_eof(ErrorKind::EofExpectingStatement));
            },
            Err(e) => {
                return Err(e);
            },
        };
        match peek.kind {
            TokenKind::LeftAngl => self.parse_block(),
            TokenKind::Ident(id) => {
                let leader = self.scanner.consume_token();
                match self.scanner.scan() {
                    Ok(Some(Token { kind: TokenKind::Colon, .. })) => {
                        let decl = match self.parse_var_decl_with_id(id) {
                            Ok(n) => n,
                            Err(e) => {
                                return Err(e);
                            },
                        };
                        match self.scanner.must_be_kind(TokenKind::Semi) {
                            Ok(()) => Ok(decl),
                            Err(e) => Err(e),
                        }
                    },
                    Ok(Some(Token { kind: TokenKind::LeftParen, .. })) => {
                        let fcall = match self.parse_func_arguments(id) {
                            Ok(n) => n,
                            Err(e) => {
                                return Err(e);
                            },
                        };
                        match self.scanner.must_be_kind(TokenKind::Semi) {
                            Ok(()) => Ok(fcall),
                            Err(e) => Err(e),
                        }
                    },
                    Ok(Some(t)) => {
                        // Neither a declaration nor a call: an expression
                        // that starts with the identifier.
                        self.scanner.put_token(t);
                        self.scanner.put_token(leader);
                        assert(self.stream() =~= s0);
                        let expr = match self.parse_expression(0) {
                            Ok(n) => n,
                            Err(e) => {
                                return Err(e);
                            },
                        };
                        match self.scanner.must_be_kind(TokenKind::Semi) {
                            Ok(()) => Ok(expr),
                            Err(e) => Err(e),
                        }
                    },
                    Ok(None) => Err(fatal_eof(ErrorKind::EofAfterIdentifier)),
                    Err(e) => Err(e),
                }
            },
            TokenKind::If => self.parse_if(),
            TokenKind::For => self.parse_for(),
            TokenKind::Print => self.parse_print(),
            TokenKind::Return => self.parse_return(),
            _ => self.parse_expression(0),
        }
    }

    /// Parses a function after `name : function`: its signature, then `;`
    /// for a forward declaration or `=` and a body.
    fn parse_function(&mut self, ident: usize) -> (r: Result<AstNode, SyntaxError>)
        requires
            old(self).wf(),
            old(self).ids_suffice(),
        ensures
            final(self).wf(),
            match p_function(old(self).stream(), ident) {
                PRes::Done(v, s2) => r is Ok && r->Ok_0.model() == v && final(self).stream() == s2
                    && shorter(s2, old(self).stream()),
                PRes::Fail(e) => r == Err::<AstNode, SyntaxError>(e),
            },
            r is Ok ==> old(self).next_node_id() <= final(self).next_node_id(),
            r is Ok ==> final(self).budget() <= old(self).budget(),
            r matches Ok(n) ==> ids_fresh(node_ids(n), old(self).next_node_id() as int, final(self).next_node_id() as int),
    {
        let signature = match self.parse_function_signature() {
            Ok(t) => t,
            Err(e) => {
                return Err(e);
            },
        };
        match self.scanner.scan() {
            Ok(Some(Token { kind: TokenKind::Semi, .. })) => {
                let ghost a = self.ids.next;
                let r = AstNode::make_forward(ident, signature, &mut self.ids);
                proof {
                    crate::ast::lemma_ids_fresh_cons(a, Seq::<usize>::empty(), old(self).next_node_id() as int);
                    assert(seq![a] + Seq::<usize>::empty() =~= seq![a]);
                }
                Ok(r)
            },
            Ok(Some(Token { kind: TokenKind::Assign, .. })) => {
                let body = match self.parse_block() {
                    Ok(n) => n,
                    Err(e) => {
                        return Err(e);
                    },
                };
                let ghost a = self.ids.next;
                let ghost g_body = body;
                let r = AstNode::make_function(ident, signature, body, &mut self.ids);
                proof {
                    crate::ast::lemma_ids_fresh_cons(a, node_ids(g_body), old(self).next_node_id() as int);
                }
                Ok(r)
            },
            Ok(Some(t)) => Err(fatal_tok(ErrorKind::ExpectedSemiOrAssign, t)),
            Ok(None) => Err(fatal_eof(ErrorKind::EofInFunction)),
            Err(e) => Err(e),
        }
    }

    /// Parses a top-level declaration; `None` at the end of the input.
    pub fn declaration(&mut self) -> (r: Result<Option<AstNode>, SyntaxError>)
        requires
            old(self).wf(),
            old(self).ids_suffice(),
        ensures
            final(self).wf(),
            match p_declaration(old(self).stream()) {
                PRes::Done(v, s2) => r is Ok && opt_model(r->Ok_0) == v && final(self).stream()
                    == s2 && (v is Some ==> shorter(s2, old(self).stream())),
                PRes::Fail(e) => r == Err::<Option<AstNode>, SyntaxError>(e),
            },
            r is Ok ==> old(self).next_node_id() <= final(self).next_node_id(),
            r is Ok ==> final(self).budget() <= old(self).budget(),
            r matches Ok(Some(n)) ==> ids_fresh(node_ids(n), old(self).next_node_id() as int, final(self).next_node_id() as int),
    {
        let ident = match self.scanner.scan() {
            Ok(Some(Token { kind: TokenKind::Ident(id), .. })) => id,
            Ok(Some(t)) => {
                return Err(fatal(ErrorKind::ExpectedIdentifier, t.pos));
            },
            Ok(None) => {
                return Ok(None);
            },
            Err(e) => {
                return Err(e);
            },
        };
        match self.scanner.must_be_kind(TokenKind::Colon) {
            Ok(()) => {},
            Err(e) => {
                return Err(e);
            },
        }
        let ghost s2 = self.stream();
        match self.scanner.scan() {
            Ok(Some(Token { kind: TokenKind::Function, .. })) => match self.parse_function(ident) {
                Ok(f) => Ok(Some(f)),
                Err(e) => Err(e),
            },
            Ok(Some(t)) => {
                if t.is_type() {
                    self.scanner.put_token(t);
                    assert(self.stream() =~= s2);
                    let decl = match self.parse_var_decl_with_id(ident) {
                        Ok(n) => n,
                        Err(e) => {
                            return Err(e);
                        },
                    };
                    match self.scanner.must_be_kind(TokenKind::Semi) {
                        Ok(()) => Ok(Some(decl)),
                        Err(e) => Err(e),
                    }
                } else {
                    Err(fatal(ErrorKind::ExpectedFunctionOrType, t.pos))
                }
            },
            Ok(None) => Err(fatal_eof(ErrorKind::EofInDeclaration)),
            Err(e) => Err(e),
        }
    }

    /// Parses a whole program: the declarations up to the end of the input.
    pub fn parse_top(&mut self) -> (r: Result<Vec<AstNode>, SyntaxError>)
        requires
            old(self).wf(),
            old(self).ids_suffice(),
        ensures
            final(self).wf(),
            match parse_program(old(self).stream()) {
                Ok(v) => r is Ok && nodes_model(r->Ok_0) == v,
                Err(e) => r == Err::<Vec<AstNode>, SyntaxError>(e),
            },
            r is Ok ==> old(self).next_node_id() <= final(self).next_node_id(),
            r is Ok ==> final(self).budget() <= old(self).budget(),
            r matches Ok(v) ==> ids_fresh(nodes_ids(v, v@.len() as int), old(self).next_node_id() as int, final(self).next_node_id() as int),
    {
        let ghost s0 = self.stream();
        let mut decls: Vec<AstNode> = Vec::new();
        assert(nodes_model(decls) =~= seq![]);
        loop
            invariant
                old(self).next_node_id() <= self.next_node_id(),
                self.budget() <= old(self).budget(),
                old(self).ids_suffice(),
                ids_fresh(nodes_ids(decls, decls@.len() as int), old(self).next_node_id() as int, self.next_node_id() as int),
                self.wf(),
                s0 == old(self).stream(),
                parse_program(s0) == (match p_top(self.stream(), nodes_model(decls)) {
                    PRes::Done(v, _) => Ok::<Seq<AstM>, SyntaxError>(v),
                    PRes::Fail(e) => Err(e),
                }),
            decreases self.stream().toks.len(),
        {
            let ghost mid = self.ids.next;
            match self.declaration() {
                Ok(Some(d)) => {
                    let ghost old_decls = nodes_model(decls);
                    let ghost g_acc = decls;
                    let ghost g_el = d;
                    decls.push(d);
                    proof {
                        crate::ast::lemma_nodes_ids_push(g_acc, decls, g_el);
                        crate::ast::lemma_ids_fresh_concat(nodes_ids(g_acc, g_acc@.len() as int), node_ids(g_el), old(self).next_node_id() as int, mid as int, self.ids.next as int);
                    }
                    assert(nodes_model(decls) =~= old_decls.push(d.model()));
                },
                Ok(None) => {
                    return Ok(decls);
                },
                Err(e) => {
                    return Err(e);
                },
            }
        }
    }
}

/// The model of an optional node.
pub open spec fn opt_model(o: Option<AstNode>) -> Option<AstM> {
    match o {
        Some(n) => Some(n.model()),
        None => None,
    }
}


// ---------------------------------------------------------------------------
// Laws
// ---------------------------------------------------------------------------

/// A declaration that may stand at the top of a program: a variable, or a
/// function (forward or defined) whose signature is a function type and
/// whose body is a block.
pub open spec fn is_top_declaration(d: AstM) -> bool {
    match d {
        AstM::VarDecl { .. } => true,
        AstM::Function { signature, body, .. } => signature is Function && (*body is Block
            || *body is EmptyBlock),
        AstM::ForwardFunction { signature, .. } => signature is Function,
        _ => false,
    }
}

/// What the rest of a block parses to is a block.
proof fn lemma_block_loop_shape(s: TokStream, acc: Seq<AstM>)
    ensures
        p_block_loop(s, acc) matches PRes::Done(b, _) ==> (b is Block || b is EmptyBlock),
    decreases s.toks.len(),
{
    if let Next::Tok(t) = s.head() {
        if t.kind != TokenKind::RightAngl {
            if let PRes::Done(st, s2) = p_statement(s) {
                if shorter(s2, s) {
                    lemma_block_loop_shape(s2, acc.push(st));
                }
            }
        }
    }
}

/// Each declaration parsed is a top-level declaration.
proof fn lemma_declaration_shape(s: TokStream)
    ensures
        p_declaration(s) matches PRes::Done(Some(d), _) ==> is_top_declaration(d),
{
    if let Next::Tok(t) = s.head() {
        if let TokenKind::Ident(id) = t.kind {
            if let PRes::Done(_, s2) = expect(s.rest(), TokenKind::Colon) {
                if let Next::Tok(t2) = s2.head() {
                    if t2.kind == TokenKind::Function {
                        if let PRes::Done(_, s3) = p_func_sig(s2.rest()) {
                            // `=`, `{`, then the rest of the body
                            lemma_block_loop_shape(s3.rest().rest(), seq![]);
                        }
                    }
                }
            }
        }
    }
}

proof fn lemma_top_shape(s: TokStream, acc: Seq<AstM>)
    requires
        forall|i: int| 0 <= i < acc.len() ==> is_top_declaration(#[trigger] acc[i]),
    ensures
        p_top(s, acc) matches PRes::Done(v, _) ==> forall|i: int|
            0 <= i < v.len() ==> is_top_declaration(#[trigger] v[i]),
    decreases s.toks.len(),
{
    lemma_declaration_shape(s);
    if let PRes::Done(Some(d), s2) = p_declaration(s) {
        if shorter(s2, s) {
            let acc2 = acc.push(d);
            assert forall|i: int| 0 <= i < acc2.len() implies is_top_declaration(#[trigger] acc2[i]) by {
                if i < acc.len() {
                    assert(acc2[i] == acc[i]);
                }
            }
            lemma_top_shape(s2, acc2);
        }
    }
}

/// A program parses to top-level declarations only: variables, and
/// functions whose signature is a function type and whose body is a block.
pub proof fn lemma_program_declarations(s: TokStream)
    ensures
        parse_program(s) matches Ok(v) ==> forall|i: int|
            0 <= i < v.len() ==> is_top_declaration(#[trigger] v[i]),
{
    lemma_top_shape(s, seq![]);
}


/// `l op r`
pub open spec fn binary_m(l: AstM, op: BinaryOp, r: AstM) -> AstM {
    AstM::Expr(ExprM::Binary { left: Box::new(l), op, right: Box::new(r) })
}

/// The tree of a literal token.
pub open spec fn literal_m(t: Token) -> AstM {
    AstM::Expr(literal_of(t.kind)->0)
}

/// Binary operators bind more tightly than the end of an expression.
proof fn lemma_binary_bp(k: TokenKind)
    requires
        binary_op_of(k) is Some,
    ensures
        bp(k, false) >= 20,
{
}

/// A simple operand: a literal or an identifier.
pub open spec fn is_operand(t: Token) -> bool {
    literal_of(t.kind) is Some || t.kind is Ident
}

/// The tree of a simple operand.
pub open spec fn operand_m(t: Token) -> AstM {
    match t.kind {
        TokenKind::Ident(id) => AstM::Expr(ExprM::Ident(id)),
        _ => literal_m(t),
    }
}

/// Parsing a simple operand followed by the stream `rest`.
proof fn lemma_literal_nud(s: TokStream, t: Token)
    requires
        is_operand(t),
    ensures
        p_nud(s, t) == PRes::Done(operand_m(t), s),
{
}

/// Operators group by binding power: of two binary operators between three
/// simple operands, the one that binds more tightly takes its operands first, and
/// of two that bind equally the left one does (left associativity).
pub proof fn lemma_binary_grouping(a: Token, o1: Token, b: Token, o2: Token, c: Token)
    requires
        is_operand(a),
        is_operand(b),
        is_operand(c),
        binary_op_of(o1.kind) is Some,
        binary_op_of(o2.kind) is Some,
    ensures
        ({
            let s = TokStream { toks: seq![a, o1, b, o2, c], end: None };
            let op1 = binary_op_of(o1.kind)->0;
            let op2 = binary_op_of(o2.kind)->0;
            let empty = TokStream { toks: seq![], end: None };
            &&& bp(o2.kind, false) <= bp(o1.kind, false) ==> p_expr(s, 0) == PRes::Done(
                binary_m(binary_m(operand_m(a), op1, operand_m(b)), op2, operand_m(c)),
                empty,
            )
            &&& bp(o1.kind, false) < bp(o2.kind, false) ==> p_expr(s, 0) == PRes::Done(
                binary_m(operand_m(a), op1, binary_m(operand_m(b), op2, operand_m(c))),
                empty,
            )
        }),
{
    let s0 = TokStream { toks: seq![a, o1, b, o2, c], end: None };
    let s1 = TokStream { toks: seq![o1, b, o2, c], end: None };
    let s2 = TokStream { toks: seq![b, o2, c], end: None };
    let s3 = TokStream { toks: seq![o2, c], end: None };
    let s4 = TokStream { toks: seq![c], end: None };
    let s5 = TokStream { toks: seq![], end: None };
    assert(s0.rest() =~= s1);
    assert(s1.rest() =~= s2);
    assert(s2.rest() =~= s3);
    assert(s3.rest() =~= s4);
    assert(s4.rest() =~= s5);
    let bp1 = bp(o1.kind, false);
    let bp2 = bp(o2.kind, false);
    let op1 = binary_op_of(o1.kind)->0;
    let op2 = binary_op_of(o2.kind)->0;
    let (la, lb, lc) = (operand_m(a), operand_m(b), operand_m(c));
    lemma_binary_bp(o1.kind);
    lemma_binary_bp(o2.kind);
    lemma_literal_nud(s1, a);
    lemma_literal_nud(s3, b);
    lemma_literal_nud(s5, c);
    assert(p_expr(s0, 0) == p_led(s1, 0, la));
    // `c` ends every expression it starts.
    assert(p_led(s5, bp2, lc) == PRes::Done(lc, s5));
    assert(p_expr(s4, bp2) == PRes::Done(lc, s5));
    if bp2 <= bp1 {
        assert(p_led(s3, bp1, lb) == PRes::Done(lb, s3));
        assert(p_expr(s2, bp1) == PRes::Done(lb, s3));
        assert(p_led(s1, 0, la) == p_led(s3, 0, binary_m(la, op1, lb)));
        assert(p_led(s5, 0, binary_m(binary_m(la, op1, lb), op2, lc)) == PRes::Done(
            binary_m(binary_m(la, op1, lb), op2, lc),
            s5,
        ));
        assert(p_led(s3, 0, binary_m(la, op1, lb)) == p_led(
            s5,
            0,
            binary_m(binary_m(la, op1, lb), op2, lc),
        ));
    } else {
        assert(p_led(s5, bp1, binary_m(lb, op2, lc)) == PRes::Done(binary_m(lb, op2, lc), s5));
        assert(p_led(s3, bp1, lb) == p_led(s5, bp1, binary_m(lb, op2, lc)));
        assert(p_expr(s2, bp1) == PRes::Done(binary_m(lb, op2, lc), s5));
        assert(p_led(s5, 0, binary_m(la, op1, binary_m(lb, op2, lc))) == PRes::Done(
            binary_m(la, op1, binary_m(lb, op2, lc)),
            s5,
        ));
        assert(p_led(s1, 0, la) == p_led(s5, 0, binary_m(la, op1, binary_m(lb, op2, lc))));
    }
}


/// How tightly each binary operator binds, from the language's table of
/// precedence: `^`, then `* / %`, then `+ -`, then the comparisons, then
/// `&& ||`.
pub open spec fn precedence(op: BinaryOp) -> int {
    match op {
        BinaryOp::Pow => 5,
        BinaryOp::Mul | BinaryOp::Div | BinaryOp::Mod => 4,
        BinaryOp::Add | BinaryOp::Sub => 3,
        BinaryOp::Eql | BinaryOp::Neq | BinaryOp::Lss | BinaryOp::Lte | BinaryOp::Grt
        | BinaryOp::Gte => 2,
        BinaryOp::And | BinaryOp::Or => 1,
    }
}

/// The precedence table decides how `a o1 b o2 c` groups: the operator of
/// higher precedence takes its operands first, and of two of the same
/// precedence the left one does.  So `a < b && c < d`-like chains group as
/// comparisons under `&&`, `a + b * c` as `a + (b * c)`, and so on.
pub proof fn lemma_precedence(a: Token, o1: Token, b: Token, o2: Token, c: Token)
    requires
        is_operand(a),
        is_operand(b),
        is_operand(c),
        binary_op_of(o1.kind) is Some,
        binary_op_of(o2.kind) is Some,
    ensures
        ({
            let s = TokStream { toks: seq![a, o1, b, o2, c], end: None };
            let op1 = binary_op_of(o1.kind)->0;
            let op2 = binary_op_of(o2.kind)->0;
            let empty = TokStream { toks: seq![], end: None };
            &&& precedence(op2) <= precedence(op1) ==> p_expr(s, 0) == PRes::Done(
                binary_m(binary_m(operand_m(a), op1, operand_m(b)), op2, operand_m(c)),
                empty,
            )
            &&& precedence(op1) < precedence(op2) ==> p_expr(s, 0) == PRes::Done(
                binary_m(operand_m(a), op1, binary_m(operand_m(b), op2, operand_m(c))),
                empty,
            )
        }),
{
    lemma_binary_grouping(a, o1, b, o2, c);
}

/// A comparison between two simple operands, joined by `&&` or `||` to
/// another such comparison, parses as the logical operator applied to the
/// two comparisons.
pub proof fn lemma_comparisons_under_logic(
    a: Token,
    c1: Token,
    b: Token,
    l: Token,
    c: Token,
    c2: Token,
    d: Token,
)
    requires
        is_operand(a),
        is_operand(b),
        is_operand(c),
        is_operand(d),
        binary_op_of(c1.kind) matches Some(op) && precedence(op) == 2,
        binary_op_of(c2.kind) matches Some(op) && precedence(op) == 2,
        l.kind is And || l.kind is Or,
    ensures
        p_expr(TokStream { toks: seq![a, c1, b, l, c, c2, d], end: None }, 0) == PRes::Done(
            binary_m(
                binary_m(operand_m(a), binary_op_of(c1.kind)->0, operand_m(b)),
                binary_op_of(l.kind)->0,
                binary_m(operand_m(c), binary_op_of(c2.kind)->0, operand_m(d)),
            ),
            TokStream { toks: seq![], end: None },
        ),
{
    let s0 = TokStream { toks: seq![a, c1, b, l, c, c2, d], end: None };
    let s1 = s0.rest();
    let s2 = s1.rest();
    let s3 = s2.rest();
    let s4 = s3.rest();
    let s5 = s4.rest();
    let s6 = s5.rest();
    let s7 = s6.rest();
    assert(s1.toks =~= seq![c1, b, l, c, c2, d]);
    assert(s2.toks =~= seq![b, l, c, c2, d]);
    assert(s3.toks =~= seq![l, c, c2, d]);
    assert(s4.toks =~= seq![c, c2, d]);
    assert(s5.toks =~= seq![c2, d]);
    assert(s6.toks =~= seq![d]);
    assert(s7.toks =~= seq![]);
    let (ma, mb, mc, md) = (operand_m(a), operand_m(b), operand_m(c), operand_m(d));
    let k1 = binary_op_of(c1.kind)->0;
    let k2 = binary_op_of(c2.kind)->0;
    let kl = binary_op_of(l.kind)->0;
    lemma_binary_bp_precedence(c1.kind);
    lemma_binary_bp_precedence(c2.kind);
    lemma_binary_bp_precedence(l.kind);
    lemma_literal_nud(s1, a);
    lemma_literal_nud(s3, b);
    lemma_literal_nud(s5, c);
    lemma_literal_nud(s7, d);
    let b1 = bp(c1.kind, false);
    let bl = bp(l.kind, false);
    // `d` ends the second comparison, which ends the right operand of `l`.
    assert(p_led(s7, b1, md) == PRes::Done(md, s7));
    assert(p_expr(s6, b1) == PRes::Done(md, s7));
    assert(p_led(s7, bl, binary_m(mc, k2, md)) == PRes::Done(binary_m(mc, k2, md), s7));
    assert(p_led(s5, bl, mc) == p_led(s7, bl, binary_m(mc, k2, md)));
    assert(p_expr(s4, bl) == PRes::Done(binary_m(mc, k2, md), s7));
    // `b` is the right operand of the first comparison, which stops at `l`.
    assert(p_led(s3, b1, mb) == PRes::Done(mb, s3));
    assert(p_expr(s2, b1) == PRes::Done(mb, s3));
    let left = binary_m(ma, k1, mb);
    let whole = binary_m(left, kl, binary_m(mc, k2, md));
    assert(p_led(s7, 0, whole) == PRes::Done(whole, s7));
    assert(p_led(s3, 0, left) == p_led(s7, 0, whole));
    assert(p_led(s1, 0, ma) == p_led(s3, 0, left));
    assert(p_expr(s0, 0) == p_led(s1, 0, ma));
}

/// The binding power of each binary operator follows its precedence.
proof fn lemma_binary_bp_precedence(k: TokenKind)
    requires
        binary_op_of(k) is Some,
    ensures
        bp(k, false) == 10 * precedence(binary_op_of(k)->0) + 10,
{
}

/// The tokens of a list of elements `ls`, separated by the comma token
/// `comma` and closed by `close`.
pub open spec fn list_toks(ls: Seq<Token>, comma: Token, close: Token) -> Seq<Token>
    decreases ls.len(),
{
    if ls.len() == 0 {
        seq![close]
    } else if ls.len() == 1 {
        seq![ls[0], close]
    } else {
        seq![ls[0], comma] + list_toks(ls.drop_first(), comma, close)
    }
}

/// The tokens of a list of bracketed rows, each opened by `open` and with
/// its elements as in [`list_toks`], the rows separated by `comma` and the
/// whole closed by `close`.
pub open spec fn rows_toks(rows: Seq<Seq<Token>>, open: Token, comma: Token, close: Token) -> Seq<
    Token,
>
    decreases rows.len(),
{
    if rows.len() == 0 {
        seq![close]
    } else if rows.len() == 1 {
        seq![open] + list_toks(rows[0], comma, close) + seq![close]
    } else {
        seq![open] + list_toks(rows[0], comma, close) + seq![comma] + rows_toks(
            rows.drop_first(),
            open,
            comma,
            close,
        )
    }
}

/// The trees of a row of simple operands.
pub open spec fn row_m(r: Seq<Token>) -> AstM {
    AstM::ArrayInitializer(r.map_values(|t: Token| operand_m(t)))
}

/// Inside an array initializer, a list of simple operands closed by `]`
/// gives one element per operand, in order, and ends the initializer.
pub proof fn lemma_operand_list(
    ls: Seq<Token>,
    comma: Token,
    close: Token,
    tail: Seq<Token>,
    end: Option<SyntaxError>,
    acc: Seq<AstM>,
)
    requires
        ls.len() > 0,
        forall|i: int| 0 <= i < ls.len() ==> is_operand(#[trigger] ls[i]),
        comma.kind == TokenKind::Comma,
        close.kind == TokenKind::RightBrk,
    ensures
        p_array_loop(TokStream { toks: list_toks(ls, comma, close) + tail, end }, acc)
            == PRes::Done(
            AstM::ArrayInitializer(acc + ls.map_values(|t: Token| operand_m(t))),
            TokStream { toks: tail, end },
        ),
    decreases ls.len(),
{
    let s = TokStream { toks: list_toks(ls, comma, close) + tail, end };
    let t = ls[0];
    assert(is_operand(t));
    let after = if ls.len() == 1 {
        seq![close] + tail
    } else {
        seq![comma] + list_toks(ls.drop_first(), comma, close) + tail
    };
    assert(s.toks =~= seq![t] + after);
    let s1 = TokStream { toks: after, end };
    assert(s.rest() =~= s1);
    lemma_literal_nud(s1, t);
    assert(s1.head() matches Next::Tok(k) && bp(k.kind, false) == 0);
    assert(p_led(s1, 0, operand_m(t)) == PRes::Done(operand_m(t), s1));
    assert(p_expr(s, 0) == PRes::Done(operand_m(t), s1));
    let acc2 = acc.push(operand_m(t));
    if ls.len() == 1 {
        assert(s1.rest() =~= TokStream { toks: tail, end });
        assert(acc + ls.map_values(|t: Token| operand_m(t)) =~= acc2);
    } else {
        let rest = ls.drop_first();
        assert forall|i: int| 0 <= i < rest.len() implies is_operand(#[trigger] rest[i]) by {
            assert(rest[i] == ls[i + 1]);
        }
        let s2 = TokStream { toks: list_toks(rest, comma, close) + tail, end };
        assert(s1.rest() =~= s2);
        lemma_operand_list(rest, comma, close, tail, end, acc2);
        assert(acc2 + rest.map_values(|t: Token| operand_m(t)) =~= acc + ls.map_values(
            |t: Token| operand_m(t),
        ));
    }
}

/// Array initializers nest: inside an array initializer, a list of
/// bracketed rows of simple operands gives one element per row, each the
/// array initializer of that row's operands, and ends the initializer.  So
/// `[[1, 2], [3, 4]]` is an initializer of two initializers.
pub proof fn lemma_nested_rows(
    rows: Seq<Seq<Token>>,
    open: Token,
    comma: Token,
    close: Token,
    tail: Seq<Token>,
    end: Option<SyntaxError>,
    acc: Seq<AstM>,
)
    requires
        rows.len() > 0,
        forall|i: int| 0 <= i < rows.len() ==> (#[trigger] rows[i]).len() > 0,
        forall|i: int, j: int|
            0 <= i < rows.len() && 0 <= j < rows[i].len() ==> is_operand(#[trigger] rows[i][j]),
        open.kind == TokenKind::LeftBrk,
        comma.kind == TokenKind::Comma,
        close.kind == TokenKind::RightBrk,
    ensures
        p_array_loop(TokStream { toks: rows_toks(rows, open, comma, close) + tail, end }, acc)
            == PRes::Done(
            AstM::ArrayInitializer(acc + rows.map_values(|r: Seq<Token>| row_m(r))),
            TokStream { toks: tail, end },
        ),
    decreases rows.len(),
{
    let r = rows[0];
    assert(r.len() > 0);
    assert forall|j: int| 0 <= j < r.len() implies is_operand(#[trigger] r[j]) by {
        assert(is_operand(rows[0][j]));
    }
    let after = if rows.len() == 1 {
        seq![close] + tail
    } else {
        seq![comma] + rows_toks(rows.drop_first(), open, comma, close) + tail
    };
    let s = TokStream { toks: rows_toks(rows, open, comma, close) + tail, end };
    assert(s.toks =~= seq![open] + (list_toks(r, comma, close) + after));
    let inner = TokStream { toks: list_toks(r, comma, close) + after, end };
    assert(s.rest() =~= inner);
    lemma_operand_list(r, comma, close, after, end, seq![]);
    let s1 = TokStream { toks: after, end };
    assert(seq![] + r.map_values(|t: Token| operand_m(t)) =~= r.map_values(|t: Token| operand_m(t)));
    assert(p_array_initializer(inner) == PRes::Done(row_m(r), s1));
    let acc2 = acc.push(row_m(r));
    if rows.len() == 1 {
        assert(s1.rest() =~= TokStream { toks: tail, end });
        assert(acc + rows.map_values(|r: Seq<Token>| row_m(r)) =~= acc2);
    } else {
        let rest = rows.drop_first();
        assert forall|i: int| 0 <= i < rest.len() implies (#[trigger] rest[i]).len() > 0 by {
            assert(rest[i] == rows[i + 1]);
        }
        assert forall|i: int, j: int|
            0 <= i < rest.len() && 0 <= j < rest[i].len() implies is_operand(#[trigger] rest[i][j]) by {
            assert(rest[i] == rows[i + 1]);
            assert(is_operand(rows[i + 1][j]));
        }
        let s2 = TokStream { toks: rows_toks(rest, open, comma, close) + tail, end };
        assert(s1.rest() =~= s2);
        lemma_nested_rows(rest, open, comma, close, tail, end, acc2);
        assert(acc2 + rest.map_values(|r: Seq<Token>| row_m(r)) =~= acc + rows.map_values(
            |r: Seq<Token>| row_m(r),
        ));
    }
}

} // verus!
