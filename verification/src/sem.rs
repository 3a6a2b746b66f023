//! Semantic analysis: name resolution and type checking of a parsed program.
use vstd::prelude::*;

use std::collections::HashMap;

use crate::ast::{AstM, AstNode, BinaryOp, ExprKind, ExprM, UnaryOp, is_literal_model, nodes_model};
use crate::sym::{
    Strings,
    Symbol,
    SymbolId,
    SymbolKind,
    SymbolM,
    SymbolTable,
    find_binding,
    find_current,
    may_bind,
    symbol_at,
};
use crate::syn::Parser;
use crate::types::{
    Param,
    ParamM,
    PrimType,
    Type,
    TypeM,
    clone_type,
    lemma_function_model,
    scalar,
    type_compat,
    type_eq,
};

verus! {

/// The kinds of error the analysis reports.
#[derive(Debug, Clone, Copy, PartialEq, Eq, Structural)]
pub enum SemanticError {
    NotEnoughArguments,
    TooManyArguments,
    UnmatchingType,
    NotAFunction,
    UndefinedSymbol,
    WrongOperandType,
    Redeclaration,
    WrongInitializerSize,
    InvalidCondition,
    IllegalReturnType,
    NonLiteralInitialization,
}

// ---------------------------------------------------------------------------
// Which trees the analysis accepts
// ---------------------------------------------------------------------------

/// An expression node whose operands are expression nodes, all the way
/// down.
pub open spec fn expr_wf(n: AstNode) -> bool
    decreases n,
{
    match n {
        AstNode::Expr { kind, .. } => kind_wf(kind),
        _ => false,
    }
}

pub open spec fn kind_wf(k: ExprKind) -> bool
    decreases k,
{
    match k {
        ExprKind::Unary(_, e) => expr_wf(*e),
        ExprKind::Binary { left, right, .. } => expr_wf(*left) && expr_wf(*right),
        ExprKind::Assignment { rvalue, .. } => expr_wf(*rvalue),
        ExprKind::FuncCall { params, .. } => exprs_wf(params@),
        ExprKind::Subscript { index, .. } => exprs_wf(index@),
        _ => true,
    }
}

pub open spec fn exprs_wf(es: Seq<AstNode>) -> bool
    decreases es,
{
    forall|i: int| 0 <= i < es.len() ==> expr_wf(#[trigger] es[i])
}

/// An initializer the analysis can check: none, or an expression (array
/// initializers are not checked yet).
pub open spec fn init_wf(init: Option<Box<AstNode>>) -> bool {
    match init {
        Some(b) => expr_wf(*b),
        None => true,
    }
}

/// A statement of a block.
pub open spec fn stmt_wf(n: AstNode) -> bool
    decreases n,
{
    match n {
        AstNode::Expr { .. } => expr_wf(n),
        AstNode::VarDecl { init, .. } => init_wf(init),
        AstNode::Block(v) => stmts_wf(v@),
        AstNode::If { cond, t_branch, f_branch } => expr_wf(*cond) && branch_wf(*t_branch)
            && branch_wf(*f_branch),
        AstNode::For { assign, cond, post_op, body } => exprs_wf(assign@) && expr_wf(*cond)
            && exprs_wf(post_op@) && branch_wf(*body),
        AstNode::Print(v) => exprs_wf(v@),
        AstNode::VoidReturn => true,
        AstNode::Return(e) => expr_wf(*e),
        _ => false,
    }
}

/// The body of an `if`, a `for` or a function: an empty block or a block.
pub open spec fn branch_wf(b: AstNode) -> bool
    decreases b,
{
    match b {
        AstNode::EmptyBlock => true,
        AstNode::Block(v) => stmts_wf(v@),
        _ => false,
    }
}

pub open spec fn stmts_wf(ss: Seq<AstNode>) -> bool
    decreases ss,
{
    forall|i: int| 0 <= i < ss.len() ==> stmt_wf(#[trigger] ss[i])
}

/// A declaration at the top of a program.
pub open spec fn top_wf(d: AstNode) -> bool {
    match d {
        AstNode::VarDecl { init, .. } => init_wf(init),
        AstNode::Function { signature, body, .. } => signature is Function && branch_wf(*body),
        AstNode::ForwardFunction { signature, .. } => signature is Function,
        _ => false,
    }
}


/// [`expr_wf`] on models: an expression whose operands are expressions, all
/// the way down.
pub open spec fn expr_wf_m(e: AstM) -> bool
    decreases e,
{
    match e {
        AstM::Expr(k) => kind_wf_m(k),
        _ => false,
    }
}

pub open spec fn kind_wf_m(k: ExprM) -> bool
    decreases k,
{
    match k {
        ExprM::Unary(_, e) => expr_wf_m(*e),
        ExprM::Binary { left, right, .. } => expr_wf_m(*left) && expr_wf_m(*right),
        ExprM::Assignment { rvalue, .. } => expr_wf_m(*rvalue),
        ExprM::FuncCall { params, .. } => exprs_wf_m(params),
        ExprM::Subscript { index, .. } => exprs_wf_m(index),
        _ => true,
    }
}

pub open spec fn exprs_wf_m(es: Seq<AstM>) -> bool
    decreases es,
{
    forall|i: int| 0 <= i < es.len() ==> expr_wf_m(#[trigger] es[i])
}

/// [`init_wf`] on models.
pub open spec fn init_wf_m(init: Option<Box<AstM>>) -> bool {
    match init {
        Some(b) => expr_wf_m(*b),
        None => true,
    }
}

/// [`stmt_wf`] on models.
pub open spec fn stmt_wf_m(n: AstM) -> bool
    decreases n,
{
    match n {
        AstM::Expr(_) => expr_wf_m(n),
        AstM::VarDecl { init, .. } => init_wf_m(init),
        AstM::Block(v) => stmts_wf_m(v),
        AstM::If { cond, t_branch, f_branch } => expr_wf_m(*cond) && branch_wf_m(*t_branch)
            && branch_wf_m(*f_branch),
        AstM::For { assign, cond, post_op, body } => exprs_wf_m(assign) && expr_wf_m(*cond)
            && exprs_wf_m(post_op) && branch_wf_m(*body),
        AstM::Print(v) => exprs_wf_m(v),
        AstM::VoidReturn => true,
        AstM::Return(e) => expr_wf_m(*e),
        _ => false,
    }
}

/// [`branch_wf`] on models.
pub open spec fn branch_wf_m(b: AstM) -> bool
    decreases b,
{
    match b {
        AstM::EmptyBlock => true,
        AstM::Block(v) => stmts_wf_m(v),
        _ => false,
    }
}

pub open spec fn stmts_wf_m(ss: Seq<AstM>) -> bool
    decreases ss,
{
    forall|i: int| 0 <= i < ss.len() ==> stmt_wf_m(#[trigger] ss[i])
}

/// [`top_wf`] on models: a declaration the analysis accepts, which is what
/// the parser gives for a declaration with no array initializer in it.
pub open spec fn top_wf_m(d: AstM) -> bool {
    match d {
        AstM::VarDecl { init, .. } => init_wf_m(init),
        AstM::Function { signature, body, .. } => signature is Function && branch_wf_m(*body),
        AstM::ForwardFunction { signature, .. } => signature is Function,
        _ => false,
    }
}

/// [`var_decl_wf`] on models.
pub open spec fn var_decl_wf_m(d: AstM) -> bool {
    d matches AstM::VarDecl { init, .. } && init_wf_m(init)
}

proof fn lemma_expr_wf_model(n: AstNode)
    ensures
        expr_wf(n) == expr_wf_m(n.model()),
    decreases n, 1int,
{
    if let AstNode::Expr { kind, .. } = n {
        lemma_kind_wf_model(kind);
    }
}

proof fn lemma_kind_wf_model(k: ExprKind)
    ensures
        kind_wf(k) == kind_wf_m(k.model()),
    decreases k, 1int,
{
    match k {
        ExprKind::Unary(_, e) => lemma_expr_wf_model(*e),
        ExprKind::Binary { left, right, .. } => {
            lemma_expr_wf_model(*left);
            lemma_expr_wf_model(*right);
        },
        ExprKind::Assignment { rvalue, .. } => lemma_expr_wf_model(*rvalue),
        ExprKind::FuncCall { params, .. } => lemma_exprs_wf_model(params),
        ExprKind::Subscript { index, .. } => lemma_exprs_wf_model(index),
        _ => {},
    }
}

proof fn lemma_exprs_wf_model(v: Vec<AstNode>)
    ensures
        exprs_wf(v@) == exprs_wf_m(nodes_model(v)),
    decreases v, 0int,
{
    assert forall|i: int| 0 <= i < v@.len() implies expr_wf(v@[i]) == expr_wf_m(
        #[trigger] nodes_model(v)[i],
    ) by {
        vstd::std_specs::vec::axiom_vec_index_decreases(v, i);
        lemma_expr_wf_model(v@[i]);
    }
    if exprs_wf(v@) {
        assert forall|i: int| 0 <= i < nodes_model(v).len() implies expr_wf_m(
            #[trigger] nodes_model(v)[i],
        ) by {
            assert(expr_wf(v@[i]));
        }
    }
    if exprs_wf_m(nodes_model(v)) {
        assert forall|i: int| 0 <= i < v@.len() implies expr_wf(#[trigger] v@[i]) by {
            assert(expr_wf_m(nodes_model(v)[i]));
        }
    }
}

proof fn lemma_stmt_wf_model(n: AstNode)
    ensures
        stmt_wf(n) == stmt_wf_m(n.model()),
    decreases n, 1int,
{
    match n {
        AstNode::Expr { .. } => lemma_expr_wf_model(n),
        AstNode::VarDecl { init, .. } => {
            if let Some(b) = init {
                lemma_expr_wf_model(*b);
            }
        },
        AstNode::Block(v) => lemma_stmts_wf_model(v),
        AstNode::If { cond, t_branch, f_branch } => {
            lemma_expr_wf_model(*cond);
            lemma_branch_wf_model(*t_branch);
            lemma_branch_wf_model(*f_branch);
        },
        AstNode::For { assign, cond, post_op, body } => {
            lemma_exprs_wf_model(assign);
            lemma_expr_wf_model(*cond);
            lemma_exprs_wf_model(post_op);
            lemma_branch_wf_model(*body);
        },
        AstNode::Print(v) => lemma_exprs_wf_model(v),
        AstNode::Return(e) => lemma_expr_wf_model(*e),
        _ => {},
    }
}

proof fn lemma_branch_wf_model(b: AstNode)
    ensures
        branch_wf(b) == branch_wf_m(b.model()),
    decreases b, 1int,
{
    if let AstNode::Block(v) = b {
        lemma_stmts_wf_model(v);
    }
}

proof fn lemma_stmts_wf_model(v: Vec<AstNode>)
    ensures
        stmts_wf(v@) == stmts_wf_m(nodes_model(v)),
    decreases v, 0int,
{
    assert forall|i: int| 0 <= i < v@.len() implies stmt_wf(v@[i]) == stmt_wf_m(
        #[trigger] nodes_model(v)[i],
    ) by {
        vstd::std_specs::vec::axiom_vec_index_decreases(v, i);
        lemma_stmt_wf_model(v@[i]);
    }
    if stmts_wf(v@) {
        assert forall|i: int| 0 <= i < nodes_model(v).len() implies stmt_wf_m(
            #[trigger] nodes_model(v)[i],
        ) by {
            assert(stmt_wf(v@[i]));
        }
    }
    if stmts_wf_m(nodes_model(v)) {
        assert forall|i: int| 0 <= i < v@.len() implies stmt_wf(#[trigger] v@[i]) by {
            assert(stmt_wf_m(nodes_model(v)[i]));
        }
    }
}

/// Whether the analysis accepts an expression depends on its model alone.
pub broadcast proof fn lemma_expr_wf_by_model(n: AstNode)
    ensures
        #[trigger] expr_wf_m(n.model()) == expr_wf(n),
{
    lemma_expr_wf_model(n);
}

/// Whether the analysis accepts a declaration depends on its model alone.
pub broadcast proof fn lemma_top_wf_by_model(n: AstNode)
    ensures
        #[trigger] top_wf_m(n.model()) == top_wf(n),
{
    match n {
        AstNode::VarDecl { init, .. } => {
            if let Some(b) = init {
                lemma_expr_wf_model(*b);
            }
        },
        AstNode::Function { body, .. } => lemma_branch_wf_model(*body),
        _ => {},
    }
}

/// Whether the analysis accepts a variable declaration depends on its
/// model alone.
pub broadcast proof fn lemma_var_decl_wf_by_model(n: AstNode)
    ensures
        #[trigger] var_decl_wf_m(n.model()) == var_decl_wf(n),
{
    if let AstNode::VarDecl { init, .. } = n {
        if let Some(b) = init {
            lemma_expr_wf_model(*b);
        }
    }
}

// ---------------------------------------------------------------------------
// What the analysis does, as functions on its state
// ---------------------------------------------------------------------------

/// The state of an analysis: the errors found so far, the symbols and
/// scopes of the symbol table, and the type found for each expression node
/// (by its identity).
#[verifier::ext_equal]
pub struct SemM {
    pub errors: Seq<SemanticError>,
    pub syms: Seq<SymbolM>,
    pub scopes: Seq<Map<usize, SymbolId>>,
    pub types: Map<usize, TypeM>,
}

/// Every error of `a` is still reported, at the same place, in `b`.
pub open spec fn errors_kept(a: SemM, b: SemM) -> bool {
    &&& a.errors.len() <= b.errors.len()
    &&& forall|i: int| 0 <= i < a.errors.len() ==> #[trigger] b.errors[i] == a.errors[i]
}

pub open spec fn emit(st: SemM, e: SemanticError) -> SemM {
    SemM { errors: st.errors.push(e), ..st }
}

/// Reports `e` when `cond` holds.
pub open spec fn emit_if(st: SemM, cond: bool, e: SemanticError) -> SemM {
    if cond {
        emit(st, e)
    } else {
        st
    }
}

/// The symbol a name resolves to, looking outward from the innermost scope.
pub open spec fn lookup_m(st: SemM, name: usize) -> Option<SymbolM> {
    symbol_at(st.syms, find_binding(st.scopes, name))
}

/// Binds `sym` as [`SymbolTable::bind`] does; the flag says whether it was
/// bound.
pub open spec fn bind_m(st: SemM, sym: SymbolM) -> (SemM, bool) {
    if may_bind(symbol_at(st.syms, find_current(st.scopes, sym.name)), sym.kind) {
        (
            SemM {
                syms: st.syms.push(sym),
                scopes: st.scopes.update(
                    st.scopes.len() - 1,
                    st.scopes.last().insert(sym.name, SymbolId(st.syms.len() as usize)),
                ),
                ..st
            },
            true,
        )
    } else {
        (st, false)
    }
}

pub open spec fn enter_m(st: SemM) -> SemM {
    SemM { scopes: st.scopes.push(Map::empty()), ..st }
}

pub open spec fn leave_m(st: SemM) -> SemM {
    SemM { scopes: st.scopes.drop_last(), ..st }
}

/// Types that cannot be compared.
pub open spec fn not_comparable(t: TypeM) -> bool {
    t is Array || t is Function || t == scalar(PrimType::Void)
}

/// The checks of a binary operator on operands of types `tl` and `tr`, and
/// the type of the result.
pub open spec fn sem_binary(st: SemM, op: BinaryOp, tl: TypeM, tr: TypeM) -> (SemM, TypeM) {
    match op {
        BinaryOp::And | BinaryOp::Or => (
            emit_if(
                st,
                !type_compat(tl, scalar(PrimType::Bool)) || !type_compat(tr, scalar(PrimType::Bool)),
                SemanticError::WrongOperandType,
            ),
            scalar(PrimType::Bool),
        ),
        BinaryOp::Add | BinaryOp::Sub | BinaryOp::Mul | BinaryOp::Div | BinaryOp::Mod
        | BinaryOp::Pow => (
            emit_if(
                st,
                !type_compat(tl, scalar(PrimType::Int)) || !type_compat(tr, scalar(PrimType::Int)),
                SemanticError::WrongOperandType,
            ),
            scalar(PrimType::Int),
        ),
        _ => {
            let st1 = emit_if(st, !type_compat(tl, tr), SemanticError::WrongOperandType);
            let st2 = emit_if(st1, not_comparable(tl), SemanticError::WrongOperandType);
            let st3 = emit_if(st2, not_comparable(tr), SemanticError::WrongOperandType);
            (st3, scalar(PrimType::Bool))
        },
    }
}

/// Resolves an expression node: the state after it and its type, which is
/// recorded under the node's identity.
pub open spec fn sem_expr(st: SemM, n: AstNode) -> (SemM, TypeM)
    decreases n, 0int,
{
    match n {
        AstNode::Expr { id, kind } => {
            let (st1, t) = sem_kind(st, kind);
            (SemM { types: st1.types.insert(id.0, t), ..st1 }, t)
        },
        _ => (st, TypeM::Undeclared),
    }
}

/// Resolves what an expression node holds.
pub open spec fn sem_kind(st: SemM, k: ExprKind) -> (SemM, TypeM)
    decreases k, 0int,
{
    match k {
        ExprKind::Ident(name) => match lookup_m(st, name) {
            Some(s) => (st, s.dtype),
            None => (emit(st, SemanticError::UndefinedSymbol), TypeM::Undeclared),
        },
        ExprKind::BoolVal(_) => (st, scalar(PrimType::Bool)),
        ExprKind::CharLit(_) => (st, scalar(PrimType::Char)),
        ExprKind::IntLit(_) => (st, scalar(PrimType::Int)),
        ExprKind::StringLit(_) => (st, scalar(PrimType::String)),
        ExprKind::Incr(name) | ExprKind::Decr(name) => match lookup_m(st, name) {
            Some(s) => (
                emit_if(
                    st,
                    !type_compat(s.dtype, scalar(PrimType::Int)),
                    SemanticError::WrongOperandType,
                ),
                s.dtype,
            ),
            None => (emit(st, SemanticError::UndefinedSymbol), scalar(PrimType::Int)),
        },
        ExprKind::Unary(op, e) => {
            let (st1, t) = sem_expr(st, *e);
            let bad = match op {
                UnaryOp::Minus => !type_compat(t, scalar(PrimType::Int)),
                UnaryOp::Not => !type_compat(t, scalar(PrimType::Bool)),
            };
            (emit_if(st1, bad, SemanticError::WrongOperandType), t)
        },
        ExprKind::Binary { left, op, right } => {
            let (st1, tl) = sem_expr(st, *left);
            let (st2, tr) = sem_expr(st1, *right);
            sem_binary(st2, op, tl, tr)
        },
        ExprKind::Assignment { lvalue, rvalue } => {
            let (st1, rt) = sem_expr(st, *rvalue);
            match lookup_m(st1, lvalue) {
                Some(s) => (
                    emit_if(st1, !type_compat(s.dtype, rt), SemanticError::UnmatchingType),
                    s.dtype,
                ),
                None => (emit(st1, SemanticError::UndefinedSymbol), TypeM::Undeclared),
            }
        },
        ExprKind::FuncCall { name, params } => sem_call(st, name, params@),
        ExprKind::Subscript { name, index } => match lookup_m(st, name) {
            Some(s) => sem_subscript(st, s.dtype, index@, 0),
            None => (emit(st, SemanticError::UndefinedSymbol), TypeM::Undeclared),
        },
    }
}

/// Resolves a call of `name` with the arguments `args`.
pub open spec fn sem_call(st: SemM, name: usize, args: Seq<AstNode>) -> (SemM, TypeM)
    decreases args, args.len() + 1,
{
    match lookup_m(st, name) {
        Some(s) => match s.dtype {
            TypeM::Function { dtype, params } => if params.len() > args.len() {
                (emit(st, SemanticError::NotEnoughArguments), *dtype)
            } else if params.len() < args.len() {
                (emit(st, SemanticError::TooManyArguments), *dtype)
            } else {
                (sem_args(st, args, params, 0), *dtype)
            },
            other => (emit(st, SemanticError::NotAFunction), other),
        },
        None => (emit(st, SemanticError::UndefinedSymbol), TypeM::Undeclared),
    }
}

/// Resolves the arguments of a call from the `i`-th on, each against its
/// parameter.
pub open spec fn sem_args(st: SemM, args: Seq<AstNode>, params: Seq<ParamM>, i: int) -> SemM
    decreases args, args.len() - i,
{
    if i < 0 || i >= args.len() {
        st
    } else {
        let (st1, t) = sem_expr(st, args[i]);
        sem_args(
            emit_if(st1, !type_compat(params[i].dtype, t), SemanticError::UnmatchingType),
            args,
            params,
            i + 1,
        )
    }
}

/// Resolves the subscripts of a value of type `dtype` from the `i`-th on;
/// the type of what they select.
pub open spec fn sem_subscript(st: SemM, dtype: TypeM, index: Seq<AstNode>, i: int) -> (
    SemM,
    TypeM,
)
    decreases index, index.len() - i,
{
    if i < 0 || i >= index.len() {
        (st, dtype)
    } else {
        match dtype {
            TypeM::Array { dtype: elem, .. } => {
                let (st1, it) = sem_expr(st, index[i]);
                sem_subscript(
                    emit_if(st1, it != scalar(PrimType::Int), SemanticError::WrongOperandType),
                    *elem,
                    index,
                    i + 1,
                )
            },
            _ => (emit(st, SemanticError::WrongOperandType), TypeM::Undeclared),
        }
    }
}

/// Resolves the expressions of `es` from the `i`-th on, dropping their
/// types.
pub open spec fn sem_exprs(st: SemM, es: Seq<AstNode>, i: int) -> SemM
    decreases es.len() - i,
{
    if i < 0 || i >= es.len() {
        st
    } else {
        sem_exprs(sem_expr(st, es[i]).0, es, i + 1)
    }
}

/// What may initialize a global: a literal, or a unary operator applied to
/// a literal.
pub open spec fn global_init_ok(k: ExprKind) -> bool {
    match k {
        ExprKind::BoolVal(_) | ExprKind::CharLit(_) | ExprKind::IntLit(_) | ExprKind::StringLit(
            _,
        ) => true,
        ExprKind::Unary(_, n) => match *n {
            AstNode::Expr { kind, .. } => is_literal_model(kind.model()),
            _ => false,
        },
        _ => false,
    }
}

/// Resolves a variable declaration of the given kind.
pub open spec fn sem_var_decl(st: SemM, n: AstNode, kind: SymbolKind) -> SemM {
    match n {
        AstNode::VarDecl { name, dtype, init, .. } => {
            let (st1, ok) = bind_m(st, SymbolM { name, kind, dtype: dtype.model() });
            let st2 = emit_if(st1, !ok, SemanticError::Redeclaration);
            match init {
                Some(b) => match *b {
                    AstNode::Expr { kind: ek, .. } => {
                        let (st3, it) = sem_expr(st2, *b);
                        let st4 = emit_if(
                            st3,
                            kind == SymbolKind::Global && !global_init_ok(ek),
                            SemanticError::NonLiteralInitialization,
                        );
                        emit_if(st4, !type_compat(it, dtype.model()), SemanticError::UnmatchingType)
                    },
                    _ => st2,
                },
                None => st2,
            }
        },
        _ => st,
    }
}

/// Resolves one statement of a block, in a function returning `ret`; `lc`
/// is the number of locals the block declared before it.
pub open spec fn sem_stmt(st: SemM, ret: TypeM, n: AstNode, lc: usize) -> SemM
    decreases n, 1int,
{
    match n {
        AstNode::Expr { .. } => sem_expr(st, n).0,
        AstNode::VarDecl { .. } => sem_var_decl(st, n, SymbolKind::Local(lc)),
        AstNode::Block(_) => sem_branch(st, ret, n),
        AstNode::If { cond, t_branch, f_branch } => {
            let (st1, ct) = sem_expr(st, *cond);
            let st2 = emit_if(
                st1,
                !type_compat(ct, scalar(PrimType::Bool)),
                SemanticError::InvalidCondition,
            );
            sem_branch(sem_branch(st2, ret, *t_branch), ret, *f_branch)
        },
        AstNode::For { assign, cond, post_op, body } => {
            let st1 = sem_exprs(st, assign@, 0);
            let (st2, ct) = sem_expr(st1, *cond);
            let st3 = emit_if(
                st2,
                !type_compat(ct, scalar(PrimType::Bool)),
                SemanticError::InvalidCondition,
            );
            sem_branch(sem_exprs(st3, post_op@, 0), ret, *body)
        },
        AstNode::Print(v) => sem_exprs(st, v@, 0),
        AstNode::VoidReturn => emit_if(
            st,
            !type_compat(ret, scalar(PrimType::Void)),
            SemanticError::IllegalReturnType,
        ),
        AstNode::Return(e) => {
            let (st1, t) = sem_expr(st, *e);
            emit_if(st1, !type_compat(t, ret), SemanticError::UnmatchingType)
        },
        _ => st,
    }
}

/// Resolves a block in a scope of its own; an empty block does nothing.
pub open spec fn sem_branch(st: SemM, ret: TypeM, b: AstNode) -> SemM
    decreases b, 0int,
{
    match b {
        AstNode::Block(v) => leave_m(sem_block(enter_m(st), ret, v@, 0, 0)),
        _ => st,
    }
}

/// Resolves the statements of a block from the `i`-th on, `lc` locals
/// having been declared before it.
pub open spec fn sem_block(st: SemM, ret: TypeM, ss: Seq<AstNode>, i: int, lc: usize) -> SemM
    decreases ss, ss.len() - i,
{
    if i < 0 || i >= ss.len() {
        st
    } else {
        let n = ss[i];
        let st1 = sem_stmt(st, ret, n, lc);
        let lc1: usize = if n is VarDecl {
            (lc + 1) as usize
        } else {
            lc
        };
        sem_block(st1, ret, ss, i + 1, lc1)
    }
}

/// Binds the parameters of a signature from the `i`-th on; a parameter
/// whose name is taken is left out.
pub open spec fn sem_params(st: SemM, params: Seq<ParamM>, i: int) -> SemM
    decreases params.len() - i,
{
    if i < 0 || i >= params.len() {
        st
    } else {
        let p = params[i];
        sem_params(
            bind_m(st, SymbolM { name: p.name, kind: SymbolKind::Param(i as usize), dtype: p.dtype }).0,
            params,
            i + 1,
        )
    }
}

/// Resolves a function (with a body) or a forward declaration (without).
pub open spec fn sem_fn(
    st: SemM,
    name: usize,
    sig: TypeM,
    body: Option<AstNode>,
    kind: SymbolKind,
) -> SemM {
    match sig {
        TypeM::Function { dtype, params } => {
            let (st1, ok) = bind_m(st, SymbolM { name, kind, dtype: sig });
            let st2 = emit_if(st1, !ok, SemanticError::Redeclaration);
            let st3 = emit_if(st2, !(*dtype is Scalar), SemanticError::IllegalReturnType);
            let st4 = sem_params(enter_m(st3), params, 0);
            let st5 = match body {
                Some(AstNode::Block(v)) => sem_block(st4, *dtype, v@, 0, 0),
                _ => st4,
            };
            leave_m(st5)
        },
        _ => st,
    }
}

/// Resolves a function declaration node.
pub open spec fn sem_function(st: SemM, n: AstNode) -> SemM {
    match n {
        AstNode::Function { name, signature, body, .. } => sem_fn(
            st,
            name,
            signature.model(),
            Some(*body),
            SymbolKind::Function,
        ),
        AstNode::ForwardFunction { name, signature, .. } => sem_fn(
            st,
            name,
            signature.model(),
            None,
            SymbolKind::Forward,
        ),
        _ => st,
    }
}

/// Resolves the declarations of a program from the `i`-th on.
pub open spec fn sem_program(st: SemM, tree: Seq<AstNode>, i: int) -> SemM
    decreases tree.len() - i,
{
    if i < 0 || i >= tree.len() {
        st
    } else {
        let d = tree[i];
        let st1 = match d {
            AstNode::VarDecl { .. } => sem_var_decl(st, d, SymbolKind::Global),
            _ => sem_function(st, d),
        };
        sem_program(st1, tree, i + 1)
    }
}


// ---------------------------------------------------------------------------
// The analyser
// ---------------------------------------------------------------------------

/// The model of a table of node types.
pub open spec fn types_model(m: Map<usize, Type>) -> Map<usize, TypeM> {
    m.map_values(|t: Type| t.model())
}

/// Whether a type cannot be compared.
fn is_not_comparable(t: &Type) -> (r: bool)
    ensures
        r == not_comparable(t.model()),
{
    match t {
        Type::Array { .. } | Type::Function { .. } | Type::Scalar(PrimType::Void) => true,
        _ => false,
    }
}

/// The semantic analyser: it resolves names against a symbol table, checks
/// types, records the type of each expression node and collects errors.
pub struct Semantic {
    errors: Vec<SemanticError>,
    table: SymbolTable,
    types: HashMap<usize, Type>,
    pub strings: Strings,
}

impl Semantic {
    /// The state of the analysis.
    pub closed spec fn model(&self) -> SemM {
        SemM {
            errors: self.errors@,
            syms: self.table.syms(),
            scopes: self.table.scopes(),
            types: types_model(self.types@),
        }
    }

    /// The string table.
    pub closed spec fn strings_view(&self) -> Seq<Seq<char>> {
        self.strings@
    }

    /// The global scope is open.
    pub open spec fn wf(&self) -> bool {
        self.model().scopes.len() >= 1
    }

    /// An analyser with no errors, nothing bound and the string table of
    /// the parser.
    pub fn from(value: Parser) -> (r: Self)
        ensures
            r.wf(),
            r.model() == (SemM {
                errors: Seq::empty(),
                syms: Seq::empty(),
                scopes: seq![Map::empty()],
                types: Map::empty(),
            }),
            r.strings_view() == value.strings_view(),
    {
        let r = Semantic {
            errors: Vec::new(),
            table: SymbolTable::default(),
            types: HashMap::new(),
            strings: value.into_strings(),
        };
        assert(r.model().types =~= Map::<usize, TypeM>::empty());
        r
    }

    /// How many errors were found.
    pub fn get_num_errors(&self) -> (r: usize)
        ensures
            r == self.model().errors.len(),
    {
        self.errors.len()
    }

    /// The errors found, in order.
    pub fn get_errors(&self) -> (r: &[SemanticError])
        ensures
            r@ == self.model().errors,
    {
        self.errors.as_slice()
    }

    fn emit_error(&mut self, kind: SemanticError)
        ensures
            final(self).model() == emit(old(self).model(), kind),
            errors_kept(old(self).model(), final(self).model()),
            final(self).strings_view() == old(self).strings_view(),
    {
        self.errors.push(kind);
    }

    /// The checks of a binary operator; the type of its result.
    fn check_binary(&mut self, op: BinaryOp, t_left: &Type, t_right: &Type) -> (r: Type)
        ensures
            final(self).model() == sem_binary(old(self).model(), op, t_left.model(), t_right.model()).0,
            r.model() == sem_binary(old(self).model(), op, t_left.model(), t_right.model()).1,
            errors_kept(old(self).model(), final(self).model()),
            final(self).strings_view() == old(self).strings_view(),
    {
        match op {
            BinaryOp::And | BinaryOp::Or => {
                if !type_eq(t_left, &Type::Scalar(PrimType::Bool)) || !type_eq(
                    t_right,
                    &Type::Scalar(PrimType::Bool),
                ) {
                    self.emit_error(SemanticError::WrongOperandType);
                }
                Type::Scalar(PrimType::Bool)
            },
            BinaryOp::Add | BinaryOp::Sub | BinaryOp::Mul | BinaryOp::Div | BinaryOp::Mod
            | BinaryOp::Pow => {
                if !type_eq(t_left, &Type::Scalar(PrimType::Int)) || !type_eq(
                    t_right,
                    &Type::Scalar(PrimType::Int),
                ) {
                    self.emit_error(SemanticError::WrongOperandType);
                }
                Type::Scalar(PrimType::Int)
            },
            _ => {
                if !type_eq(t_left, t_right) {
                    self.emit_error(SemanticError::WrongOperandType);
                }
                if is_not_comparable(t_left) {
                    self.emit_error(SemanticError::WrongOperandType);
                }
                if is_not_comparable(t_right) {
                    self.emit_error(SemanticError::WrongOperandType);
                }
                Type::Scalar(PrimType::Bool)
            },
        }
    }

    /// The type bound to `name`, if it is bound.
    fn lookup_type(&self, name: usize) -> (r: Option<Type>)
        ensures
            match lookup_m(self.model(), name) {
                Some(s) => r is Some && r->0.model() == s.dtype,
                None => r is None,
            },
    {
        match self.table.lookup(name) {
            Some(sym) => Some(clone_type(&sym.dtype)),
            None => None,
        }
    }

    /// Resolves a call of `name` with the arguments `args`; the type it
    /// returns.
    fn resolve_func_call(&mut self, name: usize, args: &[AstNode]) -> (r: Type)
        requires
            old(self).wf(),
            exprs_wf(args@),
        ensures
            final(self).wf(),
            errors_kept(old(self).model(), final(self).model()),
            final(self).strings_view() == old(self).strings_view(),
            final(self).model() == sem_call(old(self).model(), name, args@).0,
            r.model() == sem_call(old(self).model(), name, args@).1,
            final(self).model().syms == old(self).model().syms,
            final(self).model().scopes == old(self).model().scopes,
        decreases args@, args@.len() + 1,
    {
        let nargs = args.len();
        match self.lookup_type(name) {
            Some(Type::Function { dtype, params }) => {
                let nparams = params.len();
                proof {
                    lemma_function_model(Type::Function { dtype, params });
                }
                if nparams > nargs {
                    self.emit_error(SemanticError::NotEnoughArguments);
                } else if nparams < nargs {
                    self.emit_error(SemanticError::TooManyArguments);
                } else {
                    let ghost st0 = self.model();
                    let ghost pm = (Type::Function { dtype, params }).model()->Function_params;
                    let mut i: usize = 0;
                    while i < nargs
                        invariant
                            self.wf(),
                            errors_kept(old(self).model(), self.model()),
                            self.strings_view() == old(self).strings_view(),
                            nargs == args@.len(),
                            nparams == nargs,
                            nparams == params@.len(),
                            pm.len() == params@.len(),
                            forall|j: int| 0 <= j < params@.len() ==> #[trigger] pm[j] == (ParamM {
                                name: params@[j].name,
                                dtype: params@[j].dtype.model(),
                            }),
                            i <= nargs,
                            exprs_wf(args@),
                            sem_args(st0, args@, pm, 0) == sem_args(self.model(), args@, pm, i as int),
                            self.model().syms == st0.syms,
                            self.model().scopes == st0.scopes,
                        decreases nargs - i,
                    {
                        proof { lemma_expr_wf_model(args@[i as int]); }
                        let arg_type = self.resolve_expr(&args[i]);
                        if !type_eq(&params[i].dtype, &arg_type) {
                            self.emit_error(SemanticError::UnmatchingType);
                        }
                        i += 1;
                    }
                }
                *dtype
            },
            Some(other) => {
                self.emit_error(SemanticError::NotAFunction);
                other
            },
            None => {
                self.emit_error(SemanticError::UndefinedSymbol);
                Type::Undeclared
            },
        }
    }

    /// Resolves an expression: checks it, records its type under the node's
    /// identity and returns that type.
    pub fn resolve_expr(&mut self, node: &AstNode) -> (r: Type)
        requires
            old(self).wf(),
            expr_wf_m(node.model()),
        ensures
            final(self).wf(),
            errors_kept(old(self).model(), final(self).model()),
            final(self).strings_view() == old(self).strings_view(),
            final(self).model() == sem_expr(old(self).model(), *node).0,
            r.model() == sem_expr(old(self).model(), *node).1,
            final(self).model().types.contains_key(node->Expr_id.0),
            final(self).model().types[node->Expr_id.0] == r.model(),
            final(self).model().syms == old(self).model().syms,
            final(self).model().scopes == old(self).model().scopes,
        decreases *node, 0int,
    {
        proof {
            lemma_expr_wf_model(*node);
        }
        broadcast use vstd::std_specs::hash::group_hash_axioms;

        let AstNode::Expr { id, kind } = node else {
            return vstd::pervasive::unreached();
        };
        let dtype = match kind {
            ExprKind::Ident(name) => match self.lookup_type(*name) {
                Some(t) => t,
                None => {
                    self.emit_error(SemanticError::UndefinedSymbol);
                    Type::Undeclared
                },
            },
            ExprKind::BoolVal(_) => Type::Scalar(PrimType::Bool),
            ExprKind::CharLit(_) => Type::Scalar(PrimType::Char),
            ExprKind::IntLit(_) => Type::Scalar(PrimType::Int),
            ExprKind::StringLit(_) => Type::Scalar(PrimType::String),
            ExprKind::Incr(name) | ExprKind::Decr(name) => match self.lookup_type(*name) {
                Some(ret) => {
                    if !type_eq(&ret, &Type::Scalar(PrimType::Int)) {
                        self.emit_error(SemanticError::WrongOperandType);
                    }
                    ret
                },
                None => {
                    self.emit_error(SemanticError::UndefinedSymbol);
                    Type::Scalar(PrimType::Int)
                },
            },
            ExprKind::Unary(unary_op, ast_node) => {
                proof { lemma_expr_wf_model(**ast_node); }
                let dtype = self.resolve_expr(ast_node);
                let bad = match unary_op {
                    UnaryOp::Minus => !type_eq(&dtype, &Type::Scalar(PrimType::Int)),
                    UnaryOp::Not => !type_eq(&dtype, &Type::Scalar(PrimType::Bool)),
                };
                if bad {
                    self.emit_error(SemanticError::WrongOperandType);
                }
                dtype
            },
            ExprKind::Binary { left, op, right } => {
                proof { lemma_expr_wf_model(**left); lemma_expr_wf_model(**right); }
                let t_left = self.resolve_expr(left);
                let t_right = self.resolve_expr(right);
                self.check_binary(*op, &t_left, &t_right)
            },
            ExprKind::Assignment { lvalue, rvalue } => {
                proof { lemma_expr_wf_model(**rvalue); }
                let rvalue_type = self.resolve_expr(rvalue);
                match self.lookup_type(*lvalue) {
                    Some(dtype) => {
                        if !type_eq(&dtype, &rvalue_type) {
                            self.emit_error(SemanticError::UnmatchingType);
                        }
                        dtype
                    },
                    None => {
                        self.emit_error(SemanticError::UndefinedSymbol);
                        Type::Undeclared
                    },
                }
            },
            ExprKind::FuncCall { name, params } => self.resolve_func_call(*name, params.as_slice()),
            ExprKind::Subscript { name, index } => match self.lookup_type(*name) {
                Some(d0) => {
                    let ghost st0 = self.model();
                    let mut dtype = d0;
                    let mut i: usize = 0;
                    loop
                        invariant_except_break
                            i <= index@.len(),
                            sem_subscript(st0, d0.model(), index@, 0) == sem_subscript(
                                self.model(),
                                dtype.model(),
                                index@,
                                i as int,
                            ),
                        invariant
                            self.wf(),
                            errors_kept(old(self).model(), self.model()),
                            self.strings_view() == old(self).strings_view(),
                            exprs_wf(index@),
                            *node == (AstNode::Expr { id: *id, kind: *kind }),
                            *kind == (ExprKind::Subscript { name: *name, index: *index }),
                            self.model().syms == st0.syms,
                            self.model().scopes == st0.scopes,
                        ensures
                            sem_subscript(st0, d0.model(), index@, 0) == (self.model(), dtype.model()),
                        decreases index@.len() - i,
                    {
                        if i >= index.len() {
                            break;
                        }
                        match dtype {
                            Type::Array { dtype: deref_type, .. } => {
                                proof {
                                    let k = node->Expr_kind;
                                    assert(decreases_to!(*node => k));
                                    assert(decreases_to!(k => k->Subscript_index));
                                    assert(decreases_to!(k->Subscript_index => k->Subscript_index@));
                                    assert(decreases_to!(index@ => index@[i as int]));
                                }
                                proof { lemma_expr_wf_model(index@[i as int]); }
                                let index_type = self.resolve_expr(&index[i]);
                                if !matches!(index_type, Type::Scalar(PrimType::Int)) {
                                    self.emit_error(SemanticError::WrongOperandType);
                                }
                                dtype = *deref_type;
                                i += 1;
                            },
                            _ => {
                                self.emit_error(SemanticError::WrongOperandType);
                                dtype = Type::Undeclared;
                                break;
                            },
                        }
                    }
                    dtype
                },
                None => {
                    self.emit_error(SemanticError::UndefinedSymbol);
                    Type::Undeclared
                },
            },
        };
        let ghost before = self.model();
        self.types.insert(id.0, clone_type(&dtype));
        assert(self.model().types =~= before.types.insert(id.0, dtype.model()));
        dtype
    }
}


/// A variable declaration whose initializer, if any, is an expression.
pub open spec fn var_decl_wf(n: AstNode) -> bool {
    n matches AstNode::VarDecl { init, .. } && init_wf(init)
}

impl Semantic {
    /// Binds a variable of the given kind and checks its initializer.
    pub fn resolve_var_decl(&mut self, node: &AstNode, kind: SymbolKind)
        requires
            old(self).wf(),
            var_decl_wf_m(node.model()),
        ensures
            final(self).wf(),
            errors_kept(old(self).model(), final(self).model()),
            final(self).strings_view() == old(self).strings_view(),
            final(self).model() == sem_var_decl(old(self).model(), *node, kind),
            final(self).model().scopes.len() == old(self).model().scopes.len(),
    {
        proof {
            lemma_var_decl_wf_by_model(*node);
        }
        let AstNode::VarDecl { name, dtype, init, .. } = node else {
            return vstd::pervasive::unreached();
        };
        let symbol = Symbol::create(*name, kind, clone_type(dtype));
        if self.table.bind(symbol).is_err() {
            self.errors.push(SemanticError::Redeclaration);
        }
        match init {
            Some(b) => {
                let init_node: &AstNode = b;
                match init_node {
                    AstNode::Expr { kind: expr_kind, .. } => {
                        proof { lemma_expr_wf_model(*init_node); }
                        let init_type = self.resolve_expr(init_node);
                        if kind == SymbolKind::Global {
                            let literal = match expr_kind {
                                ExprKind::BoolVal(_) | ExprKind::CharLit(_) | ExprKind::IntLit(_)
                                | ExprKind::StringLit(_) => true,
                                ExprKind::Unary(_, ast_node) => {
                                    let operand: &AstNode = ast_node;
                                    match operand {
                                        AstNode::Expr { kind, .. } => kind.is_literal(),
                                        _ => false,
                                    }
                                },
                                _ => false,
                            };
                            if !literal {
                                self.emit_error(SemanticError::NonLiteralInitialization);
                            }
                        }
                        if !type_eq(&init_type, dtype) {
                            self.emit_error(SemanticError::UnmatchingType);
                        }
                    },
                    _ => {
                        return vstd::pervasive::unreached();
                    },
                }
            },
            None => {},
        }
    }

    /// Resolves the expressions of a `print`.
    fn resolve_print(&mut self, expressions: &[AstNode])
        requires
            old(self).wf(),
            exprs_wf(expressions@),
        ensures
            final(self).wf(),
            errors_kept(old(self).model(), final(self).model()),
            final(self).strings_view() == old(self).strings_view(),
            final(self).model() == sem_exprs(old(self).model(), expressions@, 0),
            final(self).model().syms == old(self).model().syms,
            final(self).model().scopes == old(self).model().scopes,
    {
        let ghost st0 = self.model();
        let mut i: usize = 0;
        while i < expressions.len()
            invariant
                self.wf(),
                errors_kept(old(self).model(), self.model()),
                self.strings_view() == old(self).strings_view(),
                i <= expressions@.len(),
                exprs_wf(expressions@),
                sem_exprs(st0, expressions@, 0) == sem_exprs(self.model(), expressions@, i as int),
                self.model().syms == st0.syms,
                self.model().scopes == st0.scopes,
            decreases expressions@.len() - i,
        {
            proof { lemma_expr_wf_model(expressions@[i as int]); }
            let _ = self.resolve_expr(&expressions[i]);
            i += 1;
        }
    }

    /// Resolves the body of an `if`, a `for` or a nested block in a scope of
    /// its own; an empty block has nothing to resolve.
    fn resolve_branch(&mut self, ret_type: &Type, b: &AstNode)
        requires
            old(self).wf(),
            branch_wf(*b),
        ensures
            final(self).wf(),
            errors_kept(old(self).model(), final(self).model()),
            final(self).strings_view() == old(self).strings_view(),
            final(self).model() == sem_branch(old(self).model(), ret_type.model(), *b),
            final(self).model().scopes.len() == old(self).model().scopes.len(),
        decreases *b, 0int,
    {
        match b {
            AstNode::EmptyBlock => {},
            AstNode::Block(statements) => {
                proof {
                    assert(decreases_to!(*b => b->Block_0));
                    assert(decreases_to!(b->Block_0 => b->Block_0@));
                }
                self.table.enter_scope();
                self.resolve_block(ret_type, statements.as_slice());
                self.table.leave_scope();
            },
            _ => {
                return vstd::pervasive::unreached();
            },
        }
    }

    /// Resolves `if (cond) t_branch else f_branch`.
    fn resolve_if(&mut self, ret_type: &Type, stmt: &AstNode)
        requires
            old(self).wf(),
            stmt is If,
            stmt_wf(*stmt),
        ensures
            final(self).wf(),
            errors_kept(old(self).model(), final(self).model()),
            final(self).strings_view() == old(self).strings_view(),
            final(self).model() == sem_stmt(old(self).model(), ret_type.model(), *stmt, 0),
            final(self).model().scopes.len() == old(self).model().scopes.len(),
            !type_compat(sem_expr(old(self).model(), *stmt->If_cond).1, scalar(PrimType::Bool))
                ==> final(self).model().errors.contains(SemanticError::InvalidCondition),
        decreases *stmt, 1int,
    {
        let AstNode::If { cond, t_branch, f_branch } = stmt else {
            return vstd::pervasive::unreached();
        };
        proof { lemma_expr_wf_model(**cond); }
        let cond_type = self.resolve_expr(cond);
        let ghost at = self.model().errors.len();
        if !type_eq(&cond_type, &Type::Scalar(PrimType::Bool)) {
            self.emit_error(SemanticError::InvalidCondition);
            assert(self.model().errors[at as int] == SemanticError::InvalidCondition);
        }
        let ghost flagged = !type_compat(cond_type.model(), scalar(PrimType::Bool));
        self.resolve_branch(ret_type, t_branch);
        self.resolve_branch(ret_type, f_branch);
        proof {
            if flagged {
                assert(self.model().errors[at as int] == SemanticError::InvalidCondition);
            }
        }
    }

    /// Resolves `for (assign; cond; post_op) body`.
    fn resolve_for(&mut self, ret_type: &Type, stmt: &AstNode)
        requires
            old(self).wf(),
            stmt is For,
            stmt_wf(*stmt),
        ensures
            final(self).wf(),
            errors_kept(old(self).model(), final(self).model()),
            final(self).strings_view() == old(self).strings_view(),
            final(self).model() == sem_stmt(old(self).model(), ret_type.model(), *stmt, 0),
            final(self).model().scopes.len() == old(self).model().scopes.len(),
        decreases *stmt, 1int,
    {
        let AstNode::For { assign, cond, post_op, body } = stmt else {
            return vstd::pervasive::unreached();
        };
        self.resolve_print(assign.as_slice());
        proof { lemma_expr_wf_model(**cond); }
        let cond_type = self.resolve_expr(cond);
        if !type_eq(&cond_type, &Type::Scalar(PrimType::Bool)) {
            self.emit_error(SemanticError::InvalidCondition);
        }
        self.resolve_print(post_op.as_slice());
        self.resolve_branch(ret_type, body);
    }

    /// Resolves the statements of a block, in a function returning
    /// `ret_type`.
    fn resolve_block(&mut self, ret_type: &Type, block: &[AstNode])
        requires
            old(self).wf(),
            stmts_wf(block@),
        ensures
            final(self).wf(),
            errors_kept(old(self).model(), final(self).model()),
            final(self).strings_view() == old(self).strings_view(),
            final(self).model() == sem_block(old(self).model(), ret_type.model(), block@, 0, 0),
            final(self).model().scopes.len() == old(self).model().scopes.len(),
        decreases block@, 0int,
    {
        let ghost st0 = self.model();
        let ghost ret = ret_type.model();
        let mut local_count: usize = 0;
        let mut i: usize = 0;
        while i < block.len()
            invariant
                self.wf(),
                errors_kept(old(self).model(), self.model()),
                self.strings_view() == old(self).strings_view(),
                i <= block@.len(),
                local_count <= i,
                stmts_wf(block@),
                ret == ret_type.model(),
                sem_block(st0, ret, block@, 0, 0) == sem_block(
                    self.model(),
                    ret,
                    block@,
                    i as int,
                    local_count,
                ),
                self.model().scopes.len() == st0.scopes.len(),
            decreases block@.len() - i,
        {
            let statement = &block[i];
            assert(stmt_wf(*statement));
            let ghost st_before = self.model();
            let ghost lc_before = local_count;
            match statement {
                AstNode::Expr { .. } => {
                    proof { lemma_expr_wf_model(*statement); }
                    let _ = self.resolve_expr(statement);
                },
                AstNode::VarDecl { .. } => {
                    proof { lemma_var_decl_wf_by_model(*statement); }
                    self.resolve_var_decl(statement, SymbolKind::Local(local_count));
                    local_count += 1;
                },
                AstNode::Block(_) => {
                    self.resolve_branch(ret_type, statement);
                },
                AstNode::If { .. } => {
                    assert(sem_stmt(self.model(), ret, *statement, local_count) == sem_stmt(
                        self.model(),
                        ret,
                        *statement,
                        0,
                    ));
                    self.resolve_if(ret_type, statement);
                },
                AstNode::For { .. } => {
                    assert(sem_stmt(self.model(), ret, *statement, local_count) == sem_stmt(
                        self.model(),
                        ret,
                        *statement,
                        0,
                    ));
                    self.resolve_for(ret_type, statement);
                },
                AstNode::Print(ast_nodes) => {
                    self.resolve_print(ast_nodes.as_slice());
                },
                AstNode::VoidReturn => {
                    if !type_eq(ret_type, &Type::Scalar(PrimType::Void)) {
                        self.emit_error(SemanticError::IllegalReturnType);
                    }
                },
                AstNode::Return(ast_node) => {
                    proof { lemma_expr_wf_model(**ast_node); }
                    let rtp = self.resolve_expr(ast_node);
                    if !type_eq(&rtp, ret_type) {
                        self.emit_error(SemanticError::UnmatchingType);
                    }
                },
                _ => {
                    return vstd::pervasive::unreached();
                },
            }
            assert(self.model() == sem_stmt(st_before, ret, *statement, lc_before));
            assert(local_count == (if statement is VarDecl {
                (lc_before + 1) as usize
            } else {
                lc_before
            }));
            i += 1;
        }
    }
}


impl Semantic {
    /// Binds a function or a forward declaration, then resolves its body
    /// with the parameters bound in a scope of their own.
    pub fn resolve_function_decl(&mut self, node: &AstNode)
        requires
            old(self).wf(),
            node is Function || node is ForwardFunction,
            top_wf_m(node.model()),
        ensures
            final(self).wf(),
            errors_kept(old(self).model(), final(self).model()),
            final(self).strings_view() == old(self).strings_view(),
            final(self).model() == sem_function(old(self).model(), *node),
            final(self).model().scopes.len() == old(self).model().scopes.len(),
    {
        proof {
            lemma_top_wf_by_model(*node);
        }
        let (name, signature, body, kind) = match node {
            AstNode::Function { name, signature, body, .. } => {
                let b: &AstNode = body;
                (name, signature, Some(b), SymbolKind::Function)
            },
            AstNode::ForwardFunction { name, signature, .. } => {
                (name, signature, None, SymbolKind::Forward)
            },
            _ => {
                return vstd::pervasive::unreached();
            },
        };
        let Type::Function { dtype, params } = signature else {
            return vstd::pervasive::unreached();
        };
        proof {
            lemma_function_model(*signature);
        }
        let ghost pm = signature.model()->Function_params;
        let ghost body_m: Option<AstNode> = match body {
            Some(b) => Some(*b),
            None => None,
        };
        let ghost s_init = self.model();
        assert(sem_function(s_init, *node) == sem_fn(s_init, *name, signature.model(), body_m, kind));
        let ret_type: &Type = dtype;
        if self.table.bind(Symbol::create(*name, kind, clone_type(signature))).is_err() {
            self.errors.push(SemanticError::Redeclaration);
        }
        let ghost b = bind_m(s_init, SymbolM { name: *name, kind, dtype: signature.model() });
        assert(self.model() == emit_if(b.0, !b.1, SemanticError::Redeclaration));
        let ghost st2 = self.model();
        if !matches!(ret_type, Type::Scalar(..)) {
            self.emit_error(SemanticError::IllegalReturnType);
        }
        assert(self.model() == emit_if(st2, !(ret_type.model() is Scalar), SemanticError::IllegalReturnType));
        self.table.enter_scope();
        let ghost st0 = self.model();
        let mut param_count: usize = 0;
        while param_count < params.len()
            invariant
                self.wf(),
                errors_kept(old(self).model(), self.model()),
                self.strings_view() == old(self).strings_view(),
                param_count <= params@.len(),
                pm.len() == params@.len(),
                forall|j: int| 0 <= j < params@.len() ==> #[trigger] pm[j] == (ParamM {
                    name: params@[j].name,
                    dtype: params@[j].dtype.model(),
                }),
                sem_params(st0, pm, 0) == sem_params(self.model(), pm, param_count as int),
                self.model().scopes.len() == st0.scopes.len(),
            decreases params@.len() - param_count,
        {
            let param = &params[param_count];
            let _ = self.table.bind(
                Symbol::create(param.name, SymbolKind::Param(param_count), clone_type(&param.dtype)),
            );
            param_count += 1;
        }
        assert(self.model() == sem_params(st0, pm, 0));
        match body {
            None => {},
            Some(AstNode::EmptyBlock) => {},
            Some(AstNode::Block(block)) => {
                self.resolve_block(ret_type, block.as_slice());
            },
            _ => {
                return vstd::pervasive::unreached();
            },
        }
        self.table.leave_scope();
    }

    /// Resolves a program: its global variables and its functions, in
    /// order.
    pub fn resolve(&mut self, tree: &[AstNode])
        requires
            old(self).wf(),
            forall|i: int| 0 <= i < tree@.len() ==> top_wf_m(#[trigger] tree@[i].model()),
        ensures
            final(self).wf(),
            errors_kept(old(self).model(), final(self).model()),
            final(self).strings_view() == old(self).strings_view(),
            final(self).model() == sem_program(old(self).model(), tree@, 0),
            final(self).model().scopes.len() == old(self).model().scopes.len(),
    {
        let ghost st0 = self.model();
        let mut i: usize = 0;
        while i < tree.len()
            invariant
                self.wf(),
                errors_kept(old(self).model(), self.model()),
                self.strings_view() == old(self).strings_view(),
                i <= tree@.len(),
                forall|j: int| 0 <= j < tree@.len() ==> top_wf_m(#[trigger] tree@[j].model()),
                sem_program(st0, tree@, 0) == sem_program(self.model(), tree@, i as int),
                self.model().scopes.len() == st0.scopes.len(),
            decreases tree@.len() - i,
        {
            let decl = &tree[i];
            proof {
                lemma_top_wf_by_model(*decl);
                lemma_var_decl_wf_by_model(*decl);
            }
            assert(top_wf(*decl));
            match decl {
                AstNode::VarDecl { .. } => self.resolve_var_decl(decl, SymbolKind::Global),
                AstNode::ForwardFunction { .. } | AstNode::Function { .. } => {
                    self.resolve_function_decl(decl)
                },
                _ => {
                    return vstd::pervasive::unreached();
                },
            }
            i += 1;
        }
    }
}

/// Resolving an expression never touches the symbol table: the symbols and
/// the scopes after it are those before it, whatever the expression holds;
/// and it only adds errors after those already reported.
pub proof fn lemma_expr_keeps_table(st: SemM, n: AstNode)
    ensures
        sem_expr(st, n).0.syms == st.syms,
        sem_expr(st, n).0.scopes == st.scopes,
        errors_kept(st, sem_expr(st, n).0),
    decreases n, 0int,
{
    match n {
        AstNode::Expr { kind, .. } => lemma_kind_keeps_table(st, kind),
        _ => {},
    }
}

/// [`lemma_expr_keeps_table`] for what an expression node holds.
pub proof fn lemma_kind_keeps_table(st: SemM, k: ExprKind)
    ensures
        sem_kind(st, k).0.syms == st.syms,
        sem_kind(st, k).0.scopes == st.scopes,
        errors_kept(st, sem_kind(st, k).0),
    decreases k, 0int,
{
    match k {
        ExprKind::Unary(op, e) => {
            lemma_expr_keeps_table(st, *e);
        },
        ExprKind::Binary { left, op, right } => {
            lemma_expr_keeps_table(st, *left);
            let st1 = sem_expr(st, *left).0;
            lemma_expr_keeps_table(st1, *right);
        },
        ExprKind::Assignment { lvalue, rvalue } => {
            lemma_expr_keeps_table(st, *rvalue);
        },
        ExprKind::FuncCall { name, params } => {
            lemma_call_keeps_table(st, name, params@);
        },
        ExprKind::Subscript { name, index } => {
            if let Some(s) = lookup_m(st, name) {
                lemma_subscript_keeps_table(st, s.dtype, index@, 0);
            }
        },
        _ => {},
    }
}

/// [`lemma_expr_keeps_table`] for a call.
pub proof fn lemma_call_keeps_table(st: SemM, name: usize, args: Seq<AstNode>)
    ensures
        sem_call(st, name, args).0.syms == st.syms,
        sem_call(st, name, args).0.scopes == st.scopes,
        errors_kept(st, sem_call(st, name, args).0),
    decreases args, args.len() + 1,
{
    if let Some(s) = lookup_m(st, name) {
        if let TypeM::Function { dtype, params } = s.dtype {
            if params.len() == args.len() {
                lemma_args_keeps_table(st, args, params, 0);
            }
        }
    }
}

/// [`lemma_expr_keeps_table`] for the arguments of a call.
pub proof fn lemma_args_keeps_table(st: SemM, args: Seq<AstNode>, params: Seq<ParamM>, i: int)
    ensures
        sem_args(st, args, params, i).syms == st.syms,
        sem_args(st, args, params, i).scopes == st.scopes,
        errors_kept(st, sem_args(st, args, params, i)),
    decreases args, args.len() - i,
{
    if 0 <= i < args.len() {
        lemma_expr_keeps_table(st, args[i]);
        let (st1, t) = sem_expr(st, args[i]);
        lemma_args_keeps_table(
            emit_if(st1, !type_compat(params[i].dtype, t), SemanticError::UnmatchingType),
            args,
            params,
            i + 1,
        );
    }
}

/// [`lemma_expr_keeps_table`] for the subscripts of a variable.
pub proof fn lemma_subscript_keeps_table(st: SemM, dtype: TypeM, index: Seq<AstNode>, i: int)
    ensures
        sem_subscript(st, dtype, index, i).0.syms == st.syms,
        sem_subscript(st, dtype, index, i).0.scopes == st.scopes,
        errors_kept(st, sem_subscript(st, dtype, index, i).0),
    decreases index, index.len() - i,
{
    if 0 <= i < index.len() {
        if let TypeM::Array { dtype: elem, .. } = dtype {
            lemma_expr_keeps_table(st, index[i]);
            let (st1, it) = sem_expr(st, index[i]);
            lemma_subscript_keeps_table(
                emit_if(st1, it != scalar(PrimType::Int), SemanticError::WrongOperandType),
                *elem,
                index,
                i + 1,
            );
        }
    }
}

/// [`lemma_expr_keeps_table`] for a list of expressions.
pub proof fn lemma_exprs_keep_table(st: SemM, es: Seq<AstNode>, i: int)
    ensures
        sem_exprs(st, es, i).syms == st.syms,
        sem_exprs(st, es, i).scopes == st.scopes,
        errors_kept(st, sem_exprs(st, es, i)),
    decreases es.len() - i,
{
    if 0 <= i < es.len() {
        lemma_expr_keeps_table(st, es[i]);
        lemma_exprs_keep_table(sem_expr(st, es[i]).0, es, i + 1);
    }
}

/// A declaration binds in the innermost scope only: the scopes around it,
/// and how many there are, stay as they were.
pub proof fn lemma_var_decl_scopes(st: SemM, n: AstNode, kind: SymbolKind)
    requires
        st.scopes.len() >= 1,
    ensures
        sem_var_decl(st, n, kind).scopes.len() == st.scopes.len(),
        sem_var_decl(st, n, kind).scopes.drop_last() == st.scopes.drop_last(),
{
    if let AstNode::VarDecl { name, dtype, init, .. } = n {
        let (st1, ok) = bind_m(st, SymbolM { name, kind, dtype: dtype.model() });
        assert(st1.scopes.drop_last() =~= st.scopes.drop_last());
        let st2 = emit_if(st1, !ok, SemanticError::Redeclaration);
        if let Some(b) = init {
            lemma_expr_keeps_table(st2, *b);
        }
    }
}

/// A statement leaves the enclosing scopes as they were, and opens or
/// closes none: a nested block's own declarations are gone when it ends.
pub proof fn lemma_stmt_scopes(st: SemM, ret: TypeM, n: AstNode, lc: usize)
    requires
        st.scopes.len() >= 1,
    ensures
        sem_stmt(st, ret, n, lc).scopes.len() == st.scopes.len(),
        sem_stmt(st, ret, n, lc).scopes.drop_last() == st.scopes.drop_last(),
    decreases n, 1int,
{
    match n {
        AstNode::Expr { .. } => lemma_expr_keeps_table(st, n),
        AstNode::VarDecl { .. } => lemma_var_decl_scopes(st, n, SymbolKind::Local(lc)),
        AstNode::Block(_) => lemma_branch_scopes(st, ret, n),
        AstNode::If { cond, t_branch, f_branch } => {
            lemma_expr_keeps_table(st, *cond);
            let (st1, ct) = sem_expr(st, *cond);
            let st2 = emit_if(
                st1,
                !type_compat(ct, scalar(PrimType::Bool)),
                SemanticError::InvalidCondition,
            );
            lemma_branch_scopes(st2, ret, *t_branch);
            lemma_branch_scopes(sem_branch(st2, ret, *t_branch), ret, *f_branch);
        },
        AstNode::For { assign, cond, post_op, body } => {
            lemma_exprs_keep_table(st, assign@, 0);
            let st1 = sem_exprs(st, assign@, 0);
            lemma_expr_keeps_table(st1, *cond);
            let (st2, ct) = sem_expr(st1, *cond);
            let st3 = emit_if(
                st2,
                !type_compat(ct, scalar(PrimType::Bool)),
                SemanticError::InvalidCondition,
            );
            lemma_exprs_keep_table(st3, post_op@, 0);
            lemma_branch_scopes(sem_exprs(st3, post_op@, 0), ret, *body);
        },
        AstNode::Print(v) => lemma_exprs_keep_table(st, v@, 0),
        AstNode::Return(e) => lemma_expr_keeps_table(st, *e),
        _ => {},
    }
}

/// A block is resolved in a scope of its own, which is closed at its end:
/// the scopes after it are exactly those before it.
pub proof fn lemma_branch_scopes(st: SemM, ret: TypeM, b: AstNode)
    requires
        st.scopes.len() >= 1,
    ensures
        sem_branch(st, ret, b).scopes == st.scopes,
    decreases b, 0int,
{
    if let AstNode::Block(v) = b {
        let st0 = enter_m(st);
        lemma_block_scopes(st0, ret, v@, 0, 0);
        let st1 = sem_block(st0, ret, v@, 0, 0);
        assert(st0.scopes.drop_last() =~= st.scopes);
        assert(leave_m(st1).scopes =~= st.scopes);
    }
}

/// [`lemma_stmt_scopes`] for the statements of a block from the `i`-th on.
pub proof fn lemma_block_scopes(st: SemM, ret: TypeM, ss: Seq<AstNode>, i: int, lc: usize)
    requires
        st.scopes.len() >= 1,
    ensures
        sem_block(st, ret, ss, i, lc).scopes.len() == st.scopes.len(),
        sem_block(st, ret, ss, i, lc).scopes.drop_last() == st.scopes.drop_last(),
    decreases ss, ss.len() - i,
{
    if 0 <= i < ss.len() {
        let n = ss[i];
        lemma_stmt_scopes(st, ret, n, lc);
        let st1 = sem_stmt(st, ret, n, lc);
        let lc1: usize = if n is VarDecl {
            (lc + 1) as usize
        } else {
            lc
        };
        lemma_block_scopes(st1, ret, ss, i + 1, lc1);
    }
}

/// Parameters are bound in the innermost scope only.
pub proof fn lemma_params_scopes(st: SemM, params: Seq<ParamM>, i: int)
    requires
        st.scopes.len() >= 1,
    ensures
        sem_params(st, params, i).scopes.len() == st.scopes.len(),
        sem_params(st, params, i).scopes.drop_last() == st.scopes.drop_last(),
    decreases params.len() - i,
{
    if 0 <= i < params.len() {
        let p = params[i];
        let st1 = bind_m(st, SymbolM { name: p.name, kind: SymbolKind::Param(i as usize), dtype: p.dtype }).0;
        assert(st1.scopes.drop_last() =~= st.scopes.drop_last());
        lemma_params_scopes(st1, params, i + 1);
    }
}

/// A function's parameters and locals live in a scope of its own, closed at
/// its end: the scopes after a function declaration are those after its
/// name alone was bound.
pub proof fn lemma_function_scopes(st: SemM, n: AstNode)
    requires
        st.scopes.len() >= 1,
    ensures
        sem_function(st, n).scopes == (match n {
            AstNode::Function { name, signature, .. } => if signature.model() is Function {
                bind_m(st, SymbolM { name, kind: SymbolKind::Function, dtype: signature.model() }).0.scopes
            } else {
                st.scopes
            },
            AstNode::ForwardFunction { name, signature, .. } => if signature.model() is Function {
                bind_m(st, SymbolM { name, kind: SymbolKind::Forward, dtype: signature.model() }).0.scopes
            } else {
                st.scopes
            },
            _ => st.scopes,
        }),
{
    let (name, sig, body, kind) = match n {
        AstNode::Function { name, signature, body, .. } => (name, signature.model(), Some(*body), SymbolKind::Function),
        AstNode::ForwardFunction { name, signature, .. } => (name, signature.model(), None, SymbolKind::Forward),
        _ => {
            return;
        },
    };
    if let TypeM::Function { dtype, params } = sig {
        let (st1, ok) = bind_m(st, SymbolM { name, kind, dtype: sig });
        let st2 = emit_if(st1, !ok, SemanticError::Redeclaration);
        let st3 = emit_if(st2, !(*dtype is Scalar), SemanticError::IllegalReturnType);
        let st4 = sem_params(enter_m(st3), params, 0);
        lemma_params_scopes(enter_m(st3), params, 0);
        let st5 = match body {
            Some(AstNode::Block(v)) => sem_block(st4, *dtype, v@, 0, 0),
            _ => st4,
        };
        if let Some(AstNode::Block(v)) = body {
            lemma_block_scopes(st4, *dtype, v@, 0, 0);
        }
        assert(enter_m(st3).scopes.drop_last() =~= st1.scopes);
        assert(leave_m(st5).scopes =~= st1.scopes);
    }
}

/// A declaration whose name is taken in the innermost scope reports the
/// redeclaration first, before any error of its initializer, and keeps the
/// errors reported before it.
pub proof fn lemma_redeclaration_first(st: SemM, n: AstNode, kind: SymbolKind)
    requires
        n is VarDecl,
        !may_bind(symbol_at(st.syms, find_current(st.scopes, n->VarDecl_name)), kind),
    ensures
        errors_kept(st, sem_var_decl(st, n, kind)),
        sem_var_decl(st, n, kind).errors.len() > st.errors.len(),
        sem_var_decl(st, n, kind).errors[st.errors.len() as int] == SemanticError::Redeclaration,
{
    if let AstNode::VarDecl { name, dtype, init, .. } = n {
        let (st1, ok) = bind_m(st, SymbolM { name, kind, dtype: dtype.model() });
        let st2 = emit_if(st1, !ok, SemanticError::Redeclaration);
        assert(st2.errors[st.errors.len() as int] == SemanticError::Redeclaration);
        if let Some(b) = init {
            if let AstNode::Expr { kind: ek, .. } = *b {
                lemma_expr_keeps_table(st2, *b);
                let st3 = sem_expr(st2, *b).0;
                assert(st3.errors[st.errors.len() as int] == SemanticError::Redeclaration);
            }
        }
    }
}

/// The type of an expression depends on the symbol table alone: two states
/// with the same symbols and scopes give it the same type, whatever errors
/// and node types they hold.
pub proof fn lemma_expr_type_by_table(st1: SemM, st2: SemM, n: AstNode)
    requires
        st1.syms == st2.syms,
        st1.scopes == st2.scopes,
    ensures
        sem_expr(st1, n).1 == sem_expr(st2, n).1,
    decreases n, 0int,
{
    if let AstNode::Expr { kind, .. } = n {
        lemma_kind_type_by_table(st1, st2, kind);
    }
}

/// [`lemma_expr_type_by_table`] for what an expression node holds.
pub proof fn lemma_kind_type_by_table(st1: SemM, st2: SemM, k: ExprKind)
    requires
        st1.syms == st2.syms,
        st1.scopes == st2.scopes,
    ensures
        sem_kind(st1, k).1 == sem_kind(st2, k).1,
    decreases k, 0int,
{
    match k {
        ExprKind::Unary(_, e) => lemma_expr_type_by_table(st1, st2, *e),
        ExprKind::Binary { left, right, .. } => {},
        ExprKind::Assignment { rvalue, .. } => {
            lemma_expr_keeps_table(st1, *rvalue);
            lemma_expr_keeps_table(st2, *rvalue);
        },
        ExprKind::Subscript { name, index } => {
            if let Some(s) = lookup_m(st1, name) {
                lemma_subscript_type_by_table(st1, st2, s.dtype, index@, 0);
            }
        },
        _ => {},
    }
}

/// [`lemma_expr_type_by_table`] for the subscripts of a variable.
pub proof fn lemma_subscript_type_by_table(
    st1: SemM,
    st2: SemM,
    dtype: TypeM,
    index: Seq<AstNode>,
    i: int,
)
    requires
        st1.syms == st2.syms,
        st1.scopes == st2.scopes,
    ensures
        sem_subscript(st1, dtype, index, i).1 == sem_subscript(st2, dtype, index, i).1,
    decreases index, index.len() - i,
{
    if 0 <= i < index.len() {
        if let TypeM::Array { dtype: elem, .. } = dtype {
            lemma_expr_keeps_table(st1, index[i]);
            lemma_expr_keeps_table(st2, index[i]);
            let (a1, t1) = sem_expr(st1, index[i]);
            let (a2, t2) = sem_expr(st2, index[i]);
            lemma_subscript_type_by_table(
                emit_if(a1, t1 != scalar(PrimType::Int), SemanticError::WrongOperandType),
                emit_if(a2, t2 != scalar(PrimType::Int), SemanticError::WrongOperandType),
                *elem,
                index,
                i + 1,
            );
        }
    }
}

/// The arguments from the `i`-th on: each that does not match its
/// parameter (its type taken in a state `st0` with the same symbol table)
/// adds an `UnmatchingType` error after those already reported.
proof fn lemma_args_report(
    st: SemM,
    st0: SemM,
    args: Seq<AstNode>,
    params: Seq<ParamM>,
    i: int,
    j: int,
)
    requires
        0 <= i <= j < args.len(),
        params.len() == args.len(),
        st.syms == st0.syms,
        st.scopes == st0.scopes,
        !type_compat(params[j].dtype, sem_expr(st0, args[j]).1),
    ensures
        exists|k: int|
            st.errors.len() <= k < sem_args(st, args, params, i).errors.len() && #[trigger] sem_args(
                st,
                args,
                params,
                i,
            ).errors[k] == SemanticError::UnmatchingType,
    decreases args.len() - i,
{
    lemma_expr_keeps_table(st, args[i]);
    let (st1, t) = sem_expr(st, args[i]);
    let st2 = emit_if(st1, !type_compat(params[i].dtype, t), SemanticError::UnmatchingType);
    lemma_args_keeps_table(st2, args, params, i + 1);
    let r = sem_args(st, args, params, i);
    assert(r == sem_args(st2, args, params, i + 1));
    if i == j {
        lemma_expr_type_by_table(st, st0, args[j]);
        let k = st1.errors.len() as int;
        assert(st2.errors[k] == SemanticError::UnmatchingType);
        assert(r.errors[k] == SemanticError::UnmatchingType);
    } else {
        lemma_args_report(st2, st0, args, params, i + 1, j);
    }
}

/// A call with as many arguments as its function has parameters checks
/// every argument: for each argument whose type does not match its
/// parameter's, the call reports an `UnmatchingType` error, after the
/// errors reported before it.
pub proof fn lemma_call_checks_every_argument(st: SemM, name: usize, args: Seq<AstNode>, j: int)
    requires
        lookup_m(st, name) matches Some(s) && s.dtype matches TypeM::Function { params, .. }
            && params.len() == args.len() && 0 <= j < args.len() && !type_compat(
            params[j].dtype,
            sem_expr(st, args[j]).1,
        ),
    ensures
        errors_kept(st, sem_call(st, name, args).0),
        exists|k: int|
            st.errors.len() <= k < sem_call(st, name, args).0.errors.len()
                && #[trigger] sem_call(st, name, args).0.errors[k] == SemanticError::UnmatchingType,
{
    lemma_call_keeps_table(st, name, args);
    let s = lookup_m(st, name)->0;
    let params = s.dtype->Function_params;
    lemma_args_report(st, st, args, params, 0, j);
}

} // verus!
