use b_minor::ast::{AstNode, BinaryOp, ExprKind, NodeCounter, NodeId, UnaryOp};
use b_minor::scan::{Pos, Token, TokenKind};
use b_minor::types::{PrimType, Type};

fn tok(kind: TokenKind) -> Token {
    Token::at(kind, Pos::at(0, 0))
}

fn ids() -> NodeCounter {
    NodeCounter::new()
}

fn expr(kind: ExprKind) -> AstNode {
    AstNode::make_expr(kind, &mut ids())
}

// ---- NodeId ----

#[test]
fn test_node_id_increments() {
    let mut counter = NodeCounter::new();
    let a = AstNode::get_node_id(&mut counter);
    let b = AstNode::get_node_id(&mut counter);
    assert_ne!(a, b);
}

// ---- AstNode::make_expr ----

#[test]
fn test_make_expr() {
    let node = expr(ExprKind::IntLit(7));
    assert_eq!(node, expr(ExprKind::IntLit(7)));
}

#[test]
fn test_make_ident_expr() {
    let node = AstNode::make_ident_expr(5, &mut ids());
    assert_eq!(node, expr(ExprKind::Ident(5)));
}

#[test]
fn test_make_ident() {
    let node = AstNode::make_ident(3, &mut ids());
    assert!(matches!(node, AstNode::Ident { name: 3, .. }));
}

#[test]
fn test_make_literal_int() {
    let node = AstNode::make_literal(tok(TokenKind::IntLit(42)), &mut ids());
    assert_eq!(node, expr(ExprKind::IntLit(42)));
}

#[test]
fn test_make_literal_char() {
    let node = AstNode::make_literal(tok(TokenKind::CharLit('z')), &mut ids());
    assert_eq!(node, expr(ExprKind::CharLit('z')));
}

#[test]
fn test_make_literal_string() {
    let node = AstNode::make_literal(tok(TokenKind::StringLit(7)), &mut ids());
    assert_eq!(node, expr(ExprKind::StringLit(7)));
}

#[test]
fn test_make_literal_true() {
    let node = AstNode::make_literal(tok(TokenKind::True), &mut ids());
    assert_eq!(node, expr(ExprKind::BoolVal(true)));
}

#[test]
fn test_make_literal_false() {
    let node = AstNode::make_literal(tok(TokenKind::False), &mut ids());
    assert_eq!(node, expr(ExprKind::BoolVal(false)));
}

#[test]
fn test_make_minus() {
    let inner = expr(ExprKind::IntLit(5));
    let node = AstNode::make_minus(inner, &mut ids());
    assert_eq!(node, expr(ExprKind::Unary(UnaryOp::Minus, Box::new(expr(ExprKind::IntLit(5))))));
}

#[test]
fn test_make_not() {
    let inner = expr(ExprKind::BoolVal(true));
    let node = AstNode::make_not(inner, &mut ids());
    assert_eq!(node, expr(ExprKind::Unary(UnaryOp::Not, Box::new(expr(ExprKind::BoolVal(true))))));
}

#[test]
fn test_make_postfix_incr() {
    let node = AstNode::make_postfix(TokenKind::Incr, 3, &mut ids());
    assert_eq!(node, expr(ExprKind::Incr(3)));
}

#[test]
fn test_make_postfix_decr() {
    let node = AstNode::make_postfix(TokenKind::Decr, 7, &mut ids());
    assert_eq!(node, expr(ExprKind::Decr(7)));
}

#[test]
fn test_make_subscript_new() {
    let ident = AstNode::make_ident_expr(0, &mut ids());
    let index = expr(ExprKind::IntLit(5));
    let result = AstNode::make_subscript(ident, index, &mut ids());
    assert_eq!(
        result,
        expr(ExprKind::Subscript { name: 0, index: vec![expr(ExprKind::IntLit(5))] })
    );
}

#[test]
fn test_make_subscript_chained() {
    let ident = AstNode::make_ident_expr(0, &mut ids());
    let idx1 = expr(ExprKind::IntLit(5));
    let idx2 = expr(ExprKind::IntLit(7));
    let sub1 = AstNode::make_subscript(ident, idx1, &mut ids());
    let result = AstNode::make_subscript(sub1, idx2, &mut ids());
    assert_eq!(
        result,
        expr(ExprKind::Subscript {
            name: 0,
            index: vec![expr(ExprKind::IntLit(5)), expr(ExprKind::IntLit(7))],
        })
    );
}

#[test]
fn test_make_func_call_no_args() {
    let result = AstNode::make_func_call(0, vec![], &mut ids());
    assert_eq!(result, expr(ExprKind::FuncCall { name: 0, params: vec![] }));
}

#[test]
fn test_make_func_call_with_args() {
    let result = AstNode::make_func_call(1, vec![expr(ExprKind::IntLit(42))], &mut ids());
    assert_eq!(
        result,
        expr(ExprKind::FuncCall { name: 1, params: vec![expr(ExprKind::IntLit(42))] })
    );
}

#[test]
fn test_make_var_decl_no_init() {
    let result = AstNode::make_var_decl(0, Type::Scalar(PrimType::Int), None, &mut ids());
    assert_eq!(
        result,
        AstNode::VarDecl { id: NodeId(0), name: 0, dtype: Type::Scalar(PrimType::Int), init: None }
    );
}

#[test]
fn test_make_var_decl_with_init() {
    let init = expr(ExprKind::IntLit(42));
    let result = AstNode::make_var_decl(0, Type::Scalar(PrimType::Int), Some(init), &mut ids());
    assert_eq!(
        result,
        AstNode::VarDecl {
            id: NodeId(0),
            name: 0,
            dtype: Type::Scalar(PrimType::Int),
            init: Some(Box::new(expr(ExprKind::IntLit(42)))),
        }
    );
}

#[test]
fn test_make_forward() {
    let sig = Type::make_signature(Type::Scalar(PrimType::Int), vec![]);
    let result = AstNode::make_forward(0, sig.clone(), &mut ids());
    assert_eq!(result, AstNode::ForwardFunction { id: NodeId(0), name: 0, signature: sig });
}

#[test]
fn test_make_function() {
    let sig = Type::make_signature(Type::Scalar(PrimType::Void), vec![]);
    let body = AstNode::EmptyBlock;
    let result = AstNode::make_function(0, sig.clone(), body, &mut ids());
    assert_eq!(
        result,
        AstNode::Function {
            id: NodeId(0),
            name: 0,
            signature: sig,
            body: Box::new(AstNode::EmptyBlock),
        }
    );
}

#[test]
fn test_make_assignment() {
    let e = expr(ExprKind::IntLit(7));
    let result = AstNode::make_assignment(0, e, &mut ids());
    assert_eq!(
        result,
        expr(ExprKind::Assignment { lvalue: 0, rvalue: Box::new(expr(ExprKind::IntLit(7))) })
    );
}

#[test]
fn test_make_return() {
    let e = expr(ExprKind::BoolVal(false));
    let result = AstNode::make_return(e);
    assert_eq!(result, AstNode::Return(Box::new(expr(ExprKind::BoolVal(false)))));
}

#[test]
fn test_make_if() {
    let cond = expr(ExprKind::BoolVal(true));
    let result = AstNode::make_if(cond, AstNode::EmptyBlock, AstNode::EmptyBlock);
    assert_eq!(
        result,
        AstNode::If {
            cond: Box::new(expr(ExprKind::BoolVal(true))),
            t_branch: Box::new(AstNode::EmptyBlock),
            f_branch: Box::new(AstNode::EmptyBlock),
        }
    );
}

#[test]
fn test_make_for() {
    let assign = vec![AstNode::make_assignment(0, expr(ExprKind::IntLit(0)), &mut ids())];
    let cond = expr(ExprKind::BoolVal(true));
    let post_op = vec![expr(ExprKind::Incr(0))];
    let result = AstNode::make_for(assign.clone(), cond, post_op.clone(), AstNode::EmptyBlock);
    assert_eq!(
        result,
        AstNode::For {
            assign,
            cond: Box::new(expr(ExprKind::BoolVal(true))),
            post_op,
            body: Box::new(AstNode::EmptyBlock),
        }
    );
}

// ---- further cases ----

#[test]
fn test_is_literal_true() {
    for kind in [ExprKind::BoolVal(true), ExprKind::BoolVal(false), ExprKind::CharLit('a'),
        ExprKind::IntLit(42), ExprKind::StringLit(0)] {
        assert!(kind.is_literal());
    }
}

#[test]
fn test_is_literal_false() {
    let kinds = vec![
        ExprKind::Ident(0),
        ExprKind::Incr(0),
        ExprKind::Decr(0),
        ExprKind::Unary(UnaryOp::Minus, Box::new(expr(ExprKind::IntLit(0)))),
        ExprKind::Binary {
            left: Box::new(expr(ExprKind::IntLit(0))),
            op: BinaryOp::Add,
            right: Box::new(expr(ExprKind::IntLit(1))),
        },
        ExprKind::Assignment { lvalue: 0, rvalue: Box::new(expr(ExprKind::IntLit(0))) },
        ExprKind::FuncCall { name: 0, params: vec![] },
        ExprKind::Subscript { name: 0, index: vec![] },
    ];
    for kind in kinds {
        assert!(!kind.is_literal());
    }
}

#[test]
fn test_make_binary() {
    let cases = [
        (TokenKind::And, BinaryOp::And),
        (TokenKind::Or, BinaryOp::Or),
        (TokenKind::Plus, BinaryOp::Add),
        (TokenKind::Minus, BinaryOp::Sub),
        (TokenKind::Star, BinaryOp::Mul),
        (TokenKind::Slash, BinaryOp::Div),
        (TokenKind::Mod, BinaryOp::Mod),
        (TokenKind::Caret, BinaryOp::Pow),
        (TokenKind::Eql, BinaryOp::Eql),
        (TokenKind::Neq, BinaryOp::Neq),
        (TokenKind::Lss, BinaryOp::Lss),
        (TokenKind::Leq, BinaryOp::Lte),
        (TokenKind::Gtr, BinaryOp::Grt),
        (TokenKind::Geq, BinaryOp::Gte),
    ];
    for (kind, op) in cases {
        let result = AstNode::make_binary(
            tok(kind),
            expr(ExprKind::IntLit(1)),
            expr(ExprKind::IntLit(2)),
            &mut ids(),
        );
        let expected = expr(ExprKind::Binary {
            left: Box::new(expr(ExprKind::IntLit(1))),
            op,
            right: Box::new(expr(ExprKind::IntLit(2))),
        });
        assert_eq!(result, expected);
    }
}

#[test]
fn node_ids_count_up_and_wrap() {
    let mut counter = NodeCounter { next: usize::MAX - 1 };
    assert_eq!(AstNode::get_node_id(&mut counter), NodeId(usize::MAX - 1));
    assert_eq!(AstNode::get_node_id(&mut counter), NodeId(usize::MAX));
    assert_eq!(AstNode::get_node_id(&mut counter), NodeId(0));
}

#[test]
fn equality_ignores_ids_but_not_contents() {
    let mut counter = NodeCounter::new();
    let a = AstNode::make_expr(ExprKind::IntLit(1), &mut counter);
    let b = AstNode::make_expr(ExprKind::IntLit(1), &mut counter);
    let c = AstNode::make_expr(ExprKind::IntLit(2), &mut counter);
    assert_eq!(a, b);
    assert_ne!(a, c);
    assert_ne!(a, AstNode::EmptyBlock);
    assert_ne!(AstNode::Block(vec![]), AstNode::EmptyBlock);
}

#[test]
fn equality_of_declarations_compares_types_loosely() {
    let a = AstNode::make_var_decl(1, Type::Undeclared, None, &mut ids());
    let b = AstNode::make_var_decl(1, Type::Scalar(PrimType::Int), None, &mut ids());
    let c = AstNode::make_var_decl(1, Type::Scalar(PrimType::Bool), None, &mut ids());
    assert_eq!(a, b);
    assert_ne!(b, c);
}

#[test]
fn clone_is_equal() {
    let n = AstNode::make_for(
        vec![AstNode::make_assignment(0, expr(ExprKind::IntLit(0)), &mut ids())],
        expr(ExprKind::BoolVal(true)),
        vec![expr(ExprKind::Incr(0))],
        AstNode::Block(vec![AstNode::Print(vec![expr(ExprKind::StringLit(1))])]),
    );
    assert_eq!(n.clone(), n);
}

// ---- types ----

#[test]
fn test_array_type_equality() {
    let cases = [
        (5, Type::Scalar(PrimType::Bool)),
        (10, Type::Scalar(PrimType::Int)),
        (2, Type::make_array(20, Type::Scalar(PrimType::Char))),
    ];
    for (size, dtype) in cases {
        assert_eq!(Type::make_array(size, dtype.clone()), Type::make_array(size, dtype));
    }
}

#[test]
fn test_scalar_vs_array_not_equal() {
    assert_ne!(Type::Scalar(PrimType::Int), Type::make_array(5, Type::Scalar(PrimType::Int)));
}

#[test]
fn test_scalar_vs_function_not_equal() {
    assert_ne!(
        Type::Scalar(PrimType::Int),
        Type::make_signature(Type::Scalar(PrimType::Void), vec![]),
    );
}

#[test]
fn test_undeclared_display() {
    assert_eq!(Type::Undeclared.to_string(), "undeclared");
}

#[test]
fn undeclared_matches_every_type() {
    assert_eq!(Type::Undeclared, Type::make_array(3, Type::Scalar(PrimType::Char)));
    assert_eq!(Type::make_signature(Type::Scalar(PrimType::Int), vec![]), Type::Undeclared);
    assert_ne!(Type::make_array(3, Type::Scalar(PrimType::Char)), Type::make_array(4, Type::Scalar(PrimType::Char)));
}

#[test]
fn subscript_node_ids() {
    let mut counter = NodeCounter { next: 7 };
    let ident = AstNode::make_ident_expr(3, &mut counter);
    let i0 = AstNode::make_expr(ExprKind::IntLit(0), &mut counter);
    assert_eq!(counter.next, 9);
    let sub = AstNode::make_subscript(ident, i0, &mut counter);
    assert_eq!(counter.next, 10);
    let first_id = match &sub {
        AstNode::Expr { id, .. } => *id,
        other => panic!("expected an expression, got {:?}", other),
    };
    assert_eq!(first_id, NodeId(9));
    let i1 = AstNode::make_expr(ExprKind::IntLit(1), &mut counter);
    let sub2 = AstNode::make_subscript(sub, i1, &mut counter);
    assert_eq!(counter.next, 11);
    match &sub2 {
        AstNode::Expr { id, .. } => assert_eq!(*id, NodeId(9)),
        other => panic!("expected an expression, got {:?}", other),
    }
}

#[test]
fn open_array_matches_any_size() {
    let open = Type::make_open_array(Type::Scalar(PrimType::Int));
    assert_eq!(open, Type::make_array(5, Type::Scalar(PrimType::Int)));
    assert_eq!(Type::make_array(0, Type::Scalar(PrimType::Int)), open);
    assert_ne!(open, Type::make_array(5, Type::Scalar(PrimType::Char)));
    assert_ne!(open, Type::Scalar(PrimType::Int));
}
