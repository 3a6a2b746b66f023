//! The abstract syntax tree and its constructors.
use vstd::prelude::*;

use crate::scan::{Token, TokenKind};
use crate::types::{Type, TypeM, clone_type, type_compat, type_eq};

verus! {

/// Identity of an AST node, handed out by a [`NodeCounter`].
#[derive(Debug, Clone, Copy, PartialEq, Eq, Hash, Structural)]
pub struct NodeId(pub usize);

/// Source of fresh node identities: each call of [`AstNode::get_node_id`]
/// hands out the next number.
#[derive(Debug)]
pub struct NodeCounter {
    pub next: usize,
}

impl NodeCounter {
    pub fn new() -> (r: NodeCounter)
        ensures
            r.next == 0,
    {
        NodeCounter { next: 0 }
    }
}

/// The number that follows `n`, wrapping around at the end of `usize`.
pub open spec fn next_id(n: usize) -> usize {
    if n == usize::MAX {
        0
    } else {
        (n + 1) as usize
    }
}

/// Two identities handed out one after the other differ.
pub proof fn lemma_successive_ids_differ(n: usize)
    ensures
        next_id(n) != n,
{
}

#[derive(Clone, Copy, Debug, PartialEq, Eq, Structural)]
pub enum BinaryOp {
    And,
    Or,
    Add,
    Sub,
    Mul,
    Div,
    Mod,
    Pow,
    Eql,
    Neq,
    Lss,
    Lte,
    Grt,
    Gte,
}

#[derive(Clone, Copy, Debug, PartialEq, Eq, Structural)]
pub enum UnaryOp {
    Minus,
    Not,
}

#[derive(Debug)]
pub enum ExprKind {
    Ident(usize),
    BoolVal(bool),
    CharLit(char),
    IntLit(i64),
    StringLit(usize),
    Incr(usize),
    Decr(usize),
    Unary(UnaryOp, Box<AstNode>),
    Binary { left: Box<AstNode>, op: BinaryOp, right: Box<AstNode> },
    Assignment { lvalue: usize, rvalue: Box<AstNode> },
    FuncCall { name: usize, params: Vec<AstNode> },
    Subscript { name: usize, index: Vec<AstNode> },
}

/// A node of the syntax tree.  The names in it are indices into the string
/// table.
#[derive(Debug)]
pub enum AstNode {
    Expr { id: NodeId, kind: ExprKind },
    Ident { id: NodeId, name: usize },
    ArrayInitializer(Vec<AstNode>),
    VarDecl { id: NodeId, name: usize, dtype: Type, init: Option<Box<AstNode>> },
    Function { id: NodeId, name: usize, signature: Type, body: Box<AstNode> },
    ForwardFunction { id: NodeId, name: usize, signature: Type },
    // Statements
    EmptyBlock,
    Block(Vec<AstNode>),
    If { cond: Box<AstNode>, t_branch: Box<AstNode>, f_branch: Box<AstNode> },
    For { assign: Vec<AstNode>, cond: Box<AstNode>, post_op: Vec<AstNode>, body: Box<AstNode> },
    Print(Vec<AstNode>),
    VoidReturn,
    Return(Box<AstNode>),
}

/// Model of an expression: the tree without node identities.
pub enum ExprM {
    Ident(usize),
    BoolVal(bool),
    CharLit(char),
    IntLit(i64),
    StringLit(usize),
    Incr(usize),
    Decr(usize),
    Unary(UnaryOp, Box<AstM>),
    Binary { left: Box<AstM>, op: BinaryOp, right: Box<AstM> },
    Assignment { lvalue: usize, rvalue: Box<AstM> },
    FuncCall { name: usize, params: Seq<AstM> },
    Subscript { name: usize, index: Seq<AstM> },
}

/// Model of a syntax tree: the tree without node identities, with sequences
/// in place of vectors.
pub enum AstM {
    Expr(ExprM),
    Ident(usize),
    ArrayInitializer(Seq<AstM>),
    VarDecl { name: usize, dtype: TypeM, init: Option<Box<AstM>> },
    Function { name: usize, signature: TypeM, body: Box<AstM> },
    ForwardFunction { name: usize, signature: TypeM },
    EmptyBlock,
    Block(Seq<AstM>),
    If { cond: Box<AstM>, t_branch: Box<AstM>, f_branch: Box<AstM> },
    For { assign: Seq<AstM>, cond: Box<AstM>, post_op: Seq<AstM>, body: Box<AstM> },
    Print(Seq<AstM>),
    VoidReturn,
    Return(Box<AstM>),
}

/// The models of a vector of nodes.
pub open spec fn nodes_model(v: Vec<AstNode>) -> Seq<AstM>
    decreases v,
{
    Seq::new(
        v@.len(),
        |i: int|
            {
                if 0 <= i < v@.len() {
                    proof {
                        vstd::std_specs::vec::axiom_vec_index_decreases(v, i);
                    }
                    v@[i].model()
                } else {
                    AstM::EmptyBlock
                }
            },
    )
}

impl ExprKind {
    pub open spec fn model(self) -> ExprM
        decreases self,
    {
        match self {
            ExprKind::Ident(n) => ExprM::Ident(n),
            ExprKind::BoolVal(b) => ExprM::BoolVal(b),
            ExprKind::CharLit(c) => ExprM::CharLit(c),
            ExprKind::IntLit(v) => ExprM::IntLit(v),
            ExprKind::StringLit(n) => ExprM::StringLit(n),
            ExprKind::Incr(n) => ExprM::Incr(n),
            ExprKind::Decr(n) => ExprM::Decr(n),
            ExprKind::Unary(op, e) => ExprM::Unary(op, Box::new((*e).model())),
            ExprKind::Binary { left, op, right } => ExprM::Binary {
                left: Box::new((*left).model()),
                op,
                right: Box::new((*right).model()),
            },
            ExprKind::Assignment { lvalue, rvalue } => ExprM::Assignment {
                lvalue,
                rvalue: Box::new((*rvalue).model()),
            },
            ExprKind::FuncCall { name, params } => ExprM::FuncCall {
                name,
                params: nodes_model(params),
            },
            ExprKind::Subscript { name, index } => ExprM::Subscript {
                name,
                index: nodes_model(index),
            },
        }
    }

    /// Literals: booleans, characters, integers and strings.
    pub fn is_literal(&self) -> (r: bool)
        ensures
            r == is_literal_model(self.model()),
    {
        match self {
            ExprKind::BoolVal(_) | ExprKind::CharLit(_) | ExprKind::IntLit(_) | ExprKind::StringLit(
                _,
            ) => true,
            _ => false,
        }
    }
}

pub open spec fn is_literal_model(e: ExprM) -> bool {
    e is BoolVal || e is CharLit || e is IntLit || e is StringLit
}

impl AstNode {
    pub open spec fn model(self) -> AstM
        decreases self,
    {
        match self {
            AstNode::Expr { kind, .. } => AstM::Expr(kind.model()),
            AstNode::Ident { name, .. } => AstM::Ident(name),
            AstNode::ArrayInitializer(v) => AstM::ArrayInitializer(nodes_model(v)),
            AstNode::VarDecl { name, dtype, init, .. } => AstM::VarDecl {
                name,
                dtype: dtype.model(),
                init: match init {
                    Some(b) => Some(Box::new((*b).model())),
                    None => None,
                },
            },
            AstNode::Function { name, signature, body, .. } => AstM::Function {
                name,
                signature: signature.model(),
                body: Box::new((*body).model()),
            },
            AstNode::ForwardFunction { name, signature, .. } => AstM::ForwardFunction {
                name,
                signature: signature.model(),
            },
            AstNode::EmptyBlock => AstM::EmptyBlock,
            AstNode::Block(v) => AstM::Block(nodes_model(v)),
            AstNode::If { cond, t_branch, f_branch } => AstM::If {
                cond: Box::new((*cond).model()),
                t_branch: Box::new((*t_branch).model()),
                f_branch: Box::new((*f_branch).model()),
            },
            AstNode::For { assign, cond, post_op, body } => AstM::For {
                assign: nodes_model(assign),
                cond: Box::new((*cond).model()),
                post_op: nodes_model(post_op),
                body: Box::new((*body).model()),
            },
            AstNode::Print(v) => AstM::Print(nodes_model(v)),
            AstNode::VoidReturn => AstM::VoidReturn,
            AstNode::Return(e) => AstM::Return(Box::new((*e).model())),
        }
    }

    /// A fresh node identity: the counter's current number, after which the
    /// counter moves on.
    pub fn get_node_id(ids: &mut NodeCounter) -> (r: NodeId)
        ensures
            r == NodeId(old(ids).next),
            final(ids).next == next_id(old(ids).next),
    {
        let n = ids.next;
        ids.next = if n == usize::MAX {
            0
        } else {
            n + 1
        };
        NodeId(n)
    }

    pub fn make_expr(kind: ExprKind, ids: &mut NodeCounter) -> (r: AstNode)
        ensures
            r.model() == AstM::Expr(kind.model()),
            r == (AstNode::Expr { id: NodeId(old(ids).next), kind }),
            final(ids).next == next_id(old(ids).next),
    {
        AstNode::Expr { id: Self::get_node_id(ids), kind }
    }

    pub fn make_ident_expr(name: usize, ids: &mut NodeCounter) -> (r: AstNode)
        ensures
            r.model() == AstM::Expr(ExprM::Ident(name)),
            r is Expr && r->Expr_id == NodeId(old(ids).next),
            final(ids).next == next_id(old(ids).next),
            node_ids(r) == seq![old(ids).next],
    {
        let ghost g_next = ids.next;
        let r = {
            AstNode::make_expr(ExprKind::Ident(name), ids)
        };
        proof {
            reveal_with_fuel(node_ids, 2);
            assert(node_ids(r) =~= seq![g_next]);
        }
        r
    }

    pub fn make_ident(name: usize, ids: &mut NodeCounter) -> (r: AstNode)
        ensures
            r.model() == AstM::Ident(name),
            r == (AstNode::Ident { id: NodeId(old(ids).next), name }),
            final(ids).next == next_id(old(ids).next),
    {
        AstNode::Ident { id: Self::get_node_id(ids), name }
    }

    /// The literal expression that a literal token stands for.
    pub fn make_literal(tok: Token, ids: &mut NodeCounter) -> (r: AstNode)
        requires
            literal_of(tok.kind) is Some,
        ensures
            r.model() == AstM::Expr(literal_of(tok.kind)->0),
            r is Expr && r->Expr_id == NodeId(old(ids).next),
            final(ids).next == next_id(old(ids).next),
            node_ids(r) == seq![old(ids).next],
    {
        let ghost g_next = ids.next;
        let r = {
            match tok.kind {
                TokenKind::IntLit(val) => AstNode::make_expr(ExprKind::IntLit(val), ids),
                TokenKind::CharLit(val) => AstNode::make_expr(ExprKind::CharLit(val), ids),
                TokenKind::StringLit(index) => AstNode::make_expr(ExprKind::StringLit(index), ids),
                TokenKind::True => AstNode::make_expr(ExprKind::BoolVal(true), ids),
                _ => AstNode::make_expr(ExprKind::BoolVal(false), ids),
            }
        };
        proof {
            reveal_with_fuel(node_ids, 2);
            assert(node_ids(r) =~= seq![g_next]);
        }
        r
    }

    pub fn make_minus(node: AstNode, ids: &mut NodeCounter) -> (r: AstNode)
        ensures
            r.model() == AstM::Expr(ExprM::Unary(UnaryOp::Minus, Box::new(node.model()))),
            r is Expr && r->Expr_id == NodeId(old(ids).next),
            final(ids).next == next_id(old(ids).next),
            node_ids(r) == seq![old(ids).next] + node_ids(node),
    {
        let ghost g_next = ids.next;
        let ghost g_node = node;
        let r = {
            AstNode::make_expr(ExprKind::Unary(UnaryOp::Minus, Box::new(node)), ids)
        };
        proof {
            reveal_with_fuel(node_ids, 2);
            assert(node_ids(r) =~= seq![g_next] + node_ids(g_node));
        }
        r
    }

    pub fn make_not(node: AstNode, ids: &mut NodeCounter) -> (r: AstNode)
        ensures
            r.model() == AstM::Expr(ExprM::Unary(UnaryOp::Not, Box::new(node.model()))),
            r is Expr && r->Expr_id == NodeId(old(ids).next),
            final(ids).next == next_id(old(ids).next),
            node_ids(r) == seq![old(ids).next] + node_ids(node),
    {
        let ghost g_next = ids.next;
        let ghost g_node = node;
        let r = {
            AstNode::make_expr(ExprKind::Unary(UnaryOp::Not, Box::new(node)), ids)
        };
        proof {
            reveal_with_fuel(node_ids, 2);
            assert(node_ids(r) =~= seq![g_next] + node_ids(g_node));
        }
        r
    }

    /// `id++` or `id--`.
    pub fn make_postfix(kind: TokenKind, id: usize, ids: &mut NodeCounter) -> (r: AstNode)
        requires
            kind is Incr || kind is Decr,
        ensures
            r.model() == AstM::Expr(
                if kind is Incr {
                    ExprM::Incr(id)
                } else {
                    ExprM::Decr(id)
                },
            ),
            r is Expr && r->Expr_id == NodeId(old(ids).next),
            final(ids).next == next_id(old(ids).next),
            node_ids(r) == seq![old(ids).next],
    {
        let ghost g_next = ids.next;
        let r = {
            match kind {
                TokenKind::Incr => AstNode::make_expr(ExprKind::Incr(id), ids),
                _ => AstNode::make_expr(ExprKind::Decr(id), ids),
            }
        };
        proof {
            reveal_with_fuel(node_ids, 2);
            assert(node_ids(r) =~= seq![g_next]);
        }
        r
    }

    /// `left op right`, where the token gives the operator.
    pub fn make_binary(tok: Token, left: AstNode, right: AstNode, ids: &mut NodeCounter) -> (r:
        AstNode)
        requires
            binary_op_of(tok.kind) is Some,
        ensures
            r.model() == AstM::Expr(
                ExprM::Binary {
                    left: Box::new(left.model()),
                    op: binary_op_of(tok.kind)->0,
                    right: Box::new(right.model()),
                },
            ),
            r is Expr && r->Expr_id == NodeId(old(ids).next),
            final(ids).next == next_id(old(ids).next),
            node_ids(r) == seq![old(ids).next] + node_ids(left) + node_ids(right),
    {
        let ghost g_next = ids.next;
        let ghost g_left = left;
        let ghost g_right = right;
        let r = {
            let left = Box::new(left);
            let right = Box::new(right);
            let op = match tok.kind {
                TokenKind::And => BinaryOp::And,
                TokenKind::Or => BinaryOp::Or,
                TokenKind::Plus => BinaryOp::Add,
                TokenKind::Minus => BinaryOp::Sub,
                TokenKind::Star => BinaryOp::Mul,
                TokenKind::Slash => BinaryOp::Div,
                TokenKind::Mod => BinaryOp::Mod,
                TokenKind::Caret => BinaryOp::Pow,
                TokenKind::Eql => BinaryOp::Eql,
                TokenKind::Neq => BinaryOp::Neq,
                TokenKind::Lss => BinaryOp::Lss,
                TokenKind::Leq => BinaryOp::Lte,
                TokenKind::Gtr => BinaryOp::Grt,
                _ => BinaryOp::Gte,
            };
            AstNode::make_expr(ExprKind::Binary { left, right, op }, ids)
        };
        proof {
            reveal_with_fuel(node_ids, 2);
            assert(node_ids(r) =~= seq![g_next] + node_ids(g_left) + node_ids(g_right));
        }
        r
    }

    /// Adds one more index to a variable: `name[i]` from `name`, or
    /// `name[i]..[j]` from `name[i]..`.
    pub fn make_subscript(node: AstNode, new_index: AstNode, ids: &mut NodeCounter) -> (r: AstNode)
        requires
            node is Expr,
            node->Expr_kind is Ident || node->Expr_kind is Subscript,
        ensures
            r.model() == subscript_model(node.model(), new_index.model()),
            r is Expr,
            node->Expr_kind is Ident ==> r->Expr_id == NodeId(old(ids).next)
                && final(ids).next == next_id(old(ids).next),
            node->Expr_kind is Subscript ==> r->Expr_id == node->Expr_id
                && final(ids).next == old(ids).next,
            node_ids(r) == if node->Expr_kind is Ident { seq![old(ids).next] + node_ids(new_index) } else { node_ids(node) + node_ids(new_index) },
    {
        let ghost nm = node.model();
        match node {
            AstNode::Expr { kind: ExprKind::Ident(name), .. } => {
                let ghost g_next = ids.next;
                let ghost g_new = new_index;
                let mut index = Vec::new();
                let ghost empty = index;
                index.push(new_index);
                assert(nodes_model(index) =~= seq![new_index.model()]);
                proof {
                    lemma_nodes_ids_push(empty, index, g_new);
                    assert(nodes_ids(empty, 0) =~= Seq::<usize>::empty());
                }
                let r = AstNode::make_expr(ExprKind::Subscript { name, index }, ids);
                proof {
                    reveal_with_fuel(node_ids, 2);
                    assert(node_ids(r) =~= seq![g_next] + node_ids(g_new));
                }
                r
            },
            AstNode::Expr { kind: ExprKind::Subscript { name, index }, id } => {
                let ghost old_index = index;
                let ghost g_new = new_index;
                assert(node->Expr_kind.model() == ExprM::Subscript { name, index: nodes_model(old_index) });
                assert(nm == AstM::Expr(ExprM::Subscript { name, index: nodes_model(old_index) }));
                let mut index = index;
                index.push(new_index);
                assert(nodes_model(index) =~= nodes_model(old_index).push(new_index.model()));
                let k = ExprKind::Subscript { name, index };
                assert(k.model() == ExprM::Subscript { name, index: nodes_model(index) });
                let r = AstNode::Expr { id, kind: k };
                assert(r.model() == AstM::Expr(k.model()));
                proof {
                    lemma_nodes_ids_push(old_index, index, g_new);
                    reveal_with_fuel(node_ids, 2);
                    assert(node_ids(r) =~= node_ids(node) + node_ids(g_new));
                }
                r
            },
            _ => AstNode::EmptyBlock,
        }
    }

    pub fn make_func_call(name: usize, params: Vec<AstNode>, ids: &mut NodeCounter) -> (r: AstNode)
        ensures
            r.model() == AstM::Expr(ExprM::FuncCall { name, params: nodes_model(params) }),
            r is Expr && r->Expr_id == NodeId(old(ids).next),
            final(ids).next == next_id(old(ids).next),
            node_ids(r) == seq![old(ids).next] + nodes_ids(params, params@.len() as int),
    {
        let ghost g_next = ids.next;
        let ghost g_params = params;
        let r = {
            AstNode::make_expr(ExprKind::FuncCall { name, params }, ids)
        };
        proof {
            reveal_with_fuel(node_ids, 2);
            assert(node_ids(r) =~= seq![g_next] + nodes_ids(g_params, g_params@.len() as int));
        }
        r
    }

    pub fn make_var_decl(name: usize, dtype: Type, init: Option<AstNode>, ids: &mut NodeCounter) -> (r:
        AstNode)
        ensures
            r.model() == (AstM::VarDecl {
                name,
                dtype: dtype.model(),
                init: match init {
                    Some(n) => Some(Box::new(n.model())),
                    None => None,
                },
            }),
            r is VarDecl && r->VarDecl_id == NodeId(old(ids).next),
            final(ids).next == next_id(old(ids).next),
            node_ids(r) == seq![old(ids).next] + match init { Some(n) => node_ids(n), None => Seq::<usize>::empty() },
    {
        let ghost g_next = ids.next;
        let ghost g_init = init;
        let r = {
            let init = match init {
                Some(n) => Some(Box::new(n)),
                None => None,
            };
            let id = Self::get_node_id(ids);
            AstNode::VarDecl { id, name, dtype, init }
        };
        proof {
            reveal_with_fuel(node_ids, 2);
            assert(node_ids(r) =~= seq![g_next] + match g_init { Some(n) => node_ids(n), None => Seq::<usize>::empty() });
        }
        r
    }

    pub fn make_forward(name: usize, signature: Type, ids: &mut NodeCounter) -> (r: AstNode)
        ensures
            r.model() == (AstM::ForwardFunction { name, signature: signature.model() }),
            r is ForwardFunction && r->ForwardFunction_id == NodeId(old(ids).next),
            final(ids).next == next_id(old(ids).next),
            node_ids(r) == seq![old(ids).next],
    {
        let ghost g_next = ids.next;
        let r = {
            let id = Self::get_node_id(ids);
            AstNode::ForwardFunction { id, name, signature }
        };
        proof {
            reveal_with_fuel(node_ids, 2);
            assert(node_ids(r) =~= seq![g_next]);
        }
        r
    }

    pub fn make_function(name: usize, signature: Type, body: AstNode, ids: &mut NodeCounter) -> (r:
        AstNode)
        ensures
            r.model() == (AstM::Function {
                name,
                signature: signature.model(),
                body: Box::new(body.model()),
            }),
            r is Function && r->Function_id == NodeId(old(ids).next),
            final(ids).next == next_id(old(ids).next),
            node_ids(r) == seq![old(ids).next] + node_ids(body),
    {
        let ghost g_next = ids.next;
        let ghost g_body = body;
        let r = {
            let body = Box::new(body);
            let id = Self::get_node_id(ids);
            AstNode::Function { id, name, signature, body }
        };
        proof {
            reveal_with_fuel(node_ids, 2);
            assert(node_ids(r) =~= seq![g_next] + node_ids(g_body));
        }
        r
    }

    pub fn make_assignment(lvalue: usize, expr: AstNode, ids: &mut NodeCounter) -> (r: AstNode)
        ensures
            r.model() == AstM::Expr(
                ExprM::Assignment { lvalue, rvalue: Box::new(expr.model()) },
            ),
            r is Expr && r->Expr_id == NodeId(old(ids).next),
            final(ids).next == next_id(old(ids).next),
            node_ids(r) == seq![old(ids).next] + node_ids(expr),
    {
        let ghost g_next = ids.next;
        let ghost g_expr = expr;
        let r = {
            let rvalue = Box::new(expr);
            AstNode::make_expr(ExprKind::Assignment { lvalue, rvalue }, ids)
        };
        proof {
            reveal_with_fuel(node_ids, 2);
            assert(node_ids(r) =~= seq![g_next] + node_ids(g_expr));
        }
        r
    }

    pub fn make_return(expr: AstNode) -> (r: AstNode)
        ensures
            r.model() == AstM::Return(Box::new(expr.model())),
            node_ids(r) == node_ids(expr),
    {
        let ghost g_expr = expr;
        let r = {
            AstNode::Return(Box::new(expr))
        };
        proof {
            assert(node_ids(r) =~= node_ids(g_expr));
        }
        r
    }

    pub fn make_if(cond: AstNode, true_branch: AstNode, false_branch: AstNode) -> (r: AstNode)
        ensures
            r.model() == (AstM::If {
                cond: Box::new(cond.model()),
                t_branch: Box::new(true_branch.model()),
                f_branch: Box::new(false_branch.model()),
            }),
            node_ids(r) == node_ids(cond) + node_ids(true_branch) + node_ids(false_branch),
    {
        let ghost g_cond = cond;
        let ghost g_true_branch = true_branch;
        let ghost g_false_branch = false_branch;
        let r = {
            let cond = Box::new(cond);
            let t_branch = Box::new(true_branch);
            let f_branch = Box::new(false_branch);
            AstNode::If { cond, t_branch, f_branch }
        };
        proof {
            assert(node_ids(r) =~= node_ids(g_cond) + node_ids(g_true_branch) + node_ids(g_false_branch));
        }
        r
    }

    pub fn make_for(assign: Vec<AstNode>, cond: AstNode, post_op: Vec<AstNode>, body: AstNode) -> (r:
        AstNode)
        ensures
            r.model() == (AstM::For {
                assign: nodes_model(assign),
                cond: Box::new(cond.model()),
                post_op: nodes_model(post_op),
                body: Box::new(body.model()),
            }),
            node_ids(r) == nodes_ids(assign, assign@.len() as int) + node_ids(cond) + nodes_ids(post_op, post_op@.len() as int) + node_ids(body),
    {
        let ghost g_assign = assign;
        let ghost g_cond = cond;
        let ghost g_post_op = post_op;
        let ghost g_body = body;
        let r = {
            let cond = Box::new(cond);
            let body = Box::new(body);
            AstNode::For { assign, cond, post_op, body }
        };
        proof {
            assert(node_ids(r) =~= nodes_ids(g_assign, g_assign@.len() as int) + node_ids(g_cond) + nodes_ids(g_post_op, g_post_op@.len() as int) + node_ids(g_body));
        }
        r
    }
}

// ---------------------------------------------------------------------------
// Node identities in a tree
// ---------------------------------------------------------------------------

/// The identities carried by the nodes of a tree, each node's own before
/// those of its children.
pub open spec fn node_ids(n: AstNode) -> Seq<usize>
    decreases n, 1int,
{
    match n {
        AstNode::Expr { id, kind } => seq![id.0] + kind_ids(kind),
        AstNode::Ident { id, .. } => seq![id.0],
        AstNode::ArrayInitializer(v) => nodes_ids(v, v@.len() as int),
        AstNode::VarDecl { id, init, .. } => seq![id.0] + match init {
            Some(b) => node_ids(*b),
            None => seq![],
        },
        AstNode::Function { id, body, .. } => seq![id.0] + node_ids(*body),
        AstNode::ForwardFunction { id, .. } => seq![id.0],
        AstNode::EmptyBlock => seq![],
        AstNode::Block(v) => nodes_ids(v, v@.len() as int),
        AstNode::If { cond, t_branch, f_branch } => node_ids(*cond) + node_ids(*t_branch) + node_ids(
            *f_branch,
        ),
        AstNode::For { assign, cond, post_op, body } => nodes_ids(assign, assign@.len() as int)
            + node_ids(*cond) + nodes_ids(post_op, post_op@.len() as int) + node_ids(*body),
        AstNode::Print(v) => nodes_ids(v, v@.len() as int),
        AstNode::VoidReturn => seq![],
        AstNode::Return(e) => node_ids(*e),
    }
}

/// The identities in the operands of an expression.
pub open spec fn kind_ids(k: ExprKind) -> Seq<usize>
    decreases k, 1int,
{
    match k {
        ExprKind::Unary(_, e) => node_ids(*e),
        ExprKind::Binary { left, right, .. } => node_ids(*left) + node_ids(*right),
        ExprKind::Assignment { rvalue, .. } => node_ids(*rvalue),
        ExprKind::FuncCall { params, .. } => nodes_ids(params, params@.len() as int),
        ExprKind::Subscript { index, .. } => nodes_ids(index, index@.len() as int),
        _ => seq![],
    }
}

/// The identities in the first `k` nodes of `v`, in order.
pub open spec fn nodes_ids(v: Vec<AstNode>, k: int) -> Seq<usize>
    decreases v, k,
{
    if k <= 0 || k > v@.len() {
        seq![]
    } else {
        proof {
            vstd::std_specs::vec::axiom_vec_index_decreases(v, k - 1);
        }
        nodes_ids(v, k - 1) + node_ids(v@[k - 1])
    }
}

/// The identities in `s` are all different and all lie in `[lo, hi)`.
pub open spec fn ids_fresh(s: Seq<usize>, lo: int, hi: int) -> bool {
    &&& s.no_duplicates()
    &&& forall|i: int| 0 <= i < s.len() ==> lo <= #[trigger] s[i] < hi
}

/// Identities drawn from two ranges one after the other are all different.
pub proof fn lemma_ids_fresh_concat(a: Seq<usize>, b: Seq<usize>, lo: int, mid: int, hi: int)
    requires
        ids_fresh(a, lo, mid),
        ids_fresh(b, mid, hi),
        lo <= mid <= hi,
    ensures
        ids_fresh(a + b, lo, hi),
{
    let c = a + b;
    assert forall|i: int, j: int| 0 <= i < c.len() && 0 <= j < c.len() && i != j implies c[i]
        != c[j] by {
        if i < a.len() && j >= a.len() {
            assert(c[j] == b[j - a.len()]);
        } else if j < a.len() && i >= a.len() {
            assert(c[i] == b[i - a.len()]);
        } else if i >= a.len() && j >= a.len() {
            assert(c[i] == b[i - a.len()] && c[j] == b[j - a.len()]);
        }
    }
    assert forall|i: int| 0 <= i < c.len() implies lo <= #[trigger] c[i] < hi by {
        if i >= a.len() {
            assert(c[i] == b[i - a.len()]);
            assert(mid <= b[i - a.len()] < hi);
        } else {
            assert(c[i] == a[i]);
            assert(lo <= a[i] < mid);
        }
    }
}

/// A node's own identity, handed out after those of its children, is new.
pub proof fn lemma_ids_fresh_cons(a: usize, xs: Seq<usize>, lo: int)
    requires
        ids_fresh(xs, lo, a as int),
        lo <= a,
    ensures
        ids_fresh(seq![a] + xs, lo, a + 1),
{
    let c = seq![a] + xs;
    assert forall|i: int| 0 <= i < c.len() implies lo <= #[trigger] c[i] < a + 1 by {
        if i > 0 {
            assert(c[i] == xs[i - 1]);
        }
    }
    assert forall|i: int, j: int| 0 <= i < c.len() && 0 <= j < c.len() && i != j implies c[i]
        != c[j] by {
        if i > 0 && j > 0 {
            assert(c[i] == xs[i - 1] && c[j] == xs[j - 1]);
        } else if i > 0 {
            assert(c[i] == xs[i - 1]);
        } else {
            assert(c[j] == xs[j - 1]);
        }
    }
}

/// A node built over two operands, drawn from consecutive ranges, has
/// identities all different.
pub proof fn lemma_ids_fresh_node2(a: usize, l: Seq<usize>, r: Seq<usize>, lo: int, mid: int)
    requires
        ids_fresh(l, lo, mid),
        ids_fresh(r, mid, a as int),
        lo <= mid <= a,
    ensures
        ids_fresh(seq![a] + l + r, lo, a + 1),
{
    lemma_ids_fresh_concat(l, r, lo, mid, a as int);
    lemma_ids_fresh_cons(a, l + r, lo);
    assert(seq![a] + l + r =~= seq![a] + (l + r));
}

/// A range that holds the identities holds them within any wider range.
pub proof fn lemma_ids_fresh_widen(a: Seq<usize>, lo: int, hi: int, lo2: int, hi2: int)
    requires
        ids_fresh(a, lo, hi),
        lo2 <= lo,
        hi <= hi2,
    ensures
        ids_fresh(a, lo2, hi2),
{
}

/// The identities of the nodes of a vector depend only on the nodes.
pub proof fn lemma_nodes_ids_prefix(v1: Vec<AstNode>, v2: Vec<AstNode>, k: int)
    requires
        0 <= k <= v1@.len(),
        k <= v2@.len(),
        v1@.subrange(0, k) == v2@.subrange(0, k),
    ensures
        nodes_ids(v1, k) == nodes_ids(v2, k),
    decreases k,
{
    if k > 0 {
        assert(v1@[k - 1] == v1@.subrange(0, k)[k - 1]);
        assert(v2@[k - 1] == v2@.subrange(0, k)[k - 1]);
        assert(v1@.subrange(0, k - 1) == v1@.subrange(0, k).subrange(0, k - 1));
        assert(v2@.subrange(0, k - 1) == v2@.subrange(0, k).subrange(0, k - 1));
        lemma_nodes_ids_prefix(v1, v2, k - 1);
    }
}

/// Pushing a node onto a vector adds its identities at the end.
pub proof fn lemma_nodes_ids_push(v1: Vec<AstNode>, v2: Vec<AstNode>, x: AstNode)
    requires
        v2@ == v1@.push(x),
    ensures
        nodes_ids(v2, v2@.len() as int) == nodes_ids(v1, v1@.len() as int) + node_ids(x),
{
    assert(v1@.subrange(0, v1@.len() as int) =~= v2@.subrange(0, v1@.len() as int));
    lemma_nodes_ids_prefix(v1, v2, v1@.len() as int);
}

/// An empty vector carries no identities.
pub proof fn lemma_nodes_ids_empty(v: Vec<AstNode>)
    requires
        v@.len() == 0,
    ensures
        nodes_ids(v, 0) == Seq::<usize>::empty(),
{
}

/// The model of a node shows which kind of expression, if any, the node is.
pub proof fn lemma_expr_shape(n: AstNode)
    ensures
        (n.model() matches AstM::Expr(ExprM::Ident(_))) == (n matches AstNode::Expr {
            kind: ExprKind::Ident(_),
            ..
        }),
        (n.model() matches AstM::Expr(ExprM::Subscript { .. })) == (n matches AstNode::Expr {
            kind: ExprKind::Subscript { .. },
            ..
        }),
        (n.model() matches AstM::Expr(ExprM::Assignment { .. })) == (n matches AstNode::Expr {
            kind: ExprKind::Assignment { .. },
            ..
        }),
        n matches AstNode::Expr { kind: ExprKind::Ident(y), .. } ==> n.model() == AstM::Expr(
            ExprM::Ident(y),
        ),
        (n.model() is Expr) == (n is Expr),
        (n.model() is VarDecl) == (n is VarDecl),
        (n.model() is Block) == (n is Block),
        (n.model() is EmptyBlock) == (n is EmptyBlock),
{
    match n {
        AstNode::Expr { kind, .. } => {
            assert(n.model() == AstM::Expr(kind.model()));
            match kind {
                ExprKind::Ident(x) => {
                    assert(kind.model() == ExprM::Ident(x));
                },
                ExprKind::Subscript { name, index } => {
                    assert(kind.model() == ExprM::Subscript { name, index: nodes_model(index) });
                },
                ExprKind::Assignment { lvalue, rvalue } => {
                    assert(kind.model() == ExprM::Assignment { lvalue, rvalue: Box::new((*rvalue).model()) });
                },
                _ => {
                    assert(!(kind.model() is Ident) && !(kind.model() is Subscript) && !(kind.model() is Assignment));
                },
            }
        },
        _ => {},
    }
}

/// The expression a literal token stands for, if it is a literal.
pub open spec fn literal_of(k: TokenKind) -> Option<ExprM> {
    match k {
        TokenKind::IntLit(v) => Some(ExprM::IntLit(v)),
        TokenKind::CharLit(c) => Some(ExprM::CharLit(c)),
        TokenKind::StringLit(i) => Some(ExprM::StringLit(i)),
        TokenKind::True => Some(ExprM::BoolVal(true)),
        TokenKind::False => Some(ExprM::BoolVal(false)),
        _ => None,
    }
}

/// The binary operator a token stands for, if any.
pub open spec fn binary_op_of(k: TokenKind) -> Option<BinaryOp> {
    match k {
        TokenKind::And => Some(BinaryOp::And),
        TokenKind::Or => Some(BinaryOp::Or),
        TokenKind::Plus => Some(BinaryOp::Add),
        TokenKind::Minus => Some(BinaryOp::Sub),
        TokenKind::Star => Some(BinaryOp::Mul),
        TokenKind::Slash => Some(BinaryOp::Div),
        TokenKind::Mod => Some(BinaryOp::Mod),
        TokenKind::Caret => Some(BinaryOp::Pow),
        TokenKind::Eql => Some(BinaryOp::Eql),
        TokenKind::Neq => Some(BinaryOp::Neq),
        TokenKind::Lss => Some(BinaryOp::Lss),
        TokenKind::Leq => Some(BinaryOp::Lte),
        TokenKind::Gtr => Some(BinaryOp::Grt),
        TokenKind::Geq => Some(BinaryOp::Gte),
        _ => None,
    }
}

/// Model of [`AstNode::make_subscript`].
pub open spec fn subscript_model(node: AstM, new_index: AstM) -> AstM {
    match node {
        AstM::Expr(ExprM::Ident(name)) => AstM::Expr(
            ExprM::Subscript { name, index: seq![new_index] },
        ),
        AstM::Expr(ExprM::Subscript { name, index }) => AstM::Expr(
            ExprM::Subscript { name, index: index.push(new_index) },
        ),
        _ => node,
    }
}


// ---------------------------------------------------------------------------
// Equality and copies
// ---------------------------------------------------------------------------

/// Two trees are equal when they have the same shape and contents, node
/// identities aside; types are compared as the language compares them.
pub open spec fn ast_equiv(a: AstM, b: AstM) -> bool
    decreases a,
{
    match a {
        AstM::Expr(x) => match b {
            AstM::Expr(y) => expr_equiv(x, y),
            _ => false,
        },
        AstM::Ident(x) => b == AstM::Ident(x),
        AstM::ArrayInitializer(x) => match b {
            AstM::ArrayInitializer(y) => seq_equiv(x, y),
            _ => false,
        },
        AstM::VarDecl { name, dtype, init } => match b {
            AstM::VarDecl { name: name2, dtype: dtype2, init: init2 } => name == name2
                && type_compat(dtype, dtype2) && match init {
                Some(i) => match init2 {
                    Some(i2) => ast_equiv(*i, *i2),
                    None => false,
                },
                None => init2 is None,
            },
            _ => false,
        },
        AstM::Function { name, signature, body } => match b {
            AstM::Function { name: name2, signature: signature2, body: body2 } => name == name2
                && type_compat(signature, signature2) && ast_equiv(*body, *body2),
            _ => false,
        },
        AstM::ForwardFunction { name, signature } => match b {
            AstM::ForwardFunction { name: name2, signature: signature2 } => name == name2
                && type_compat(signature, signature2),
            _ => false,
        },
        AstM::EmptyBlock => b is EmptyBlock,
        AstM::Block(x) => match b {
            AstM::Block(y) => seq_equiv(x, y),
            _ => false,
        },
        AstM::If { cond, t_branch, f_branch } => match b {
            AstM::If { cond: cond2, t_branch: t_branch2, f_branch: f_branch2 } => ast_equiv(
                *cond,
                *cond2,
            ) && ast_equiv(*t_branch, *t_branch2) && ast_equiv(*f_branch, *f_branch2),
            _ => false,
        },
        AstM::For { assign, cond, post_op, body } => match b {
            AstM::For { assign: assign2, cond: cond2, post_op: post_op2, body: body2 } => seq_equiv(
                assign,
                assign2,
            ) && ast_equiv(*cond, *cond2) && seq_equiv(post_op, post_op2) && ast_equiv(
                *body,
                *body2,
            ),
            _ => false,
        },
        AstM::Print(x) => match b {
            AstM::Print(y) => seq_equiv(x, y),
            _ => false,
        },
        AstM::VoidReturn => b is VoidReturn,
        AstM::Return(x) => match b {
            AstM::Return(y) => ast_equiv(*x, *y),
            _ => false,
        },
    }
}

/// [`ast_equiv`] on expressions.
pub open spec fn expr_equiv(a: ExprM, b: ExprM) -> bool
    decreases a,
{
    match a {
        ExprM::Unary(op, e) => match b {
            ExprM::Unary(op2, e2) => op == op2 && ast_equiv(*e, *e2),
            _ => false,
        },
        ExprM::Binary { left, op, right } => match b {
            ExprM::Binary { left: left2, op: op2, right: right2 } => op == op2 && ast_equiv(
                *left,
                *left2,
            ) && ast_equiv(*right, *right2),
            _ => false,
        },
        ExprM::Assignment { lvalue, rvalue } => match b {
            ExprM::Assignment { lvalue: lvalue2, rvalue: rvalue2 } => lvalue == lvalue2
                && ast_equiv(*rvalue, *rvalue2),
            _ => false,
        },
        ExprM::FuncCall { name, params } => match b {
            ExprM::FuncCall { name: name2, params: params2 } => name == name2 && seq_equiv(
                params,
                params2,
            ),
            _ => false,
        },
        ExprM::Subscript { name, index } => match b {
            ExprM::Subscript { name: name2, index: index2 } => name == name2 && seq_equiv(
                index,
                index2,
            ),
            _ => false,
        },
        _ => a == b,
    }
}

/// [`ast_equiv`] element by element.
pub open spec fn seq_equiv(a: Seq<AstM>, b: Seq<AstM>) -> bool
    decreases a,
{
    a.len() == b.len() && forall|i: int| 0 <= i < a.len() ==> ast_equiv(#[trigger] a[i], b[i])
}

/// Compares two trees as [`ast_equiv`] does.
pub fn node_eq(a: &AstNode, b: &AstNode) -> (r: bool)
    ensures
        r == ast_equiv(a.model(), b.model()),
    decreases a, 0int,
{
    match a {
        AstNode::Expr { kind, .. } => match b {
            AstNode::Expr { kind: kind2, .. } => kind_eq(kind, kind2),
            _ => false,
        },
        AstNode::Ident { name, .. } => match b {
            AstNode::Ident { name: name2, .. } => *name == *name2,
            _ => false,
        },
        AstNode::ArrayInitializer(x) => match b {
            AstNode::ArrayInitializer(y) => nodes_eq(x, y),
            _ => false,
        },
        AstNode::VarDecl { name, dtype, init, .. } => match b {
            AstNode::VarDecl { name: name2, dtype: dtype2, init: init2, .. } => {
                if *name != *name2 || !type_eq(dtype, dtype2) {
                    false
                } else {
                    match init {
                        Some(i) => match init2 {
                            Some(i2) => node_eq(i, i2),
                            None => false,
                        },
                        None => init2.is_none(),
                    }
                }
            },
            _ => false,
        },
        AstNode::Function { name, signature, body, .. } => match b {
            AstNode::Function { name: name2, signature: signature2, body: body2, .. } => *name
                == *name2 && type_eq(signature, signature2) && node_eq(body, body2),
            _ => false,
        },
        AstNode::ForwardFunction { name, signature, .. } => match b {
            AstNode::ForwardFunction { name: name2, signature: signature2, .. } => *name == *name2
                && type_eq(signature, signature2),
            _ => false,
        },
        AstNode::EmptyBlock => match b {
            AstNode::EmptyBlock => true,
            _ => false,
        },
        AstNode::Block(x) => match b {
            AstNode::Block(y) => nodes_eq(x, y),
            _ => false,
        },
        AstNode::If { cond, t_branch, f_branch } => match b {
            AstNode::If { cond: cond2, t_branch: t_branch2, f_branch: f_branch2 } => node_eq(
                cond,
                cond2,
            ) && node_eq(t_branch, t_branch2) && node_eq(f_branch, f_branch2),
            _ => false,
        },
        AstNode::For { assign, cond, post_op, body } => match b {
            AstNode::For { assign: assign2, cond: cond2, post_op: post_op2, body: body2 } => nodes_eq(
                assign,
                assign2,
            ) && node_eq(cond, cond2) && nodes_eq(post_op, post_op2) && node_eq(body, body2),
            _ => false,
        },
        AstNode::Print(x) => match b {
            AstNode::Print(y) => nodes_eq(x, y),
            _ => false,
        },
        AstNode::VoidReturn => match b {
            AstNode::VoidReturn => true,
            _ => false,
        },
        AstNode::Return(x) => match b {
            AstNode::Return(y) => node_eq(x, y),
            _ => false,
        },
    }
}

/// Compares two expressions as [`expr_equiv`] does.
pub fn kind_eq(a: &ExprKind, b: &ExprKind) -> (r: bool)
    ensures
        r == expr_equiv(a.model(), b.model()),
    decreases a, 0int,
{
    match a {
        ExprKind::Ident(x) => match b {
            ExprKind::Ident(y) => *x == *y,
            _ => false,
        },
        ExprKind::BoolVal(x) => match b {
            ExprKind::BoolVal(y) => *x == *y,
            _ => false,
        },
        ExprKind::CharLit(x) => match b {
            ExprKind::CharLit(y) => *x == *y,
            _ => false,
        },
        ExprKind::IntLit(x) => match b {
            ExprKind::IntLit(y) => *x == *y,
            _ => false,
        },
        ExprKind::StringLit(x) => match b {
            ExprKind::StringLit(y) => *x == *y,
            _ => false,
        },
        ExprKind::Incr(x) => match b {
            ExprKind::Incr(y) => *x == *y,
            _ => false,
        },
        ExprKind::Decr(x) => match b {
            ExprKind::Decr(y) => *x == *y,
            _ => false,
        },
        ExprKind::Unary(op, e) => match b {
            ExprKind::Unary(op2, e2) => *op == *op2 && node_eq(e, e2),
            _ => false,
        },
        ExprKind::Binary { left, op, right } => match b {
            ExprKind::Binary { left: left2, op: op2, right: right2 } => *op == *op2 && node_eq(
                left,
                left2,
            ) && node_eq(right, right2),
            _ => false,
        },
        ExprKind::Assignment { lvalue, rvalue } => match b {
            ExprKind::Assignment { lvalue: lvalue2, rvalue: rvalue2 } => *lvalue == *lvalue2
                && node_eq(rvalue, rvalue2),
            _ => false,
        },
        ExprKind::FuncCall { name, params } => match b {
            ExprKind::FuncCall { name: name2, params: params2 } => *name == *name2 && nodes_eq(
                params,
                params2,
            ),
            _ => false,
        },
        ExprKind::Subscript { name, index } => match b {
            ExprKind::Subscript { name: name2, index: index2 } => *name == *name2 && nodes_eq(
                index,
                index2,
            ),
            _ => false,
        },
    }
}

/// Compares two vectors of trees element by element.
pub fn nodes_eq(a: &Vec<AstNode>, b: &Vec<AstNode>) -> (r: bool)
    ensures
        r == seq_equiv(nodes_model(*a), nodes_model(*b)),
    decreases a, 0int,
{
    if a.len() != b.len() {
        return false;
    }
    let mut i: usize = 0;
    while i < a.len()
        invariant
            i <= a@.len(),
            a@.len() == b@.len(),
            forall|j: int| 0 <= j < i ==> ast_equiv(#[trigger] nodes_model(*a)[j], nodes_model(*b)[j]),
        decreases a@.len() - i,
    {
        proof {
            vstd::std_specs::vec::axiom_vec_index_decreases(*a, i as int);
        }
        if !node_eq(&a[i], &b[i]) {
            assert(!ast_equiv(nodes_model(*a)[i as int], nodes_model(*b)[i as int]));
            return false;
        }
        i += 1;
    }
    true
}

impl PartialEq for AstNode {
    fn eq(&self, other: &Self) -> (r: bool) {
        node_eq(self, other)
    }
}

impl vstd::std_specs::cmp::PartialEqSpecImpl for AstNode {
    open spec fn obeys_eq_spec() -> bool {
        true
    }

    open spec fn eq_spec(&self, other: &Self) -> bool {
        ast_equiv(self.model(), other.model())
    }
}

impl Eq for AstNode {

}

impl PartialEq for ExprKind {
    fn eq(&self, other: &Self) -> (r: bool) {
        kind_eq(self, other)
    }
}

impl vstd::std_specs::cmp::PartialEqSpecImpl for ExprKind {
    open spec fn obeys_eq_spec() -> bool {
        true
    }

    open spec fn eq_spec(&self, other: &Self) -> bool {
        expr_equiv(self.model(), other.model())
    }
}

impl Eq for ExprKind {

}

/// A copy of a tree, node identities included.
pub fn clone_node(n: &AstNode) -> (r: AstNode)
    ensures
        r.model() == n.model(),
    decreases n, 0int,
{
    match n {
        AstNode::Expr { id, kind } => AstNode::Expr { id: *id, kind: clone_kind(kind) },
        AstNode::Ident { id, name } => AstNode::Ident { id: *id, name: *name },
        AstNode::ArrayInitializer(v) => AstNode::ArrayInitializer(clone_nodes(v)),
        AstNode::VarDecl { id, name, dtype, init } => {
            let init = match init {
                Some(i) => Some(Box::new(clone_node(i))),
                None => None,
            };
            AstNode::VarDecl { id: *id, name: *name, dtype: clone_type(dtype), init }
        },
        AstNode::Function { id, name, signature, body } => AstNode::Function {
            id: *id,
            name: *name,
            signature: clone_type(signature),
            body: Box::new(clone_node(body)),
        },
        AstNode::ForwardFunction { id, name, signature } => AstNode::ForwardFunction {
            id: *id,
            name: *name,
            signature: clone_type(signature),
        },
        AstNode::EmptyBlock => AstNode::EmptyBlock,
        AstNode::Block(v) => AstNode::Block(clone_nodes(v)),
        AstNode::If { cond, t_branch, f_branch } => AstNode::If {
            cond: Box::new(clone_node(cond)),
            t_branch: Box::new(clone_node(t_branch)),
            f_branch: Box::new(clone_node(f_branch)),
        },
        AstNode::For { assign, cond, post_op, body } => AstNode::For {
            assign: clone_nodes(assign),
            cond: Box::new(clone_node(cond)),
            post_op: clone_nodes(post_op),
            body: Box::new(clone_node(body)),
        },
        AstNode::Print(v) => AstNode::Print(clone_nodes(v)),
        AstNode::VoidReturn => AstNode::VoidReturn,
        AstNode::Return(e) => AstNode::Return(Box::new(clone_node(e))),
    }
}

/// A copy of an expression.
pub fn clone_kind(k: &ExprKind) -> (r: ExprKind)
    ensures
        r.model() == k.model(),
    decreases k, 0int,
{
    match k {
        ExprKind::Ident(x) => ExprKind::Ident(*x),
        ExprKind::BoolVal(x) => ExprKind::BoolVal(*x),
        ExprKind::CharLit(x) => ExprKind::CharLit(*x),
        ExprKind::IntLit(x) => ExprKind::IntLit(*x),
        ExprKind::StringLit(x) => ExprKind::StringLit(*x),
        ExprKind::Incr(x) => ExprKind::Incr(*x),
        ExprKind::Decr(x) => ExprKind::Decr(*x),
        ExprKind::Unary(op, e) => ExprKind::Unary(*op, Box::new(clone_node(e))),
        ExprKind::Binary { left, op, right } => ExprKind::Binary {
            left: Box::new(clone_node(left)),
            op: *op,
            right: Box::new(clone_node(right)),
        },
        ExprKind::Assignment { lvalue, rvalue } => ExprKind::Assignment {
            lvalue: *lvalue,
            rvalue: Box::new(clone_node(rvalue)),
        },
        ExprKind::FuncCall { name, params } => ExprKind::FuncCall {
            name: *name,
            params: clone_nodes(params),
        },
        ExprKind::Subscript { name, index } => ExprKind::Subscript {
            name: *name,
            index: clone_nodes(index),
        },
    }
}

/// A copy of a vector of trees.
pub fn clone_nodes(v: &Vec<AstNode>) -> (r: Vec<AstNode>)
    ensures
        nodes_model(r) == nodes_model(*v),
    decreases v, 0int,
{
    let mut r: Vec<AstNode> = Vec::new();
    let mut i: usize = 0;
    while i < v.len()
        invariant
            i <= v@.len(),
            r@.len() == i,
            forall|j: int| 0 <= j < i ==> #[trigger] r@[j].model() == v@[j].model(),
        decreases v@.len() - i,
    {
        proof {
            vstd::std_specs::vec::axiom_vec_index_decreases(*v, i as int);
        }
        let c = clone_node(&v[i]);
        let ghost old_r = r;
        r.push(c);
        assert(forall|j: int| 0 <= j < i ==> r@[j] == old_r@[j]);
        i += 1;
    }
    assert(nodes_model(r) =~= nodes_model(*v)) by {
        assert forall|j: int| 0 <= j < v@.len() implies nodes_model(r)[j] == nodes_model(*v)[j] by {
            assert(r@[j].model() == v@[j].model());
        }
    }
    r
}

impl Clone for AstNode {
    fn clone(&self) -> (r: Self)
        ensures
            r.model() == self.model(),
    {
        clone_node(self)
    }
}

impl Clone for ExprKind {
    fn clone(&self) -> (r: Self)
        ensures
            r.model() == self.model(),
    {
        clone_kind(self)
    }
}


/// How a binary operator is written.
pub open spec fn op_text(op: BinaryOp) -> Seq<char> {
    match op {
        BinaryOp::And => "&&"@,
        BinaryOp::Or => "||"@,
        BinaryOp::Add => "+"@,
        BinaryOp::Sub => "-"@,
        BinaryOp::Mul => "*"@,
        BinaryOp::Div => "/"@,
        BinaryOp::Mod => "%"@,
        BinaryOp::Pow => "^"@,
        BinaryOp::Eql => "=="@,
        BinaryOp::Neq => "!="@,
        BinaryOp::Lss => "<"@,
        BinaryOp::Lte => "<="@,
        BinaryOp::Grt => ">"@,
        BinaryOp::Gte => ">="@,
    }
}

impl BinaryOp {
    /// How the operator is written.
    pub fn to_string(&self) -> (r: String)
        ensures
            r@ == op_text(*self),
    {
        let text: &str = match self {
            BinaryOp::And => "&&",
            BinaryOp::Or => "||",
            BinaryOp::Add => "+",
            BinaryOp::Sub => "-",
            BinaryOp::Mul => "*",
            BinaryOp::Div => "/",
            BinaryOp::Mod => "%",
            BinaryOp::Pow => "^",
            BinaryOp::Eql => "==",
            BinaryOp::Neq => "!=",
            BinaryOp::Lss => "<",
            BinaryOp::Lte => "<=",
            BinaryOp::Grt => ">",
            BinaryOp::Gte => ">=",
        };
        text.to_owned()
    }
}

} // verus!
