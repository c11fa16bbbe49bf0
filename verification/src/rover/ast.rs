//! The syntax tree of Rover programs.

use vstd::prelude::*;

verus! {

/// A node of the syntax tree.
pub enum ASTNode {
    Literal(String),
    Identifier(String),
    Field(String),
    Assign(String, Box<ASTNode>),
    Or(Box<ASTNode>, Box<ASTNode>),
    And(Box<ASTNode>, Box<ASTNode>),
    Eq(Box<ASTNode>, Box<ASTNode>),
    Ne(Box<ASTNode>, Box<ASTNode>),
    Lt(Box<ASTNode>, Box<ASTNode>),
    Le(Box<ASTNode>, Box<ASTNode>),
    Gt(Box<ASTNode>, Box<ASTNode>),
    Ge(Box<ASTNode>, Box<ASTNode>),
    Add(Box<ASTNode>, Box<ASTNode>),
    Sub(Box<ASTNode>, Box<ASTNode>),
    Mul(Box<ASTNode>, Box<ASTNode>),
    Div(Box<ASTNode>, Box<ASTNode>),
    IfElse(Box<ASTNode>, Vec<ASTNode>, Vec<ASTNode>),
    WhileLoop(Box<ASTNode>, Vec<ASTNode>),
    Call(String, Vec<ASTNode>),
    GlobalDataAddr(String),
}

/// The syntax tree as a mathematical value.
pub enum Ast {
    Literal(Seq<char>),
    Identifier(Seq<char>),
    Field(Seq<char>),
    Assign(Seq<char>, Box<Ast>),
    Or(Box<Ast>, Box<Ast>),
    And(Box<Ast>, Box<Ast>),
    Eq(Box<Ast>, Box<Ast>),
    Ne(Box<Ast>, Box<Ast>),
    Lt(Box<Ast>, Box<Ast>),
    Le(Box<Ast>, Box<Ast>),
    Gt(Box<Ast>, Box<Ast>),
    Ge(Box<Ast>, Box<Ast>),
    Add(Box<Ast>, Box<Ast>),
    Sub(Box<Ast>, Box<Ast>),
    Mul(Box<Ast>, Box<Ast>),
    Div(Box<Ast>, Box<Ast>),
    IfElse(Box<Ast>, Seq<Ast>, Seq<Ast>),
    WhileLoop(Box<Ast>, Seq<Ast>),
    Call(Seq<char>, Seq<Ast>),
    GlobalDataAddr(Seq<char>),
}

/// The syntax trees of a sequence of nodes.
pub open spec fn asts(v: Seq<ASTNode>) -> Seq<Ast>
    decreases v,
{
    Seq::new(
        v.len(),
        |i: int|
            if 0 <= i < v.len() {
                v[i].to_ast()
            } else {
                Ast::Literal(Seq::empty())
            },
    )
}

impl ASTNode {
    /// The syntax tree of this node.
    pub open spec fn to_ast(&self) -> Ast
        decreases self,
    {
        match self {
            ASTNode::Literal(s) => Ast::Literal(s@),
            ASTNode::Identifier(s) => Ast::Identifier(s@),
            ASTNode::Field(s) => Ast::Field(s@),
            ASTNode::Assign(s, e) => Ast::Assign(s@, Box::new(e.to_ast())),
            ASTNode::Or(a, b) => Ast::Or(Box::new(a.to_ast()), Box::new(b.to_ast())),
            ASTNode::And(a, b) => Ast::And(Box::new(a.to_ast()), Box::new(b.to_ast())),
            ASTNode::Eq(a, b) => Ast::Eq(Box::new(a.to_ast()), Box::new(b.to_ast())),
            ASTNode::Ne(a, b) => Ast::Ne(Box::new(a.to_ast()), Box::new(b.to_ast())),
            ASTNode::Lt(a, b) => Ast::Lt(Box::new(a.to_ast()), Box::new(b.to_ast())),
            ASTNode::Le(a, b) => Ast::Le(Box::new(a.to_ast()), Box::new(b.to_ast())),
            ASTNode::Gt(a, b) => Ast::Gt(Box::new(a.to_ast()), Box::new(b.to_ast())),
            ASTNode::Ge(a, b) => Ast::Ge(Box::new(a.to_ast()), Box::new(b.to_ast())),
            ASTNode::Add(a, b) => Ast::Add(Box::new(a.to_ast()), Box::new(b.to_ast())),
            ASTNode::Sub(a, b) => Ast::Sub(Box::new(a.to_ast()), Box::new(b.to_ast())),
            ASTNode::Mul(a, b) => Ast::Mul(Box::new(a.to_ast()), Box::new(b.to_ast())),
            ASTNode::Div(a, b) => Ast::Div(Box::new(a.to_ast()), Box::new(b.to_ast())),
            ASTNode::IfElse(c, t, e) => Ast::IfElse(
                Box::new(c.to_ast()),
                asts(t@),
                asts(e@),
            ),
            ASTNode::WhileLoop(c, b) => Ast::WhileLoop(
                Box::new(c.to_ast()),
                asts(b@),
            ),
            ASTNode::Call(n, args) => Ast::Call(
                n@,
                asts(args@),
            ),
            ASTNode::GlobalDataAddr(s) => Ast::GlobalDataAddr(s@),
        }
    }
}

} // verus!
