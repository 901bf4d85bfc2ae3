use vstd::prelude::*;

use crate::operator::Operator;

verus! {

/// An expression tree: a numeric literal, or an operator with both operands.
/// Every operator node owns its two subtrees, so no node lacks a child.
#[derive(Debug)]
pub enum AST {
    Num(Vec<char>),
    Oper(Operator, Box<AST>, Box<AST>),
}

/// The mathematical model of an expression tree.
pub enum Expr {
    Num(Seq<char>),
    Oper(Operator, Box<Expr>, Box<Expr>),
}

impl View for AST {
    type V = Expr;

    open spec fn view(&self) -> Expr
        decreases self,
    {
        match self {
            AST::Num(d) => Expr::Num(d@),
            AST::Oper(op, l, r) => Expr::Oper(*op, Box::new((**l)@), Box::new((**r)@)),
        }
    }
}

/// The tree `op(left, right)` of the model.
pub open spec fn oper(op: Operator, left: Expr, right: Expr) -> Expr {
    Expr::Oper(op, Box::new(left), Box::new(right))
}

} // verus!
