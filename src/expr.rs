use vstd::prelude::*;
use crate::error::CfgError;
use crate::token::{Object, Token};

verus! {

/// An expression of the language's syntax tree.
pub enum Expr {
    Binary(BinaryExpr),
    Grouping(GroupingExpr),
    Literal(LiteralExpr),
    Unary(UnaryExpr),
}

pub struct BinaryExpr {
    pub left: Box<Expr>,
    pub operator: Token,
    pub right: Box<Expr>,
}

pub struct GroupingExpr {
    pub expression: Box<Expr>,
}

pub struct LiteralExpr {
    pub value: Object,
}

pub struct UnaryExpr {
    pub operator: Token,
    pub right: Box<Expr>,
}

/// An operation over expressions, one method per node kind.
pub trait ExprVisitor<T> {
    fn visit_binary_expr(&self, expr: &BinaryExpr) -> Result<T, CfgError>;

    fn visit_grouping_expr(&self, expr: &GroupingExpr) -> Result<T, CfgError>;

    fn visit_literal_expr(&self, expr: &LiteralExpr) -> Result<T, CfgError>;

    fn visit_unary_expr(&self, expr: &UnaryExpr) -> Result<T, CfgError>;
}

impl BinaryExpr {
    pub fn accept<T, V: ExprVisitor<T>>(&self, visitor: &V) -> Result<T, CfgError> {
        visitor.visit_binary_expr(self)
    }
}

impl GroupingExpr {
    pub fn accept<T, V: ExprVisitor<T>>(&self, visitor: &V) -> Result<T, CfgError> {
        visitor.visit_grouping_expr(self)
    }
}

impl LiteralExpr {
    pub fn accept<T, V: ExprVisitor<T>>(&self, visitor: &V) -> Result<T, CfgError> {
        visitor.visit_literal_expr(self)
    }
}

impl UnaryExpr {
    pub fn accept<T, V: ExprVisitor<T>>(&self, visitor: &V) -> Result<T, CfgError> {
        visitor.visit_unary_expr(self)
    }
}

} // verus!
