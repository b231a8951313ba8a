//! A syntactic check that an expression can be a constant expression (6.4).

use vstd::prelude::*;

use crate::ast::{Ast, Expression, ExpressionNode, UnaryOp};
use crate::semantic::diagnosis::DiagnosisNode;

verus! {

/// 6.4 The expression is built only of constants, identifiers, sizeof, casts
/// and the arithmetic, relational, logical and conditional operators: no
/// string literal, assignment, increment, call, subscript, member access,
/// address or indirection, and no comma.
pub open spec fn spec_is_const(ast: &Ast, e: ExpressionNode) -> bool
    decreases e.id,
{
    if e.id >= ast.expressions@.len() {
        false
    } else {
        match ast.expr(e.id) {
            Expression::ConstantExpression(x) => x.id < e.id && spec_is_const(ast, x),
            Expression::SizeofType(_) | Expression::Constant(_) | Expression::Identifier(_) => true,
            Expression::Cast(_, x) | Expression::SizeofExpr(x) => x.id < e.id && spec_is_const(ast, x),
            Expression::Unary(op, x) => match op {
                UnaryOp::Plus | UnaryOp::Minus | UnaryOp::BitNot | UnaryOp::LogicalNot => x.id < e.id && spec_is_const(ast, x),
                _ => false,
            },
            Expression::Binary(_, a, b) => a.id < e.id && b.id < e.id && spec_is_const(ast, a) && spec_is_const(ast, b),
            Expression::Ternary(a, b, c) => a.id < e.id && b.id < e.id && c.id < e.id && spec_is_const(ast, a)
                && spec_is_const(ast, b) && spec_is_const(ast, c),
            _ => false,
        }
    }
}

/// Checks expressions for being constant, keeping the diagnostics it reports.
pub struct ConstChecker {
    pub diagnosis: Vec<DiagnosisNode>,
}

impl ConstChecker {
    pub fn new() -> (c: Self)
        ensures
            c.diagnosis@.len() == 0,
    {
        ConstChecker { diagnosis: Vec::new() }
    }

    pub fn is_const(&mut self, ast: &Ast, node: &ExpressionNode) -> (b: bool)
        requires
            ast.wf(),
        ensures
            b == spec_is_const(ast, *node),
            final(self).diagnosis == old(self).diagnosis,
        decreases node.id,
    {
        if node.id >= ast.expressions.len() {
            return false;
        }
        proof {
            assert(ast.expressions@[node.id as int].children_below(node.id as int));
        }
        match &ast.expressions[node.id] {
            Expression::ConstantExpression(x) => self.is_const(ast, x),
            Expression::SizeofType(_) | Expression::Constant(_) | Expression::Identifier(_) => true,
            Expression::Cast(_, x) | Expression::SizeofExpr(x) => self.is_const(ast, x),
            Expression::Unary(op, x) => match op {
                UnaryOp::Plus | UnaryOp::Minus | UnaryOp::BitNot | UnaryOp::LogicalNot => self.is_const(ast, x),
                _ => false,
            },
            Expression::Binary(_, a, b) => self.is_const(ast, a) && self.is_const(ast, b),
            Expression::Ternary(a, b, c) => self.is_const(ast, a) && self.is_const(ast, b) && self.is_const(ast, c),
            _ => false,
        }
    }
}

} // verus!
