//! The expression tree and its evaluation.
//!
//! `spec_eval` is the meaning of a tree: operands before operators, left
//! operand before right, the first failure propagating outward.  The
//! executable `evaluate` is proved to return exactly that.  Evaluation-time
//! failures (division by zero, overflow, the unimplemented factorial) are
//! typed `EvalError` values rather than halts.

use vstd::prelude::*;

use crate::operator::{EvalError, InfixOp, PostfixOp, PrefixOp};
use crate::operator::{spec_infix_apply, spec_postfix_apply, spec_prefix_apply};

verus! {

/// An abstract syntax tree: a number, or an operator applied to one or two
/// subtrees.  Built bottom-up by the parser, never mutated afterwards.
#[derive(Debug)]
pub enum Expression {
    Number(i64),
    Prefix(PrefixOp, Box<Expression>),
    Infix(Box<Expression>, InfixOp, Box<Expression>),
    Postfix(Box<Expression>, PostfixOp),
}

/// The value a tree evaluates to, or the first evaluation failure met when
/// folding it: operands are evaluated before their operator is applied, and
/// the left operand of an infix node before the right.
pub open spec fn spec_eval(e: Expression) -> Result<i64, EvalError>
    decreases e,
{
    match e {
        Expression::Number(value) => Ok(value),
        Expression::Prefix(op, rhs) => match spec_eval(*rhs) {
            Ok(v) => spec_prefix_apply(op, v),
            Err(err) => Err(err),
        },
        Expression::Infix(lhs, op, rhs) => match spec_eval(*lhs) {
            Ok(lv) => match spec_eval(*rhs) {
                Ok(rv) => spec_infix_apply(op, lv, rv),
                Err(err) => Err(err),
            },
            Err(err) => Err(err),
        },
        Expression::Postfix(lhs, op) => match spec_eval(*lhs) {
            Ok(v) => spec_postfix_apply(op, v),
            Err(err) => Err(err),
        },
    }
}

impl Expression {
    /// Folds the tree into a single integer, or reports the first
    /// evaluation failure.
    pub fn evaluate(&self) -> (r: Result<i64, EvalError>)
        ensures
            r == spec_eval(*self),
        decreases *self,
    {
        match self {
            Expression::Number(value) => Ok(*value),
            Expression::Prefix(op, rhs) => match rhs.evaluate() {
                Ok(v) => op.operate_on(v),
                Err(err) => Err(err),
            },
            Expression::Infix(lhs, op, rhs) => match lhs.evaluate() {
                Ok(lv) => match rhs.evaluate() {
                    Ok(rv) => op.operate_on(lv, rv),
                    Err(err) => Err(err),
                },
                Err(err) => Err(err),
            },
            Expression::Postfix(lhs, op) => match lhs.evaluate() {
                Ok(v) => op.operate_on(v),
                Err(err) => Err(err),
            },
        }
    }
}

} // verus!
