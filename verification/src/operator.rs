//! The operator tables: three independent classifications (prefix, infix,
//! postfix) over the same token alphabet, each operator carrying a
//! precedence, an associativity (infix only), and an evaluation rule.
//!
//! A token may classify under several roles (`!` is both prefix logical-not
//! and postfix factorial, `~` both prefix bitwise-not and infix not-equal);
//! the parser's grammatical position picks the role.
//!
//! Evaluation failures are typed: division or modulo by zero, a result
//! outside the 64-bit range, and the deliberately unimplemented postfix
//! factorial all come back as an `EvalError` rather than halting.

use vstd::prelude::*;

use crate::lexer::Token;

verus! {

/// A token failed to classify under the requested operator role.
pub struct UnknownOp {}

/// Why evaluation failed.  Division and modulo by zero and the unimplemented
/// factorial are the known failure paths; `Overflow` reports a result that
/// does not fit the host 64-bit integer type.
#[derive(Debug, Clone, Copy, PartialEq, Eq, Structural)]
pub enum EvalError {
    DivideByZero,
    Overflow,
    Unimplemented,
}

/// The operators that may open an expression.
#[derive(Debug, Clone, Copy, PartialEq, Eq, Structural)]
pub enum PrefixOp {
    Plus,
    Negative,
    Not,
    BitwiseNot,
}

/// The prefix operator a token denotes, if any.
pub open spec fn prefix_op_of(t: Token) -> Option<PrefixOp> {
    match t {
        Token::Operator(c) => if c == '+' {
            Some(PrefixOp::Plus)
        } else if c == '-' {
            Some(PrefixOp::Negative)
        } else if c == '!' {
            Some(PrefixOp::Not)
        } else if c == '~' {
            Some(PrefixOp::BitwiseNot)
        } else {
            None
        },
        _ => None,
    }
}

/// What a prefix operator yields on an operand: identity, negation (whose
/// result can leave the 64-bit range on the smallest value), logical not
/// (exactly 0 or 1), or bitwise complement (always `-v - 1`).
pub open spec fn spec_prefix_apply(op: PrefixOp, v: i64) -> Result<i64, EvalError> {
    match op {
        PrefixOp::Plus => Ok(v),
        PrefixOp::Negative => if v == i64::MIN {
            Err(EvalError::Overflow)
        } else {
            Ok((-(v as int)) as i64)
        },
        PrefixOp::Not => Ok(if v == 0 { 1 } else { 0 }),
        PrefixOp::BitwiseNot => Ok((-(v as int) - 1) as i64),
    }
}

impl PrefixOp {
    /// Classifies a token as a prefix operator.
    pub fn try_from(t: Token) -> (r: Result<Self, UnknownOp>)
        ensures
            match prefix_op_of(t) {
                Some(op) => r == Ok::<PrefixOp, UnknownOp>(op),
                None => r is Err,
            },
    {
        match t {
            Token::Operator('+') => Ok(PrefixOp::Plus),
            Token::Operator('-') => Ok(PrefixOp::Negative),
            Token::Operator('!') => Ok(PrefixOp::Not),
            Token::Operator('~') => Ok(PrefixOp::BitwiseNot),
            _ => Err(UnknownOp {  }),
        }
    }

    /// All prefix operators bind at the same level, just below postfix.
    pub open spec fn spec_precedence(self) -> u32 {
        10
    }

    /// How tightly this operator binds; higher binds tighter.
    pub fn precedence(self) -> (p: u32)
        ensures
            p == self.spec_precedence(),
    {
        match self {
            PrefixOp::Plus | PrefixOp::Negative | PrefixOp::Not | PrefixOp::BitwiseNot => 10,
        }
    }

    /// Applies the operator to an evaluated operand.
    pub fn operate_on(self, value: i64) -> (r: Result<i64, EvalError>)
        ensures
            r == spec_prefix_apply(self, value),
    {
        match self {
            PrefixOp::Plus => Ok(value),
            PrefixOp::Negative => if value == i64::MIN {
                Err(EvalError::Overflow)
            } else {
                Ok(-value)
            },
            PrefixOp::Not => Ok(if value == 0 { 1 } else { 0 }),
            PrefixOp::BitwiseNot => {
                let r = !value;
                proof {
                    assert(!value == (-(value as int) - 1) as i64) by (bit_vector);
                }
                Ok(r)
            },
        }
    }
}

/// The operators that join two expressions.
#[derive(Debug, Clone, Copy, PartialEq, Eq, Structural)]
pub enum InfixOp {
    Multiply,
    Divide,
    Modulo,
    Add,
    Subtract,
    Less,
    Greater,
    Equal,
    NotEqual,
    And,
    Or,
}

/// The infix operator a token denotes, if any.
pub open spec fn infix_op_of(t: Token) -> Option<InfixOp> {
    match t {
        Token::Operator(c) => if c == '+' {
            Some(InfixOp::Add)
        } else if c == '-' {
            Some(InfixOp::Subtract)
        } else if c == '*' {
            Some(InfixOp::Multiply)
        } else if c == '/' {
            Some(InfixOp::Divide)
        } else if c == '%' {
            Some(InfixOp::Modulo)
        } else if c == '<' {
            Some(InfixOp::Less)
        } else if c == '>' {
            Some(InfixOp::Greater)
        } else if c == '=' {
            Some(InfixOp::Equal)
        } else if c == '~' {
            Some(InfixOp::NotEqual)
        } else if c == '&' {
            Some(InfixOp::And)
        } else if c == '|' {
            Some(InfixOp::Or)
        } else {
            None
        },
        _ => None,
    }
}

/// Division truncated toward zero, as the host integer type divides.
pub open spec fn trunc_div(x: int, d: int) -> int {
    if x == 0 {
        0
    } else if x > 0 && d > 0 {
        x / d
    } else if x < 0 && d < 0 {
        (x * -1) / (d * -1)
    } else if x < 0 {
        ((x * -1) / d) * -1
    } else {
        (x / (d * -1)) * -1
    }
}

/// Remainder of truncated division: it takes the sign of the dividend.
pub open spec fn trunc_rem(x: int, d: int) -> int {
    if x == 0 {
        0
    } else if x > 0 && d > 0 {
        x % d
    } else if x < 0 && d < 0 {
        ((x * -1) % (d * -1)) * -1
    } else if x < 0 {
        ((x * -1) % d) * -1
    } else {
        x % (d * -1)
    }
}

/// What an infix operator yields on two evaluated operands.  Arithmetic is
/// the host type's: a result outside the 64-bit range is an `Overflow`;
/// division and modulo by zero are `DivideByZero`; the comparisons yield
/// exactly 0 or 1; `And` and `Or` are bitwise.
pub open spec fn spec_infix_apply(op: InfixOp, l: i64, r: i64) -> Result<i64, EvalError> {
    match op {
        InfixOp::Multiply => if l * r > i64::MAX || l * r < i64::MIN {
            Err(EvalError::Overflow)
        } else {
            Ok((l * r) as i64)
        },
        InfixOp::Divide => if r == 0 {
            Err(EvalError::DivideByZero)
        } else if trunc_div(l as int, r as int) > i64::MAX {
            Err(EvalError::Overflow)
        } else {
            Ok(trunc_div(l as int, r as int) as i64)
        },
        InfixOp::Modulo => if r == 0 {
            Err(EvalError::DivideByZero)
        } else if l == i64::MIN && r == -1 {
            Err(EvalError::Overflow)
        } else {
            Ok(trunc_rem(l as int, r as int) as i64)
        },
        InfixOp::Add => if l + r > i64::MAX || l + r < i64::MIN {
            Err(EvalError::Overflow)
        } else {
            Ok((l + r) as i64)
        },
        InfixOp::Subtract => if l - r > i64::MAX || l - r < i64::MIN {
            Err(EvalError::Overflow)
        } else {
            Ok((l - r) as i64)
        },
        InfixOp::Less => Ok(if l < r { 1 } else { 0 }),
        InfixOp::Greater => Ok(if l > r { 1 } else { 0 }),
        InfixOp::Equal => Ok(if l == r { 1 } else { 0 }),
        InfixOp::NotEqual => Ok(if l != r { 1 } else { 0 }),
        InfixOp::And => Ok(l & r),
        InfixOp::Or => Ok(l | r),
    }
}

impl InfixOp {
    /// Classifies a token as an infix operator.
    pub fn try_from(t: Token) -> (r: Result<Self, UnknownOp>)
        ensures
            match infix_op_of(t) {
                Some(op) => r == Ok::<InfixOp, UnknownOp>(op),
                None => r is Err,
            },
    {
        match t {
            Token::Operator('+') => Ok(InfixOp::Add),
            Token::Operator('-') => Ok(InfixOp::Subtract),
            Token::Operator('*') => Ok(InfixOp::Multiply),
            Token::Operator('/') => Ok(InfixOp::Divide),
            Token::Operator('%') => Ok(InfixOp::Modulo),
            Token::Operator('<') => Ok(InfixOp::Less),
            Token::Operator('>') => Ok(InfixOp::Greater),
            Token::Operator('=') => Ok(InfixOp::Equal),
            Token::Operator('~') => Ok(InfixOp::NotEqual),
            Token::Operator('&') => Ok(InfixOp::And),
            Token::Operator('|') => Ok(InfixOp::Or),
            _ => Err(UnknownOp {  }),
        }
    }

    /// Multiplicative above additive, then the comparisons, equality, and
    /// the bitwise pair; higher binds tighter.
    pub open spec fn spec_precedence(self) -> u32 {
        match self {
            InfixOp::Multiply | InfixOp::Divide | InfixOp::Modulo => 7,
            InfixOp::Add | InfixOp::Subtract => 6,
            InfixOp::Less | InfixOp::Greater => 5,
            InfixOp::Equal | InfixOp::NotEqual => 4,
            InfixOp::And | InfixOp::Or => 3,
        }
    }

    /// How tightly this operator binds; higher binds tighter.
    pub fn precedence(self) -> (p: u32)
        ensures
            p == self.spec_precedence(),
    {
        match self {
            InfixOp::Multiply | InfixOp::Divide | InfixOp::Modulo => 7,
            InfixOp::Add | InfixOp::Subtract => 6,
            InfixOp::Less | InfixOp::Greater => 5,
            InfixOp::Equal | InfixOp::NotEqual => 4,
            InfixOp::And | InfixOp::Or => 3,
        }
    }

    /// Every infix operator of this table groups left-to-right.
    pub open spec fn spec_left_associative(self) -> bool {
        true
    }

    /// Whether repeated application groups left-to-right.
    pub fn is_left_associative(self) -> (b: bool)
        ensures
            b == self.spec_left_associative(),
    {
        match self {
            _ => true,
        }
    }

    /// Applies the operator to two evaluated operands.
    pub fn operate_on(self, lhs: i64, rhs: i64) -> (r: Result<i64, EvalError>)
        ensures
            r == spec_infix_apply(self, lhs, rhs),
    {
        match self {
            InfixOp::Multiply => match lhs.checked_mul(rhs) {
                Some(v) => Ok(v),
                None => Err(EvalError::Overflow),
            },
            InfixOp::Divide => if rhs == 0 {
                Err(EvalError::DivideByZero)
            } else {
                match lhs.checked_div(rhs) {
                    Some(v) => Ok(v),
                    None => Err(EvalError::Overflow),
                }
            },
            InfixOp::Modulo => if rhs == 0 {
                Err(EvalError::DivideByZero)
            } else {
                match lhs.checked_rem(rhs) {
                    Some(v) => Ok(v),
                    None => Err(EvalError::Overflow),
                }
            },
            InfixOp::Add => match lhs.checked_add(rhs) {
                Some(v) => Ok(v),
                None => Err(EvalError::Overflow),
            },
            InfixOp::Subtract => match lhs.checked_sub(rhs) {
                Some(v) => Ok(v),
                None => Err(EvalError::Overflow),
            },
            InfixOp::Less => Ok(if lhs < rhs { 1 } else { 0 }),
            InfixOp::Greater => Ok(if lhs > rhs { 1 } else { 0 }),
            InfixOp::Equal => Ok(if lhs == rhs { 1 } else { 0 }),
            InfixOp::NotEqual => Ok(if lhs != rhs { 1 } else { 0 }),
            InfixOp::And => Ok(lhs & rhs),
            InfixOp::Or => Ok(lhs | rhs),
        }
    }
}

/// The operators that close an expression.
#[derive(Debug, Clone, Copy, PartialEq, Eq, Structural)]
pub enum PostfixOp {
    Factorial,
}

/// The postfix operator a token denotes, if any.
pub open spec fn postfix_op_of(t: Token) -> Option<PostfixOp> {
    match t {
        Token::Operator(c) => if c == '!' {
            Some(PostfixOp::Factorial)
        } else {
            None
        },
        _ => None,
    }
}

/// The factorial operation is a deliberate gap: applying it always fails
/// with `Unimplemented`.
pub open spec fn spec_postfix_apply(op: PostfixOp, v: i64) -> Result<i64, EvalError> {
    match op {
        PostfixOp::Factorial => Err(EvalError::Unimplemented),
    }
}

impl PostfixOp {
    /// Classifies a token as a postfix operator.
    pub fn try_from(t: Token) -> (r: Result<Self, UnknownOp>)
        ensures
            match postfix_op_of(t) {
                Some(op) => r == Ok::<PostfixOp, UnknownOp>(op),
                None => r is Err,
            },
    {
        match t {
            Token::Operator('!') => Ok(PostfixOp::Factorial),
            _ => Err(UnknownOp {  }),
        }
    }

    /// Postfix binds tighter than everything else.
    pub open spec fn spec_precedence(self) -> u32 {
        11
    }

    /// How tightly this operator binds; higher binds tighter.
    pub fn precedence(self) -> (p: u32)
        ensures
            p == self.spec_precedence(),
    {
        match self {
            PostfixOp::Factorial => 11,
        }
    }

    /// Applies the operator to an evaluated operand.
    pub fn operate_on(self, value: i64) -> (r: Result<i64, EvalError>)
        ensures
            r == spec_postfix_apply(self, value),
    {
        match self {
            PostfixOp::Factorial => Err(EvalError::Unimplemented),
        }
    }
}

} // verus!
