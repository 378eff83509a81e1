//! The precedence-climbing parser.
//!
//! `spec_parse` is the grammar's meaning as a mathematical function from a
//! token stream and a minimum-precedence threshold to a parse outcome and
//! the tokens left over.  The executable `parse_expression` and
//! `parse_atomic_expression` are proved to produce exactly that outcome and
//! to leave the lexer exactly at those leftover tokens.
//!
//! A failing position reports what was expected (`"expression"` at an
//! atomic position, `")"` at an unmatched parenthesis) and leaves the
//! offending token as the lexer's current one, so the caller can attach it
//! to the report.

use vstd::prelude::*;

use crate::expression::Expression;
use crate::lexer::{head_token, rest_tokens, Lexer, Token};
use crate::operator::{infix_op_of, postfix_op_of, prefix_op_of};
use crate::operator::{InfixOp, PostfixOp, PrefixOp};
use crate::parse_result::{ParseError, ParseResult};

verus! {

/// A spec-level parse outcome: the tree (or the label of what a failing
/// position expected) together with the tokens not consumed.
pub type SpecParsed = (Result<Expression, Seq<char>>, Seq<Token>);

/// Parsing one expression from `toks`, climbing while infix or postfix
/// operators bind at least as tightly as `min_prec`: a leading prefix
/// operator is always consumed and its operand parsed at the operator's own
/// precedence; otherwise an atomic expression is parsed; then operators are
/// folded in by `spec_parse_ops`.
pub open spec fn spec_parse(toks: Seq<Token>, min_prec: int) -> SpecParsed
    decreases toks.len(), 2int,
{
    match prefix_op_of(head_token(toks)) {
        Some(op) => {
            let (r, rest) = spec_parse(toks.skip(1), op.spec_precedence() as int);
            match r {
                Ok(e) => if rest.len() <= toks.len() {
                    spec_parse_ops(Expression::Prefix(op, Box::new(e)), rest, min_prec)
                } else {
                    (Ok(Expression::Prefix(op, Box::new(e))), rest)
                },
                Err(label) => (Err(label), rest),
            }
        },
        None => {
            let (r, rest) = spec_parse_atom(toks);
            match r {
                Ok(e) => if rest.len() <= toks.len() {
                    spec_parse_ops(e, rest, min_prec)
                } else {
                    (Ok(e), rest)
                },
                Err(label) => (Err(label), rest),
            }
        },
    }
}

/// Parsing an atomic expression: a bare number, or a parenthesized
/// expression restarted at threshold 0 and closed by `)`.  Any other token
/// fails, expecting an expression, and is not consumed.
pub open spec fn spec_parse_atom(toks: Seq<Token>) -> SpecParsed
    decreases toks.len(), 1int,
{
    match head_token(toks) {
        Token::Number(value) => (Ok(Expression::Number(value)), toks.skip(1)),
        Token::LeftParen => {
            let (r, rest) = spec_parse(toks.skip(1), 0);
            match r {
                Ok(e) => if head_token(rest) == Token::RightParen {
                    (Ok(e), rest_tokens(rest))
                } else {
                    (Err(")"@), rest)
                },
                Err(label) => (Err(label), rest),
            }
        },
        _ => (Err("expression"@), toks),
    }
}

/// Folding operators into an already-parsed expression `e`: an infix
/// operator binding at least `min_prec` is consumed and its right operand
/// parsed one level above the operator's precedence (the operators here are
/// left-associative), the result joining `e` from the right; a postfix
/// operator binding at least `min_prec` simply wraps `e`.  A weaker
/// operator is left for an enclosing call to reclaim.
pub open spec fn spec_parse_ops(e: Expression, toks: Seq<Token>, min_prec: int) -> SpecParsed
    decreases toks.len(), 0int,
{
    match infix_op_of(head_token(toks)) {
        Some(op) => {
            if (op.spec_precedence() as int) < min_prec {
                (Ok(e), toks)
            } else {
                let bump: int = op.spec_precedence() as int + if op.spec_left_associative() {
                    1int
                } else {
                    0int
                };
                let (r, rest) = spec_parse(toks.skip(1), bump);
                match r {
                    Ok(rhs) => if rest.len() < toks.len() {
                        spec_parse_ops(
                            Expression::Infix(Box::new(e), op, Box::new(rhs)),
                            rest,
                            min_prec,
                        )
                    } else {
                        (Ok(Expression::Infix(Box::new(e), op, Box::new(rhs))), rest)
                    },
                    Err(label) => (Err(label), rest),
                }
            }
        },
        None => match postfix_op_of(head_token(toks)) {
            Some(op) => if (op.spec_precedence() as int) < min_prec {
                (Ok(e), toks)
            } else {
                spec_parse_ops(Expression::Postfix(Box::new(e), op), toks.skip(1), min_prec)
            },
            None => (Ok(e), toks),
        },
    }
}

/// The parser only consumes tokens: what it leaves is never longer than
/// what it was given.
pub proof fn lemma_spec_parse_len(toks: Seq<Token>, min_prec: int)
    ensures
        spec_parse(toks, min_prec).1.len() <= toks.len(),
    decreases toks.len(), 2int,
{
    match prefix_op_of(head_token(toks)) {
        Some(op) => {
            assert(toks.len() > 0);
            lemma_spec_parse_len(toks.skip(1), op.spec_precedence() as int);
            let (r, rest) = spec_parse(toks.skip(1), op.spec_precedence() as int);
            match r {
                Ok(e) => {
                    lemma_spec_parse_ops_len(
                        Expression::Prefix(op, Box::new(e)),
                        rest,
                        min_prec,
                    );
                },
                Err(label) => {},
            }
        },
        None => {
            lemma_spec_parse_atom_len(toks);
            let (r, rest) = spec_parse_atom(toks);
            match r {
                Ok(e) => {
                    lemma_spec_parse_ops_len(e, rest, min_prec);
                },
                Err(label) => {},
            }
        },
    }
}

/// As `lemma_spec_parse_len`, for an atomic expression.
pub proof fn lemma_spec_parse_atom_len(toks: Seq<Token>)
    ensures
        spec_parse_atom(toks).1.len() <= toks.len(),
    decreases toks.len(), 1int,
{
    match head_token(toks) {
        Token::LeftParen => {
            lemma_spec_parse_len(toks.skip(1), 0);
        },
        _ => {},
    }
}

/// As `lemma_spec_parse_len`, for the operator-folding loop.
pub proof fn lemma_spec_parse_ops_len(e: Expression, toks: Seq<Token>, min_prec: int)
    ensures
        spec_parse_ops(e, toks, min_prec).1.len() <= toks.len(),
    decreases toks.len(), 0int,
{
    match infix_op_of(head_token(toks)) {
        Some(op) => {
            if (op.spec_precedence() as int) >= min_prec {
                assert(toks.len() > 0);
                let bump: int = op.spec_precedence() as int + if op.spec_left_associative() {
                    1int
                } else {
                    0int
                };
                lemma_spec_parse_len(toks.skip(1), bump);
                let (r, rest) = spec_parse(toks.skip(1), bump);
                match r {
                    Ok(rhs) => {
                        if rest.len() < toks.len() {
                            lemma_spec_parse_ops_len(
                                Expression::Infix(Box::new(e), op, Box::new(rhs)),
                                rest,
                                min_prec,
                            );
                        }
                    },
                    Err(label) => {},
                }
            }
        },
        None => match postfix_op_of(head_token(toks)) {
            Some(op) => if (op.spec_precedence() as int) >= min_prec {
                assert(toks.len() > 0);
                lemma_spec_parse_ops_len(
                    Expression::Postfix(Box::new(e), op),
                    toks.skip(1),
                    min_prec,
                );
            },
            None => {},
        },
    }
}

/// Every parse failure is descriptive: it carries one of the two labels
/// the grammar can report, an expression that was missing or a closing
/// parenthesis that was missing.
pub proof fn lemma_parse_error_labels(toks: Seq<Token>, min_prec: int)
    ensures
        spec_parse(toks, min_prec).0 matches Err(label) ==> (label == "expression"@ || label
            == ")"@),
    decreases toks.len(), 2int,
{
    match prefix_op_of(head_token(toks)) {
        Some(op) => {
            assert(toks.len() > 0);
            lemma_spec_parse_len(toks.skip(1), op.spec_precedence() as int);
            lemma_parse_error_labels(toks.skip(1), op.spec_precedence() as int);
            let (r, rest) = spec_parse(toks.skip(1), op.spec_precedence() as int);
            match r {
                Ok(e) => {
                    lemma_parse_ops_error_labels(
                        Expression::Prefix(op, Box::new(e)),
                        rest,
                        min_prec,
                    );
                },
                Err(label) => {},
            }
        },
        None => {
            lemma_spec_parse_atom_len(toks);
            lemma_parse_atom_error_labels(toks);
            let (r, rest) = spec_parse_atom(toks);
            match r {
                Ok(e) => {
                    lemma_parse_ops_error_labels(e, rest, min_prec);
                },
                Err(label) => {},
            }
        },
    }
}

/// As `lemma_parse_error_labels`, for an atomic expression.
pub proof fn lemma_parse_atom_error_labels(toks: Seq<Token>)
    ensures
        spec_parse_atom(toks).0 matches Err(label) ==> (label == "expression"@ || label == ")"@),
    decreases toks.len(), 1int,
{
    match head_token(toks) {
        Token::LeftParen => {
            lemma_parse_error_labels(toks.skip(1), 0);
        },
        _ => {},
    }
}

/// As `lemma_parse_error_labels`, for the operator-folding loop.
pub proof fn lemma_parse_ops_error_labels(e: Expression, toks: Seq<Token>, min_prec: int)
    ensures
        spec_parse_ops(e, toks, min_prec).0 matches Err(label) ==> (label == "expression"@
            || label == ")"@),
    decreases toks.len(), 0int,
{
    match infix_op_of(head_token(toks)) {
        Some(op) => {
            if (op.spec_precedence() as int) >= min_prec {
                assert(toks.len() > 0);
                let bump: int = op.spec_precedence() as int + if op.spec_left_associative() {
                    1int
                } else {
                    0int
                };
                lemma_spec_parse_len(toks.skip(1), bump);
                lemma_parse_error_labels(toks.skip(1), bump);
                let (r, rest) = spec_parse(toks.skip(1), bump);
                match r {
                    Ok(rhs) => {
                        if rest.len() < toks.len() {
                            lemma_parse_ops_error_labels(
                                Expression::Infix(Box::new(e), op, Box::new(rhs)),
                                rest,
                                min_prec,
                            );
                        }
                    },
                    Err(label) => {},
                }
            }
        },
        None => match postfix_op_of(head_token(toks)) {
            Some(op) => if (op.spec_precedence() as int) >= min_prec {
                assert(toks.len() > 0);
                lemma_parse_ops_error_labels(
                    Expression::Postfix(Box::new(e), op),
                    toks.skip(1),
                    min_prec,
                );
            },
            None => {},
        },
    }
}

/// The executable result `r` and leftover lexer view `rest` match the
/// spec-level outcome: the same tree on success, an error carrying the same
/// label on failure, and the same leftover tokens either way.
pub open spec fn parse_outcome_matches(
    outcome: SpecParsed,
    r: ParseResult<Expression>,
    rest: Seq<Token>,
) -> bool {
    &&& rest == outcome.1
    &&& match r {
        Ok(e) => outcome.0 == Ok::<Expression, Seq<char>>(e),
        Err(err) => outcome.0 is Err && err@ == outcome.0->Err_0,
    }
}

/// Consumes tokens and operators to build an expression tree.  Call with
/// `min_precedence` 0 to parse an entire expression; recursive calls raise
/// the threshold to parse sub-expressions, so that a weaker operator is
/// returned up the stack instead of being swallowed by a deeper call.
#[verifier::loop_isolation(false)]
pub fn parse_expression(lexer: &mut Lexer, min_precedence: u32) -> (r: ParseResult<Expression>)
    requires
        old(lexer).wf(),
    ensures
        final(lexer).wf(),
        parse_outcome_matches(
            spec_parse(old(lexer)@, min_precedence as int),
            r,
            final(lexer)@,
        ),
    decreases old(lexer)@.len(), 2int,
{
    let ghost toks0 = lexer@;
    // A leading prefix operator is always consumed, and its operand parsed
    // at the operator's own precedence; otherwise the expression opens with
    // an atom.
    let mut expression: Expression;
    match PrefixOp::try_from(lexer.current()) {
        Ok(op) => {
            lexer.advance();
            match parse_expression(lexer, op.precedence()) {
                Ok(rhs) => {
                    expression = Expression::Prefix(op, Box::new(rhs));
                },
                Err(err) => {
                    proof {
                        lemma_spec_parse_len(toks0.skip(1), op.spec_precedence() as int);
                    }
                    return Err(err);
                },
            }
            proof {
                lemma_spec_parse_len(toks0.skip(1), op.spec_precedence() as int);
            }
        },
        Err(_) => {
            match parse_atomic_expression(lexer) {
                Ok(e) => {
                    expression = e;
                },
                Err(err) => {
                    proof {
                        lemma_spec_parse_atom_len(toks0);
                    }
                    return Err(err);
                },
            }
            proof {
                lemma_spec_parse_atom_len(toks0);
            }
        },
    }
    // Consume every infix or postfix operator binding at least as tightly
    // as the threshold; a weaker one is left to be consumed higher up in
    // the expression tree.
    let mut done: bool = false;
    while !done
        invariant
            lexer.wf(),
            lexer@.len() <= toks0.len(),
            !done ==> spec_parse_ops(expression, lexer@, min_precedence as int) == spec_parse(
                toks0,
                min_precedence as int,
            ),
            done ==> spec_parse(toks0, min_precedence as int) == (
                Ok::<Expression, Seq<char>>(expression),
                lexer@,
            ),
        decreases 2 * lexer@.len() + if done {
            0int
        } else {
            1int
        },
    {
        let ghost toks_i = lexer@;
        let tok = lexer.current();
        match InfixOp::try_from(tok) {
            Ok(op) => {
                if op.precedence() < min_precedence {
                    done = true;
                } else {
                    lexer.advance();
                    // Parse the right operand one level above the operator's
                    // own precedence: that is what makes equal-precedence
                    // operators group left-to-right.
                    let assoc_bump: u32 = if op.is_left_associative() {
                        1
                    } else {
                        0
                    };
                    proof {
                        assert(op.spec_precedence() <= 7);
                    }
                    match parse_expression(lexer, op.precedence() + assoc_bump) {
                        Ok(rhs) => {
                            proof {
                                lemma_spec_parse_len(
                                    toks_i.skip(1),
                                    op.spec_precedence() as int
                                        + if op.spec_left_associative() {
                                        1int
                                    } else {
                                        0int
                                    },
                                );
                            }
                            expression = Expression::Infix(
                                Box::new(expression),
                                op,
                                Box::new(rhs),
                            );
                        },
                        Err(err) => {
                            return Err(err);
                        },
                    }
                }
            },
            Err(_) => {
                match PostfixOp::try_from(tok) {
                    Ok(op) => {
                        if op.precedence() < min_precedence {
                            done = true;
                        } else {
                            lexer.advance();
                            expression = Expression::Postfix(Box::new(expression), op);
                        }
                    },
                    Err(_) => {
                        done = true;
                    },
                }
            },
        }
    }
    Ok(expression)
}

/// Parses an atomic expression: a bare number, or a parenthesized
/// expression that must be closed by `)`.  On any other token it fails
/// expecting an expression and leaves that token in place.
pub fn parse_atomic_expression(lexer: &mut Lexer) -> (r: ParseResult<Expression>)
    requires
        old(lexer).wf(),
    ensures
        final(lexer).wf(),
        parse_outcome_matches(spec_parse_atom(old(lexer)@), r, final(lexer)@),
    decreases old(lexer)@.len(), 1int,
{
    match lexer.current() {
        Token::Number(value) => {
            lexer.advance();
            Ok(Expression::Number(value))
        },
        Token::LeftParen => {
            lexer.advance();
            let expression = match parse_expression(lexer, 0) {
                Ok(e) => e,
                Err(err) => {
                    return Err(err);
                },
            };
            match lexer.consume(Token::RightParen, ")") {
                Ok(_) => Ok(expression),
                Err(err) => Err(err),
            }
        },
        _ => Err(ParseError::expected("expression")),
    }
}

} // verus!
