//! The library-wide laws: facts that relate the tokenizer, the parser and
//! the evaluator, stated over their specifications and proved once for all
//! inputs.

use vstd::prelude::*;
use vstd::arithmetic::div_mod::lemma_small_mod;

use crate::expression::{spec_eval, Expression};
use crate::lexer::{
    dec_digits, digit_char, digit_value, is_digit, is_space, lemma_scan_number_len,
    lemma_scan_number_split, scan_number, tokens_of, Token,
};
use crate::operator::{
    infix_op_of, prefix_op_of, spec_infix_apply, spec_prefix_apply, EvalError, InfixOp, PostfixOp,
    PrefixOp,
};
use crate::parser::{spec_parse, spec_parse_atom, spec_parse_ops};

verus! {

/// A power of ten.
pub open spec fn pow10(k: nat) -> int
    decreases k,
{
    if k == 0 {
        1
    } else {
        10 * pow10((k - 1) as nat)
    }
}

proof fn lemma_pow10_pos(k: nat)
    ensures
        pow10(k) >= 1,
    decreases k,
{
    if k > 0 {
        lemma_pow10_pos((k - 1) as nat);
    }
}

proof fn lemma_digit_char_value(d: int)
    requires
        0 <= d < 10,
    ensures
        is_digit(digit_char(d)),
        digit_value(digit_char(d)) == d,
{
}

proof fn lemma_dec_digits_first(n: int)
    requires
        n >= 0,
    ensures
        dec_digits(n).len() >= 1,
        is_digit(dec_digits(n)[0]),
    decreases n,
{
    if n < 10 {
        lemma_digit_char_value(n);
    } else {
        lemma_dec_digits_first(n / 10);
    }
}

proof fn lemma_wrapping_mul_in_range(x: i64, y: i64)
    requires
        0 <= x * y <= i64::MAX,
    ensures
        x.wrapping_mul(y) == x * y,
{
    lemma_small_mod((x * y) as nat, 0x10000000000000000nat);
}

/// Scanning the decimal rendering of `n` onto the accumulator `acc` folds
/// cleanly, with no wraparound, as long as the final value fits: it
/// consumes every digit and yields `acc` shifted past them plus `n`.
proof fn lemma_scan_decimal(n: int, acc: i64)
    requires
        0 <= n,
        0 <= acc,
        acc * pow10(dec_digits(n).len()) + n <= i64::MAX,
    ensures
        scan_number(dec_digits(n), acc).0 == acc * pow10(dec_digits(n).len()) + n,
        scan_number(dec_digits(n), acc).1 == Seq::<char>::empty(),
    decreases n,
{
    lemma_pow10_pos(dec_digits(n).len());
    if n < 10 {
        lemma_digit_char_value(n);
        let s = dec_digits(n);
        assert(s =~= seq![digit_char(n)]);
        assert(pow10(0) == 1);
        assert(pow10(1) == 10);
        assert(0 <= acc * 10 + n <= i64::MAX);
        lemma_wrapping_mul_in_range(acc, 10);
        assert(s.skip(1) =~= Seq::<char>::empty());
        assert(s[0] == digit_char(n));
        let folded = acc.wrapping_mul(10).wrapping_add(digit_value(s[0]) as i64);
        assert(folded == acc * 10 + n);
        assert(scan_number(s.skip(1), folded) == (folded, s.skip(1)));
        assert(scan_number(s, acc) == (folded, s.skip(1)));
    } else {
        let m = n / 10;
        let d = n % 10;
        let km = dec_digits(m).len();
        let k = dec_digits(n).len();
        lemma_digit_char_value(d);
        assert(k == km + 1);
        assert(pow10(k) == 10 * pow10(km));
        assert(acc * pow10(k) == 10 * (acc * pow10(km))) by (nonlinear_arith)
            requires
                pow10(k) == 10 * pow10(km),
        ;
        assert(0 <= acc * pow10(km)) by (nonlinear_arith)
            requires
                0 <= acc,
                pow10(km) >= 1,
        ;
        let x = acc * pow10(km) + m;
        assert(10 * x + d == acc * pow10(k) + n);
        assert(x <= i64::MAX);
        lemma_scan_decimal(m, acc);
        let xv: i64 = scan_number(dec_digits(m), acc).0;
        assert(xv == x);
        assert(dec_digits(n) =~= dec_digits(m) + seq![digit_char(d)]);
        lemma_scan_number_split(dec_digits(m), seq![digit_char(d)], acc);
        assert(scan_number(dec_digits(n), acc) == scan_number(seq![digit_char(d)], xv));
        assert(0 <= xv * 10 <= i64::MAX);
        lemma_wrapping_mul_in_range(xv, 10);
        assert(seq![digit_char(d)].skip(1) =~= Seq::<char>::empty());
        assert(seq![digit_char(d)][0] == digit_char(d));
        let w = xv.wrapping_mul(10).wrapping_add(digit_value(seq![digit_char(d)][0]) as i64);
        assert(w == 10 * x + d);
        assert(scan_number(Seq::<char>::empty(), w) == (w, Seq::<char>::empty()));
        assert(scan_number(seq![digit_char(d)], xv) == (w, Seq::<char>::empty()));
    }
}

/// The numeral round trip: for every non-negative 64-bit integer `n`, the
/// plain decimal rendering of `n` tokenizes to the single token
/// `Number(n)`, that token stream parses (at threshold 0) to the tree
/// `Number(n)` with nothing left over, and that tree evaluates to `n`.
pub proof fn lemma_numeral_round_trip(n: i64)
    requires
        0 <= n,
    ensures
        tokens_of(dec_digits(n as int)) == seq![Token::Number(n)],
        spec_parse(seq![Token::Number(n)], 0) == (
            Ok::<Expression, Seq<char>>(Expression::Number(n)),
            Seq::<Token>::empty(),
        ),
        spec_eval(Expression::Number(n)) == Ok::<i64, EvalError>(n),
{
    let s = dec_digits(n as int);
    lemma_dec_digits_first(n as int);
    lemma_pow10_pos(s.len());
    assert(0 * pow10(s.len()) == 0) by (nonlinear_arith);
    lemma_scan_decimal(n as int, 0);
    assert(scan_number(s, 0).0 == n);
    assert(tokens_of(Seq::<char>::empty()) == Seq::<Token>::empty());
    assert(scan_number(s, 0).1 =~= Seq::<char>::empty());
    assert(!is_space(s[0]));
    assert(tokens_of(s) =~= seq![Token::Number(n)]);
    let toks = seq![Token::Number(n)];
    assert(spec_parse_atom(toks) == (
        Ok::<Expression, Seq<char>>(Expression::Number(n)),
        toks.skip(1),
    ));
    assert(toks.skip(1) =~= Seq::<Token>::empty());
    assert(spec_parse_ops(Expression::Number(n), Seq::<Token>::empty(), 0) == (
        Ok::<Expression, Seq<char>>(Expression::Number(n)),
        Seq::<Token>::empty(),
    ));
}

/// Leading whitespace is insignificant: a space or tab in front of a line
/// never changes its token stream.
pub proof fn lemma_leading_whitespace(s: Seq<char>, c: char)
    requires
        is_space(c),
    ensures
        tokens_of(seq![c] + s) == tokens_of(s),
{
    assert((seq![c] + s)[0] == c);
    assert((seq![c] + s).skip(1) =~= s);
}

/// Trailing whitespace is insignificant: a space or tab at the end of a
/// line never changes its token stream.
pub proof fn lemma_trailing_whitespace(s: Seq<char>, c: char)
    requires
        is_space(c),
    ensures
        tokens_of(s.push(c)) == tokens_of(s),
    decreases s.len(),
{
    if s.len() == 0 {
        assert(s.push(c)[0] == c);
        assert(s.push(c).skip(1) =~= Seq::<char>::empty());
        assert(tokens_of(Seq::<char>::empty()) == Seq::<Token>::empty());
    } else {
        assert(s.push(c)[0] == s[0]);
        if is_space(s[0]) {
            assert(s.push(c).skip(1) =~= s.skip(1).push(c));
            lemma_trailing_whitespace(s.skip(1), c);
        } else if is_digit(s[0]) {
            assert(s.push(c) =~= s + seq![c]);
            lemma_scan_number_split(s, seq![c], 0);
            let v = scan_number(s, 0).0;
            let rest = scan_number(s, 0).1;
            if rest.len() > 0 {
                lemma_scan_number_len(s, 0);
                assert(rest + seq![c] =~= rest.push(c));
                assert(scan_number(s.push(c), 0) == (v, rest.push(c)));
                lemma_trailing_whitespace(rest, c);
            } else {
                assert(scan_number(s.push(c), 0) == scan_number(seq![c], v));
                // The run covers all of `s`; the trailing whitespace stops
                // the extended scan with the same value.
                assert(seq![c][0] == c);
                assert(scan_number(seq![c], v) == (v, seq![c]));
                assert(seq![c].skip(1) =~= Seq::<char>::empty());
                assert(tokens_of(Seq::<char>::empty()) == Seq::<Token>::empty());
                assert(tokens_of(seq![c]) =~= Seq::<Token>::empty());
                assert(rest =~= Seq::<char>::empty());
                assert(tokens_of(rest) =~= Seq::<Token>::empty());
            }
        } else {
            assert(s.push(c).skip(1) =~= s.skip(1).push(c));
            lemma_trailing_whitespace(s.skip(1), c);
        }
    }
}

/// Whitespace between tokens is insignificant: a space or tab inserted at
/// any position that does not split a numeral in two (that is, anywhere but
/// between two adjacent digits) never changes the token stream — and so,
/// since parsing and evaluation are functions of the token stream alone,
/// never changes the result.  Removing such whitespace is the same equation
/// read the other way, and runs of whitespace follow by repeating it.
pub proof fn lemma_whitespace_insertion(s1: Seq<char>, s2: Seq<char>, c: char)
    requires
        is_space(c),
        !(s1.len() > 0 && is_digit(s1.last()) && s2.len() > 0 && is_digit(s2[0])),
    ensures
        tokens_of(s1 + seq![c] + s2) == tokens_of(s1 + s2),
    decreases s1.len(),
{
    if s1.len() == 0 {
        assert(s1 + seq![c] + s2 =~= seq![c] + s2);
        assert(s1 + s2 =~= s2);
        lemma_leading_whitespace(s2, c);
    } else {
        let h = s1[0];
        assert((s1 + seq![c] + s2)[0] == h);
        assert((s1 + s2)[0] == h);
        if is_digit(h) && !is_space(h) {
            let v = scan_number(s1, 0).0;
            let rest = scan_number(s1, 0).1;
            lemma_scan_number_len(s1, 0);
            lemma_scan_number_split(s1, seq![c] + s2, 0);
            lemma_scan_number_split(s1, s2, 0);
            if rest.len() > 0 {
                // The numeral ends inside `s1`; both scans stop there.
                assert(s1 + seq![c] + s2 =~= s1 + (seq![c] + s2));
                assert(scan_number(s1 + seq![c] + s2, 0) == (v, rest + (seq![c] + s2)));
                assert(rest + (seq![c] + s2) =~= rest + seq![c] + s2);
                assert(scan_number(s1 + s2, 0) == (v, rest + s2));
                assert(rest.last() == s1.last());
                lemma_whitespace_insertion(rest, s2, c);
            } else {
                // `s1` is digits to its end, so `s2` does not begin with
                // one; both scans stop right after `s1` with the value `v`.
                assert(is_digit(s1.last()));
                assert(s2.len() == 0 || !is_digit(s2[0]));
                assert(s1 + seq![c] + s2 =~= s1 + (seq![c] + s2));
                assert(scan_number(s1 + seq![c] + s2, 0) == scan_number(seq![c] + s2, v));
                assert((seq![c] + s2)[0] == c);
                assert(scan_number(seq![c] + s2, v) == (v, seq![c] + s2));
                assert(scan_number(s1 + s2, 0) == scan_number(s2, v));
                assert(scan_number(s2, v) == (v, s2));
                lemma_leading_whitespace(s2, c);
            }
        } else {
            // A whitespace, parenthesis or operator character: both sides
            // produce the same head and continue after it.
            assert((s1 + seq![c] + s2).skip(1) =~= s1.skip(1) + seq![c] + s2);
            assert((s1 + s2).skip(1) =~= s1.skip(1) + s2);
            if s1.len() > 1 {
                assert(s1.skip(1).last() == s1.last());
            }
            lemma_whitespace_insertion(s1.skip(1), s2, c);
        }
    }
}

/// Left-associativity: when the second of two infix operators binds no
/// tighter than the first, `a op1 b op2 c` parses as `(a op1 b) op2 c` —
/// the first application nests inside the left operand of the second.
pub proof fn lemma_left_associativity(
    a: i64,
    b: i64,
    c: i64,
    t1: Token,
    t2: Token,
    op1: InfixOp,
    op2: InfixOp,
)
    requires
        infix_op_of(t1) == Some(op1),
        infix_op_of(t2) == Some(op2),
        op2.spec_precedence() <= op1.spec_precedence(),
    ensures
        spec_parse(seq![Token::Number(a), t1, Token::Number(b), t2, Token::Number(c)], 0) == (
            Ok::<Expression, Seq<char>>(
                Expression::Infix(
                    Box::new(
                        Expression::Infix(
                            Box::new(Expression::Number(a)),
                            op1,
                            Box::new(Expression::Number(b)),
                        ),
                    ),
                    op2,
                    Box::new(Expression::Number(c)),
                ),
            ),
            Seq::<Token>::empty(),
        ),
{
    let toks = seq![Token::Number(a), t1, Token::Number(b), t2, Token::Number(c)];
    let s1 = seq![t1, Token::Number(b), t2, Token::Number(c)];
    let s2 = seq![Token::Number(b), t2, Token::Number(c)];
    let s3 = seq![t2, Token::Number(c)];
    let s4 = seq![Token::Number(c)];
    let s5 = Seq::<Token>::empty();
    assert(toks.skip(1) =~= s1);
    assert(s1.skip(1) =~= s2);
    assert(s2.skip(1) =~= s3);
    assert(s3.skip(1) =~= s4);
    assert(s4.skip(1) =~= s5);
    let p1: int = op1.spec_precedence() as int;
    let p2: int = op2.spec_precedence() as int;
    let ea = Expression::Number(a);
    let eb = Expression::Number(b);
    let ec = Expression::Number(c);
    let eab = Expression::Infix(Box::new(ea), op1, Box::new(eb));
    let eabc = Expression::Infix(Box::new(eab), op2, Box::new(ec));
    // The right operand of `op1`: just `b`, since `op2` binds below the
    // raised threshold.
    assert(spec_parse_atom(s2) == (Ok::<Expression, Seq<char>>(eb), s3));
    assert(spec_parse_ops(eb, s3, p1 + 1) == (Ok::<Expression, Seq<char>>(eb), s3));
    assert(spec_parse(s2, p1 + 1) == (Ok::<Expression, Seq<char>>(eb), s3));
    // The right operand of `op2`: just `c`.
    assert(spec_parse_atom(s4) == (Ok::<Expression, Seq<char>>(ec), s5));
    assert(spec_parse_ops(ec, s5, p2 + 1) == (Ok::<Expression, Seq<char>>(ec), s5));
    assert(spec_parse(s4, p2 + 1) == (Ok::<Expression, Seq<char>>(ec), s5));
    // The operator loop folds left-to-right.
    assert(spec_parse_ops(eabc, s5, 0) == (Ok::<Expression, Seq<char>>(eabc), s5));
    assert(spec_parse_ops(eab, s3, 0) == (Ok::<Expression, Seq<char>>(eabc), s5));
    assert(spec_parse_ops(ea, s1, 0) == (Ok::<Expression, Seq<char>>(eabc), s5));
    assert(spec_parse_atom(toks) == (Ok::<Expression, Seq<char>>(ea), s1));
    assert(spec_parse(toks, 0) == (Ok::<Expression, Seq<char>>(eabc), s5));
}

/// Precedence: when the second of two infix operators binds tighter than
/// the first, `a op1 b op2 c` parses as `a op1 (b op2 c)` — the tighter
/// application nests inside the right operand of the looser one.
pub proof fn lemma_precedence(
    a: i64,
    b: i64,
    c: i64,
    t1: Token,
    t2: Token,
    op1: InfixOp,
    op2: InfixOp,
)
    requires
        infix_op_of(t1) == Some(op1),
        infix_op_of(t2) == Some(op2),
        op2.spec_precedence() > op1.spec_precedence(),
    ensures
        spec_parse(seq![Token::Number(a), t1, Token::Number(b), t2, Token::Number(c)], 0) == (
            Ok::<Expression, Seq<char>>(
                Expression::Infix(
                    Box::new(Expression::Number(a)),
                    op1,
                    Box::new(
                        Expression::Infix(
                            Box::new(Expression::Number(b)),
                            op2,
                            Box::new(Expression::Number(c)),
                        ),
                    ),
                ),
            ),
            Seq::<Token>::empty(),
        ),
{
    let toks = seq![Token::Number(a), t1, Token::Number(b), t2, Token::Number(c)];
    let s1 = seq![t1, Token::Number(b), t2, Token::Number(c)];
    let s2 = seq![Token::Number(b), t2, Token::Number(c)];
    let s3 = seq![t2, Token::Number(c)];
    let s4 = seq![Token::Number(c)];
    let s5 = Seq::<Token>::empty();
    assert(toks.skip(1) =~= s1);
    assert(s1.skip(1) =~= s2);
    assert(s2.skip(1) =~= s3);
    assert(s3.skip(1) =~= s4);
    assert(s4.skip(1) =~= s5);
    let p1: int = op1.spec_precedence() as int;
    let p2: int = op2.spec_precedence() as int;
    let ea = Expression::Number(a);
    let eb = Expression::Number(b);
    let ec = Expression::Number(c);
    let ebc = Expression::Infix(Box::new(eb), op2, Box::new(ec));
    let eabc = Expression::Infix(Box::new(ea), op1, Box::new(ebc));
    // The right operand of `op2`: just `c`.
    assert(spec_parse_atom(s4) == (Ok::<Expression, Seq<char>>(ec), s5));
    assert(spec_parse_ops(ec, s5, p2 + 1) == (Ok::<Expression, Seq<char>>(ec), s5));
    assert(spec_parse(s4, p2 + 1) == (Ok::<Expression, Seq<char>>(ec), s5));
    // The right operand of `op1` swallows `op2`, which meets the raised
    // threshold.
    assert(spec_parse_atom(s2) == (Ok::<Expression, Seq<char>>(eb), s3));
    assert(spec_parse_ops(ebc, s5, p1 + 1) == (Ok::<Expression, Seq<char>>(ebc), s5));
    assert(spec_parse_ops(eb, s3, p1 + 1) == (Ok::<Expression, Seq<char>>(ebc), s5));
    assert(spec_parse(s2, p1 + 1) == (Ok::<Expression, Seq<char>>(ebc), s5));
    // The operator loop then folds once at the top.
    assert(spec_parse_ops(eabc, s5, 0) == (Ok::<Expression, Seq<char>>(eabc), s5));
    assert(spec_parse_ops(ea, s1, 0) == (Ok::<Expression, Seq<char>>(eabc), s5));
    assert(spec_parse_atom(toks) == (Ok::<Expression, Seq<char>>(ea), s1));
    assert(spec_parse(toks, 0) == (Ok::<Expression, Seq<char>>(eabc), s5));
}

/// Disambiguation by position: a token that denotes both a prefix and an
/// infix operator acts as the prefix one when it opens an expression and
/// as the infix one when it stands between two operands — the role is
/// picked by the grammar, never by the token alone.
pub proof fn lemma_prefix_infix_disambiguation(
    a: i64,
    b: i64,
    t: Token,
    pop: PrefixOp,
    iop: InfixOp,
)
    requires
        prefix_op_of(t) == Some(pop),
        infix_op_of(t) == Some(iop),
    ensures
        spec_parse(seq![t, Token::Number(a)], 0) == (
            Ok::<Expression, Seq<char>>(
                Expression::Prefix(pop, Box::new(Expression::Number(a))),
            ),
            Seq::<Token>::empty(),
        ),
        spec_parse(seq![Token::Number(a), t, Token::Number(b)], 0) == (
            Ok::<Expression, Seq<char>>(
                Expression::Infix(
                    Box::new(Expression::Number(a)),
                    iop,
                    Box::new(Expression::Number(b)),
                ),
            ),
            Seq::<Token>::empty(),
        ),
{
    let ea = Expression::Number(a);
    let eb = Expression::Number(b);
    let empty = Seq::<Token>::empty();
    // Leading position: the prefix role is taken and its operand parsed at
    // the prefix precedence.
    let pre = seq![t, Token::Number(a)];
    let pre1 = seq![Token::Number(a)];
    assert(pre.skip(1) =~= pre1);
    assert(pre1.skip(1) =~= empty);
    let pp: int = pop.spec_precedence() as int;
    assert(spec_parse_atom(pre1) == (Ok::<Expression, Seq<char>>(ea), empty));
    assert(spec_parse_ops(ea, empty, pp) == (Ok::<Expression, Seq<char>>(ea), empty));
    assert(spec_parse(pre1, pp) == (Ok::<Expression, Seq<char>>(ea), empty));
    let epa = Expression::Prefix(pop, Box::new(ea));
    assert(spec_parse_ops(epa, empty, 0) == (Ok::<Expression, Seq<char>>(epa), empty));
    assert(spec_parse(pre, 0) == (Ok::<Expression, Seq<char>>(epa), empty));
    // Between operands: the infix role is taken.
    let inf = seq![Token::Number(a), t, Token::Number(b)];
    let inf1 = seq![t, Token::Number(b)];
    let inf2 = seq![Token::Number(b)];
    assert(inf.skip(1) =~= inf1);
    assert(inf1.skip(1) =~= inf2);
    assert(inf2.skip(1) =~= empty);
    let ip: int = iop.spec_precedence() as int;
    assert(spec_parse_atom(inf2) == (Ok::<Expression, Seq<char>>(eb), empty));
    assert(spec_parse_ops(eb, empty, ip + 1) == (Ok::<Expression, Seq<char>>(eb), empty));
    assert(spec_parse(inf2, ip + 1) == (Ok::<Expression, Seq<char>>(eb), empty));
    let eab = Expression::Infix(Box::new(ea), iop, Box::new(eb));
    assert(spec_parse_ops(eab, empty, 0) == (Ok::<Expression, Seq<char>>(eab), empty));
    assert(spec_parse_ops(ea, inf1, 0) == (Ok::<Expression, Seq<char>>(eab), empty));
    assert(spec_parse_atom(inf) == (Ok::<Expression, Seq<char>>(ea), inf1));
    assert(spec_parse(inf, 0) == (Ok::<Expression, Seq<char>>(eab), empty));
}

/// The comparison operators yield exactly 0 or 1, and never fail.
pub proof fn lemma_comparisons_yield_bits(op: InfixOp, lhs: i64, rhs: i64)
    requires
        op is Less || op is Greater || op is Equal || op is NotEqual,
    ensures
        spec_infix_apply(op, lhs, rhs) matches Ok(v) && (v == 0 || v == 1),
{
}

/// Prefix logical not yields exactly 0 or 1, and never fails.
pub proof fn lemma_not_yields_bit(v: i64)
    ensures
        spec_prefix_apply(PrefixOp::Not, v) matches Ok(b) && (b == 0 || b == 1),
{
}

/// Division or modulo by zero is the typed `DivideByZero` failure, never a
/// value: whenever both operands evaluate and the right one is zero, the
/// infix node fails with exactly that error.
pub proof fn lemma_division_by_zero(lhs: Expression, rhs: Expression, op: InfixOp)
    requires
        op is Divide || op is Modulo,
        spec_eval(lhs) is Ok,
        spec_eval(rhs) == Ok::<i64, EvalError>(0),
    ensures
        spec_eval(Expression::Infix(Box::new(lhs), op, Box::new(rhs))) == Err::<i64, EvalError>(
            EvalError::DivideByZero,
        ),
{
}

/// The postfix factorial is the typed `Unimplemented` failure, never a
/// value: whenever its operand evaluates, the postfix node fails with
/// exactly that error.
pub proof fn lemma_factorial_unimplemented(e: Expression)
    requires
        spec_eval(e) is Ok,
    ensures
        spec_eval(Expression::Postfix(Box::new(e), PostfixOp::Factorial)) == Err::<i64, EvalError>(
            EvalError::Unimplemented,
        ),
{
}

} // verus!
