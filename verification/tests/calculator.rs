use calculator::lexer::{Lexer, Token};
use calculator::operator::EvalError;
use calculator::parser::parse_expression;

/// Parses one line and evaluates it: the outer `Err` is the rendered parse
/// report, the inner result is evaluation's.
fn run(line: &str) -> Result<Result<i64, EvalError>, String> {
    let chars: Vec<char> = line.chars().collect();
    let mut lexer = Lexer::new(chars);
    match parse_expression(&mut lexer, 0) {
        Ok(ast) => Ok(ast.evaluate()),
        Err(err) => Err(err.got(lexer.current())),
    }
}

fn eval_ok(line: &str) -> i64 {
    match run(line) {
        Ok(Ok(value)) => value,
        other => panic!("{line:?} did not evaluate cleanly: {other:?}"),
    }
}

#[test]
fn numeral_round_trip() {
    assert_eq!(eval_ok("0"), 0);
    assert_eq!(eval_ok("7"), 7);
    assert_eq!(eval_ok("42"), 42);
    assert_eq!(eval_ok("1000000"), 1000000);
    assert_eq!(eval_ok("9223372036854775807"), i64::MAX);
}

#[test]
fn numeral_wraparound() {
    // Overlong numerals fold with the host type's 64-bit wraparound.
    assert_eq!(eval_ok("18446744073709551616"), 0);
    assert_eq!(run("9223372036854775808"), Ok(Ok(i64::MIN)));
}

#[test]
fn whitespace_is_insignificant() {
    assert_eq!(eval_ok(" 2 + 3 "), eval_ok("2+3"));
    assert_eq!(eval_ok("\t2\t*\t3\t"), 6);
    assert_eq!(eval_ok("  ( 2 + 3 ) * 4"), eval_ok("(2+3)*4"));
    assert_eq!(eval_ok("10 -3- 2"), eval_ok("10-3-2"));
}

#[test]
fn precedence() {
    assert_eq!(eval_ok("2+3*4"), 14);
    assert_eq!(eval_ok("(2+3)*4"), 20);
}

#[test]
fn left_associativity() {
    assert_eq!(eval_ok("10-3-2"), 5);
    assert_eq!(eval_ok("100/10/2"), 5);
}

#[test]
fn prefix_vs_infix() {
    assert_eq!(eval_ok("-3+5"), 2);
    assert_eq!(eval_ok("3- -5"), 8);
    assert_eq!(eval_ok("-3*4"), -12);
    assert_eq!(eval_ok("+7"), 7);
    assert_eq!(eval_ok("!5"), 0);
    assert_eq!(eval_ok("!0"), 1);
}

#[test]
fn boolean_results_are_bits() {
    assert_eq!(eval_ok("3<5"), 1);
    assert_eq!(eval_ok("5<3"), 0);
    assert_eq!(eval_ok("3>5"), 0);
    assert_eq!(eval_ok("5>3"), 1);
    assert_eq!(eval_ok("4=4"), 1);
    assert_eq!(eval_ok("4=5"), 0);
    assert_eq!(eval_ok("4~4"), 0);
    assert_eq!(eval_ok("4~5"), 1);
}

#[test]
fn bitwise_family() {
    assert_eq!(eval_ok("6&3"), 2);
    assert_eq!(eval_ok("6|1"), 7);
    assert_eq!(eval_ok("~0"), -1);
    assert_eq!(eval_ok("2<3&1"), 1);
}

#[test]
fn arithmetic() {
    assert_eq!(eval_ok("10%3"), 1);
    assert_eq!(eval_ok("(0-7)/2"), -3);
    assert_eq!(eval_ok("(0-7)%2"), -1);
    assert_eq!(eval_ok("((2))"), 2);
    assert_eq!(eval_ok("2*(3+4)"), 14);
}

#[test]
fn malformed_input_is_reported() {
    assert_eq!(run("(2+3"), Err("Expected ), got EndOfInput".to_string()));
    assert_eq!(run("*5"), Err("Expected expression, got Operator('*')".to_string()));
    assert_eq!(run(""), Err("Expected expression, got EndOfInput".to_string()));
    assert_eq!(run("2+"), Err("Expected expression, got EndOfInput".to_string()));
    assert_eq!(run("(2+3))"), Ok(Ok(5)));
}

#[test]
fn division_by_zero_is_typed() {
    assert_eq!(run("5/0"), Ok(Err(EvalError::DivideByZero)));
    assert_eq!(run("5%0"), Ok(Err(EvalError::DivideByZero)));
    assert_eq!(run("1+5/0"), Ok(Err(EvalError::DivideByZero)));
}

#[test]
fn factorial_is_unimplemented() {
    assert_eq!(run("5!"), Ok(Err(EvalError::Unimplemented)));
    assert_eq!(run("(2+3)!"), Ok(Err(EvalError::Unimplemented)));
}

#[test]
fn overflow_is_typed() {
    assert_eq!(run("9223372036854775807+1"), Ok(Err(EvalError::Overflow)));
    assert_eq!(run("-9223372036854775808"), Ok(Err(EvalError::Overflow)));
    assert_eq!(run("9223372036854775807*2"), Ok(Err(EvalError::Overflow)));
}

#[test]
fn token_rendering() {
    assert_eq!(Token::Number(5).describe().as_str(), "Number(5)");
    assert_eq!(Token::Number(-17).describe().as_str(), "Number(-17)");
    assert_eq!(Token::Number(i64::MIN).describe().as_str(), "Number(-9223372036854775808)");
    assert_eq!(Token::LeftParen.describe().as_str(), "(");
    assert_eq!(Token::RightParen.describe().as_str(), ")");
    assert_eq!(Token::Operator('+').describe().as_str(), "Operator('+')");
    assert_eq!(Token::EndOfInput.describe().as_str(), "EndOfInput");
}

#[test]
fn lexer_lookahead() {
    let chars: Vec<char> = "1+2".chars().collect();
    let mut lexer = Lexer::new(chars);
    assert_eq!(lexer.current(), Token::Number(1));
    assert_eq!(lexer.take(), Token::Number(1));
    assert_eq!(lexer.take(), Token::Operator('+'));
    assert_eq!(lexer.take(), Token::Number(2));
    // At end of input the stream yields EndOfInput repeatedly.
    assert_eq!(lexer.take(), Token::EndOfInput);
    assert_eq!(lexer.take(), Token::EndOfInput);
    assert_eq!(lexer.current(), Token::EndOfInput);
}
