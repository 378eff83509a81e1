//! The token model and the tokenizer.
//!
//! A line of input is a sequence of characters.  `tokens_of` is the
//! specification of tokenization: it skips runs of spaces and tabs, folds
//! maximal runs of ASCII digits into a `Number` (with the wraparound of the
//! host 64-bit integer type on overlong numerals), and turns every other
//! character into a single token.  `Lexer` is the executable one-token
//! lookahead stream; its view `lexer@` is the sequence of tokens it has yet
//! to deliver, and every operation is proved against `tokens_of`.

use vstd::prelude::*;
use vstd::string::StringExecFns;

use crate::parse_result::{ParseError, ParseResult};

verus! {

/// One lexical unit of the input line.
#[derive(Debug, Clone, Copy, PartialEq, Eq, Structural)]
pub enum Token {
    /// A maximal run of ASCII digits, folded into a value.
    Number(i64),
    /// `(`
    LeftParen,
    /// `)`
    RightParen,
    /// Any other non-whitespace character.
    Operator(char),
    /// The position past the last character; delivered repeatedly.
    EndOfInput,
}

/// The whitespace that the tokenizer skips: spaces and tabs only.
pub open spec fn is_space(c: char) -> bool {
    c == ' ' || c == '\t'
}

/// An ASCII decimal digit.
pub open spec fn is_digit(c: char) -> bool {
    48 <= c as u32 && c as u32 <= 57
}

/// The numeric value of an ASCII decimal digit.
pub open spec fn digit_value(c: char) -> int {
    c as u32 - 48
}

/// Folds the maximal digit run at the front of `s` onto the accumulator
/// `acc`, one digit at a time, exactly as the scanner does: each step is
/// `acc * 10 + digit` in wrapping 64-bit arithmetic.  Returns the folded
/// value and the rest of the characters.
pub open spec fn scan_number(s: Seq<char>, acc: i64) -> (i64, Seq<char>)
    decreases s.len(),
{
    if s.len() > 0 && is_digit(s[0]) {
        scan_number(s.skip(1), acc.wrapping_mul(10).wrapping_add(digit_value(s[0]) as i64))
    } else {
        (acc, s)
    }
}

/// The digit run at the front of `s` is part of `s`: scanning it never
/// lengthens the rest, consumes at least the first digit, and what it
/// leaves is a suffix of `s` (so a non-empty leftover ends where `s` ends,
/// and an empty leftover means `s` was digits to its last character).
pub proof fn lemma_scan_number_len(s: Seq<char>, acc: i64)
    ensures
        scan_number(s, acc).1.len() <= s.len(),
        s.len() > 0 && is_digit(s[0]) ==> scan_number(s, acc).1.len() < s.len(),
        scan_number(s, acc).1.len() > 0 ==> scan_number(s, acc).1.last() == s.last(),
        scan_number(s, acc).1.len() == 0 ==> s.len() == 0 || is_digit(s.last()),
    decreases s.len(),
{
    if s.len() > 0 && is_digit(s[0]) {
        lemma_scan_number_len(s.skip(1), acc.wrapping_mul(10).wrapping_add(digit_value(s[0]) as i64));
        if s.len() > 1 {
            assert(s.skip(1).last() == s.last());
        }
    }
}

/// How scanning a digit run behaves across a concatenation: either the run
/// stops inside `s` (and `t` is carried along untouched), or all of `s` is
/// digits and the scan continues into `t` with the value folded so far.
pub proof fn lemma_scan_number_split(s: Seq<char>, t: Seq<char>, acc: i64)
    ensures
        scan_number(s, acc).1.len() > 0 ==> scan_number(s + t, acc) == (
            scan_number(s, acc).0,
            scan_number(s, acc).1 + t,
        ),
        scan_number(s, acc).1.len() == 0 ==> scan_number(s + t, acc) == scan_number(
            t,
            scan_number(s, acc).0,
        ),
    decreases s.len(),
{
    if s.len() == 0 {
        assert(s + t =~= t);
    } else if is_digit(s[0]) {
        assert((s + t)[0] == s[0]);
        assert((s + t).skip(1) =~= s.skip(1) + t);
        lemma_scan_number_split(s.skip(1), t, acc.wrapping_mul(10).wrapping_add(digit_value(s[0]) as i64));
    } else {
        assert((s + t)[0] == s[0]);
    }
}

/// The token stream denoted by a sequence of characters.
pub open spec fn tokens_of(s: Seq<char>) -> Seq<Token>
    decreases s.len(),
        via tokens_of_decreases
{
    if s.len() == 0 {
        seq![]
    } else if is_space(s[0]) {
        tokens_of(s.skip(1))
    } else if is_digit(s[0]) {
        seq![Token::Number(scan_number(s, 0).0)] + tokens_of(scan_number(s, 0).1)
    } else if s[0] == '(' {
        seq![Token::LeftParen] + tokens_of(s.skip(1))
    } else if s[0] == ')' {
        seq![Token::RightParen] + tokens_of(s.skip(1))
    } else {
        seq![Token::Operator(s[0])] + tokens_of(s.skip(1))
    }
}

#[via_fn]
proof fn tokens_of_decreases(s: Seq<char>) {
    if s.len() > 0 && !is_space(s[0]) && is_digit(s[0]) {
        lemma_scan_number_len(s, 0);
    }
}

/// The character for one decimal digit value.
pub open spec fn digit_char(d: int) -> char {
    if d == 0 {
        '0'
    } else if d == 1 {
        '1'
    } else if d == 2 {
        '2'
    } else if d == 3 {
        '3'
    } else if d == 4 {
        '4'
    } else if d == 5 {
        '5'
    } else if d == 6 {
        '6'
    } else if d == 7 {
        '7'
    } else if d == 8 {
        '8'
    } else {
        '9'
    }
}

/// The plain decimal rendering of a non-negative integer, most significant
/// digit first, without leading zeros (except for zero itself).
pub open spec fn dec_digits(n: int) -> Seq<char>
    recommends
        n >= 0,
    decreases n,
{
    if n < 10 {
        seq![digit_char(n)]
    } else {
        dec_digits(n / 10).push(digit_char(n % 10))
    }
}

/// The rendering of a possibly negative integer: a minus sign before the
/// decimal digits of its magnitude.
pub open spec fn int_chars(v: int) -> Seq<char> {
    if v < 0 {
        seq!['-'] + dec_digits(-v)
    } else {
        dec_digits(v)
    }
}

/// The human-readable rendering of a token.
pub open spec fn token_chars(t: Token) -> Seq<char> {
    match t {
        Token::Number(v) => "Number("@ + int_chars(v as int) + ")"@,
        Token::LeftParen => "("@,
        Token::RightParen => ")"@,
        Token::Operator(c) => "Operator('"@ + seq![c] + "')"@,
        Token::EndOfInput => "EndOfInput"@,
    }
}

/// Relies on String::push: it appends exactly the one given character.
#[verifier::external_body]
fn push_char(s: &mut String, c: char)
    ensures
        final(s)@ == old(s)@.push(c),
{
    s.push(c)
}

/// Appends the character of one decimal digit.
fn append_digit(s: &mut String, d: u64)
    requires
        d < 10,
    ensures
        final(s)@ == old(s)@ + seq![digit_char(d as int)],
{
    if d == 0 {
        s.append("0");
        proof {
            reveal_strlit("0");
            assert(s@ =~= old(s)@ + seq![digit_char(d as int)]);
        }
    } else if d == 1 {
        s.append("1");
        proof {
            reveal_strlit("1");
            assert(s@ =~= old(s)@ + seq![digit_char(d as int)]);
        }
    } else if d == 2 {
        s.append("2");
        proof {
            reveal_strlit("2");
            assert(s@ =~= old(s)@ + seq![digit_char(d as int)]);
        }
    } else if d == 3 {
        s.append("3");
        proof {
            reveal_strlit("3");
            assert(s@ =~= old(s)@ + seq![digit_char(d as int)]);
        }
    } else if d == 4 {
        s.append("4");
        proof {
            reveal_strlit("4");
            assert(s@ =~= old(s)@ + seq![digit_char(d as int)]);
        }
    } else if d == 5 {
        s.append("5");
        proof {
            reveal_strlit("5");
            assert(s@ =~= old(s)@ + seq![digit_char(d as int)]);
        }
    } else if d == 6 {
        s.append("6");
        proof {
            reveal_strlit("6");
            assert(s@ =~= old(s)@ + seq![digit_char(d as int)]);
        }
    } else if d == 7 {
        s.append("7");
        proof {
            reveal_strlit("7");
            assert(s@ =~= old(s)@ + seq![digit_char(d as int)]);
        }
    } else if d == 8 {
        s.append("8");
        proof {
            reveal_strlit("8");
            assert(s@ =~= old(s)@ + seq![digit_char(d as int)]);
        }
    } else {
        s.append("9");
        proof {
            reveal_strlit("9");
            assert(s@ =~= old(s)@ + seq![digit_char(d as int)]);
        }
    }
}

/// Appends the plain decimal rendering of `n`.
fn push_decimal(s: &mut String, n: u64)
    ensures
        final(s)@ == old(s)@ + dec_digits(n as int),
    decreases n,
{
    if n >= 10 {
        push_decimal(s, n / 10);
        append_digit(s, n % 10);
        proof {
            assert(old(s)@ + dec_digits((n / 10) as int) + seq![digit_char((n % 10) as int)]
                =~= old(s)@ + dec_digits(n as int));
        }
    } else {
        append_digit(s, n);
    }
}

/// The token at the front of a token stream; `EndOfInput` when none is left.
pub open spec fn head_token(toks: Seq<Token>) -> Token {
    if toks.len() == 0 {
        Token::EndOfInput
    } else {
        toks[0]
    }
}

/// A token stream with its front token removed; an exhausted stream stays
/// exhausted.
pub open spec fn rest_tokens(toks: Seq<Token>) -> Seq<Token> {
    if toks.len() == 0 {
        toks
    } else {
        toks.skip(1)
    }
}

impl Token {
    /// The human-readable rendering of this token, e.g. `Number(5)`, `(`,
    /// `)`, `Operator('+')`, `EndOfInput`.
    pub fn describe(&self) -> (r: String)
        ensures
            r@ == token_chars(*self),
    {
        match self {
            Token::Number(v) => {
                let mut s = String::new();
                s.append("Number(");
                let negative = *v < 0;
                // The magnitude fits a u64 even for the smallest value.
                let m: u64 = if *v == i64::MIN {
                    9223372036854775808u64
                } else if *v < 0 {
                    (-*v) as u64
                } else {
                    *v as u64
                };
                if negative {
                    s.append("-");
                    proof {
                        reveal_strlit("-");
                    }
                }
                push_decimal(&mut s, m);
                s.append(")");
                proof {
                    if negative {
                        assert(int_chars(*v as int) =~= seq!['-'] + dec_digits(m as int));
                    }
                    assert(s@ =~= token_chars(*self));
                }
                s
            },
            Token::LeftParen => String::from_str("("),
            Token::RightParen => String::from_str(")"),
            Token::Operator(c) => {
                let mut s = String::new();
                s.append("Operator('");
                push_char(&mut s, *c);
                s.append("')");
                proof {
                    assert(s@ =~= token_chars(*self));
                }
                s
            },
            Token::EndOfInput => String::from_str("EndOfInput"),
        }
    }
}

/// The one-token-lookahead stream over a line of characters.  The character
/// cursor only moves forward; exactly one buffered `current` token is valid
/// at all times.
pub struct Lexer {
    text: Vec<char>,
    pos: usize,
    current: Token,
}

impl View for Lexer {
    type V = Seq<Token>;

    /// The tokens this lexer has yet to deliver: the buffered token followed
    /// by whatever the unconsumed characters denote.
    closed spec fn view(&self) -> Seq<Token> {
        if self.current == Token::EndOfInput {
            Seq::empty()
        } else {
            seq![self.current] + tokens_of(self.text@.skip(self.pos as int))
        }
    }
}

impl Lexer {
    /// The characters not yet consumed by the cursor.
    pub closed spec fn remaining(self) -> Seq<char> {
        self.text@.skip(self.pos as int)
    }

    /// The lexer's invariant: the cursor is within the text, and the buffered
    /// token is `EndOfInput` only once every character has been consumed.
    pub closed spec fn wf(self) -> bool {
        &&& self.pos <= self.text@.len()
        &&& (self.current == Token::EndOfInput ==> self.pos == self.text@.len())
    }

    /// Recomputes the buffered token from the character cursor: skips spaces
    /// and tabs, then recognizes one token, leaving `EndOfInput` when no
    /// characters remain.
    fn scan(&mut self)
        requires
            old(self).pos <= old(self).text@.len(),
        ensures
            final(self).wf(),
            final(self)@ == tokens_of(old(self).remaining()),
    {
        let ghost rem0 = self.remaining();
        while self.pos < self.text.len() && (self.text[self.pos] == ' ' || self.text[self.pos]
            == '\t')
            invariant
                self.pos <= self.text@.len(),
                self.text == old(self).text,
                self.current == old(self).current,
                tokens_of(self.text@.skip(self.pos as int)) == tokens_of(rem0),
            decreases self.text@.len() - self.pos,
        {
            proof {
                let s = self.text@.skip(self.pos as int);
                assert(s[0] == self.text@[self.pos as int]);
                assert(s.skip(1) =~= self.text@.skip(self.pos as int + 1));
            }
            self.pos = self.pos + 1;
        }
        if self.pos == self.text.len() {
            self.current = Token::EndOfInput;
            proof {
                assert(self.text@.skip(self.pos as int) =~= Seq::<char>::empty());
            }
            return ;
        }
        let ghost s_tok = self.text@.skip(self.pos as int);
        proof {
            assert(s_tok[0] == self.text@[self.pos as int]);
        }
        let c = self.text[self.pos];
        let u: u32 = c as u32;
        if 48 <= u && u <= 57 {
            let ghost s_num = self.text@.skip(self.pos as int);
            let mut value: i64 = 0;
            while self.pos < self.text.len() && 48 <= self.text[self.pos] as u32 && self.text[self.pos]
                as u32 <= 57
                invariant
                    self.pos <= self.text@.len(),
                    self.text == old(self).text,
                    scan_number(self.text@.skip(self.pos as int), value) == scan_number(s_num, 0),
                decreases self.text@.len() - self.pos,
            {
                let d: i64 = (self.text[self.pos] as u32 - 48) as i64;
                proof {
                    let s = self.text@.skip(self.pos as int);
                    assert(s[0] == self.text@[self.pos as int]);
                    assert(is_digit(s[0]));
                    assert(d == digit_value(s[0]) as i64);
                    assert(s.skip(1) =~= self.text@.skip(self.pos as int + 1));
                }
                value = value.wrapping_mul(10).wrapping_add(d);
                self.pos = self.pos + 1;
            }
            self.current = Token::Number(value);
            proof {
                let s_end = self.text@.skip(self.pos as int);
                if s_end.len() > 0 {
                    assert(s_end[0] == self.text@[self.pos as int]);
                }
                assert(scan_number(s_end, value) == (value, s_end));
                assert(tokens_of(s_num) == seq![Token::Number(value)] + tokens_of(s_end));
            }
        } else if c == '(' {
            self.pos = self.pos + 1;
            self.current = Token::LeftParen;
            proof {
                assert(s_tok.skip(1) =~= self.text@.skip(self.pos as int));
            }
        } else if c == ')' {
            self.pos = self.pos + 1;
            self.current = Token::RightParen;
            proof {
                assert(s_tok.skip(1) =~= self.text@.skip(self.pos as int));
            }
        } else {
            self.pos = self.pos + 1;
            self.current = Token::Operator(c);
            proof {
                assert(s_tok.skip(1) =~= self.text@.skip(self.pos as int));
            }
        }
    }

    /// Returns the token currently at the front of the stream.
    pub fn current(&self) -> (t: Token)
        ensures
            t == head_token(self@),
    {
        proof {
            if self.current != Token::EndOfInput {
                assert(self@[0] == self.current);
            }
        }
        self.current
    }

    /// Returns the current token and then advances beyond it; at end of
    /// input it yields `EndOfInput` repeatedly.
    pub fn take(&mut self) -> (t: Token)
        requires
            old(self).wf(),
        ensures
            final(self).wf(),
            t == head_token(old(self)@),
            final(self)@ == rest_tokens(old(self)@),
    {
        let return_value = self.current();
        self.advance();
        return_value
    }

    /// Advances one token ahead in the stream.
    pub fn advance(&mut self)
        requires
            old(self).wf(),
        ensures
            final(self).wf(),
            final(self)@ == rest_tokens(old(self)@),
    {
        proof {
            if old(self).current == Token::EndOfInput {
                assert(old(self).remaining() =~= Seq::<char>::empty());
            } else {
                assert((seq![old(self).current] + tokens_of(old(self).remaining())).skip(1)
                    =~= tokens_of(old(self).remaining()));
            }
        }
        self.scan();
    }

    /// Consumes the current token, but also checks that it was the expected
    /// one; on a mismatch the stream is left untouched and a `ParseError`
    /// carrying `expected` is returned.
    pub fn consume(&mut self, token: Token, expected: &'static str) -> (r: ParseResult<()>)
        requires
            old(self).wf(),
        ensures
            final(self).wf(),
            head_token(old(self)@) == token ==> r is Ok && final(self)@ == rest_tokens(old(self)@),
            head_token(old(self)@) != token ==> *final(self) == *old(self) && (r matches Err(e)
                && e@ == expected@),
    {
        proof {
            if self.current != Token::EndOfInput {
                assert(self@[0] == self.current);
            }
        }
        if self.current != token {
            Err(ParseError::expected(expected))
        } else {
            self.advance();
            Ok(())
        }
    }

    /// A lexer over the given line of characters; the first token is scanned
    /// eagerly, so `current` is valid immediately.
    pub fn new(text: Vec<char>) -> (lexer: Lexer)
        ensures
            lexer.wf(),
            lexer@ == tokens_of(text@),
    {
        let ghost chars = text@;
        let mut lexer = Lexer { text, pos: 0, current: Token::EndOfInput };
        proof {
            assert(lexer.remaining() =~= chars);
        }
        lexer.scan();
        lexer
    }
}

} // verus!
