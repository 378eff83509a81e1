//! The recoverable parse error: a grammar violation, carrying only the
//! static label of what was expected.  The offending token is attached at
//! the point of reporting, by `got`.

use vstd::prelude::*;
use vstd::string::StringExecFns;

use crate::lexer::{token_chars, Token};

verus! {

/// A grammar violation: something expected was not found.  Its view is the
/// character sequence of the label it carries.
pub struct ParseError {
    expected: &'static str,
}

impl View for ParseError {
    type V = Seq<char>;

    closed spec fn view(&self) -> Seq<char> {
        self.expected@
    }
}

impl ParseError {
    /// An error carrying the label of what was expected.
    pub fn expected(expected: &'static str) -> (e: Self)
        ensures
            e@ == expected@,
    {
        Self { expected }
    }

    /// The full report, with the offending token attached: as in
    /// `Expected ), got EndOfInput`.
    pub fn got(&self, got: Token) -> (r: String)
        ensures
            r@ == "Expected "@ + self@ + ", got "@ + token_chars(got),
    {
        let mut s = String::new();
        s.append("Expected ");
        s.append(self.expected);
        s.append(", got ");
        let t = got.describe();
        s.append(t.as_str());
        proof {
            assert(s@ =~= "Expected "@ + self@ + ", got "@ + token_chars(got));
        }
        s
    }
}

pub type ParseResult<T> = Result<T, ParseError>;

} // verus!
