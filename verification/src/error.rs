//! Errors of the library.

use vstd::prelude::*;
use vstd::string::StringExecFns;

verus! {

/// What can go wrong with a license expression.
#[derive(Debug)]
pub enum SpdxExpressionError {
    /// The text, carried here whole, is not a license expression.
    Parse(String),
}

/// The message for a text that could not be parsed.
pub open spec fn parse_failure_message(text: Seq<char>) -> Seq<char> {
    "Parsing for expression `"@ + text + "` failed."@
}

impl SpdxExpressionError {
    /// The text that the error is about.
    pub open spec fn text(&self) -> Seq<char> {
        match self {
            SpdxExpressionError::Parse(text) => text@,
        }
    }

    /// A message for the user.
    pub fn to_string(&self) -> (r: String)
        ensures
            r@ == parse_failure_message(self.text()),
    {
        match self {
            SpdxExpressionError::Parse(text) => {
                let mut r = String::from_str("Parsing for expression `");
                r.append(text.as_str());
                r.append("` failed.");
                r
            },
        }
    }
}

} // verus!
