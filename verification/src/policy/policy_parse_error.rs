use vstd::prelude::*;

use crate::text::{chars_to_string, push_str};

verus! {

/// A CIDR, port range or whitelist entry that could not be parsed.
#[derive(Debug, Clone, PartialEq, Eq)]
pub struct PolicyParseError {
    pub input: String,
    pub reason: &'static str,
}

/// The message of a parse error: `'{input}': {reason}`.
pub open spec fn parse_error_text(input: Seq<char>, reason: Seq<char>) -> Seq<char> {
    seq!['\''] + input + seq!['\'', ':', ' '] + reason
}

impl PolicyParseError {
    pub fn new(input: &str, reason: &'static str) -> (r: Self)
        ensures
            r.input@ == input@,
            r.reason == reason,
    {
        PolicyParseError { input: input.to_owned(), reason }
    }

    /// The error message: `'{input}': {reason}`.
    pub fn message(&self) -> (r: String)
        ensures
            r@ == parse_error_text(self.input@, self.reason@),
    {
        let mut out: Vec<char> = Vec::new();
        out.push('\'');
        push_str(&mut out, self.input.as_str());
        out.push('\'');
        out.push(':');
        out.push(' ');
        push_str(&mut out, self.reason);
        assert(out@ =~= parse_error_text(self.input@, self.reason@));
        chars_to_string(out.as_slice())
    }
}

} // verus!
