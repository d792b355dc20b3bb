use vstd::prelude::*;

use crate::text::{chars_to_string, push_str};

verus! {

/// A proxy user from the settings file.
#[derive(Clone, PartialEq, Eq)]
pub struct UserCredentials {
    pub username: String,
    pub password: String,
}

/// The debug rendering of a user: the password is never shown.
pub open spec fn credentials_debug_text(username: Seq<char>) -> Seq<char> {
    "UserCredentials { username: \""@ + username + "\", password: \"<redacted>\" }"@
}

impl UserCredentials {
    /// Debug rendering that leaves the password out.
    pub fn debug_text(&self) -> (r: String)
        ensures
            r@ == credentials_debug_text(self.username@),
    {
        let mut out: Vec<char> = Vec::new();
        push_str(&mut out, "UserCredentials { username: \"");
        push_str(&mut out, self.username.as_str());
        push_str(&mut out, "\", password: \"<redacted>\" }");
        assert(out@ =~= credentials_debug_text(self.username@));
        chars_to_string(out.as_slice())
    }
}

} // verus!
