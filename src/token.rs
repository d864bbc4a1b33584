//! A login token, as stored between sessions.
use vstd::prelude::*;

verus! {

/// A JSON web token obtained at login.
#[derive(Debug)]
pub struct Token {
    pub jwt: String,
}

impl Token {
    pub fn new(jwt: String) -> (t: Token)
        ensures
            t.jwt == jwt,
    {
        Token { jwt }
    }
}

} // verus!
