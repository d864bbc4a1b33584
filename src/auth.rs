//! Credentials and bearer tokens carried with requests.
use vstd::prelude::*;

verus! {

/// An OIDC credential record; requests carry its `id_token` as bearer token.
#[derive(Debug)]
pub struct Credential {
    access_token: String,
    token_type: String,
    scope: String,
    expires_in: u32,
    id_token: String,
    refresh_token: String,
}

impl Credential {
    pub closed spec fn access_token_spec(&self) -> Seq<char> {
        self.access_token@
    }

    pub closed spec fn token_type_spec(&self) -> Seq<char> {
        self.token_type@
    }

    pub closed spec fn scope_spec(&self) -> Seq<char> {
        self.scope@
    }

    pub closed spec fn expires_in_spec(&self) -> u32 {
        self.expires_in
    }

    pub closed spec fn id_token_spec(&self) -> Seq<char> {
        self.id_token@
    }

    pub closed spec fn refresh_token_spec(&self) -> Seq<char> {
        self.refresh_token@
    }

    /// A credential from its fields; no refresh token is kept.
    pub fn new(access_token: String, token_type: String, scope: String, expires_in: u32, id_token: String) -> (c:
        Credential)
        ensures
            c.access_token_spec() == access_token@,
            c.token_type_spec() == token_type@,
            c.scope_spec() == scope@,
            c.expires_in_spec() == expires_in,
            c.id_token_spec() == id_token@,
            c.refresh_token_spec() == Seq::<char>::empty(),
    {
        Credential { access_token, token_type, scope, expires_in, id_token, refresh_token: String::new() }
    }

    pub fn get_id_token(&self) -> (r: &str)
        ensures
            r@ == self.id_token_spec(),
    {
        self.id_token.as_str()
    }

    pub fn _get_access_token(&self) -> (r: &str)
        ensures
            r@ == self.access_token_spec(),
    {
        self.access_token.as_str()
    }

    pub fn _get_refresh_token(&self) -> (r: &str)
        ensures
            r@ == self.refresh_token_spec(),
    {
        self.refresh_token.as_str()
    }

    pub fn get_token_type(&self) -> (r: &str)
        ensures
            r@ == self.token_type_spec(),
    {
        self.token_type.as_str()
    }

    pub fn get_scope(&self) -> (r: &str)
        ensures
            r@ == self.scope_spec(),
    {
        self.scope.as_str()
    }

    pub fn get_expires_in(&self) -> (r: u32)
        ensures
            r == self.expires_in_spec(),
    {
        self.expires_in
    }
}

} // verus!
