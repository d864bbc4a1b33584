//! The address of an evaluation server and the requests made to it.
use crate::text::{i64_text, int_text, push_text};
use vstd::prelude::*;

verus! {

/// Where the evaluation server listens.
#[derive(Debug)]
pub struct Connection {
    pub host: String,
    pub port: u16,
    pub no_tls: bool,
}

/// `http` without TLS, `https` with it.
pub open spec fn protocol_spec(no_tls: bool) -> Seq<char> {
    if no_tls {
        "http"@
    } else {
        "https"@
    }
}

/// `<protocol>://<host>:<port><endpoint>`.
pub open spec fn url_spec(c: &Connection, endpoint: Seq<char>) -> Seq<char> {
    protocol_spec(c.no_tls) + "://"@ + c.host@ + ":"@ + int_text(c.port as int) + endpoint
}

impl Connection {
    pub fn new(host: String, port: u16, no_tls: bool) -> (c: Connection)
        ensures
            c.host == host,
            c.port == port,
            c.no_tls == no_tls,
    {
        Connection { host, port, no_tls }
    }

    /// The address of `endpoint` on this server.
    pub fn url(&self, endpoint: &str) -> (r: String)
        ensures
            r@ == url_spec(self, endpoint@),
    {
        let mut r = String::new();
        if self.no_tls {
            push_text(&mut r, "http");
        } else {
            push_text(&mut r, "https");
        }
        push_text(&mut r, "://");
        push_text(&mut r, self.host.as_str());
        push_text(&mut r, ":");
        let port = i64_text(self.port as i64);
        push_text(&mut r, port.as_str());
        push_text(&mut r, endpoint);
        r
    }

    /// The address of the health check.
    pub fn health_url(&self) -> (r: String)
        ensures
            r@ == url_spec(self, "/api/health"@),
    {
        self.url("/api/health")
    }

    /// The address to which expressions are sent for evaluation.
    pub fn eval_url(&self) -> (r: String)
        ensures
            r@ == url_spec(self, "/api/eval"@),
    {
        self.url("/api/eval")
    }
}

/// The value of the `Authorization` header for `token`.
pub fn bearer(token: &str) -> (r: String)
    ensures
        r@ == "Bearer "@ + token@,
{
    let mut r = String::new();
    push_text(&mut r, "Bearer ");
    push_text(&mut r, token);
    r
}

} // verus!
