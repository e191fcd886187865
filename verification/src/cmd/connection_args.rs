//! Shared IRIS connection flags reused by all subcommands.
//! Precedence (highest to lowest):
//!   1. Explicit flags (`--host`, `--web-port`, `--namespace`, ...)
//!   2. iris-dev.toml workspace config
//!   3. Environment variables (IRIS_HOST, IRIS_WEB_PORT, IRIS_CONTAINER, ...)
//!   4. Auto-discovery cascade (localhost scan, Docker scan, VS Code settings)
//! This module decides the first level: the connection that explicit flags
//! name; the later levels belong to the discovery service.

use vstd::prelude::*;
use crate::text::push_char;

verus! {

/// The connection flags of a subcommand.
pub struct ConnectionArgs {
    /// IRIS web hostname (overrides discovery)
    pub host: Option<String>,
    /// IRIS web port
    pub web_port: u16,
    /// IRIS namespace
    pub namespace: String,
    /// IRIS username
    pub username: Option<String>,
    /// IRIS password
    pub password: Option<String>,
    /// Named Docker container for IRIS (overrides auto-discovery)
    pub container: Option<String>,
}

/// The connection that explicit flags name, before the workspace config and
/// discovery are consulted.
pub struct ExplicitTarget {
    /// `http://<host>:<port>`
    pub base_url: String,
    pub namespace: String,
    pub username: String,
    pub password: String,
}

/// The decimal digit character for `d` (below ten).
pub open spec fn digit_char(d: int) -> char {
    seq!['0', '1', '2', '3', '4', '5', '6', '7', '8', '9'][d]
}

/// The decimal numeral of `n`, without leading zeros.
pub open spec fn decimal(n: nat) -> Seq<char>
    decreases n,
{
    if n < 10 {
        seq![digit_char(n as int)]
    } else {
        decimal(n / 10).push(digit_char((n % 10) as int))
    }
}

/// The username used when none is given.
pub open spec fn default_username() -> Seq<char> {
    "_SYSTEM"@
}

/// The password used when none is given.
pub open spec fn default_password() -> Seq<char> {
    "SYS"@
}

/// The text of an optional flag, or a default.
pub open spec fn or_default(v: Option<String>, d: Seq<char>) -> Seq<char> {
    match v {
        Some(s) => s@,
        None => d,
    }
}

/// The base URL `http://<host>:<port>`.
pub open spec fn base_url(host: Seq<char>, port: u16) -> Seq<char> {
    "http://"@ + host + seq![':'] + decimal(port as nat)
}

fn digit(d: u16) -> (c: char)
    requires
        d < 10,
    ensures
        c == digit_char(d as int),
{
    let table = ['0', '1', '2', '3', '4', '5', '6', '7', '8', '9'];
    proof {
        assert(table@ == seq!['0', '1', '2', '3', '4', '5', '6', '7', '8', '9']);
    }
    table[d as usize]
}

/// Appends the decimal numeral of `n`.
fn push_decimal(s: &mut String, n: u16)
    ensures
        final(s)@ == old(s)@ + decimal(n as nat),
    decreases n,
{
    if n < 10 {
        push_char(s, digit(n));
        assert(old(s)@.push(digit_char(n as int)) =~= old(s)@ + decimal(n as nat));
    } else {
        push_decimal(s, n / 10);
        push_char(s, digit(n % 10));
        assert(old(s)@ + decimal((n / 10) as nat) + seq![digit_char((n % 10) as int)] =~= old(
            s,
        )@ + decimal(n as nat));
    }
}

impl ConnectionArgs {
    /// The connection named by `--host`, with the port, the namespace and the
    /// credentials from the other flags; the username defaults to `_SYSTEM`
    /// and the password to `SYS`. No host flag: no explicit connection.
    pub fn explicit_target(&self) -> (res: Option<ExplicitTarget>)
        ensures
            res is None <==> self.host is None,
            res matches Some(t) ==> {
                &&& t.base_url@ == base_url(self.host.unwrap()@, self.web_port)
                &&& t.namespace@ == self.namespace@
                &&& t.username@ == or_default(self.username, default_username())
                &&& t.password@ == or_default(self.password, default_password())
            },
    {
        match &self.host {
            None => None,
            Some(host) => {
                let mut url = String::new();
                url.append("http://");
                url.append(host.as_str());
                push_char(&mut url, ':');
                push_decimal(&mut url, self.web_port);
                assert(url@ =~= base_url(host@, self.web_port));
                let username = match &self.username {
                    Some(u) => u.clone(),
                    None => "_SYSTEM".to_string(),
                };
                let password = match &self.password {
                    Some(p) => p.clone(),
                    None => "SYS".to_string(),
                };
                Some(
                    ExplicitTarget {
                        base_url: url,
                        namespace: self.namespace.clone(),
                        username,
                        password,
                    },
                )
            },
        }
    }
}

} // verus!
