use std::collections::HashMap;

use vstd::prelude::*;

verus! {

/// The TLS options of a client deployment: verification switches,
/// cipher lists, the SNI override, the ALPN protocols, and session
/// reuse knobs.
pub struct Client {
    pub verify: bool,
    pub verify_hostname: bool,
    pub cert: String,
    pub cipher: String,
    pub cipher_tls13: String,
    pub sni: String,
    pub alpn: Vec<String>,
    pub reuse_session: bool,
    pub session_ticket: bool,
    pub curves: String,
}

/// The TLS options of a server deployment; the client keeps them
/// only to round-trip the file.
pub struct Server {
    pub cert: String,
    pub key: String,
    pub key_password: String,
    pub cipher: String,
    pub cipher_tls13: String,
    pub prefer_server_cipher: bool,
    pub alpn: Vec<String>,
    pub alpn_port_override: HashMap<String, u16>,
    pub reuse_session: bool,
    pub session_ticket: bool,
    pub session_timeout: u32,
    pub plain_http_response: String,
    pub curves: String,
    pub dhparam: String,
}

/// The SSL block: a client's options or a server's.
pub enum Config {
    Client(Client),
    Server(Server),
}

impl Config {
    /// The client options; the block must be a client one.
    pub fn client(&self) -> (c: &Client)
        requires
            self is Client,
        ensures
            *self matches Config::Client(cc) && cc == *c,
    {
        match self {
            Config::Client(c) => c,
            Config::Server(_) => vstd::pervasive::unreached(),
        }
    }

    /// The server options; the block must be a server one.
    pub fn server(&self) -> (s: &Server)
        requires
            self is Server,
        ensures
            *self matches Config::Server(ss) && ss == *s,
    {
        match self {
            Config::Server(s) => s,
            Config::Client(_) => vstd::pervasive::unreached(),
        }
    }
}

} // verus!
