pub mod ssl;

pub use self::ssl::Config as SslConfig;

use vstd::prelude::*;

verus! {

/// The configuration a running client holds: where to listen, where
/// the Trojan server is, the shared passwords, and the TLS and TCP
/// options. The surrounding program fills it from the configuration
/// file at startup; it is read-only afterwards.
pub struct Config {
    pub run_type: String,
    pub local_addr: String,
    pub local_port: u16,
    pub remote_addr: String,
    pub remote_port: u16,
    pub target_addr: Option<String>,
    pub target_port: Option<u16>,
    pub password: Vec<String>,
    pub udp_timeout: Option<u32>,
    pub log_level: u8,
    pub ssl: SslConfig,
    pub tcp: TcpConfig,
    pub mysql: Option<MysqlConfig>,
}

/// Socket options applied to accepted and dialled TCP connections.
pub struct TcpConfig {
    pub prefer_ipv4: Option<bool>,
    pub no_delay: bool,
    pub keep_alive: bool,
    pub reuse_port: bool,
    pub fast_open: bool,
    pub fast_open_qlen: u32,
}

/// The database block a server-side deployment may carry; the client
/// keeps it only to round-trip the file.
pub struct MysqlConfig {
    pub enabled: bool,
    pub server_addr: String,
    pub server_port: u16,
    pub database: String,
    pub username: String,
    pub password: String,
    pub key: String,
    pub cert: String,
    pub ca: String,
}

} // verus!
