pub mod config;
pub mod error;
pub mod route;
pub mod socks5;
pub mod tls;
pub mod trojan;
pub mod util;
