pub mod acceptor;
pub mod target;
pub mod udp;

pub use acceptor::Socks5Acceptor;
pub use target::Socks5Target;
