use vstd::prelude::*;

verus! {

/// The error kinds this library reports. Protocol faults surface a SOCKS5
/// reply while the connection still allows one; the config and route kinds
/// are fatal at startup.
#[derive(Debug, PartialEq, Eq)]
pub enum Error {
    /// Malformed SOCKS5 or Trojan framing.
    ProtocolError,
    /// SOCKS5 command other than CONNECT or UDP ASSOCIATE (reply code 0x07).
    UnsupportedCommand,
    /// Address type byte outside {1, 3, 4} (reply code 0x08).
    UnsupportedAddressType,
    /// No-authentication method missing from the greeting (reply byte 0xFF).
    UnsupportedAuthMethod,
    /// The peer closed before a full record had arrived.
    UnexpectedEof,
    /// Network, DNS or TLS transport fault, with a description.
    IoError(String),
    /// TLS handshake or certificate failure, with a description.
    TlsError(String),
    /// Bad configuration at startup, with a description.
    ConfigError(String),
    /// A line the route rules parser refused, kept verbatim.
    RouteError(Vec<u8>),
    /// The router refused the target (reply code 0x02).
    Rejected,
}

/// Builds the transport-fault error that carries `desc`.
pub fn io_error(desc: &str) -> (e: Error)
    ensures
        e matches Error::IoError(m) && m@ == desc@,
{
    Error::IoError(desc.to_owned())
}

} // verus!
