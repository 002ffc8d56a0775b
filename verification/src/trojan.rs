use vstd::prelude::*;

use crate::util::{hex_of, sha224, sha224_of, ToHex};

verus! {

/// The Trojan request frame: the SHA-224 of the password as 56
/// lower-case hex octets, a CRLF, the command octet, the target
/// record verbatim, and a closing CRLF.
pub open spec fn spec_trojan_request(password: Seq<u8>, command: u8, target: Seq<u8>) -> Seq<u8> {
    hex_of(sha224_of(password)) + seq![13u8, 10u8] + seq![command] + target + seq![13u8, 10u8]
}

/// Builds the Trojan request frame sent at the start of each tunnel
/// session.
pub fn trojan_request(password: &[u8], command: u8, target: &[u8]) -> (r: Vec<u8>)
    ensures
        r@ == spec_trojan_request(password@, command, target@),
{
    let digest = sha224(password);
    let mut r = digest.as_slice().to_hex();
    r.push(13);
    r.push(10);
    r.push(command);
    r.extend_from_slice(target);
    r.push(13);
    r.push(10);
    proof {
        assert(r@ =~= spec_trojan_request(password@, command, target@));
    }
    r
}

/// Picks the TLS server name for the tunnel: the configured SNI
/// where one is set, else the remote address.
pub fn sni_host<'a>(sni: &'a str, remote_addr: &'a str) -> (r: &'a str)
    ensures
        r@ == if sni@.len() == 0 {
            remote_addr@
        } else {
            sni@
        },
{
    if sni.is_empty() {
        remote_addr
    } else {
        sni
    }
}

} // verus!
