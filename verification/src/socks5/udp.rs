use vstd::prelude::*;

use crate::error::Error;
use crate::socks5::acceptor::record_len_of;

verus! {

/// A complete target record: its announced size is its actual size.
pub open spec fn target_record_wf(t: Seq<u8>) -> bool {
    t.len() >= 2 && record_len_of(t[0], t[1]) == t.len()
}

/// What re-framing a SOCKS5 UDP datagram as a Trojan UDP packet
/// yields. The datagram is `RSV RSV FRAG target payload` with all
/// three leading octets zero; the packet is `target LEN CRLF payload`
/// with LEN the payload length in two big-endian octets. Fragments,
/// non-zero reserved octets, unknown address types, truncated records
/// and payloads beyond two octets of length are refused.
pub open spec fn spec_datagram_to_trojan(d: Seq<u8>) -> Result<Seq<u8>, Error> {
    if d.len() < 5 {
        Err(Error::ProtocolError)
    } else if d[0] != 0 || d[1] != 0 || d[2] != 0 {
        Err(Error::ProtocolError)
    } else if record_len_of(d[3], d[4]) < 0 {
        Err(Error::UnsupportedAddressType)
    } else {
        let tl = record_len_of(d[3], d[4]);
        if d.len() < 3 + tl {
            Err(Error::ProtocolError)
        } else {
            let target = d.subrange(3, 3 + tl);
            let payload = d.skip(3 + tl);
            if payload.len() > 65535 {
                Err(Error::ProtocolError)
            } else {
                Ok(
                    target + seq![
                        (payload.len() / 256) as u8,
                        (payload.len() % 256) as u8,
                        13u8,
                        10u8,
                    ] + payload,
                )
            }
        }
    }
}

/// What re-framing a Trojan UDP packet as a SOCKS5 UDP datagram
/// yields: the zero reserved and fragment octets, the target record,
/// and the payload, whose length must agree with the packet's LEN
/// field.
pub open spec fn spec_trojan_to_datagram(p: Seq<u8>) -> Result<Seq<u8>, Error> {
    if p.len() < 2 {
        Err(Error::ProtocolError)
    } else if record_len_of(p[0], p[1]) < 0 {
        Err(Error::UnsupportedAddressType)
    } else {
        let tl = record_len_of(p[0], p[1]);
        if p.len() < tl + 4 {
            Err(Error::ProtocolError)
        } else {
            let plen = p[tl] * 256 + p[tl + 1];
            if p.len() != tl + 4 + plen {
                Err(Error::ProtocolError)
            } else {
                Ok(seq![0u8, 0u8, 0u8] + p.subrange(0, tl) + p.skip(tl + 4))
            }
        }
    }
}

/// Re-frames one SOCKS5 UDP datagram as a Trojan UDP packet.
pub fn socks5_to_trojan(d: &[u8]) -> (r: Result<Vec<u8>, Error>)
    ensures
        match spec_datagram_to_trojan(d@) {
            Ok(t) => r matches Ok(v) && v@ == t,
            Err(e) => r == Result::<Vec<u8>, Error>::Err(e),
        },
{
    if d.len() < 5 {
        return Err(Error::ProtocolError);
    }
    if d[0] != 0 || d[1] != 0 || d[2] != 0 {
        return Err(Error::ProtocolError);
    }
    let atyp = d[3];
    if atyp != 1 && atyp != 4 && atyp != 3 {
        return Err(Error::UnsupportedAddressType);
    }
    let tl: usize = if atyp == 1 {
        7
    } else if atyp == 4 {
        19
    } else {
        4 + d[4] as usize
    };
    if d.len() < 3 + tl {
        return Err(Error::ProtocolError);
    }
    let plen = d.len() - 3 - tl;
    if plen > 65535 {
        return Err(Error::ProtocolError);
    }
    let mut v: Vec<u8> = Vec::new();
    v.extend_from_slice(vstd::slice::slice_subrange(d, 3, 3 + tl));
    v.push((plen / 256) as u8);
    v.push((plen % 256) as u8);
    v.push(13);
    v.push(10);
    v.extend_from_slice(vstd::slice::slice_subrange(d, 3 + tl, d.len()));
    proof {
        assert(d@.subrange(3 + tl, d@.len() as int) =~= d@.skip(3 + tl));
        assert(v@ =~= d@.subrange(3, 3 + tl) + seq![
            (d@.skip(3 + tl).len() / 256) as u8,
            (d@.skip(3 + tl).len() % 256) as u8,
            13u8,
            10u8,
        ] + d@.skip(3 + tl));
    }
    Ok(v)
}

/// Reads the payload length a Trojan packet header announces: the
/// two big-endian octets after the target record.
pub fn trojan_payload_len(h: &[u8]) -> (r: Result<usize, Error>)
    requires
        h@.len() >= 2,
    ensures
        ({
            let tl = record_len_of(h@[0], h@[1]);
            if tl < 0 {
                r == Result::<usize, Error>::Err(Error::UnsupportedAddressType)
            } else if h@.len() < tl + 2 {
                r == Result::<usize, Error>::Err(Error::ProtocolError)
            } else {
                r matches Ok(n) && n == h@[tl] * 256 + h@[tl + 1]
            }
        }),
{
    let atyp = h[0];
    if atyp != 1 && atyp != 4 && atyp != 3 {
        return Err(Error::UnsupportedAddressType);
    }
    let tl: usize = if atyp == 1 {
        7
    } else if atyp == 4 {
        19
    } else {
        4 + h[1] as usize
    };
    if h.len() < tl + 2 {
        return Err(Error::ProtocolError);
    }
    Ok((h[tl] as usize) * 256 + (h[tl + 1] as usize))
}

/// Re-frames one Trojan UDP packet as a SOCKS5 UDP datagram.
pub fn trojan_to_socks5(p: &[u8]) -> (r: Result<Vec<u8>, Error>)
    ensures
        match spec_trojan_to_datagram(p@) {
            Ok(t) => r matches Ok(v) && v@ == t,
            Err(e) => r == Result::<Vec<u8>, Error>::Err(e),
        },
{
    if p.len() < 2 {
        return Err(Error::ProtocolError);
    }
    let atyp = p[0];
    if atyp != 1 && atyp != 4 && atyp != 3 {
        return Err(Error::UnsupportedAddressType);
    }
    let tl: usize = if atyp == 1 {
        7
    } else if atyp == 4 {
        19
    } else {
        4 + p[1] as usize
    };
    if p.len() < tl + 4 {
        return Err(Error::ProtocolError);
    }
    let plen = (p[tl] as usize) * 256 + (p[tl + 1] as usize);
    if p.len() != tl + 4 + plen {
        return Err(Error::ProtocolError);
    }
    let mut v: Vec<u8> = Vec::new();
    v.push(0);
    v.push(0);
    v.push(0);
    v.extend_from_slice(vstd::slice::slice_subrange(p, 0, tl));
    v.extend_from_slice(vstd::slice::slice_subrange(p, tl + 4, p.len()));
    proof {
        assert(p@.subrange(tl + 4, p@.len() as int) =~= p@.skip(tl + 4));
        assert(v@ =~= seq![0u8, 0u8, 0u8] + p@.subrange(0, tl as int) + p@.skip(tl + 4));
    }
    Ok(v)
}

/// Framing a datagram for the tunnel and unframing it again yields
/// the datagram back, for every complete target record and every
/// payload whose length fits the packet's two-octet length field.
pub proof fn lemma_udp_roundtrip(target: Seq<u8>, payload: Seq<u8>)
    requires
        target_record_wf(target),
        payload.len() <= 65535,
    ensures
        ({
            let d = seq![0u8, 0u8, 0u8] + target + payload;
            spec_datagram_to_trojan(d) matches Ok(t) && spec_trojan_to_datagram(t) == Result::<
                Seq<u8>,
                Error,
            >::Ok(d)
        }),
{
    let d = seq![0u8, 0u8, 0u8] + target + payload;
    let tl = target.len() as int;
    assert(d[3] == target[0] && d[4] == target[1]);
    assert(record_len_of(d[3], d[4]) == tl);
    assert(d.subrange(3, 3 + tl) =~= target);
    assert(d.skip(3 + tl) =~= payload);
    let t = spec_datagram_to_trojan(d).unwrap();
    let hi = (payload.len() / 256) as u8;
    let lo = (payload.len() % 256) as u8;
    assert(t =~= target + seq![hi, lo, 13u8, 10u8] + payload);
    assert(t[0] == target[0] && t[1] == target[1]);
    assert(record_len_of(t[0], t[1]) == tl);
    assert(t[tl] == hi && t[tl + 1] == lo);
    vstd::arithmetic::div_mod::lemma_fundamental_div_mod(payload.len() as int, 256);
    assert(hi * 256 + lo == payload.len());
    assert(t.len() == tl + 4 + payload.len());
    assert(t.subrange(0, tl) =~= target);
    assert(t.skip(tl + 4) =~= payload);
    assert(spec_trojan_to_datagram(t) == Result::<Seq<u8>, Error>::Ok(
        seq![0u8, 0u8, 0u8] + target + payload,
    ));
}

} // verus!
