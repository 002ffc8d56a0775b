use vstd::prelude::*;

use crate::error::Error;

verus! {

/// A proxy target address: the SOCKS5 and Trojan wire formats share it.
/// The IPv4 form holds the four address octets; the IPv6 form sixteen;
/// the domain form holds the name octets. The port is kept as a number
/// and travels big-endian on the wire.
#[derive(Debug)]
pub enum Socks5Target {
    V4(Vec<u8>, u16),
    V6(Vec<u8>, u16),
    Domain(Vec<u8>, u16),
}

/// The mathematical shape of a target: octet sequences and a port.
pub enum TargetView {
    V4(Seq<u8>, u16),
    V6(Seq<u8>, u16),
    Domain(Seq<u8>, u16),
}

impl View for Socks5Target {
    type V = TargetView;

    open spec fn view(&self) -> TargetView {
        match self {
            Socks5Target::V4(a, p) => TargetView::V4(a@, *p),
            Socks5Target::V6(a, p) => TargetView::V6(a@, *p),
            Socks5Target::Domain(n, p) => TargetView::Domain(n@, *p),
        }
    }
}

/// A control octet, which a domain name may not hold.
pub open spec fn is_ctl_byte(b: u8) -> bool {
    b < 0x20 || b == 0x7f
}

/// A well-formed domain name: one to 255 octets, valid UTF-8, free of
/// control octets.
pub open spec fn domain_name_wf(name: Seq<u8>) -> bool {
    &&& 1 <= name.len() <= 255
    &&& forall|i: int| 0 <= i < name.len() ==> !is_ctl_byte(#[trigger] name[i])
    &&& vstd::utf8::valid_utf8(name)
}

/// A target in canonical form, sized for its wire record.
pub open spec fn target_wf(t: TargetView) -> bool {
    match t {
        TargetView::V4(a, _) => a.len() == 4,
        TargetView::V6(a, _) => a.len() == 16,
        TargetView::Domain(n, _) => domain_name_wf(n),
    }
}

/// The two big-endian octets of a port.
pub open spec fn port_bytes(p: u16) -> Seq<u8> {
    seq![(p / 256) as u8, (p % 256) as u8]
}

/// The port a big-endian octet pair denotes.
pub open spec fn spec_port(hi: u8, lo: u8) -> u16 {
    (hi * 256 + lo) as u16
}

/// The wire record of a target: the address-type octet, the address
/// payload, then the port.
pub open spec fn spec_encode(t: TargetView) -> Seq<u8> {
    match t {
        TargetView::V4(a, p) => seq![1u8] + a + port_bytes(p),
        TargetView::V6(a, p) => seq![4u8] + a + port_bytes(p),
        TargetView::Domain(n, p) => seq![3u8, n.len() as u8] + n + port_bytes(p),
    }
}

/// The record length the two leading octets announce: 7 for IPv4,
/// 19 for IPv6, 4 plus the name length for a domain; any other
/// address-type octet is refused.
pub open spec fn spec_target_len(data: Seq<u8>) -> Result<int, Error>
    recommends
        data.len() >= 2,
{
    if data[0] == 1 {
        Ok(7)
    } else if data[0] == 4 {
        Ok(19)
    } else if data[0] == 3 {
        Ok(4 + data[1])
    } else {
        Err(Error::UnsupportedAddressType)
    }
}

/// What parsing a domain payload (length octet, name, port) yields.
pub open spec fn spec_parse_domain(payload: Seq<u8>) -> Result<TargetView, Error> {
    if payload.len() >= 1 && payload[0] >= 1 && payload.len() == 3 + payload[0] {
        let name = payload.subrange(1, 1 + payload[0]);
        if domain_name_wf(name) {
            Ok(
                TargetView::Domain(
                    name,
                    spec_port(payload[payload.len() - 2], payload[payload.len() - 1]),
                ),
            )
        } else {
            Err(Error::ProtocolError)
        }
    } else {
        Err(Error::ProtocolError)
    }
}

/// What parsing a full target record yields: the target for a record
/// whose length fits its address type, `UnsupportedAddressType` for an
/// unknown address-type octet, a protocol fault otherwise.
pub open spec fn spec_parse(data: Seq<u8>) -> Result<TargetView, Error> {
    if data.len() == 0 {
        Err(Error::ProtocolError)
    } else if data[0] == 1 {
        if data.len() == 7 {
            Ok(TargetView::V4(data.subrange(1, 5), spec_port(data[5], data[6])))
        } else {
            Err(Error::ProtocolError)
        }
    } else if data[0] == 4 {
        if data.len() == 19 {
            Ok(TargetView::V6(data.subrange(1, 17), spec_port(data[17], data[18])))
        } else {
            Err(Error::ProtocolError)
        }
    } else if data[0] == 3 {
        spec_parse_domain(data.skip(1))
    } else {
        Err(Error::UnsupportedAddressType)
    }
}

/// Relies on core::str::from_utf8: it accepts exactly the valid UTF-8
/// octet sequences, which vstd's `valid_utf8` describes.
#[verifier::external_body]
fn utf8_ok(bytes: &[u8]) -> (r: bool)
    ensures
        r == vstd::utf8::valid_utf8(bytes@),
{
    core::str::from_utf8(bytes).is_ok()
}

/// Reads a big-endian port from two octets.
pub fn read_port(hi: u8, lo: u8) -> (p: u16)
    ensures
        p == spec_port(hi, lo),
{
    (hi as u16) * 256 + (lo as u16)
}

impl Socks5Target {
    /// The record length the buffer's two leading octets announce.
    pub fn target_len(data: &[u8]) -> (r: Result<usize, Error>)
        requires
            data@.len() >= 2,
        ensures
            match spec_target_len(data@) {
                Ok(n) => r matches Ok(m) && m == n,
                Err(e) => r == Result::<usize, Error>::Err(e),
            },
    {
        match data[0] {
            1 => Ok(7),
            4 => Ok(19),
            3 => Ok(4 + data[1] as usize),
            _ => Err(Error::UnsupportedAddressType),
        }
    }

    /// Parses an IPv4 payload: four address octets and the port.
    fn parse_ipv4(payload: &[u8]) -> (t: Socks5Target)
        requires
            payload@.len() == 6,
        ensures
            t@ == TargetView::V4(payload@.subrange(0, 4), spec_port(payload@[4], payload@[5])),
    {
        let addr = vstd::slice::slice_to_vec(vstd::slice::slice_subrange(payload, 0, 4));
        let port = read_port(payload[4], payload[5]);
        Socks5Target::V4(addr, port)
    }

    /// Parses an IPv6 payload: sixteen address octets and the port.
    fn parse_ipv6(payload: &[u8]) -> (t: Socks5Target)
        requires
            payload@.len() == 18,
        ensures
            t@ == TargetView::V6(payload@.subrange(0, 16), spec_port(payload@[16], payload@[17])),
    {
        let addr = vstd::slice::slice_to_vec(vstd::slice::slice_subrange(payload, 0, 16));
        let port = read_port(payload[16], payload[17]);
        Socks5Target::V6(addr, port)
    }

    /// Parses a domain payload: the length octet, the name, the port.
    /// The name must be non-empty UTF-8 without control octets.
    pub fn parse_domain(payload: &[u8]) -> (r: Result<Socks5Target, Error>)
        ensures
            match spec_parse_domain(payload@) {
                Ok(tv) => r matches Ok(t) && t@ == tv && target_wf(tv),
                Err(e) => r == Result::<Socks5Target, Error>::Err(e),
            },
    {
        if payload.len() < 1 {
            return Err(Error::ProtocolError);
        }
        let l = payload[0] as usize;
        if l < 1 || payload.len() != 3 + l {
            return Err(Error::ProtocolError);
        }
        let name_slice = vstd::slice::slice_subrange(payload, 1, 1 + l);
        let ghost name_spec = payload@.subrange(1, 1 + payload@[0]);
        proof {
            assert(name_slice@ =~= name_spec);
        }
        let mut i: usize = 0;
        while i < name_slice.len()
            invariant
                name_slice@ == name_spec,
                name_spec == payload@.subrange(1, 1 + payload@[0]),
                payload@.len() == 3 + l,
                l == payload@[0],
                name_spec.len() == l,
                1 <= l <= 255,
                i <= l,
                forall|j: int| 0 <= j < i ==> !is_ctl_byte(#[trigger] name_slice@[j]),
            decreases l - i,
        {
            let b = name_slice[i];
            if b < 0x20 || b == 0x7f {
                proof {
                    assert(is_ctl_byte(name_spec[i as int]));
                    assert(!domain_name_wf(name_spec));
                }
                return Err(Error::ProtocolError);
            }
            i = i + 1;
        }
        if !utf8_ok(name_slice) {
            return Err(Error::ProtocolError);
        }
        let name = vstd::slice::slice_to_vec(name_slice);
        let port = read_port(payload[1 + l], payload[2 + l]);
        Ok(Socks5Target::Domain(name, port))
    }

    /// Parses a full target record, validating its length against the
    /// address type. An unknown address-type octet is refused with
    /// `UnsupportedAddressType`.
    pub fn try_parse(data: &[u8]) -> (r: Result<Socks5Target, Error>)
        ensures
            match spec_parse(data@) {
                Ok(tv) => r matches Ok(t) && t@ == tv && target_wf(tv),
                Err(e) => r == Result::<Socks5Target, Error>::Err(e),
            },
    {
        if data.len() == 0 {
            return Err(Error::ProtocolError);
        }
        let atyp = data[0];
        if atyp == 1 {
            if data.len() != 7 {
                return Err(Error::ProtocolError);
            }
            let payload = vstd::slice::slice_subrange(data, 1, 7);
            let t = Self::parse_ipv4(payload);
            proof {
                assert(payload@.subrange(0, 4) =~= data@.subrange(1, 5));
            }
            Ok(t)
        } else if atyp == 4 {
            if data.len() != 19 {
                return Err(Error::ProtocolError);
            }
            let payload = vstd::slice::slice_subrange(data, 1, 19);
            let t = Self::parse_ipv6(payload);
            proof {
                assert(payload@.subrange(0, 16) =~= data@.subrange(1, 17));
            }
            Ok(t)
        } else if atyp == 3 {
            let r = Self::parse_domain(vstd::slice::slice_subrange(data, 1, data.len()));
            proof {
                assert(data@.subrange(1, data@.len() as int) =~= data@.skip(1));
            }
            r
        } else {
            Err(Error::UnsupportedAddressType)
        }
    }

    /// Encodes the target as its wire record.
    pub fn encode(&self) -> (r: Vec<u8>)
        requires
            target_wf(self@),
        ensures
            r@ == spec_encode(self@),
    {
        let mut v: Vec<u8> = Vec::new();
        match self {
            Socks5Target::V4(a, p) => {
                v.push(1u8);
                v.extend_from_slice(a.as_slice());
                v.push((*p / 256) as u8);
                v.push((*p % 256) as u8);
            },
            Socks5Target::V6(a, p) => {
                v.push(4u8);
                v.extend_from_slice(a.as_slice());
                v.push((*p / 256) as u8);
                v.push((*p % 256) as u8);
            },
            Socks5Target::Domain(n, p) => {
                v.push(3u8);
                v.push(n.len() as u8);
                v.extend_from_slice(n.as_slice());
                v.push((*p / 256) as u8);
                v.push((*p % 256) as u8);
            },
        }
        proof {
            assert(v@ =~= spec_encode(self@));
        }
        v
    }
}

/// Splitting a port into its big-endian octets and reading them back
/// yields the port.
proof fn lemma_port_roundtrip(p: u16)
    ensures
        spec_port((p / 256) as u8, (p % 256) as u8) == p,
{
    vstd::arithmetic::div_mod::lemma_fundamental_div_mod(p as int, 256);
}

/// Parsing an encoded target yields the target back, for every
/// well-formed target.
pub proof fn lemma_parse_encode(t: TargetView)
    requires
        target_wf(t),
    ensures
        spec_parse(spec_encode(t)) == Result::<TargetView, Error>::Ok(t),
{
    let e = spec_encode(t);
    match t {
        TargetView::V4(a, p) => {
            assert(e.len() == 7);
            assert(e.subrange(1, 5) =~= a);
            lemma_port_roundtrip(p);
        },
        TargetView::V6(a, p) => {
            assert(e.len() == 19);
            assert(e.subrange(1, 17) =~= a);
            lemma_port_roundtrip(p);
        },
        TargetView::Domain(n, p) => {
            let payload = e.skip(1);
            assert(payload.len() == 3 + n.len());
            assert(payload[0] == n.len() as u8);
            assert(payload.subrange(1, 1 + payload[0]) =~= n);
            lemma_port_roundtrip(p);
        },
    }
}

/// The length the codec reports for an encoded target is the record's
/// actual length, for every well-formed target.
pub proof fn lemma_target_len_encode(t: TargetView)
    requires
        target_wf(t),
    ensures
        spec_target_len(spec_encode(t)) == Result::<int, Error>::Ok(spec_encode(t).len() as int),
{
}

} // verus!
