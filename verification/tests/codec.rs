use trojan::error::Error;
use trojan::socks5::target::Socks5Target;

#[test]
fn v4_round_trip() {
    let t = Socks5Target::V4(vec![127, 0, 0, 1], 80);
    let e = t.encode();
    assert_eq!(e, vec![1, 127, 0, 0, 1, 0, 80]);
    match Socks5Target::try_parse(&e).unwrap() {
        Socks5Target::V4(a, p) => {
            assert_eq!(a, vec![127, 0, 0, 1]);
            assert_eq!(p, 80);
        }
        _ => panic!("wrong variant"),
    }
}

#[test]
fn v6_round_trip() {
    let addr: Vec<u8> = (1..=16).collect();
    let t = Socks5Target::V6(addr.clone(), 0xabcd);
    let e = t.encode();
    assert_eq!(e[0], 4);
    assert_eq!(e.len(), 19);
    assert_eq!(&e[1..17], addr.as_slice());
    assert_eq!(&e[17..], &[0xab, 0xcd]);
    match Socks5Target::try_parse(&e).unwrap() {
        Socks5Target::V6(a, p) => {
            assert_eq!(a, addr);
            assert_eq!(p, 0xabcd);
        }
        _ => panic!("wrong variant"),
    }
}

#[test]
fn domain_round_trip() {
    let t = Socks5Target::Domain(b"example.com".to_vec(), 443);
    let e = t.encode();
    assert_eq!(e[0], 3);
    assert_eq!(e[1], 11);
    assert_eq!(&e[2..13], b"example.com");
    assert_eq!(&e[13..], &[1, 187]);
    match Socks5Target::try_parse(&e).unwrap() {
        Socks5Target::Domain(n, p) => {
            assert_eq!(n, b"example.com".to_vec());
            assert_eq!(p, 443);
        }
        _ => panic!("wrong variant"),
    }
}

#[test]
fn target_len_matches_encoded_len() {
    for t in [
        Socks5Target::V4(vec![10, 0, 0, 1], 1),
        Socks5Target::V6(vec![0; 16], 65535),
        Socks5Target::Domain(b"a.example".to_vec(), 8080),
    ] {
        let e = t.encode();
        assert_eq!(Socks5Target::target_len(&e).unwrap(), e.len());
    }
}

#[test]
fn unknown_address_type_refused() {
    let r = Socks5Target::try_parse(&[0x02, 0, 0, 0, 0, 0, 0]);
    assert_eq!(r.unwrap_err(), Error::UnsupportedAddressType);
    let r = Socks5Target::target_len(&[0x02, 0]);
    assert_eq!(r.unwrap_err(), Error::UnsupportedAddressType);
    let r = Socks5Target::try_parse(&[0x00, 1, 2]);
    assert_eq!(r.unwrap_err(), Error::UnsupportedAddressType);
}

#[test]
fn bad_lengths_refused() {
    assert_eq!(
        Socks5Target::try_parse(&[1, 127, 0, 0, 1, 0]).unwrap_err(),
        Error::ProtocolError
    );
    assert_eq!(Socks5Target::try_parse(&[]).unwrap_err(), Error::ProtocolError);
    // domain whose length octet is zero
    assert_eq!(
        Socks5Target::try_parse(&[3, 0, 0, 80]).unwrap_err(),
        Error::ProtocolError
    );
    // domain record shorter than its length octet announces
    assert_eq!(
        Socks5Target::try_parse(&[3, 5, b'a', b'b', 0, 80]).unwrap_err(),
        Error::ProtocolError
    );
}

#[test]
fn control_octets_in_domain_refused() {
    // "a\nb" as a domain name
    assert_eq!(
        Socks5Target::try_parse(&[3, 3, b'a', 0x0a, b'b', 0, 80]).unwrap_err(),
        Error::ProtocolError
    );
}

#[test]
fn invalid_utf8_domain_refused() {
    assert_eq!(
        Socks5Target::try_parse(&[3, 2, 0xff, 0xfe, 0, 80]).unwrap_err(),
        Error::ProtocolError
    );
}

#[test]
fn parse_domain_payload() {
    let t = Socks5Target::parse_domain(&[3, b'a', b'b', b'c', 0x1f, 0x90]).unwrap();
    match t {
        Socks5Target::Domain(n, p) => {
            assert_eq!(n, b"abc".to_vec());
            assert_eq!(p, 8080);
        }
        _ => panic!("wrong variant"),
    }
}

#[test]
fn largest_domain_and_port() {
    let name: Vec<u8> = std::iter::repeat(b'a').take(255).collect();
    let t = Socks5Target::Domain(name.clone(), 65535);
    let e = t.encode();
    assert_eq!(e.len(), 4 + 255);
    assert_eq!(e[1], 255);
    assert_eq!(Socks5Target::target_len(&e).unwrap(), e.len());
    match Socks5Target::try_parse(&e).unwrap() {
        Socks5Target::Domain(n, p) => {
            assert_eq!(n, name);
            assert_eq!(p, 65535);
        }
        _ => panic!("wrong variant"),
    }
}
