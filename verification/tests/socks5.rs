use trojan::error::Error;
use trojan::socks5::acceptor::{
    connect_fail_reply, connect_ok_reply, reject_reply, udp_reply, Socks5Acceptor, Socks5Event,
};
use trojan::socks5::target::Socks5Target;

fn acceptor() -> Socks5Acceptor {
    Socks5Acceptor::new(Socks5Target::V4(vec![127, 0, 0, 1], 54321))
}

#[test]
fn connect_handshake() {
    let mut a = acceptor();
    match a.feed(&[5, 1, 0]) {
        Socks5Event::Reply(d) => assert_eq!(d, vec![5, 0]),
        _ => panic!("expected the method reply"),
    }
    match a.feed(&[5, 1, 0, 1, 127, 0, 0, 1, 0, 80]) {
        Socks5Event::Command { command, target } => {
            assert_eq!(command, 1);
            assert_eq!(target, vec![1, 127, 0, 0, 1, 0, 80]);
            match Socks5Target::try_parse(&target).unwrap() {
                Socks5Target::V4(addr, port) => {
                    assert_eq!(addr, vec![127, 0, 0, 1]);
                    assert_eq!(port, 80);
                }
                _ => panic!("expected an IPv4 target"),
            }
        }
        _ => panic!("expected a command"),
    }
    assert!(a.finished());
    assert_eq!(connect_ok_reply(), vec![5, 0, 0, 1, 0, 0, 0, 0, 0, 0]);
}

#[test]
fn no_acceptable_method() {
    let mut a = acceptor();
    match a.feed(&[5, 1, 2]) {
        Socks5Event::Refused { reply, error } => {
            assert_eq!(reply, vec![5, 0xff]);
            assert_eq!(error, Error::UnsupportedAuthMethod);
        }
        _ => panic!("expected a refusal"),
    }
    assert!(!a.finished());
}

#[test]
fn bind_command_refused() {
    let mut a = acceptor();
    match a.feed(&[5, 1, 0]) {
        Socks5Event::Reply(d) => assert_eq!(d, vec![5, 0]),
        _ => panic!("expected the method reply"),
    }
    match a.feed(&[5, 2, 0, 1, 127, 0, 0, 1, 0, 80]) {
        Socks5Event::Refused { reply, error } => {
            assert_eq!(reply, vec![5, 7]);
            assert_eq!(error, Error::UnsupportedCommand);
        }
        _ => panic!("expected a refusal"),
    }
}

#[test]
fn truncated_request_waits_for_more() {
    let mut a = acceptor();
    match a.feed(&[5, 1, 0]) {
        Socks5Event::Reply(d) => assert_eq!(d, vec![5, 0]),
        _ => panic!("expected the method reply"),
    }
    match a.feed(&[5, 1, 0, 1, 127]) {
        Socks5Event::NeedMore => {}
        _ => panic!("expected to wait"),
    }
    // the peer hangs up here: no reply is owed and no request came
    assert!(!a.finished());
}

#[test]
fn wrong_version_closes_without_reply() {
    let mut a = acceptor();
    match a.feed(&[4, 1, 0]) {
        Socks5Event::Refused { reply, error } => {
            assert_eq!(reply, Vec::<u8>::new());
            assert_eq!(error, Error::ProtocolError);
        }
        _ => panic!("expected a refusal"),
    }
}

#[test]
fn unknown_address_type_in_request() {
    let mut a = acceptor();
    a.feed(&[5, 1, 0]);
    match a.feed(&[5, 1, 0, 9, 1]) {
        Socks5Event::Refused { reply, error } => {
            assert_eq!(reply, vec![5, 8]);
            assert_eq!(error, Error::UnsupportedAddressType);
        }
        _ => panic!("expected a refusal"),
    }
}

#[test]
fn chunked_input_is_reassembled() {
    let mut a = acceptor();
    match a.feed(&[5]) {
        Socks5Event::NeedMore => {}
        _ => panic!("expected to wait"),
    }
    match a.feed(&[2]) {
        Socks5Event::NeedMore => {}
        _ => panic!("expected to wait"),
    }
    match a.feed(&[1, 0]) {
        Socks5Event::Reply(d) => assert_eq!(d, vec![5, 0]),
        _ => panic!("expected the method reply"),
    }
    // greeting and request arriving back to back in one chunk
    let mut b = acceptor();
    match b.feed(&[5, 1, 0, 5, 1, 0, 1, 10, 0, 0, 1, 31, 144]) {
        Socks5Event::Reply(d) => assert_eq!(d, vec![5, 0]),
        _ => panic!("expected the method reply"),
    }
    match b.feed(&[]) {
        Socks5Event::Command { command, target } => {
            assert_eq!(command, 1);
            assert_eq!(target, vec![1, 10, 0, 0, 1, 31, 144]);
        }
        _ => panic!("expected a command"),
    }
}

#[test]
fn udp_associate_command() {
    let mut a = acceptor();
    a.feed(&[5, 1, 0]);
    match a.feed(&[5, 3, 0, 1, 0, 0, 0, 0, 4, 210]) {
        Socks5Event::Command { command, target } => {
            assert_eq!(command, 3);
            assert_eq!(target, vec![1, 0, 0, 0, 0, 4, 210]);
        }
        _ => panic!("expected a command"),
    }
}

#[test]
fn peer_address_is_kept() {
    let a = acceptor();
    match a.peer_addr() {
        Socks5Target::V4(addr, port) => {
            assert_eq!(addr, &vec![127, 0, 0, 1]);
            assert_eq!(*port, 54321);
        }
        _ => panic!("expected an IPv4 peer"),
    }
}

#[test]
fn reply_builders() {
    let target = [1, 8, 8, 8, 8, 0, 53];
    assert_eq!(connect_fail_reply(&target), vec![5, 1, 0, 1, 8, 8, 8, 8, 0, 53]);
    assert_eq!(reject_reply(&target), vec![5, 2, 0, 1, 8, 8, 8, 8, 0, 53]);
    let bnd = Socks5Target::V4(vec![192, 168, 0, 2], 40000);
    assert_eq!(udp_reply(&bnd), vec![5, 0, 0, 1, 192, 168, 0, 2, 156, 64]);
}

#[test]
fn greeting_with_many_methods() {
    let mut a = acceptor();
    let mut greeting = vec![5u8, 255];
    greeting.extend(std::iter::repeat(7u8).take(254));
    greeting.push(0);
    match a.feed(&greeting) {
        Socks5Event::Reply(d) => assert_eq!(d, vec![5, 0]),
        _ => panic!("expected the method reply"),
    }
}
