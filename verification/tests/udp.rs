use trojan::error::Error;
use trojan::socks5::udp::{socks5_to_trojan, trojan_payload_len, trojan_to_socks5};

#[test]
fn datagram_to_trojan_packet() {
    let payload = b"\x12\x34\x00\x01";
    let mut datagram = vec![0, 0, 0, 1, 8, 8, 8, 8, 0, 53];
    datagram.extend_from_slice(payload);
    let packet = socks5_to_trojan(&datagram).unwrap();
    let mut expected = vec![1, 8, 8, 8, 8, 0, 53, 0, payload.len() as u8, 13, 10];
    expected.extend_from_slice(payload);
    assert_eq!(packet, expected);
}

#[test]
fn trojan_packet_back_to_datagram() {
    let payload = b"response bytes";
    let mut packet = vec![1, 8, 8, 8, 8, 0, 53, 0, payload.len() as u8, 13, 10];
    packet.extend_from_slice(payload);
    let datagram = trojan_to_socks5(&packet).unwrap();
    let mut expected = vec![0, 0, 0, 1, 8, 8, 8, 8, 0, 53];
    expected.extend_from_slice(payload);
    assert_eq!(datagram, expected);
}

#[test]
fn round_trip_through_the_bridge() {
    let mut datagram = vec![0, 0, 0, 3, 7, b'e', b'x', b'a', b'm', b'p', b'l', b'e', 0, 53];
    datagram.extend_from_slice(b"query");
    let packet = socks5_to_trojan(&datagram).unwrap();
    assert_eq!(trojan_to_socks5(&packet).unwrap(), datagram);
}

#[test]
fn fragment_or_reserved_octets_refused() {
    assert_eq!(
        socks5_to_trojan(&[0, 0, 1, 1, 8, 8, 8, 8, 0, 53]).unwrap_err(),
        Error::ProtocolError
    );
    assert_eq!(
        socks5_to_trojan(&[9, 0, 0, 1, 8, 8, 8, 8, 0, 53]).unwrap_err(),
        Error::ProtocolError
    );
}

#[test]
fn unknown_address_type_in_datagram() {
    assert_eq!(
        socks5_to_trojan(&[0, 0, 0, 5, 8, 8, 8, 8, 0, 53]).unwrap_err(),
        Error::UnsupportedAddressType
    );
    assert_eq!(trojan_to_socks5(&[5, 0, 0, 0]).unwrap_err(), Error::UnsupportedAddressType);
}

#[test]
fn truncated_records_refused() {
    assert_eq!(socks5_to_trojan(&[0, 0, 0, 1, 8]).unwrap_err(), Error::ProtocolError);
    assert_eq!(trojan_to_socks5(&[1, 8, 8, 8, 8, 0, 53, 0]).unwrap_err(), Error::ProtocolError);
    // length field disagreeing with the actual payload
    assert_eq!(
        trojan_to_socks5(&[1, 8, 8, 8, 8, 0, 53, 0, 9, 13, 10, b'x']).unwrap_err(),
        Error::ProtocolError
    );
}

#[test]
fn payload_length_is_read_from_the_header() {
    let header = [1, 8, 8, 8, 8, 0, 53, 1, 4];
    assert_eq!(trojan_payload_len(&header).unwrap(), 260);
    assert_eq!(trojan_payload_len(&[9, 0]).unwrap_err(), Error::UnsupportedAddressType);
    assert_eq!(trojan_payload_len(&[1, 0, 0]).unwrap_err(), Error::ProtocolError);
}

#[test]
fn empty_payload_is_allowed() {
    let datagram = vec![0, 0, 0, 1, 1, 2, 3, 4, 0, 7];
    let packet = socks5_to_trojan(&datagram).unwrap();
    assert_eq!(packet, vec![1, 1, 2, 3, 4, 0, 7, 0, 0, 13, 10]);
    assert_eq!(trojan_to_socks5(&packet).unwrap(), datagram);
}
