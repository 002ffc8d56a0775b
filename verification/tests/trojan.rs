use trojan::trojan::{sni_host, trojan_request};
use trojan::util::{sha224, ToHex};

#[test]
fn request_frame_for_known_password() {
    let target = [1u8, 127, 0, 0, 1, 0, 80];
    let frame = trojan_request(b"hello", 1, &target);
    let mut expected = b"ea09ae9cc6768c50fcee903ed054556e5bfc8347907f12598aa24193".to_vec();
    expected.extend_from_slice(&[13, 10, 1]);
    expected.extend_from_slice(&target);
    expected.extend_from_slice(&[13, 10]);
    assert_eq!(frame, expected);
}

#[test]
fn request_frame_layout() {
    let target = [3u8, 3, b'a', b'b', b'c', 0, 53];
    let frame = trojan_request(b"secret", 3, &target);
    assert_eq!(frame.len(), 56 + 2 + 1 + target.len() + 2);
    assert_eq!(&frame[56..58], &[13, 10]);
    assert_eq!(frame[58], 3);
    assert_eq!(&frame[59..59 + target.len()], &target);
    assert_eq!(&frame[59 + target.len()..], &[13, 10]);
}

#[test]
fn sha224_of_known_inputs() {
    let d = sha224(b"hello");
    assert_eq!(
        d.as_slice().to_hex(),
        b"ea09ae9cc6768c50fcee903ed054556e5bfc8347907f12598aa24193".to_vec()
    );
    let e = sha224(b"");
    assert_eq!(
        e.as_slice().to_hex(),
        b"d14a028c2a3a2bc9476102bb288234c415a2b01f828ea62ac5b3e42f".to_vec()
    );
}

#[test]
fn hex_rendering() {
    assert_eq!([0x00u8, 0xff, 0x5a].as_slice().to_hex(), b"00ff5a".to_vec());
    assert_eq!([].as_slice().to_hex(), Vec::<u8>::new());
}

#[test]
fn sni_falls_back_to_remote_address() {
    assert_eq!(sni_host("", "remote.example"), "remote.example");
    assert_eq!(sni_host("sni.example", "remote.example"), "sni.example");
}
