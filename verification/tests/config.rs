use trojan::config::ssl;
use trojan::config::{Config, TcpConfig};
use trojan::error::{io_error, Error};
use trojan::tls::encode_alpn;
use trojan::util::{IntoResult, TrimInPlace};

fn client_ssl() -> ssl::Config {
    ssl::Config::Client(ssl::Client {
        verify: true,
        verify_hostname: true,
        cert: String::new(),
        cipher: String::new(),
        cipher_tls13: String::new(),
        sni: String::from("sni.example"),
        alpn: vec![String::from("h2"), String::from("http/1.1")],
        reuse_session: true,
        session_ticket: false,
        curves: String::new(),
    })
}

#[test]
fn client_accessor() {
    let c = client_ssl();
    let client = c.client();
    assert_eq!(client.sni, "sni.example");
    assert!(client.verify);
}

#[test]
fn config_holds_plain_values() {
    let config = Config {
        run_type: String::from("client"),
        local_addr: String::from("127.0.0.1"),
        local_port: 1080,
        remote_addr: String::from("server.example"),
        remote_port: 443,
        target_addr: None,
        target_port: None,
        password: vec![String::from("hello")],
        udp_timeout: Some(60),
        log_level: 1,
        ssl: client_ssl(),
        tcp: TcpConfig {
            prefer_ipv4: None,
            no_delay: true,
            keep_alive: true,
            reuse_port: false,
            fast_open: false,
            fast_open_qlen: 20,
        },
        mysql: None,
    };
    assert_eq!(config.local_port, 1080);
    assert_eq!(config.password[0], "hello");
    assert_eq!(config.ssl.client().alpn.len(), 2);
}

#[test]
fn alpn_wire_encoding() {
    let protos = vec![String::from("h2"), String::new(), String::from("http/1.1")];
    let mut expected = vec![2, b'h', b'2', 8];
    expected.extend_from_slice(b"http/1.1");
    assert_eq!(encode_alpn(&protos), expected);
    assert_eq!(encode_alpn(&Vec::new()), Vec::<u8>::new());
}

#[test]
fn io_error_carries_description() {
    match io_error("connection reset") {
        Error::IoError(m) => assert_eq!(m, "connection reset"),
        other => panic!("unexpected error {:?}", other),
    }
}

#[test]
fn option_into_result() {
    assert_eq!(Some(7u32).into_result().unwrap(), 7);
    assert_eq!(None::<u32>.into_result().unwrap_err(), Error::ProtocolError);
}

#[test]
fn trim_in_place_strips_whitespace() {
    let mut v = b"  \t hello world \r\n".to_vec();
    v.trim_in_place();
    assert_eq!(v, b"hello world".to_vec());
    let mut w = b" \t\r\n ".to_vec();
    w.trim_in_place();
    assert_eq!(w, Vec::<u8>::new());
}
