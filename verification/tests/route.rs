use trojan::error::Error;
use trojan::route::{Action, Router};
use trojan::socks5::target::Socks5Target;

fn lines(text: &[&str]) -> Vec<Vec<u8>> {
    text.iter().map(|l| l.as_bytes().to_vec()).collect()
}

fn v4(a: u8, b: u8, c: u8, d: u8) -> Socks5Target {
    Socks5Target::V4(vec![a, b, c, d], 0)
}

fn domain(name: &str) -> Socks5Target {
    Socks5Target::Domain(name.as_bytes().to_vec(), 0)
}

#[test]
fn cidr_precedence() {
    let r = Router::parse(&lines(&[
        "[direct]",
        "10.0.0.0/8",
        "[reject]",
        "10.1.0.0/16",
        "[default]",
        "proxy",
    ]))
    .unwrap();
    assert_eq!(r.route(&v4(10, 2, 3, 4)), Action::Direct);
    assert_eq!(r.route(&v4(10, 1, 0, 1)), Action::Reject);
    assert_eq!(r.route(&v4(11, 0, 0, 1)), Action::Proxy);
}

#[test]
fn domain_rules() {
    let r = Router::parse(&lines(&[
        "[proxy]",
        "^example.com",
        "google.com",
        "[default]",
        "direct",
    ]))
    .unwrap();
    assert_eq!(r.route(&domain("example.com")), Action::Proxy);
    assert_eq!(r.route(&domain("www.example.com")), Action::Direct);
    assert_eq!(r.route(&domain("www.google.com")), Action::Proxy);
    assert_eq!(r.route(&domain("google.com")), Action::Proxy);
}

#[test]
fn ipv6_takes_default() {
    let r = Router::parse(&lines(&["[reject]", "0.0.0.0/0", "[default]", "direct"])).unwrap();
    let t = Socks5Target::V6(vec![0; 16], 443);
    assert_eq!(r.route(&t), Action::Direct);
    let r2 = Router::parse(&lines(&["[default]", "proxy"])).unwrap();
    assert_eq!(r2.route(&t), Action::Proxy);
}

#[test]
fn invalid_line_names_the_line() {
    let err = Router::parse(&lines(&["[direct]", "not a rule !!"])).unwrap_err();
    match err {
        Error::RouteError(l) => assert_eq!(l, b"not a rule !!".to_vec()),
        other => panic!("unexpected error {:?}", other),
    }
}

#[test]
fn invalid_prefix_length_refused() {
    let err = Router::parse(&lines(&["[direct]", "10.0.0.0/33"])).unwrap_err();
    match err {
        Error::RouteError(l) => assert_eq!(l, b"10.0.0.0/33".to_vec()),
        other => panic!("unexpected error {:?}", other),
    }
}

#[test]
fn invalid_octet_refused() {
    let err = Router::parse(&lines(&["[reject]", "300.1.2.3"])).unwrap_err();
    match err {
        Error::RouteError(l) => assert_eq!(l, b"300.1.2.3".to_vec()),
        other => panic!("unexpected error {:?}", other),
    }
}

#[test]
fn invalid_section_refused() {
    let err = Router::parse(&lines(&["[nowhere]"])).unwrap_err();
    match err {
        Error::RouteError(l) => assert_eq!(l, b"[nowhere]".to_vec()),
        other => panic!("unexpected error {:?}", other),
    }
}

#[test]
fn invalid_default_refused() {
    let err = Router::parse(&lines(&["[default]", "sideways"])).unwrap_err();
    match err {
        Error::RouteError(l) => assert_eq!(l, b"sideways".to_vec()),
        other => panic!("unexpected error {:?}", other),
    }
}

#[test]
fn comments_blanks_and_trim() {
    let r = Router::parse(&lines(&[
        "# heading comment",
        "",
        "  [direct]  ",
        "  192.168.0.0/16  ",
        "[default]",
        "proxy",
    ]))
    .unwrap();
    assert_eq!(r.route(&v4(192, 168, 7, 7)), Action::Direct);
}

#[test]
fn host_route_and_match_all() {
    let r = Router::parse(&lines(&["[reject]", "8.8.8.8", "[default]", "direct"])).unwrap();
    assert_eq!(r.route(&v4(8, 8, 8, 8)), Action::Reject);
    assert_eq!(r.route(&v4(8, 8, 8, 9)), Action::Direct);
    let all = Router::parse(&lines(&["[reject]", "0.0.0.0/0", "[default]", "direct"])).unwrap();
    assert_eq!(all.route(&v4(203, 0, 113, 9)), Action::Reject);
}

#[test]
fn domain_match_is_case_insensitive() {
    let r = Router::parse(&lines(&["[reject]", "Example.COM", "[default]", "direct"])).unwrap();
    assert_eq!(r.route(&domain("WWW.EXAMPLE.com")), Action::Reject);
    assert_eq!(r.route(&domain("example.com")), Action::Reject);
    assert_eq!(r.route(&domain("anexample.com")), Action::Direct);
}

#[test]
fn numeric_domain_routes_as_address() {
    let r = Router::parse(&lines(&["[reject]", "10.0.0.0/8", "[default]", "direct"])).unwrap();
    assert_eq!(r.route(&domain("10.9.9.9")), Action::Reject);
    assert_eq!(r.route(&domain("11.9.9.9")), Action::Direct);
    // dotted and digit-terminated but no address: rejected
    assert_eq!(r.route(&domain("a.b9")), Action::Reject);
}

#[test]
fn default_action_accessor() {
    let r = Router::parse(&lines(&["[default]", "direct"])).unwrap();
    assert_eq!(r.default(), Action::Direct);
    let r2 = Router::empty();
    assert_eq!(r2.default(), Action::Proxy);
}

#[test]
fn mixed_rules_in_one_section() {
    let r = Router::parse(&lines(&[
        "[reject]",
        "ads.example",
        "198.51.100.0/24",
        "[default]",
        "direct",
    ]))
    .unwrap();
    assert_eq!(r.route(&domain("tracker.ads.example")), Action::Reject);
    assert_eq!(r.route(&v4(198, 51, 100, 77)), Action::Reject);
    assert_eq!(r.route(&v4(198, 51, 101, 77)), Action::Direct);
    assert_eq!(r.route(&domain("ads.example.shop")), Action::Direct);
}
