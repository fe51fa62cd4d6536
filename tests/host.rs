use mousqlite::host::{try_parse_from_str, try_parse_from_string, try_parse_host_url, HostParseError, IpParser};

#[test]
fn it_works() {}

#[test]
fn accepts_host_and_port() {
    assert!(IpParser::accepts("127.0.0.1:3000"));
    assert!(IpParser::accepts("localhost:8080"));
    assert!(IpParser::accepts("my-host.example:1"));
    assert!(IpParser::accepts("a:65535"));
    assert!(IpParser::accepts("a:0"));
    assert!(IpParser::accepts("a:00080"));
}

#[test]
fn refuses_other_text() {
    assert!(!IpParser::accepts(""));
    assert!(!IpParser::accepts("127.0.0.1"));
    assert!(!IpParser::accepts(":80"));
    assert!(!IpParser::accepts("host:"));
    assert!(!IpParser::accepts("host:123456"));
    assert!(!IpParser::accepts("a b:1"));
    assert!(!IpParser::accepts("host:8a"));
    assert!(!IpParser::accepts("h:1:2"));
    assert!(!IpParser::accepts("a:65536"));
    assert!(!IpParser::accepts("a:99999"));
    assert!(!IpParser::accepts("a:70000"));
}

#[test]
fn parse_returns_the_input() {
    assert_eq!(try_parse_from_str("127.0.0.1:3000"), Ok("127.0.0.1:3000".to_string()));
    assert_eq!(try_parse_from_string("db:9".to_string()), Ok("db:9".to_string()));
    assert_eq!(try_parse_from_str("nope"), Err(HostParseError { input: "nope".to_string() }));
    assert_eq!(try_parse_from_string("x:".to_string()), Err(HostParseError { input: "x:".to_string() }));
}

#[test]
fn host_url_to_endpoint() {
    let h = try_parse_host_url(&"127.0.0.1:3000".to_string()).unwrap();
    assert_eq!(h.to_tcp_endpoint(), "tcp://127.0.0.1:3000".to_string());
    assert!(try_parse_host_url(&"bad".to_string()).is_err());
}
