use fasttext_serving::address::parse_unix_address;
use fasttext_serving::address::resolve_address;
use fasttext_serving::address::Address;

#[test]
fn unix_scheme_is_recognized() {
    match parse_unix_address("unix:/tmp/fasttext.sock") {
        Ok(Address::Unix(path)) => assert_eq!(path, "/tmp/fasttext.sock"),
        _ => panic!("the unix scheme must parse"),
    }
}

#[test]
fn plain_host_is_not_a_unix_address() {
    assert!(parse_unix_address("127.0.0.1").is_err());
    assert!(parse_unix_address("unix").is_err());
    assert!(parse_unix_address("").is_err());
}

#[test]
fn resolve_prefers_the_unix_scheme() {
    match resolve_address("unix:/run/serving.sock", 8000) {
        Address::Unix(path) => assert_eq!(path, "/run/serving.sock"),
        _ => panic!("the unix scheme must win over the port"),
    }
}

#[test]
fn resolve_falls_back_to_tcp() {
    match resolve_address("127.0.0.1", 8000) {
        Address::IpPort(host, port) => {
            assert_eq!(host, "127.0.0.1");
            assert_eq!(port, 8000);
        },
        _ => panic!("a plain host resolves to TCP"),
    }
}

#[test]
fn render_tcp_address() {
    let addr = resolve_address("127.0.0.1", 8000);
    assert_eq!(addr.render(), "127.0.0.1:8000");
}

#[test]
fn render_port_edges() {
    assert_eq!(resolve_address("h", 0).render(), "h:0");
    assert_eq!(resolve_address("h", 65535).render(), "h:65535");
    assert_eq!(resolve_address("h", 80).render(), "h:80");
}

#[test]
fn render_unix_address() {
    let addr = resolve_address("unix:/tmp/s", 1234);
    assert_eq!(addr.render(), "unix:/tmp/s");
}
