use sccache_net::{NetAddr, SocketAddr, UnescapeError};

fn v6(segments: [u16; 8], scope_id: u32) -> String {
    SocketAddr::Net(NetAddr::V6 { segments, port: 4226, flowinfo: 7, scope_id }).to_string()
}

fn path(s: &str) -> Vec<u8> {
    match SocketAddr::parse_uds(s) {
        Ok(SocketAddr::Unix(p)) => p,
        other => panic!("expected Unix, got {other:?}"),
    }
}

fn abstract_name(s: &str) -> Vec<u8> {
    match SocketAddr::parse_uds(s) {
        Ok(SocketAddr::UnixAbstract(p)) => p,
        other => panic!("expected UnixAbstract, got {other:?}"),
    }
}

fn error(s: &str) -> UnescapeError {
    match SocketAddr::parse_uds(s) {
        Err(e) => e,
        other => panic!("expected an error, got {other:?}"),
    }
}

#[test]
fn with_port_is_loopback() {
    let addr = SocketAddr::with_port(4226);
    assert_eq!(addr.to_string(), "127.0.0.1:4226");
    match addr.as_net() {
        Some(NetAddr::V4 { ip, port }) => {
            assert_eq!(*ip, [127, 0, 0, 1]);
            assert_eq!(*port, 4226);
        }
        other => panic!("expected V4, got {other:?}"),
    }
    assert_eq!(SocketAddr::with_port(0).to_string(), "127.0.0.1:0");
    assert_eq!(SocketAddr::with_port(65535).to_string(), "127.0.0.1:65535");
}

#[test]
fn as_net_is_none_elsewhere() {
    assert!(SocketAddr::Unix(vec![]).as_net().is_none());
    assert!(SocketAddr::UnixAbstract(vec![]).as_net().is_none());
    assert!(SocketAddr::parse_pipe("x").as_net().is_none());
}

#[test]
fn is_unix_path_predicate() {
    assert!(SocketAddr::Unix(vec![47, 115]).is_unix_path());
    assert!(!SocketAddr::UnixAbstract(vec![47, 115]).is_unix_path());
    assert!(!SocketAddr::with_port(1).is_unix_path());
    assert!(!SocketAddr::parse_pipe("x").is_unix_path());
}

#[test]
fn v4_text() {
    let addr = SocketAddr::Net(NetAddr::V4 { ip: [0, 10, 255, 100], port: 80 });
    assert_eq!(addr.to_string(), "0.10.255.100:80");
}

#[test]
fn v6_text_leaves_out_the_longest_run_of_zeros() {
    assert_eq!(v6([0, 0, 0, 0, 0, 0, 0, 0], 0), "[::]:4226");
    assert_eq!(v6([0, 0, 0, 0, 0, 0, 0, 1], 0), "[::1]:4226");
    assert_eq!(v6([1, 0, 0, 0, 0, 0, 0, 0], 0), "[1::]:4226");
    assert_eq!(v6([0x2001, 0xdb8, 0, 0, 1, 0, 0, 1], 0), "[2001:db8::1:0:0:1]:4226");
    assert_eq!(v6([0x2001, 0, 0, 1, 0, 0, 0, 0xabcd], 0), "[2001:0:0:1::abcd]:4226");
    assert_eq!(v6([0, 0, 0, 1, 0, 0, 0, 0], 0), "[0:0:0:1::]:4226");
}

#[test]
fn v6_text_keeps_single_zeros() {
    assert_eq!(v6([1, 0, 2, 0, 3, 0, 4, 0], 0), "[1:0:2:0:3:0:4:0]:4226");
    assert_eq!(v6([1, 2, 3, 4, 5, 6, 7, 0xffff], 0), "[1:2:3:4:5:6:7:ffff]:4226");
}

#[test]
fn v6_text_of_mapped_v4() {
    assert_eq!(v6([0, 0, 0, 0, 0, 0xffff, 0x7f00, 1], 0), "[::ffff:127.0.0.1]:4226");
    assert_eq!(v6([0, 0, 0, 0, 0, 0xfffe, 0x7f00, 1], 0), "[::fffe:7f00:1]:4226");
    assert_eq!(v6([0, 0, 0, 0, 0, 0, 0x7f00, 1], 0), "[::7f00:1]:4226");
}

#[test]
fn v6_text_with_scope() {
    assert_eq!(v6([0xfe80, 0, 0, 0, 0, 0, 0, 1], 3), "[fe80::1%3]:4226");
    assert_eq!(v6([0xfe80, 0, 0, 0, 0, 0, 0, 1], 4294967295), "[fe80::1%4294967295]:4226");
}

#[test]
fn path_text_is_kept() {
    for s in ["/tmp/sccache.sock", "", "relative path", "/caf\u{e9}", r"\x0", r"\x01", r"a\x00b", r"\X00"] {
        assert_eq!(path(s), s.as_bytes());
        assert_eq!(SocketAddr::Unix(path(s)).to_string(), s);
        match SocketAddr::unix_path(s) {
            SocketAddr::Unix(p) => assert_eq!(p, s.as_bytes()),
            other => panic!("expected Unix, got {other:?}"),
        }
    }
}

#[test]
fn unix_path_does_not_look_for_the_abstract_prefix() {
    match SocketAddr::unix_path(r"\x00abc") {
        SocketAddr::Unix(p) => assert_eq!(p, r"\x00abc".as_bytes()),
        other => panic!("expected Unix, got {other:?}"),
    }
}

#[test]
fn invalid_path_bytes_are_replaced_in_the_text() {
    let addr = SocketAddr::Unix(vec![47, 0xff, 97]);
    assert_eq!(addr.to_string(), "/\u{fffd}a");
    assert_eq!(SocketAddr::Unix(vec![0xe2, 0x82]).to_string(), "\u{fffd}");
}

#[test]
fn abstract_text() {
    let addr = SocketAddr::UnixAbstract(vec![97, 0, 9, 10, 13, 34, 39, 92, 32, 126, 127, 0xff]);
    assert_eq!(addr.to_string(), "\\x00a\\x00\\t\\n\\r\\\"\\'\\\\ ~\\x7f\\xff");
    assert_eq!(SocketAddr::UnixAbstract(vec![]).to_string(), r"\x00");
}

#[test]
fn abstract_text_parses_back() {
    let all: Vec<u8> = (0..=255).collect();
    let text = SocketAddr::UnixAbstract(all.clone()).to_string();
    assert!(text.is_ascii());
    assert_eq!(abstract_name(&text), all);
    for b in 0..=255u8 {
        for c in [0u8, 48, 92, 120, 255] {
            let name = vec![b, c];
            let text = SocketAddr::UnixAbstract(name.clone()).to_string();
            assert_eq!(abstract_name(&text), name);
        }
    }
}

#[test]
fn abstract_name_may_hold_unescaped_characters() {
    assert_eq!(abstract_name(r"\x00"), Vec::<u8>::new());
    assert_eq!(abstract_name("\\x00caf\u{e9}'\""), "caf\u{e9}'\"".as_bytes());
    assert_eq!(abstract_name(r"\x00\xfF\xAb"), vec![0xff, 0xab]);
}

#[test]
fn malformed_escapes_are_refused() {
    assert_eq!(error(r"\x00abc\"), UnescapeError::Truncated);
    assert_eq!(error(r"\x00abc\x"), UnescapeError::Truncated);
    assert_eq!(error(r"\x00abc\x1"), UnescapeError::Truncated);
    assert_eq!(error(r"\x00\q"), UnescapeError::UnknownEscape);
    assert_eq!(error(r"\x00\0"), UnescapeError::UnknownEscape);
    assert_eq!(error(r"\x00\xg0"), UnescapeError::InvalidHex);
    assert_eq!(error(r"\x00\x0g"), UnescapeError::InvalidHex);
    assert_eq!(error(r"\x00\q\xg0"), UnescapeError::UnknownEscape);
}

#[test]
fn text_of_a_parsed_address_parses_to_the_same_address() {
    for s in ["/tmp/x", r"\x00\x41b", "\\x00\u{e9}", r"\x00"] {
        let text = SocketAddr::parse_uds(s).unwrap().to_string();
        let again = SocketAddr::parse_uds(&text).unwrap();
        assert_eq!(again.to_string(), text);
        assert_eq!(again.is_unix_path(), !s.starts_with(r"\x00"));
    }
}

#[test]
fn listening_address_has_a_path_or_none() {
    match SocketAddr::from_pathname(Some(vec![47, 0xff])) {
        Some(SocketAddr::Unix(p)) => assert_eq!(p, vec![47, 0xff]),
        other => panic!("expected Unix, got {other:?}"),
    }
    assert!(SocketAddr::from_pathname(None).is_none());
}
