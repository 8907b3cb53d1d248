use sccache_net::pipe_name::is_valid_pipe_path;
use sccache_net::SocketAddr;

fn pipe_path(s: &str) -> String {
    match SocketAddr::parse_pipe(s) {
        SocketAddr::Pipe(p) => p,
        other => panic!("expected Pipe, got {other:?}"),
    }
}

#[test]
fn parse_pipe_normalizes_bare_name() {
    match SocketAddr::parse_pipe("sccache-foo") {
        SocketAddr::Pipe(p) => assert_eq!(p, r"\\.\pipe\sccache-foo"),
        other => panic!("expected Pipe, got {other:?}"),
    }
}

#[test]
fn parse_pipe_passes_through_prefixed() {
    let full = r"\\.\pipe\sccache-bar";
    match SocketAddr::parse_pipe(full) {
        SocketAddr::Pipe(p) => assert_eq!(p, full),
        other => panic!("expected Pipe, got {other:?}"),
    }
}

#[test]
fn parse_pipe_sanitizes_invalid_chars() {
    match SocketAddr::parse_pipe("with space\\and/slash") {
        SocketAddr::Pipe(p) => assert_eq!(p, r"\\.\pipe\with_space_and_slash"),
        other => panic!("expected Pipe, got {other:?}"),
    }
}

#[test]
fn is_pipe_predicate() {
    assert!(SocketAddr::parse_pipe("sccache-foo").is_pipe());
    assert!(!SocketAddr::with_port(4226).is_pipe());
}

#[test]
fn other_addresses_are_no_pipe() {
    assert!(!SocketAddr::Unix(vec![47]).is_pipe());
    assert!(!SocketAddr::UnixAbstract(vec![47]).is_pipe());
}

#[test]
fn prefixed_paths_of_any_host_case_and_separator_pass_through() {
    for full in [
        r"\\build-7\pipe\sccache",
        r"\\.\PIPE\sccache",
        "//./pipe/sccache",
        r"\/.\Pipe/a b",
        "\\\\h\\pipe\\caf\u{e9} \u{1f600}",
        "\\\\h\u{f6}st\\pipe\\x",
        r"\\.\pipe\a\b",
        r"\\pipe\pipe\x",
    ] {
        assert!(is_valid_pipe_path(full));
        assert_eq!(pipe_path(full), full);
    }
}

#[test]
fn almost_prefixed_paths_are_bare_names() {
    assert_eq!(pipe_path(r"\\a\b\pipe\c"), r"\\.\pipe\__a_b_pipe_c");
    assert_eq!(pipe_path(r"\\pipe\x"), r"\\.\pipe\__pipe_x");
    assert_eq!(pipe_path(r"\\\pipe\x"), r"\\.\pipe\___pipe_x");
    assert_eq!(pipe_path(r"\\.\pipe\"), r"\\.\pipe\__._pipe_");
    assert_eq!(pipe_path(r"\\h\"), r"\\.\pipe\__h_");
    assert_eq!(pipe_path(r"\\h"), r"\\.\pipe\__h");
    assert_eq!(pipe_path(r"\\.\pipe"), r"\\.\pipe\__._pipe");
    assert_eq!(pipe_path(r"\.\pipe\x"), r"\\.\pipe\_._pipe_x");
    assert_eq!(pipe_path(r"x\\.\pipe\y"), r"\\.\pipe\x__._pipe_y");
    assert_eq!(pipe_path(r"\\.\pip\x"), r"\\.\pipe\__._pip_x");
    assert_eq!(pipe_path(r"\"), r"\\.\pipe\_");
}

#[test]
fn empty_name_becomes_one_underscore() {
    assert_eq!(pipe_path(""), r"\\.\pipe\_");
}

#[test]
fn each_invalid_character_becomes_one_underscore() {
    assert_eq!(pipe_path("caf\u{e9} \u{1f600}\u{3000}!"), r"\\.\pipe\caf____!");
    assert_eq!(pipe_path("a\tb\nc\u{7f}d\u{0}"), r"\\.\pipe\a_b_c_d_");
}

#[test]
fn visible_ascii_is_kept() {
    let name = "!\"#$%&'()*+,-.0123456789:;<=>?@AZ[]^_`az{|}~";
    assert_eq!(pipe_path(name), format!(r"\\.\pipe\{name}"));
}

#[test]
fn normalizing_twice_changes_nothing() {
    for s in ["sccache-foo", "a b", "", r"\\x\pipe\y z", "caf\u{e9}"] {
        let once = pipe_path(s);
        assert_eq!(pipe_path(&once), once);
        assert_eq!(SocketAddr::parse_pipe(s).to_string(), once);
    }
}

#[test]
fn result_of_a_bare_name_is_a_valid_path() {
    for s in ["a b\\c/d", "caf\u{e9}", "Sccache-X", "", "pipe\\\\"] {
        let path = pipe_path(s);
        let name = path.strip_prefix(r"\\.\pipe\").unwrap();
        assert_eq!(name.chars().count(), s.chars().count().max(1));
        assert!(name.chars().all(|c| c.is_ascii_graphic() && c != '/' && c != '\\'));
    }
}

#[test]
fn result_always_has_a_host_and_a_name() {
    for s in [
        "",
        "a",
        r"\\",
        r"\\\",
        r"\\pipe\",
        r"\\.\pipe\",
        r"\\a\b\pipe\c",
        "//H/Pipe/x",
        r"\\h\pipe\\",
        "\u{e9}",
    ] {
        let path = pipe_path(s).to_ascii_lowercase().replace('/', r"\");
        let (host, rest) = path.strip_prefix(r"\\").unwrap().split_once('\\').unwrap();
        assert!(!host.is_empty());
        assert!(!rest.strip_prefix(r"pipe\").unwrap().is_empty());
        assert!(is_valid_pipe_path(&path));
    }
}
