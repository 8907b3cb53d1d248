use sccache_net::escape::{ascii_unescape_default, push_escaped};
use sccache_net::text::{digit_char, push_decimal, push_hex};

fn escape(bytes: &[u8]) -> String {
    let mut out = String::from(">");
    push_escaped(&mut out, bytes);
    out
}

#[test]
fn escaping_matches_the_standard_library() {
    let all: Vec<u8> = (0..=255).collect();
    assert_eq!(escape(&all), format!(">{}", all.escape_ascii()));
    assert_eq!(escape(&[]), ">");
}

#[test]
fn unescaping_inverts_escaping() {
    let alphabet: [u8; 11] = [92, 39, 34, 9, 10, 13, 97, 49, 0, 255, 120];
    for a in alphabet {
        for b in alphabet {
            for c in alphabet {
                let bytes = [a, b, c];
                let text = format!("{}", bytes.escape_ascii());
                assert_eq!(ascii_unescape_default(text.as_bytes()), Ok(bytes.to_vec()));
            }
        }
    }
}

#[test]
fn text_without_backslash_stands_for_itself() {
    assert_eq!(ascii_unescape_default(&[0, 34, 200]), Ok(vec![0, 34, 200]));
    assert_eq!(ascii_unescape_default(&[]), Ok(vec![]));
}

#[test]
fn numbers_match_the_standard_library() {
    for n in [0u32, 1, 9, 10, 99, 100, 255, 65535, 4294967295] {
        let mut out = String::new();
        push_decimal(&mut out, n);
        assert_eq!(out, format!("{n}"));
    }
    for n in [0u16, 9, 10, 15, 16, 255, 256, 0x0fff, 0xffff] {
        let mut out = String::new();
        push_hex(&mut out, n);
        assert_eq!(out, format!("{n:x}"));
    }
    assert_eq!(digit_char(15), 'f');
}
