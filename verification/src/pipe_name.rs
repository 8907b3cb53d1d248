//! Names of Windows named pipes.
//!
//! A full pipe path reads `\\<server>\pipe\<name>`; the local machine is the server `.`.

use vstd::prelude::*;

verus! {

/// What stands before the name in the path of a pipe on the local machine: `\\.\pipe\`.
pub open spec fn local_prefix() -> Seq<char> {
    seq!['\\', '\\', '.', '\\', 'p', 'i', 'p', 'e', '\\']
}

/// The component that marks a path as a pipe path: `\pipe\`.
pub open spec fn pipe_component() -> Seq<char> {
    seq!['\\', 'p', 'i', 'p', 'e', '\\']
}

/// A character as path detection sees it: ASCII letters in lower case, `/` as `\`.
pub open spec fn fold(c: char) -> char {
    if c == '/' {
        '\\'
    } else if 'A' <= c <= 'Z' {
        (c as u32 + 32) as char
    } else {
        c
    }
}

/// The text as path detection sees it.
pub open spec fn folded(s: Seq<char>) -> Seq<char> {
    s.map_values(|c: char| fold(c))
}

/// `part` occurs in `s` at position `i`.
pub open spec fn occurs_at(s: Seq<char>, part: Seq<char>, i: int) -> bool {
    0 <= i <= s.len() - part.len() && s.subrange(i, i + part.len()) == part
}

/// Whether a character may stand in a pipe name: visible ASCII other than the separators.
///
/// White space, ASCII or not, is never visible ASCII.
pub open spec fn valid_name_char(c: char) -> bool {
    '!' <= c <= '~' && c != '\\' && c != '/'
}

/// Every character may stand in a pipe name.
pub open spec fn valid_name(s: Seq<char>) -> bool {
    forall|i: int| 0 <= i < s.len() ==> valid_name_char(#[trigger] s[i])
}

/// The path `\\<host>\pipe\<name>`.
pub open spec fn full_path(host: Seq<char>, name: Seq<char>) -> Seq<char> {
    seq!['\\', '\\'] + host + pipe_component() + name
}

/// Whether `p` already names a pipe in full: it has the form `\\<host>\pipe\<name>`, whatever
/// the letter case and whichever separator is used. The host is not empty and holds no
/// separator, and the name is not empty.
pub open spec fn valid_pipe_path(p: Seq<char>) -> bool {
    exists|host: Seq<char>, name: Seq<char>|
        folded(p) == #[trigger] full_path(host, name) && host.len() > 0 && !host.contains('\\')
            && name.len() > 0
}

/// The character that stands for `c` in a pipe name.
pub open spec fn sanitize(c: char) -> char {
    if valid_name_char(c) {
        c
    } else {
        '_'
    }
}

/// The characters of a pipe name made of `s`, one by one.
pub open spec fn sanitized(s: Seq<char>) -> Seq<char> {
    s.map_values(|c: char| sanitize(c))
}

/// The pipe name made of `s`. It is never empty.
pub open spec fn bare_name(s: Seq<char>) -> Seq<char> {
    if s.len() == 0 {
        seq!['_']
    } else {
        sanitized(s)
    }
}

/// The path that `s` stands for: `s` itself where it already names a pipe in full, else the
/// pipe of that name on the local machine.
pub open spec fn pipe_path(s: Seq<char>) -> Seq<char> {
    if valid_pipe_path(s) {
        s
    } else {
        local_prefix() + bare_name(s)
    }
}

fn fold_char(c: char) -> (r: char)
    ensures
        r == fold(c),
{
    if c == '/' {
        '\\'
    } else if 'A' <= c && c <= 'Z' {
        (c as u8 + 32) as char
    } else {
        c
    }
}

fn sanitize_char(c: char) -> (r: char)
    ensures
        r == sanitize(c),
{
    if c == '\\' || c == '/' || !('!' <= c && c <= '~') {
        '_'
    } else {
        c
    }
}

fn fold_all(s: &str) -> (r: Vec<char>)
    ensures
        r@ == folded(s@),
{
    let mut r: Vec<char> = Vec::new();
    for c in it: s.chars()
        invariant
            it.seq() == s@,
            r@ == folded(s@.take(it.index() as int)),
    {
        r.push(fold_char(c));
    }
    assert(s@.take(s@.len() as int) == s@);
    r
}

/// Whether the component `\pipe\` stands at position `i`.
fn pipe_component_at(s: &Vec<char>, i: usize) -> (r: bool)
    requires
        i + 6 <= s.len(),
    ensures
        r == occurs_at(s@, pipe_component(), i as int),
{
    let r = s[i] == '\\' && s[i + 1] == 'p' && s[i + 2] == 'i' && s[i + 3] == 'p' && s[i + 4]
        == 'e' && s[i + 5] == '\\';
    proof {
        let sub = s@.subrange(i as int, i + 6);
        if r {
            assert(sub =~= pipe_component());
        } else if sub == pipe_component() {
            assert(sub[0] == s@[i as int] && sub[1] == s@[i + 1] && sub[2] == s@[i + 2] && sub[3]
                == s@[i + 3] && sub[4] == s@[i + 4] && sub[5] == s@[i + 5]);
        }
    }
    r
}

/// Whether `s` already names a pipe in full.
pub fn is_valid_pipe_path(s: &str) -> (r: bool)
    ensures
        r == valid_pipe_path(s@),
{
    let lower = fold_all(s);
    if lower.len() < 2 || lower[0] != '\\' || lower[1] != '\\' {
        proof {
            lemma_full_path_chars();
        }
        return false;
    }
    let mut end: usize = 2;
    while end < lower.len() && lower[end] != '\\'
        invariant
            2 <= end <= lower@.len(),
            forall|j: int| 2 <= j < end ==> lower@[j] != '\\',
        decreases lower@.len() - end,
    {
        end += 1;
    }
    let r = end > 2 && lower.len() - end > 6 && pipe_component_at(&lower, end);
    proof {
        let p = folded(s@);
        if r {
            let host = p.subrange(2, end as int);
            let name = p.skip(end + 6);
            assert(pipe_component() =~= p.subrange(end as int, end + 6));
            assert(p =~= full_path(host, name));
            assert(!host.contains('\\'));
        } else if valid_pipe_path(s@) {
            lemma_full_path_chars();
            let (host, name) = choose|host: Seq<char>, name: Seq<char>|
                p == #[trigger] full_path(host, name) && host.len() > 0 && !host.contains('\\')
                    && name.len() > 0;
            let sep: int = 2 + host.len() as int;
            assert(p[sep] == '\\');
            assert forall|j: int| 2 <= j < sep implies p[j] != '\\' by {
                assert(p[j] == host[j - 2]);
            }
            assert(end == sep);
            assert(p.subrange(sep, sep + 6) =~= pipe_component());
        }
    }
    r
}

/// A full path starts with two separators, and a third one follows the host.
proof fn lemma_full_path_chars()
    ensures
        forall|host: Seq<char>, name: Seq<char>|
            {
                let p = #[trigger] full_path(host, name);
                &&& p.len() == host.len() + name.len() + 8
                &&& p[0] == '\\'
                &&& p[1] == '\\'
                &&& p[(2 + host.len()) as int] == '\\'
            },
{
}

/// The path of the pipe that `s` stands for.
pub fn to_pipe_path(s: &str) -> (r: String)
    ensures
        r@ == pipe_path(s@),
{
    if is_valid_pipe_path(s) {
        return s.to_owned();
    }
    let mut r = "\\\\.\\pipe\\".to_owned();
    proof {
        reveal_strlit("\\\\.\\pipe\\");
    }
    assert(r@ =~= local_prefix());
    if s.is_empty() {
        r.push('_');
        return r;
    }
    for c in it: s.chars()
        invariant
            it.seq() == s@,
            r@ == local_prefix() + sanitized(s@.take(it.index() as int)),
    {
        r.push(sanitize_char(c));
    }
    assert(s@.take(s@.len() as int) == s@);
    r
}

/// A path made of a bare name is the local prefix followed by a name of as many characters, or
/// of one where there is none, each of which may stand in a pipe name.
pub proof fn law_bare_name_is_prefixed_and_sanitized(s: Seq<char>)
    requires
        !valid_pipe_path(s),
    ensures
        pipe_path(s).len() == local_prefix().len() + (if s.len() == 0 {
            1
        } else {
            s.len()
        }),
        pipe_path(s).take(local_prefix().len() as int) == local_prefix(),
        valid_name(pipe_path(s).skip(local_prefix().len() as int)),
{
}

/// The result is always a valid pipe path: it has the form `\\<host>\pipe\<name>`, with a host
/// that is not empty and holds no separator and a name that is not empty.
pub proof fn law_result_is_valid_pipe_path(s: Seq<char>)
    ensures
        valid_pipe_path(pipe_path(s)),
{
    if !valid_pipe_path(s) {
        let host = seq!['.'];
        let name = folded(bare_name(s));
        assert(folded(pipe_path(s)) =~= full_path(host, name));
        assert(host[0] == '.' && !host.contains('\\'));
    }
}

/// Sanitizing keeps every character that may stand in a pipe name, so a clean bare name is
/// only prefixed.
pub proof fn law_clean_name_is_only_prefixed(s: Seq<char>)
    requires
        s.len() > 0,
        valid_name(s),
    ensures
        pipe_path(s) == local_prefix() + s,
{
    if valid_pipe_path(s) {
        lemma_full_path_chars();
        assert(folded(s)[0] == fold(s[0]));
        assert(false);
    }
    assert(sanitized(s) =~= s);
}

/// A path of the form `\\<host>\pipe\<name>` is passed through unchanged, whatever characters
/// its name holds.
pub proof fn law_full_path_passes_through(host: Seq<char>, name: Seq<char>)
    requires
        host.len() > 0,
        !host.contains('\\'),
        !host.contains('/'),
        name.len() > 0,
    ensures
        pipe_path(full_path(host, name)) == full_path(host, name),
{
    let full = full_path(host, name);
    assert(folded(full) =~= full_path(folded(host), folded(name)));
    assert(!folded(host).contains('\\')) by {
        if folded(host).contains('\\') {
            let i = choose|i: int| 0 <= i < folded(host).len() && folded(host)[i] == '\\';
            assert(host.contains(host[i]));
            assert(fold(host[i]) == '\\');
        }
    }
}

/// Normalizing a path that normalizing produced changes nothing.
pub proof fn law_pipe_path_is_idempotent(s: Seq<char>)
    ensures
        pipe_path(pipe_path(s)) == pipe_path(s),
{
    law_result_is_valid_pipe_path(s);
}

} // verus!
