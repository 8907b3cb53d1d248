//! Addresses of every transport under one type.

use vstd::prelude::*;
use vstd::slice::{slice_subrange, slice_to_vec};
use vstd::utf8;

use crate::escape;
use crate::net_addr::{NetAddr, NetAddrModel};
use crate::pipe_name;
use crate::text;

verus! {

/// The address of a server, whatever the transport.
#[derive(Debug)]
pub enum SocketAddr {
    /// A TCP socket.
    Net(NetAddr),
    /// A Unix domain socket in the file system, by the bytes of its path.
    Unix(Vec<u8>),
    /// A Unix domain socket in the abstract namespace of Linux, by its name without the
    /// leading zero byte.
    UnixAbstract(Vec<u8>),
    /// A Windows named pipe, by its full path.
    Pipe(String),
}

/// The mathematical value of a [`SocketAddr`].
pub ghost enum SocketAddrModel {
    Net(NetAddrModel),
    Unix(Seq<u8>),
    UnixAbstract(Seq<u8>),
    Pipe(Seq<char>),
}

impl View for SocketAddr {
    type V = SocketAddrModel;

    open spec fn view(&self) -> SocketAddrModel {
        match *self {
            SocketAddr::Net(addr) => SocketAddrModel::Net(addr@),
            SocketAddr::Unix(path) => SocketAddrModel::Unix(path@),
            SocketAddr::UnixAbstract(name) => SocketAddrModel::UnixAbstract(name@),
            SocketAddr::Pipe(path) => SocketAddrModel::Pipe(path@),
        }
    }
}

/// What marks the text of an address in the abstract namespace: `\x00`, four characters.
pub open spec fn abstract_prefix() -> Seq<char> {
    seq!['\\', 'x', '0', '0']
}

/// Whether a text is that of an address in the abstract namespace.
pub open spec fn has_abstract_prefix(s: Seq<char>) -> bool {
    s.len() >= 4 && s.take(4) == abstract_prefix()
}

/// A path as text; parts that are not valid UTF-8 are replaced.
pub open spec fn path_text(path: Seq<u8>) -> Seq<char> {
    if utf8::valid_utf8(path) {
        utf8::decode_utf8(path)
    } else {
        text::utf8_lossy(path)
    }
}

impl SocketAddrModel {
    /// The address as text.
    pub open spec fn text(self) -> Seq<char> {
        match self {
            SocketAddrModel::Net(addr) => addr.text(),
            SocketAddrModel::Unix(path) => path_text(path),
            SocketAddrModel::UnixAbstract(name) => abstract_prefix() + escape::escaped(name),
            SocketAddrModel::Pipe(path) => path,
        }
    }

    /// The socket in the file system whose path is `s`.
    pub open spec fn unix_path(s: Seq<char>) -> SocketAddrModel {
        SocketAddrModel::Unix(utf8::encode_utf8(s))
    }

    /// The Unix domain socket that `s` stands for: after the abstract prefix an escaped name,
    /// else a path.
    pub open spec fn parse_uds(s: Seq<char>) -> Result<SocketAddrModel, escape::UnescapeError> {
        if has_abstract_prefix(s) {
            match escape::unescaped(utf8::encode_utf8(s.skip(4))) {
                Ok(name) => Ok(SocketAddrModel::UnixAbstract(name)),
                Err(e) => Err(e),
            }
        } else {
            Ok(SocketAddrModel::unix_path(s))
        }
    }

    /// The named pipe that `s` stands for.
    pub open spec fn parse_pipe(s: Seq<char>) -> SocketAddrModel {
        SocketAddrModel::Pipe(pipe_name::pipe_path(s))
    }
}

fn starts_with_abstract_prefix(s: &str) -> (r: bool)
    ensures
        r == has_abstract_prefix(s@),
{
    if s.unicode_len() < 4 {
        return false;
    }
    let r = s.get_char(0) == '\\' && s.get_char(1) == 'x' && s.get_char(2) == '0' && s.get_char(3)
        == '0';
    proof {
        let head = s@.take(4);
        if r {
            assert(head =~= abstract_prefix());
        } else if head == abstract_prefix() {
            assert(head[0] == s@[0] && head[1] == s@[1] && head[2] == s@[2] && head[3] == s@[3]);
        }
    }
    r
}

/// The abstract prefix takes one byte per character.
proof fn lemma_abstract_prefix_bytes(s: Seq<char>)
    requires
        has_abstract_prefix(s),
    ensures
        utf8::encode_utf8(s).len() >= 4,
        utf8::encode_utf8(s).skip(4) == utf8::encode_utf8(s.skip(4)),
{
    let head = s.take(4);
    assert(head[0] == s[0] && head[1] == s[1] && head[2] == s[2] && head[3] == s[3]);
    let s1 = s.drop_first();
    let s2 = s1.drop_first();
    let s3 = s2.drop_first();
    let s4 = s3.drop_first();
    assert(s4 =~= s.skip(4));
    assert(utf8::encode_utf8(s) == utf8::encode_scalar(s[0] as u32) + utf8::encode_utf8(s1));
    assert(utf8::encode_utf8(s1) == utf8::encode_scalar(s[1] as u32) + utf8::encode_utf8(s2));
    assert(utf8::encode_utf8(s2) == utf8::encode_scalar(s[2] as u32) + utf8::encode_utf8(s3));
    assert(utf8::encode_utf8(s3) == utf8::encode_scalar(s[3] as u32) + utf8::encode_utf8(s4));
    assert(utf8::encode_utf8(s).skip(4) =~= utf8::encode_utf8(s4));
}

impl SocketAddr {
    /// Get a Net address with the IP part set to "127.0.0.1".
    pub fn with_port(port: u16) -> (r: Self)
        ensures
            r@ == SocketAddrModel::Net(NetAddrModel::V4 { ip: seq![127u8, 0, 0, 1], port }),
    {
        let ip: [u8; 4] = [127, 0, 0, 1];
        assert(ip@ =~= seq![127u8, 0, 0, 1]);
        SocketAddr::Net(NetAddr::V4 { ip, port })
    }

    /// The internet address, where the transport is TCP.
    pub fn as_net(&self) -> (r: Option<&NetAddr>)
        ensures
            match *self {
                SocketAddr::Net(addr) => r == Some(&addr),
                _ => r is None,
            },
    {
        match self {
            SocketAddr::Net(addr) => Some(addr),
            _ => None,
        }
    }

    /// Whether this is a Unix domain socket in the file system.
    pub fn is_unix_path(&self) -> (r: bool)
        ensures
            r == (self@ is Unix),
    {
        matches!(self, SocketAddr::Unix(_))
    }

    /// Whether this is a named pipe.
    pub fn is_pipe(&self) -> (r: bool)
        ensures
            r == (self@ is Pipe),
    {
        matches!(self, SocketAddr::Pipe(_))
    }

    /// The address as text, in the form that the parsers read.
    pub fn to_string(&self) -> (r: String)
        ensures
            r@ == self@.text(),
    {
        match self {
            SocketAddr::Net(addr) => {
                let mut out = String::new();
                addr.push_text(&mut out);
                out
            },
            SocketAddr::Unix(path) => text::from_utf8_lossy(path.as_slice()),
            SocketAddr::UnixAbstract(name) => {
                let mut out = String::new();
                out.append("\\x00");
                proof {
                    reveal_strlit("\\x00");
                }
                assert(out@ =~= abstract_prefix());
                escape::push_escaped(&mut out, name.as_slice());
                out
            },
            SocketAddr::Pipe(path) => path.clone(),
        }
    }

    /// The socket in the file system whose path is `s`.
    pub fn unix_path(s: &str) -> (r: Self)
        ensures
            r@ == SocketAddrModel::unix_path(s@),
    {
        SocketAddr::Unix(slice_to_vec(s.as_bytes()))
    }

    /// Parse a string as a Unix domain socket.
    ///
    /// The string should follow the format of `self.to_string()`.
    pub fn parse_uds(s: &str) -> (r: Result<Self, escape::UnescapeError>)
        ensures
            match r {
                Ok(addr) => SocketAddrModel::parse_uds(s@) == Ok::<
                    SocketAddrModel,
                    escape::UnescapeError,
                >(addr@),
                Err(e) => SocketAddrModel::parse_uds(s@) == Err::<
                    SocketAddrModel,
                    escape::UnescapeError,
                >(e),
            },
    {
        // An abstract name can contain any character, so its prefix is looked for first.
        if starts_with_abstract_prefix(s) {
            proof {
                lemma_abstract_prefix_bytes(s@);
            }
            let bytes = s.as_bytes();
            let rest = slice_subrange(bytes, 4, bytes.len());
            assert(rest@ =~= bytes@.skip(4));
            match escape::ascii_unescape_default(rest) {
                Ok(name) => Ok(SocketAddr::UnixAbstract(name)),
                Err(e) => Err(e),
            }
        } else {
            Ok(Self::unix_path(s))
        }
    }

    /// Parse a string as a Windows named pipe address.
    ///
    /// A bare name (e.g. `sccache-foo`) is normalized to `\\.\pipe\sccache-foo`. An
    /// already-prefixed path (`\\.\pipe\...` or `\\<host>\pipe\...`) is passed through unchanged.
    /// The name component is sanitized so the result is always a valid pipe path: characters
    /// that are invalid in a pipe name (notably backslash, plus spaces and non-ASCII) are
    /// replaced with `_`, and an empty name becomes `_`. A path that lacks the host or the name
    /// is taken for a bare name.
    pub fn parse_pipe(s: &str) -> (r: Self)
        ensures
            r@ == SocketAddrModel::parse_pipe(s@),
    {
        SocketAddr::Pipe(pipe_name::to_pipe_path(s))
    }

    /// The address of a listening Unix domain socket, given the path that it is bound to.
    ///
    /// A socket without a path (unnamed or abstract) has no address to report.
    pub fn from_pathname(pathname: Option<Vec<u8>>) -> (r: Option<Self>)
        ensures
            match pathname {
                Some(path) => r matches Some(addr) && addr@ == SocketAddrModel::Unix(path@),
                None => r is None,
            },
    {
        match pathname {
            Some(path) => Some(SocketAddr::Unix(path)),
            None => None,
        }
    }
}

/// The text of an address in the abstract namespace, whatever its name, parses to that address.
pub proof fn law_abstract_text_parses_back(name: Seq<u8>)
    ensures
        SocketAddrModel::parse_uds(SocketAddrModel::UnixAbstract(name).text()) == Ok::<
            SocketAddrModel,
            escape::UnescapeError,
        >(SocketAddrModel::UnixAbstract(name)),
{
    let t = SocketAddrModel::UnixAbstract(name).text();
    assert(t.take(4) =~= abstract_prefix());
    assert(t.skip(4) =~= escape::escaped(name));
    escape::law_unescape_inverts_escape(name);
}

/// The text of a socket in the file system parses to that address, where the path is valid
/// UTF-8 and its text does not read as that of an abstract name.
pub proof fn law_path_text_parses_back(path: Seq<u8>)
    requires
        utf8::valid_utf8(path),
        !has_abstract_prefix(path_text(path)),
    ensures
        SocketAddrModel::parse_uds(SocketAddrModel::Unix(path).text()) == Ok::<
            SocketAddrModel,
            escape::UnescapeError,
        >(SocketAddrModel::Unix(path)),
{
    utf8::decode_utf8_encode_utf8(path);
}

/// Whatever parses as a Unix domain socket, the text of the result parses to the same address.
pub proof fn law_parsed_uds_text_parses_back(s: Seq<char>)
    requires
        SocketAddrModel::parse_uds(s) is Ok,
    ensures
        SocketAddrModel::parse_uds(SocketAddrModel::parse_uds(s)->Ok_0.text())
            == SocketAddrModel::parse_uds(s),
{
    if has_abstract_prefix(s) {
        law_abstract_text_parses_back(escape::unescaped(utf8::encode_utf8(s.skip(4)))->Ok_0);
    } else {
        utf8::encode_utf8_valid_utf8(s);
        utf8::encode_utf8_decode_utf8(s);
    }
}

/// A string without the abstract prefix is always a path, and the text of its address is the
/// string itself.
pub proof fn law_path_string_is_kept(s: Seq<char>)
    requires
        !has_abstract_prefix(s),
    ensures
        SocketAddrModel::parse_uds(s) is Ok,
        SocketAddrModel::parse_uds(s)->Ok_0 is Unix,
        SocketAddrModel::parse_uds(s)->Ok_0.text() == s,
{
    utf8::encode_utf8_valid_utf8(s);
    utf8::encode_utf8_decode_utf8(s);
}

/// Different abstract names have different texts.
pub proof fn law_abstract_text_is_injective(a: Seq<u8>, b: Seq<u8>)
    requires
        SocketAddrModel::UnixAbstract(a).text() == SocketAddrModel::UnixAbstract(b).text(),
    ensures
        a == b,
{
    law_abstract_text_parses_back(a);
    law_abstract_text_parses_back(b);
}

/// The text of a parsed pipe address parses to the same address.
pub proof fn law_pipe_text_parses_back(s: Seq<char>)
    ensures
        SocketAddrModel::parse_pipe(SocketAddrModel::parse_pipe(s).text())
            == SocketAddrModel::parse_pipe(s),
{
    pipe_name::law_pipe_path_is_idempotent(s);
}

/// An address made from a port reads `127.0.0.1:<port>`.
pub proof fn law_port_address_text(port: u16)
    ensures
        SocketAddrModel::Net(NetAddrModel::V4 { ip: seq![127u8, 0, 0, 1], port }).text()
            == seq!['1', '2', '7', '.', '0', '.', '0', '.', '1', ':'] + text::decimal(port as nat),
{
    reveal_with_fuel(text::decimal, 3);
    assert(text::decimal(127) =~= seq!['1', '2', '7']);
    assert(text::decimal(0) =~= seq!['0']);
    assert(text::decimal(1) =~= seq!['1']);
}

} // verus!
