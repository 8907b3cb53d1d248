//! Printable form of arbitrary bytes, and the way back.

use vstd::prelude::*;
use vstd::utf8;

use crate::text;

verus! {

/// Why a text is not the escaped form of any bytes.
#[derive(Debug, Clone, Copy, PartialEq, Eq, Structural)]
pub enum UnescapeError {
    /// The text ends inside an escape.
    Truncated,
    /// A backslash is followed by a byte that starts no escape.
    UnknownEscape,
    /// `\x` is followed by something other than two hexadecimal digits.
    InvalidHex,
}

/// The escaped form of one byte.
///
/// Tab, carriage return, line feed, both quotes and the backslash are written as a backslash
/// and one character, other printable ASCII stands for itself, and the rest is written as
/// `\x` and two lower-case hexadecimal digits.
pub open spec fn escape_byte(b: u8) -> Seq<char> {
    if b == '\t' as u8 {
        seq!['\\', 't']
    } else if b == '\n' as u8 {
        seq!['\\', 'n']
    } else if b == '\r' as u8 {
        seq!['\\', 'r']
    } else if b == '"' as u8 || b == '\'' as u8 || b == '\\' as u8 {
        seq!['\\', b as char]
    } else if ' ' as u8 <= b <= '~' as u8 {
        seq![b as char]
    } else {
        seq!['\\', 'x', text::digit(b as nat / 16), text::digit(b as nat % 16)]
    }
}

/// The escaped form of `bytes`.
pub open spec fn escaped(bytes: Seq<u8>) -> Seq<char>
    decreases bytes.len(),
{
    if bytes.len() == 0 {
        Seq::empty()
    } else {
        escape_byte(bytes[0]) + escaped(bytes.skip(1))
    }
}

/// ASCII characters as bytes.
spec fn ascii_bytes(chars: Seq<char>) -> Seq<u8> {
    Seq::new(chars.len(), |i: int| chars[i] as u8)
}

/// The value of a hexadecimal digit of either case.
pub open spec fn hex_value(b: u8) -> Option<u8> {
    if '0' as u8 <= b <= '9' as u8 {
        Some((b - '0' as u8) as u8)
    } else if 'a' as u8 <= b <= 'f' as u8 {
        Some((b - 'a' as u8 + 10) as u8)
    } else if 'A' as u8 <= b <= 'F' as u8 {
        Some((b - 'A' as u8 + 10) as u8)
    } else {
        None
    }
}

/// The first byte that a text stands for, with the number of bytes of text that it takes.
pub open spec fn unescape_first(s: Seq<u8>) -> Result<(u8, int), UnescapeError>
    recommends
        s.len() > 0,
{
    if s[0] != '\\' as u8 {
        Ok((s[0], 1))
    } else if s.len() < 2 {
        Err(UnescapeError::Truncated)
    } else if s[1] == 't' as u8 {
        Ok(('\t' as u8, 2))
    } else if s[1] == 'n' as u8 {
        Ok(('\n' as u8, 2))
    } else if s[1] == 'r' as u8 {
        Ok(('\r' as u8, 2))
    } else if s[1] == '"' as u8 || s[1] == '\'' as u8 || s[1] == '\\' as u8 {
        Ok((s[1], 2))
    } else if s[1] != 'x' as u8 {
        Err(UnescapeError::UnknownEscape)
    } else if s.len() < 4 {
        Err(UnescapeError::Truncated)
    } else {
        match (hex_value(s[2]), hex_value(s[3])) {
            (Some(hi), Some(lo)) => Ok(((hi * 16 + lo) as u8, 4)),
            _ => Err(UnescapeError::InvalidHex),
        }
    }
}

/// The bytes that a text stands for, or what is wrong with its first malformed escape.
pub open spec fn unescaped(s: Seq<u8>) -> Result<Seq<u8>, UnescapeError>
    decreases s.len(),
{
    if s.len() == 0 {
        Ok(Seq::empty())
    } else {
        match unescape_first(s) {
            Err(e) => Err(e),
            Ok((b, n)) => match unescaped(s.skip(n)) {
                Err(e) => Err(e),
                Ok(rest) => Ok(seq![b] + rest),
            },
        }
    }
}

fn push_escaped_byte(out: &mut String, b: u8)
    ensures
        final(out)@ == old(out)@ + escape_byte(b),
{
    if b == '\t' as u8 {
        out.push('\\');
        out.push('t');
    } else if b == '\n' as u8 {
        out.push('\\');
        out.push('n');
    } else if b == '\r' as u8 {
        out.push('\\');
        out.push('r');
    } else if b == '"' as u8 || b == '\'' as u8 || b == '\\' as u8 {
        out.push('\\');
        out.push(b as char);
    } else if ' ' as u8 <= b && b <= '~' as u8 {
        out.push(b as char);
    } else {
        out.push('\\');
        out.push('x');
        out.push(text::digit_char(b / 16));
        out.push(text::digit_char(b % 16));
    }
}

/// Appends the escaped form of `bytes`.
pub fn push_escaped(out: &mut String, bytes: &[u8])
    ensures
        final(out)@ == old(out)@ + escaped(bytes@),
{
    let ghost before = out@;
    let mut i: usize = 0;
    assert(bytes@.skip(0) =~= bytes@);
    while i < bytes.len()
        invariant
            i <= bytes@.len(),
            out@ + escaped(bytes@.skip(i as int)) == before + escaped(bytes@),
        decreases bytes@.len() - i,
    {
        let ghost pushed = out@;
        push_escaped_byte(out, bytes[i]);
        proof {
            let rest = bytes@.skip(i as int);
            assert(rest.skip(1) =~= bytes@.skip(i + 1));
            assert(pushed + escaped(rest) =~= out@ + escaped(rest.skip(1)));
        }
        i += 1;
    }
    assert(out@ + escaped(bytes@.skip(i as int)) =~= out@);
}

fn hex_digit_value(b: u8) -> (r: Option<u8>)
    ensures
        r == hex_value(b),
{
    if '0' as u8 <= b && b <= '9' as u8 {
        Some(b - '0' as u8)
    } else if 'a' as u8 <= b && b <= 'f' as u8 {
        Some(b - 'a' as u8 + 10)
    } else if 'A' as u8 <= b && b <= 'F' as u8 {
        Some(b - 'A' as u8 + 10)
    } else {
        None
    }
}

/// The byte that the text stands for at position `at`, with the bytes of text that it takes.
fn unescape_at(s: &[u8], at: usize) -> (r: Result<(u8, usize), UnescapeError>)
    requires
        at < s@.len(),
    ensures
        match unescape_first(s@.skip(at as int)) {
            Ok((b, n)) => r matches Ok((rb, rn)) && rb == b && rn == n && at + n <= s@.len(),
            Err(e) => r == Err::<(u8, usize), UnescapeError>(e),
        },
{
    if s[at] != '\\' as u8 {
        return Ok((s[at], 1));
    }
    if s.len() - at < 2 {
        return Err(UnescapeError::Truncated);
    }
    let c = s[at + 1];
    if c == 't' as u8 {
        Ok(('\t' as u8, 2))
    } else if c == 'n' as u8 {
        Ok(('\n' as u8, 2))
    } else if c == 'r' as u8 {
        Ok(('\r' as u8, 2))
    } else if c == '"' as u8 || c == '\'' as u8 || c == '\\' as u8 {
        Ok((c, 2))
    } else if c != 'x' as u8 {
        Err(UnescapeError::UnknownEscape)
    } else if s.len() - at < 4 {
        Err(UnescapeError::Truncated)
    } else {
        match (hex_digit_value(s[at + 2]), hex_digit_value(s[at + 3])) {
            (Some(hi), Some(lo)) => Ok((hi * 16 + lo, 4)),
            _ => Err(UnescapeError::InvalidHex),
        }
    }
}

/// Reads back the escaped form of some bytes.
///
/// Bytes other than the backslash stand for themselves, whether or not escaping would have
/// left them as they are.
pub fn ascii_unescape_default(s: &[u8]) -> (r: Result<Vec<u8>, UnescapeError>)
    ensures
        match r {
            Ok(bytes) => unescaped(s@) == Ok::<Seq<u8>, UnescapeError>(bytes@),
            Err(e) => unescaped(s@) == Err::<Seq<u8>, UnescapeError>(e),
        },
{
    let mut out: Vec<u8> = Vec::new();
    let mut at: usize = 0;
    assert(s@.skip(0) =~= s@);
    while at < s.len()
        invariant
            at <= s@.len(),
            match unescaped(s@.skip(at as int)) {
                Ok(rest) => unescaped(s@) == Ok::<Seq<u8>, UnescapeError>(out@ + rest),
                Err(e) => unescaped(s@) == Err::<Seq<u8>, UnescapeError>(e),
            },
        decreases s@.len() - at,
    {
        match unescape_at(s, at) {
            Ok((b, n)) => {
                proof {
                    assert(s@.skip(at as int).skip(n as int) =~= s@.skip(at + n));
                    if let Ok(rest) = unescaped(s@.skip(at + n)) {
                        assert(out@ + (seq![b] + rest) =~= out@.push(b) + rest);
                    }
                }
                out.push(b);
                at += n;
            },
            Err(e) => {
                return Err(e);
            },
        }
    }
    assert(s@.skip(at as int) =~= Seq::<u8>::empty());
    assert(out@ + Seq::<u8>::empty() =~= out@);
    Ok(out)
}

proof fn lemma_escape_byte_reads_back(b: u8, rest: Seq<u8>)
    ensures
        ({
            let text = ascii_bytes(escape_byte(b));
            unescape_first(text + rest) == Ok::<(u8, int), UnescapeError>((b, text.len() as int))
        }),
{
}

/// The escaped form is printable ASCII, whatever the bytes.
pub proof fn law_escaped_is_printable(bytes: Seq<u8>)
    ensures
        forall|i: int| 0 <= i < escaped(bytes).len() ==> ' ' <= #[trigger] escaped(bytes)[i] <= '~',
        utf8::is_ascii_chars(escaped(bytes)),
    decreases bytes.len(),
{
    if bytes.len() > 0 {
        law_escaped_is_printable(bytes.skip(1));
    }
}

/// Reading back the escaped form of any bytes gives those bytes.
pub proof fn law_unescape_inverts_escape(bytes: Seq<u8>)
    ensures
        unescaped(utf8::encode_utf8(escaped(bytes))) == Ok::<Seq<u8>, UnescapeError>(bytes),
    decreases bytes.len(),
{
    law_escaped_is_printable(bytes);
    utf8::is_ascii_chars_encode_utf8(escaped(bytes));
    if bytes.len() > 0 {
        let rest = bytes.skip(1);
        law_unescape_inverts_escape(rest);
        law_escaped_is_printable(rest);
        utf8::is_ascii_chars_encode_utf8(escaped(rest));
        let head = ascii_bytes(escape_byte(bytes[0]));
        lemma_escape_byte_reads_back(bytes[0], utf8::encode_utf8(escaped(rest)));
        assert(utf8::encode_utf8(escaped(bytes)) =~= head + utf8::encode_utf8(escaped(rest)));
        assert((head + utf8::encode_utf8(escaped(rest))).skip(head.len() as int) =~= utf8::encode_utf8(
            escaped(rest),
        ));
        assert(seq![bytes[0]] + rest =~= bytes);
    } else {
        assert(bytes =~= Seq::empty());
    }
}

/// A text without a backslash stands for its own bytes.
pub proof fn law_text_without_escapes_stands_for_itself(s: Seq<u8>)
    requires
        forall|i: int| 0 <= i < s.len() ==> #[trigger] s[i] != '\\' as u8,
    ensures
        unescaped(s) == Ok::<Seq<u8>, UnescapeError>(s),
    decreases s.len(),
{
    if s.len() > 0 {
        law_text_without_escapes_stands_for_itself(s.skip(1));
        assert(seq![s[0]] + s.skip(1) =~= s);
    } else {
        assert(s =~= Seq::empty());
    }
}

} // verus!
