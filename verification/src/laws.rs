//! What the library promises of its results, said of the characters, bytes and fields that go in
//! and come out.

use vstd::prelude::*;
use vstd::utf8;

use crate::acceptor::{NamedPipeAcceptor, PendingInstance, PipeServerRequest};
use crate::addr::SocketAddr;
use crate::connect::{self, ConnectAttempts, ConnectStep, OpenOutcome};
use crate::escape::{self, UnescapeError};
use crate::net_addr::{self, NetAddr};
use crate::pipe_name;
use crate::text;

verus! {

/// `t` is the numeral of `n`: decimal digits that read as `n` from left to right, without a
/// leading zero.
pub open spec fn reads_as_decimal(t: Seq<char>, n: int) -> bool {
    &&& t.len() > 0
    &&& forall|i: int| 0 <= i < t.len() ==> '0' <= #[trigger] t[i] <= '9'
    &&& t.len() > 1 ==> t[0] != '0'
    &&& t.fold_left(0int, |v: int, c: char| 10 * v + (c as int - '0' as int)) == n
}

/// The value of a lower-case hexadecimal digit.
pub open spec fn nibble(c: char) -> int {
    if c <= '9' {
        c as int - '0' as int
    } else {
        c as int - 'a' as int + 10
    }
}

/// `c` is a lower-case hexadecimal digit.
pub open spec fn is_nibble(c: char) -> bool {
    '0' <= c <= '9' || 'a' <= c <= 'f'
}

/// `t` is the hexadecimal numeral of `n`, in lower case and without a leading zero.
pub open spec fn reads_as_hex(t: Seq<char>, n: int) -> bool {
    &&& t.len() > 0
    &&& forall|i: int| 0 <= i < t.len() ==> is_nibble(#[trigger] t[i])
    &&& t.len() > 1 ==> t[0] != '0'
    &&& t.fold_left(0int, |v: int, c: char| 16 * v + nibble(c)) == n
}

/// The decimal text of a number is its numeral: it reads back as the number.
pub proof fn law_decimal_reads_back(n: nat)
    ensures
        reads_as_decimal(text::decimal(n), n as int),
        n > 0 ==> text::decimal(n)[0] != '0',
    decreases n,
{
    let f = |v: int, c: char| 10 * v + (c as int - '0' as int);
    let t = text::decimal(n);
    if n < 10 {
        assert(t.drop_last() =~= Seq::empty());
        assert(t.fold_left(0int, f) == f(t.drop_last().fold_left(0int, f), t.last()));
    } else {
        law_decimal_reads_back(n / 10);
        assert(t.drop_last() =~= text::decimal(n / 10));
        assert(t.fold_left(0int, f) == f(t.drop_last().fold_left(0int, f), t.last()));
    }
}

/// The hexadecimal text of a number is its numeral: it reads back as the number.
pub proof fn law_hex_reads_back(n: nat)
    ensures
        reads_as_hex(text::hex(n), n as int),
        n > 0 ==> text::hex(n)[0] != '0',
    decreases n,
{
    let f = |v: int, c: char| 16 * v + nibble(c);
    let t = text::hex(n);
    if n < 16 {
        assert(t.drop_last() =~= Seq::empty());
        assert(t.fold_left(0int, f) == f(t.drop_last().fold_left(0int, f), t.last()));
    } else {
        law_hex_reads_back(n / 16);
        assert(t.drop_last() =~= text::hex(n / 16));
        assert(t.fold_left(0int, f) == f(t.drop_last().fold_left(0int, f), t.last()));
    }
}

/// `t` is the dotted form of four bytes: their numerals, with a dot between neighbours.
pub open spec fn reads_as_ipv4(t: Seq<char>, a: int, b: int, c: int, d: int) -> bool {
    exists|ta: Seq<char>, tb: Seq<char>, tc: Seq<char>, td: Seq<char>|
        #![trigger reads_as_decimal(ta, a), reads_as_decimal(tb, b), reads_as_decimal(tc, c), reads_as_decimal(td, d)]
        reads_as_decimal(ta, a) && reads_as_decimal(tb, b) && reads_as_decimal(tc, c)
            && reads_as_decimal(td, d) && t == ta + seq!['.'] + tb + seq!['.'] + tc + seq!['.'] + td
}

proof fn lemma_ipv4_reads_back(ip: Seq<u8>)
    ensures
        reads_as_ipv4(
            net_addr::ipv4_text(ip),
            ip[0] as int,
            ip[1] as int,
            ip[2] as int,
            ip[3] as int,
        ),
{
    law_decimal_reads_back(ip[0] as nat);
    law_decimal_reads_back(ip[1] as nat);
    law_decimal_reads_back(ip[2] as nat);
    law_decimal_reads_back(ip[3] as nat);
}

/// The text of an IPv4 address is the dotted form of its bytes, a colon and the numeral of its
/// port.
pub proof fn law_ipv4_address_text(ip: [u8; 4], port: u16, r: String)
    requires
        call_ensures(SocketAddr::to_string, (&SocketAddr::Net(NetAddr::V4 { ip, port }),), r),
    ensures
        exists|host: Seq<char>, number: Seq<char>|
            #![trigger reads_as_ipv4(host, ip[0] as int, ip[1] as int, ip[2] as int, ip[3] as int), reads_as_decimal(number, port as int)]
            r@ == host + seq![':'] + number && reads_as_ipv4(
                host,
                ip[0] as int,
                ip[1] as int,
                ip[2] as int,
                ip[3] as int,
            ) && reads_as_decimal(number, port as int),
{
    lemma_ipv4_reads_back(ip@);
    law_decimal_reads_back(port as nat);
    let host = net_addr::ipv4_text(ip@);
    let number = text::decimal(port as nat);
    assert(r@ == host + seq![':'] + number);
}

/// An address made from a port is 127.0.0.1 with that port.
pub proof fn law_with_port_is_loopback(port: u16, r: SocketAddr)
    requires
        call_ensures(SocketAddr::with_port, (port,), r),
    ensures
        r matches SocketAddr::Net(NetAddr::V4 { ip, port: p }) && ip[0] == 127 && ip[1] == 0
            && ip[2] == 0 && ip[3] == 1 && p == port,
{
}

/// The text of an address made from a port is `127.0.0.1:` and the numeral of the port.
pub proof fn law_with_port_text(port: u16, addr: SocketAddr, r: String)
    requires
        call_ensures(SocketAddr::with_port, (port,), addr),
        call_ensures(SocketAddr::to_string, (&addr,), r),
    ensures
        r@.len() > 10,
        r@.take(10) == seq!['1', '2', '7', '.', '0', '.', '0', '.', '1', ':'],
        reads_as_decimal(r@.skip(10), port as int),
{
    crate::addr::law_port_address_text(port);
    law_decimal_reads_back(port as nat);
    let head = seq!['1', '2', '7', '.', '0', '.', '0', '.', '1', ':'];
    assert(r@ == head + text::decimal(port as nat));
    assert(r@.take(10) =~= head);
    assert(r@.skip(10) =~= text::decimal(port as nat));
}

/// Addresses made from different ports have different texts.
pub proof fn law_with_port_text_is_injective(
    p: u16,
    q: u16,
    a: SocketAddr,
    b: SocketAddr,
    ta: String,
    tb: String,
)
    requires
        call_ensures(SocketAddr::with_port, (p,), a),
        call_ensures(SocketAddr::with_port, (q,), b),
        call_ensures(SocketAddr::to_string, (&a,), ta),
        call_ensures(SocketAddr::to_string, (&b,), tb),
        ta@ == tb@,
    ensures
        p == q,
{
    law_with_port_text(p, a, ta);
    law_with_port_text(q, b, tb);
}

/// A piece of the text of an IPv6 address: the numeral of a segment, with a colon before it
/// unless it is the first.
pub open spec fn is_group(piece: Seq<char>, i: int, segment: u16) -> bool {
    if i == 0 {
        reads_as_hex(piece, segment as int)
    } else {
        piece.len() > 0 && piece[0] == ':' && reads_as_hex(piece.skip(1), segment as int)
    }
}

/// The pieces are the numerals of the segments, separated by colons.
pub open spec fn are_groups(pieces: Seq<Seq<char>>, segments: Seq<u16>) -> bool {
    &&& pieces.len() == segments.len()
    &&& forall|i: int| 0 <= i < pieces.len() ==> is_group(#[trigger] pieces[i], i, segments[i])
}

/// `t` is the numerals of the segments, separated by colons.
pub open spec fn reads_as_groups(t: Seq<char>, segments: Seq<u16>) -> bool {
    exists|pieces: Seq<Seq<char>>| #[trigger] are_groups(pieces, segments) && t == pieces.flatten()
}

proof fn lemma_groups_read_back(segments: Seq<u16>)
    ensures
        reads_as_groups(net_addr::groups_text(segments), segments),
    decreases segments.len(),
{
    let t = net_addr::groups_text(segments);
    if segments.len() == 0 {
        let pieces = Seq::<Seq<char>>::empty();
        assert(are_groups(pieces, segments));
        assert(t == pieces.flatten());
    } else if segments.len() == 1 {
        law_hex_reads_back(segments[0] as nat);
        let pieces = seq![text::hex(segments[0] as nat)];
        assert(are_groups(pieces, segments));
        pieces.lemma_flatten_one_element();
    } else {
        let earlier = segments.drop_last();
        lemma_groups_read_back(earlier);
        let before = choose|pieces: Seq<Seq<char>>| #[trigger]
            are_groups(pieces, earlier) && net_addr::groups_text(earlier) == pieces.flatten();
        law_hex_reads_back(segments.last() as nat);
        let piece = seq![':'] + text::hex(segments.last() as nat);
        assert(piece.skip(1) =~= text::hex(segments.last() as nat));
        let pieces = before.push(piece);
        before.lemma_flatten_push(piece);
        assert(t =~= pieces.flatten());
        assert forall|i: int| 0 <= i < pieces.len() implies is_group(
            #[trigger] pieces[i],
            i,
            segments[i],
        ) by {
            if i < before.len() {
                assert(is_group(before[i], i, earlier[i]));
            }
        }
        assert(are_groups(pieces, segments));
    }
}

/// The `len` segments from `start` on exist and are zero.
pub open spec fn zeros_at(segments: Seq<u16>, start: int, len: int) -> bool {
    0 <= start && 0 <= len && start + len <= segments.len() && forall|i: int|
        start <= i < start + len ==> #[trigger] segments[i] == 0
}

/// `t` is the numerals before a run of at least two zeros, two colons, and the numerals after
/// the run. No run is longer, and none of that length comes before it.
pub open spec fn leaves_out(
    t: Seq<char>,
    segments: Seq<u16>,
    start: int,
    len: int,
    left: Seq<char>,
    right: Seq<char>,
) -> bool {
    &&& len >= 2
    &&& zeros_at(segments, start, len)
    &&& forall|s: int, n: int| #[trigger]
        zeros_at(segments, s, n) && n >= len ==> n == len && start <= s
    &&& t == left + seq![':', ':'] + right
    &&& reads_as_groups(left, segments.subrange(0, start))
    &&& reads_as_groups(right, segments.subrange(start + len, segments.len() as int))
}

/// `t` leaves out a run of zeros.
pub open spec fn reads_as_shortened(t: Seq<char>, segments: Seq<u16>) -> bool {
    exists|start: int, len: int, left: Seq<char>, right: Seq<char>|
        leaves_out(t, segments, start, len, left, right)
}

/// Whether two neighbouring segments are zero.
pub open spec fn has_two_zeros(segments: Seq<u16>) -> bool {
    exists|i: int| 0 <= i < segments.len() - 1 && #[trigger] segments[i] == 0 && segments[i + 1] == 0
}

/// `t` is the text of eight segments: `::ffff:` and a dotted form where they hold an IPv4
/// address, else the numerals with the first of the longest runs of zeros left out.
pub open spec fn reads_as_ipv6(t: Seq<char>, segments: Seq<u16>) -> bool {
    if zeros_at(segments, 0, 5) && segments[5] == 0xffff {
        &&& t.len() > 7
        &&& t.take(7) == seq![':', ':', 'f', 'f', 'f', 'f', ':']
        &&& reads_as_ipv4(
            t.skip(7),
            segments[6] as int / 256,
            segments[6] as int % 256,
            segments[7] as int / 256,
            segments[7] as int % 256,
        )
    } else if has_two_zeros(segments) {
        reads_as_shortened(t, segments)
    } else {
        reads_as_groups(t, segments)
    }
}

proof fn lemma_ipv6_reads_back(segments: Seq<u16>)
    requires
        segments.len() == 8,
    ensures
        reads_as_ipv6(net_addr::ipv6_text(segments), segments),
{
    let t = net_addr::ipv6_text(segments);
    assert(zeros_at(segments, 0, 5) == net_addr::zero_run(segments, 0, 5));
    if net_addr::ipv4_mapped(segments) {
        let ip = net_addr::mapped_ipv4(segments);
        let dotted = net_addr::ipv4_text(ip);
        lemma_ipv4_reads_back(ip);
        law_decimal_reads_back(ip[0] as nat);
        assert(t.take(7) =~= seq![':', ':', 'f', 'f', 'f', 'f', ':']);
        assert(t.skip(7) =~= dotted);
    } else if has_two_zeros(segments) {
        let i = choose|i: int|
            0 <= i < segments.len() - 1 && #[trigger] segments[i] == 0 && segments[i + 1] == 0;
        assert(net_addr::zero_run(segments, i, 2));
        net_addr::lemma_longest_zero_run_exists(segments, segments.len() as int);
        let (start, len) = choose|start: int, len: int|
            net_addr::longest_zero_run(segments, start, len);
        assert(net_addr::longest_zero_run(segments, start, len));
        assert(len >= 2);
        assert(zeros_at(segments, start, len));
        assert forall|s: int, n: int| #[trigger]
            zeros_at(segments, s, n) && n >= len implies n == len && start <= s by {
            assert(net_addr::zero_run(segments, s, n));
        }
        let left = net_addr::groups_text(segments.take(start));
        let right = net_addr::groups_text(segments.skip(start + len));
        lemma_groups_read_back(segments.take(start));
        lemma_groups_read_back(segments.skip(start + len));
        assert(segments.take(start) =~= segments.subrange(0, start));
        assert(segments.skip(start + len) =~= segments.subrange(
            start + len,
            segments.len() as int,
        ));
        assert(leaves_out(t, segments, start, len, left, right));
    } else {
        assert(!exists|start: int| #[trigger] net_addr::zero_run(segments, start, 2)) by {
            if exists|start: int| #[trigger] net_addr::zero_run(segments, start, 2) {
                let start = choose|start: int| #[trigger] net_addr::zero_run(segments, start, 2);
                assert(segments[start] == 0 && segments[start + 1] == 0);
            }
        }
        lemma_groups_read_back(segments);
    }
}

/// The zone of an address: nothing where it is zero, else `%` and its numeral.
pub open spec fn reads_as_zone(t: Seq<char>, scope_id: u32) -> bool {
    if scope_id == 0 {
        t.len() == 0
    } else {
        t.len() > 0 && t[0] == '%' && reads_as_decimal(t.skip(1), scope_id as int)
    }
}

/// The text of an IPv6 address is the text of its segments and its zone in square brackets, a
/// colon and the numeral of its port.
pub proof fn law_ipv6_address_text(
    segments: [u16; 8],
    port: u16,
    flowinfo: u32,
    scope_id: u32,
    r: String,
)
    requires
        call_ensures(
            SocketAddr::to_string,
            (&SocketAddr::Net(NetAddr::V6 { segments, port, flowinfo, scope_id }),),
            r,
        ),
    ensures
        exists|host: Seq<char>, zone: Seq<char>, number: Seq<char>|
            #![trigger reads_as_ipv6(host, segments@), reads_as_zone(zone, scope_id), reads_as_decimal(number, port as int)]
            r@ == seq!['['] + host + zone + seq![']', ':'] + number && reads_as_ipv6(
                host,
                segments@,
            ) && reads_as_zone(zone, scope_id) && reads_as_decimal(number, port as int),
{
    let host = net_addr::ipv6_text(segments@);
    let zone = net_addr::scope_text(scope_id);
    let number = text::decimal(port as nat);
    lemma_ipv6_reads_back(segments@);
    law_decimal_reads_back(port as nat);
    law_decimal_reads_back(scope_id as nat);
    if scope_id != 0 {
        assert(zone.skip(1) =~= text::decimal(scope_id as nat));
    }
    assert(reads_as_zone(zone, scope_id));
    assert(r@ == seq!['['] + host + zone + seq![']', ':'] + number);
}

/// `piece` is the escaped form of the byte `b`.
pub open spec fn escapes(piece: Seq<char>, b: u8) -> bool {
    if b == 0x09 {
        piece == seq!['\\', 't']
    } else if b == 0x0a {
        piece == seq!['\\', 'n']
    } else if b == 0x0d {
        piece == seq!['\\', 'r']
    } else if b == 0x22 {
        piece == seq!['\\', '"']
    } else if b == 0x27 {
        piece == seq!['\\', '\'']
    } else if b == 0x5c {
        piece == seq!['\\', '\\']
    } else if 0x20 <= b < 0x7f {
        piece.len() == 1 && piece[0] as int == b as int
    } else {
        &&& piece.len() == 4
        &&& piece[0] == '\\'
        &&& piece[1] == 'x'
        &&& is_nibble(piece[2])
        &&& is_nibble(piece[3])
        &&& 16 * nibble(piece[2]) + nibble(piece[3]) == b as int
    }
}

/// The pieces are the escaped forms of the bytes, one by one.
pub open spec fn all_escape(pieces: Seq<Seq<char>>, bytes: Seq<u8>) -> bool {
    &&& pieces.len() == bytes.len()
    &&& forall|i: int| 0 <= i < pieces.len() ==> escapes(#[trigger] pieces[i], bytes[i])
}

/// The escaped form of bytes is that of each byte, one after the other.
pub proof fn law_escaped_byte_by_byte(bytes: Seq<u8>)
    ensures
        exists|pieces: Seq<Seq<char>>| #[trigger]
            all_escape(pieces, bytes) && escape::escaped(bytes) == pieces.flatten(),
    decreases bytes.len(),
{
    if bytes.len() == 0 {
        let pieces = Seq::<Seq<char>>::empty();
        assert(all_escape(pieces, bytes));
        assert(pieces.flatten() == escape::escaped(bytes));
    } else {
        let rest = bytes.skip(1);
        law_escaped_byte_by_byte(rest);
        let after = choose|pieces: Seq<Seq<char>>| #[trigger]
            all_escape(pieces, rest) && escape::escaped(rest) == pieces.flatten();
        let first = escape::escape_byte(bytes[0]);
        assert(escapes(first, bytes[0]));
        let pieces = seq![first] + after;
        assert forall|i: int| 0 <= i < pieces.len() implies escapes(
            #[trigger] pieces[i],
            bytes[i],
        ) by {
            if i > 0 {
                assert(escapes(after[i - 1], rest[i - 1]));
            }
        }
        assert(all_escape(pieces, bytes));
        assert(pieces.drop_first() =~= after);
    }
}

/// `b` is a hexadecimal digit of either case.
pub open spec fn is_hex_byte(b: u8) -> bool {
    0x30 <= b <= 0x39 || 0x41 <= b <= 0x46 || 0x61 <= b <= 0x66
}

/// The value of a hexadecimal digit of either case.
pub open spec fn hex_byte_value(b: u8) -> int {
    if b <= 0x39 {
        b - 0x30
    } else if b <= 0x46 {
        b - 0x41 + 10
    } else {
        b - 0x61 + 10
    }
}

/// `piece` is a unit of escaped text, and it stands for the byte `b`.
pub open spec fn stands_for(piece: Seq<u8>, b: u8) -> bool {
    ||| piece.len() == 1 && piece[0] == b && b != 0x5c
    ||| piece.len() == 2 && piece[0] == 0x5c && (piece[1] == 0x74 && b == 0x09 || piece[1] == 0x6e
        && b == 0x0a || piece[1] == 0x72 && b == 0x0d || piece[1] == b && (b == 0x22 || b == 0x27
        || b == 0x5c))
    ||| piece.len() == 4 && piece[0] == 0x5c && piece[1] == 0x78 && is_hex_byte(piece[2])
        && is_hex_byte(piece[3]) && b as int == 16 * hex_byte_value(piece[2]) + hex_byte_value(
        piece[3],
    )
}

/// The pieces stand for the bytes, one by one.
pub open spec fn all_stand_for(pieces: Seq<Seq<u8>>, bytes: Seq<u8>) -> bool {
    &&& pieces.len() == bytes.len()
    &&& forall|i: int| 0 <= i < pieces.len() ==> stands_for(#[trigger] pieces[i], bytes[i])
}

/// `rest` starts with a backslash that starts no unit, for the reason `e`.
pub open spec fn malformed(rest: Seq<u8>, e: UnescapeError) -> bool {
    &&& rest.len() > 0
    &&& rest[0] == 0x5c
    &&& match e {
        UnescapeError::Truncated => rest.len() == 1 || rest[1] == 0x78 && rest.len() < 4,
        UnescapeError::UnknownEscape => rest.len() > 1 && rest[1] != 0x74 && rest[1] != 0x6e
            && rest[1] != 0x72 && rest[1] != 0x22 && rest[1] != 0x27 && rest[1] != 0x5c && rest[1]
            != 0x78,
        UnescapeError::InvalidHex => rest.len() >= 4 && rest[1] == 0x78 && !(is_hex_byte(rest[2])
            && is_hex_byte(rest[3])),
    }
}

/// `s` is units that stand for `bytes`, followed by `rest`.
pub open spec fn splits(s: Seq<u8>, pieces: Seq<Seq<u8>>, bytes: Seq<u8>, rest: Seq<u8>) -> bool {
    all_stand_for(pieces, bytes) && s == pieces.flatten() + rest
}

/// `s` is units that stand for `bytes`, and nothing else.
pub open spec fn spells(s: Seq<u8>, bytes: Seq<u8>) -> bool {
    exists|pieces: Seq<Seq<u8>>| splits(s, pieces, bytes, Seq::empty())
}

/// After some units, `s` holds a backslash that starts none, for the reason `e`.
pub open spec fn misspells(s: Seq<u8>, e: UnescapeError) -> bool {
    exists|pieces: Seq<Seq<u8>>, bytes: Seq<u8>, rest: Seq<u8>|
        splits(s, pieces, bytes, rest) && malformed(rest, e)
}

proof fn lemma_split_front(
    s: Seq<u8>,
    n: int,
    b: u8,
    pieces: Seq<Seq<u8>>,
    bytes: Seq<u8>,
    rest: Seq<u8>,
)
    requires
        0 <= n <= s.len(),
        stands_for(s.take(n), b),
        splits(s.skip(n), pieces, bytes, rest),
    ensures
        splits(s, seq![s.take(n)] + pieces, seq![b] + bytes, rest),
{
    let all = seq![s.take(n)] + pieces;
    assert(all.drop_first() =~= pieces);
    assert(all.flatten() + rest =~= s.take(n) + (pieces.flatten() + rest));
    assert(s =~= s.take(n) + s.skip(n));
    assert forall|i: int| 0 <= i < all.len() implies stands_for(
        #[trigger] all[i],
        (seq![b] + bytes)[i],
    ) by {
        if i > 0 {
            assert(stands_for(pieces[i - 1], bytes[i - 1]));
        }
    }
}

/// Reading back a text takes it apart into units and gives the bytes that they stand for; it
/// fails where, and only where, some backslash starts no unit, and says why the first such one
/// does not.
pub proof fn law_unescape_takes_text_apart(s: Seq<u8>)
    ensures
        match escape::unescaped(s) {
            Ok(bytes) => spells(s, bytes),
            Err(e) => misspells(s, e),
        },
    decreases s.len(),
{
    if s.len() == 0 {
        let none = Seq::<Seq<u8>>::empty();
        assert(none.flatten() + Seq::<u8>::empty() =~= s);
        assert(splits(s, none, Seq::empty(), Seq::empty()));
    } else {
        match escape::unescape_first(s) {
            Err(e) => {
                let none = Seq::<Seq<u8>>::empty();
                assert(none.flatten() + s =~= s);
                assert(splits(s, none, Seq::empty(), s));
                assert(malformed(s, e));
            },
            Ok((b, n)) => {
                let piece = s.take(n);
                assert(stands_for(piece, b));
                let tail = s.skip(n);
                law_unescape_takes_text_apart(tail);
                match escape::unescaped(tail) {
                    Ok(bytes) => {
                        let pieces = choose|pieces: Seq<Seq<u8>>|
                            splits(tail, pieces, bytes, Seq::empty());
                        lemma_split_front(s, n, b, pieces, bytes, Seq::empty());
                    },
                    Err(e) => {
                        let (pieces, bytes, rest) = choose|
                            pieces: Seq<Seq<u8>>,
                            bytes: Seq<u8>,
                            rest: Seq<u8>,
                        |
                            splits(tail, pieces, bytes, rest) && malformed(rest, e);
                        lemma_split_front(s, n, b, pieces, bytes, rest);
                    },
                }
            },
        }
    }
}

/// A string that does not start with the four characters `\x00` is the path of a socket in the
/// file system, byte by byte.
pub proof fn law_string_without_marker_is_path(s: &str, r: Result<SocketAddr, UnescapeError>)
    requires
        call_ensures(SocketAddr::parse_uds, (s,), r),
        s@.len() < 4 || s@[0] != '\\' || s@[1] != 'x' || s@[2] != '0' || s@[3] != '0',
    ensures
        r matches Ok(SocketAddr::Unix(path)) && path@ == utf8::encode_utf8(s@),
{
    if crate::addr::has_abstract_prefix(s@) {
        let head = s@.take(4);
        assert(head[0] == s@[0] && head[1] == s@[1] && head[2] == s@[2] && head[3] == s@[3]);
    }
}

/// After the four characters `\x00` the rest is an escaped name in the abstract namespace: the
/// result is the name that it spells, or the reason why it spells none.
pub proof fn law_string_with_marker_is_abstract(s: &str, r: Result<SocketAddr, UnescapeError>)
    requires
        call_ensures(SocketAddr::parse_uds, (s,), r),
        s@.len() >= 4,
        s@[0] == '\\',
        s@[1] == 'x',
        s@[2] == '0',
        s@[3] == '0',
    ensures
        match r {
            Ok(addr) => addr matches SocketAddr::UnixAbstract(name) && spells(
                utf8::encode_utf8(s@.skip(4)),
                name@,
            ),
            Err(e) => misspells(utf8::encode_utf8(s@.skip(4)), e),
        },
{
    assert(s@.take(4) =~= seq!['\\', 'x', '0', '0']);
    law_unescape_takes_text_apart(utf8::encode_utf8(s@.skip(4)));
}

/// The text of an abstract address is `\x00` and the escaped form of each byte of its name.
pub proof fn law_abstract_address_text(name: Vec<u8>, r: String)
    requires
        call_ensures(SocketAddr::to_string, (&SocketAddr::UnixAbstract(name),), r),
    ensures
        r@.len() >= 4,
        r@[0] == '\\',
        r@[1] == 'x',
        r@[2] == '0',
        r@[3] == '0',
        exists|pieces: Seq<Seq<char>>| #[trigger]
            all_escape(pieces, name@) && r@.skip(4) == pieces.flatten(),
{
    law_escaped_byte_by_byte(name@);
    assert(r@.skip(4) =~= escape::escaped(name@));
}

/// The text of a path is the path itself wherever that is valid UTF-8.
pub proof fn law_path_address_text(path: Vec<u8>, r: String)
    requires
        call_ensures(SocketAddr::to_string, (&SocketAddr::Unix(path),), r),
    ensures
        utf8::valid_utf8(path@) ==> utf8::encode_utf8(r@) == path@,
        !utf8::valid_utf8(path@) ==> r@ == text::utf8_lossy(path@),
{
    if utf8::valid_utf8(path@) {
        utf8::decode_utf8_encode_utf8(path@);
    }
}

/// The text of a named pipe is its path.
pub proof fn law_pipe_address_text(path: String, r: String)
    requires
        call_ensures(SocketAddr::to_string, (&SocketAddr::Pipe(path),), r),
    ensures
        r@ == path@,
{
}

/// What is written as the text of an abstract address is read back as that address.
pub proof fn law_abstract_address_round_trip(
    name: Vec<u8>,
    written: String,
    read: &str,
    r: Result<SocketAddr, UnescapeError>,
)
    requires
        call_ensures(SocketAddr::to_string, (&SocketAddr::UnixAbstract(name),), written),
        read@ == written@,
        call_ensures(SocketAddr::parse_uds, (read,), r),
    ensures
        r matches Ok(SocketAddr::UnixAbstract(again)) && again@ == name@,
{
    crate::addr::law_abstract_text_parses_back(name@);
}

/// What is written as the text of a path is read back as that path, where the path is valid
/// UTF-8 and its text does not start with the four characters `\x00`.
pub proof fn law_path_address_round_trip(
    path: Vec<u8>,
    written: String,
    read: &str,
    r: Result<SocketAddr, UnescapeError>,
)
    requires
        utf8::valid_utf8(path@),
        call_ensures(SocketAddr::to_string, (&SocketAddr::Unix(path),), written),
        written@.len() < 4 || written@[0] != '\\' || written@[1] != 'x' || written@[2] != '0'
            || written@[3] != '0',
        read@ == written@,
        call_ensures(SocketAddr::parse_uds, (read,), r),
    ensures
        r matches Ok(SocketAddr::Unix(again)) && again@ == path@,
{
    law_path_address_text(path, written);
    law_string_without_marker_is_path(read, r);
}

/// A path given as a string is taken byte by byte.
pub proof fn law_unix_path_keeps_bytes(s: &str, r: SocketAddr)
    requires
        call_ensures(SocketAddr::unix_path, (s,), r),
    ensures
        r matches SocketAddr::Unix(path) && path@ == utf8::encode_utf8(s@),
{
}

/// A listening socket has an address exactly where it has a path, and then it is that path.
pub proof fn law_listening_address_is_path(pathname: Option<Vec<u8>>, r: Option<SocketAddr>)
    requires
        call_ensures(SocketAddr::from_pathname, (pathname,), r),
    ensures
        match pathname {
            Some(path) => r matches Some(SocketAddr::Unix(p)) && p@ == path@,
            None => r is None,
        },
{
}

/// Each question about the kind of an address is answered by its variant.
pub proof fn law_kind_is_variant(addr: SocketAddr, net: Option<&NetAddr>, unix: bool, pipe: bool)
    requires
        call_ensures(SocketAddr::as_net, (&addr,), net),
        call_ensures(SocketAddr::is_unix_path, (&addr,), unix),
        call_ensures(SocketAddr::is_pipe, (&addr,), pipe),
    ensures
        match addr {
            SocketAddr::Net(a) => net == Some(&a) && !unix && !pipe,
            SocketAddr::Unix(_) => net is None && unix && !pipe,
            SocketAddr::UnixAbstract(_) => net is None && !unix && !pipe,
            SocketAddr::Pipe(_) => net is None && !unix && pipe,
        },
{
}

/// `c` separates the components of a pipe path.
pub open spec fn is_separator(c: char) -> bool {
    c == '\\' || c == '/'
}

/// `s` is two separators, a host that ends before position `end`, a separator, `pipe` in any
/// letter case, a separator, and a name.
pub open spec fn host_ends_at(s: Seq<char>, end: int) -> bool {
    &&& 2 < end
    &&& end + 6 < s.len()
    &&& is_separator(s[0])
    &&& is_separator(s[1])
    &&& forall|i: int| 2 <= i < end ==> !is_separator(#[trigger] s[i])
    &&& is_separator(s[end])
    &&& s[end + 1] == 'p' || s[end + 1] == 'P'
    &&& s[end + 2] == 'i' || s[end + 2] == 'I'
    &&& s[end + 3] == 'p' || s[end + 3] == 'P'
    &&& s[end + 4] == 'e' || s[end + 4] == 'E'
    &&& is_separator(s[end + 5])
}

/// `s` names a pipe in full.
pub open spec fn names_pipe_in_full(s: Seq<char>) -> bool {
    exists|end: int| host_ends_at(s, end)
}

proof fn lemma_fold(c: char)
    ensures
        pipe_name::fold(c) == '\\' <==> is_separator(c),
        pipe_name::fold(c) == 'p' <==> c == 'p' || c == 'P',
        pipe_name::fold(c) == 'i' <==> c == 'i' || c == 'I',
        pipe_name::fold(c) == 'e' <==> c == 'e' || c == 'E',
{
}

/// A string is taken for a full path exactly where it has that form.
pub proof fn law_full_path_is_recognized(s: Seq<char>)
    ensures
        pipe_name::valid_pipe_path(s) == names_pipe_in_full(s),
{
    let p = pipe_name::folded(s);
    assert(p.len() == s.len());
    if pipe_name::valid_pipe_path(s) {
        let (host, name) = choose|host: Seq<char>, name: Seq<char>|
            p == #[trigger] pipe_name::full_path(host, name) && host.len() > 0 && !host.contains(
                '\\',
            ) && name.len() > 0;
        let end: int = 2 + host.len() as int;
        assert(p.len() == host.len() + name.len() + 8);
        assert(p[0] == '\\' && p[1] == '\\' && p[end] == '\\' && p[end + 1] == 'p' && p[end + 2]
            == 'i' && p[end + 3] == 'p' && p[end + 4] == 'e' && p[end + 5] == '\\');
        assert forall|i: int| 2 <= i < end implies !is_separator(#[trigger] s[i]) by {
            assert(p[i] == host[i - 2]);
            assert(p[i] == pipe_name::fold(s[i]));
            lemma_fold(s[i]);
        }
        lemma_fold(s[0]);
        lemma_fold(s[1]);
        lemma_fold(s[end]);
        lemma_fold(s[end + 1]);
        lemma_fold(s[end + 2]);
        lemma_fold(s[end + 3]);
        lemma_fold(s[end + 4]);
        lemma_fold(s[end + 5]);
        assert(host_ends_at(s, end));
    }
    if names_pipe_in_full(s) {
        let end = choose|end: int| host_ends_at(s, end);
        let host = p.subrange(2, end);
        let name = p.skip(end + 6);
        lemma_fold(s[0]);
        lemma_fold(s[1]);
        lemma_fold(s[end]);
        lemma_fold(s[end + 1]);
        lemma_fold(s[end + 2]);
        lemma_fold(s[end + 3]);
        lemma_fold(s[end + 4]);
        lemma_fold(s[end + 5]);
        assert(p =~= pipe_name::full_path(host, name));
        assert(!host.contains('\\')) by {
            if host.contains('\\') {
                let i = choose|i: int| 0 <= i < host.len() && host[i] == '\\';
                assert(p[i + 2] == pipe_name::fold(s[i + 2]));
                lemma_fold(s[i + 2]);
                assert(!is_separator(s[i + 2]));
            }
        }
    }
}

/// `p` is `\\.\pipe\` and a name made of `s`: each character of `s` that is visible ASCII and no
/// separator is kept, each other one is `_`, and where `s` is empty the name is `_`.
pub open spec fn is_local_pipe(p: Seq<char>, s: Seq<char>) -> bool {
    &&& p.len() == 9 + (if s.len() == 0 {
        1
    } else {
        s.len() as int
    })
    &&& p[0] == '\\'
    &&& p[1] == '\\'
    &&& p[2] == '.'
    &&& p[3] == '\\'
    &&& p[4] == 'p'
    &&& p[5] == 'i'
    &&& p[6] == 'p'
    &&& p[7] == 'e'
    &&& p[8] == '\\'
    &&& s.len() == 0 ==> p[9] == '_'
    &&& forall|i: int|
        0 <= i < s.len() ==> #[trigger] p[9 + i] == (if '!' <= s[i] <= '~' && s[i] != '\\' && s[i]
            != '/' {
            s[i]
        } else {
            '_'
        })
}

/// A string that names a pipe in full is passed through; any other one becomes a pipe on the
/// local machine, each of its characters kept or replaced whatever the others are.
pub proof fn law_pipe_string_is_normalized(s: &str, r: SocketAddr)
    requires
        call_ensures(SocketAddr::parse_pipe, (s,), r),
    ensures
        r matches SocketAddr::Pipe(p) && if names_pipe_in_full(s@) {
            p@ == s@
        } else {
            is_local_pipe(p@, s@)
        },
{
    law_full_path_is_recognized(s@);
    law_pipe_path_by_character(s@);
}

/// The path that a string stands for, character by character.
pub proof fn law_pipe_path_by_character(s: Seq<char>)
    ensures
        if names_pipe_in_full(s) {
            pipe_name::pipe_path(s) == s
        } else {
            is_local_pipe(pipe_name::pipe_path(s), s)
        },
{
    law_full_path_is_recognized(s);
    let p = pipe_name::pipe_path(s);
    if !names_pipe_in_full(s) && s.len() > 0 {
        assert forall|i: int| 0 <= i < s.len() implies #[trigger] p[9 + i] == (if '!' <= s[i] <= '~'
            && s[i] != '\\' && s[i] != '/' {
            s[i]
        } else {
            '_'
        }) by {
            assert(p[9 + i] == pipe_name::sanitize(s[i]));
        }
    }
}

/// A connection starts with no retries counted, and is to a pipe exactly where its address is.
pub proof fn law_connection_starts_afresh(addr: SocketAddr, r: ConnectAttempts)
    requires
        call_ensures(ConnectAttempts::new, (&addr,), r),
    ensures
        r.retries() == 0,
        r.pipe() == (addr is Pipe),
{
}

/// After an attempt, a pipe that failed with the code 231 is tried again after 50 milliseconds
/// as long as fewer than five retries are counted; every other outcome is reported as it came.
pub proof fn law_attempt_is_retried_or_reported<C, E>(
    attempts: &mut ConnectAttempts,
    outcome: OpenOutcome<C, E>,
    r: ConnectStep<C, E>,
)
    requires
        call_ensures(ConnectAttempts::step::<C, E>, (attempts, outcome), r),
    ensures
        final(attempts).pipe() == old(attempts).pipe(),
        match outcome {
            OpenOutcome::Opened(stream) => r == ConnectStep::<C, E>::Finished(Ok(stream))
                && final(attempts).retries() == old(attempts).retries(),
            OpenOutcome::Failed { error, raw_os_error } => if old(attempts).pipe() && raw_os_error
                == Some(231i32) && old(attempts).retries() < 5 {
                r == (ConnectStep::<C, E>::RetryAfter { millis: 50 })
                    && final(attempts).retries() == old(attempts).retries() + 1
            } else {
                r == ConnectStep::<C, E>::Finished(Err(error))
                    && final(attempts).retries() == old(attempts).retries()
            },
        },
{
}

/// A pipe that is busy at every attempt is tried six times, and the error of the sixth attempt
/// is the one reported.
pub proof fn law_busy_pipe_is_given_up_after_six_attempts<C, E>(errors: Seq<E>)
    requires
        errors.len() >= 6,
    ensures
        connect::connect_run(
            true,
            0,
            errors.map_values(
                |error: E| OpenOutcome::<C, E>::Failed { error, raw_os_error: Some(231i32) },
            ),
        ) == Some((6nat, Err::<C, E>(errors[5]))),
{
    let outcomes = errors.map_values(
        |error: E| OpenOutcome::<C, E>::Failed { error, raw_os_error: Some(231i32) },
    );
    connect::law_pipe_reports_last_attempt(outcomes, 5);
}

/// The request for an instance carries the name and the flag as they were given; the instance
/// serves local clients in both directions, with 64 KiB each way.
pub proof fn law_request_carries_name_and_flag(name: &str, first: bool, r: PipeServerRequest)
    requires
        call_ensures(PipeServerRequest::new, (name, first), r),
    ensures
        r.name@ == name@,
        r.options.first_pipe_instance == first,
        r.options.reject_remote_clients,
        r.options.access_inbound,
        r.options.access_outbound,
        r.options.in_buffer_size == 65536,
        r.options.out_buffer_size == 65536,
{
}

/// A bound acceptor holds what it was given; its first instance, every later one and the
/// address that it reports bear the name that it was bound to, and only the first instance
/// claims the name.
pub proof fn law_acceptor_keeps_its_name<P, E, F>(
    name: &str,
    pending: P,
    first: PipeServerRequest,
    acceptor: NamedPipeAcceptor<P>,
    next: Result<PipeServerRequest, F>,
    reported: Option<SocketAddr>,
)
    requires
        call_ensures(NamedPipeAcceptor::<P>::first_instance, (name,), first),
        call_ensures(
            NamedPipeAcceptor::<P>::bind::<E>,
            (name, Ok::<P, E>(pending)),
            Ok::<NamedPipeAcceptor<P>, E>(acceptor),
        ),
        call_ensures(
            NamedPipeAcceptor::<P>::after_connect::<F>,
            (&acceptor, Ok::<(), F>(())),
            next,
        ),
        call_ensures(NamedPipeAcceptor::<P>::local_addr, (&acceptor,), reported),
    ensures
        acceptor.place() == pending,
        first.name@ == name@,
        first.options.first_pipe_instance,
        next matches Ok(request) && request.name@ == name@ && !request.options.first_pipe_instance,
        reported matches Some(SocketAddr::Pipe(path)) && path@ == name@,
{
}

/// Once a client has connected, the next instance is requested under the name of the acceptor,
/// not as the first one, with the options of every instance; the error of a failed wait is
/// reported as it came.
pub proof fn law_next_instance_follows_connection<P, E>(
    acceptor: NamedPipeAcceptor<P>,
    connected: Result<(), E>,
    r: Result<PipeServerRequest, E>,
)
    requires
        call_ensures(NamedPipeAcceptor::<P>::after_connect::<E>, (&acceptor, connected), r),
    ensures
        match connected {
            Ok(_) => {
                &&& r is Ok
                &&& r->Ok_0.name@ == acceptor.name()
                &&& !r->Ok_0.options.first_pipe_instance
                &&& r->Ok_0.options.reject_remote_clients
                &&& r->Ok_0.options.access_inbound
                &&& r->Ok_0.options.access_outbound
                &&& r->Ok_0.options.in_buffer_size == 65536
                &&& r->Ok_0.options.out_buffer_size == 65536
            },
            Err(e) => r == Err::<PipeServerRequest, E>(e),
        },
{
}

/// A failed bind reports its error as it came.
pub proof fn law_failed_bind_reports_error<P, E>(
    name: &str,
    error: E,
    r: Result<NamedPipeAcceptor<P>, E>,
)
    requires
        call_ensures(NamedPipeAcceptor::<P>::bind::<E>, (name, Err::<P, E>(error)), r),
    ensures
        r == Err::<NamedPipeAcceptor<P>, E>(error),
{
}

/// Arming the place hands over the connected instance and leaves the new one pending; where
/// there is no new one, its error is reported and nothing is armed.
pub proof fn law_rearm_swaps_instances<S, E>(
    place: &mut PendingInstance<S>,
    server: S,
    created: Result<S, E>,
    r: Result<S, E>,
)
    requires
        call_ensures(PendingInstance::<S>::rearm::<E>, (place, server, created), r),
    ensures
        match created {
            Ok(next) => r == Ok::<S, E>(server) && final(place)@ == Some(next),
            Err(e) => r == Err::<S, E>(e) && final(place)@ == old(place)@,
        },
{
}

} // verus!
