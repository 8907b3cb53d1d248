//! Internet addresses with a port.

use vstd::prelude::*;

use crate::text;

verus! {

/// An IPv4 or IPv6 address with a port.
#[derive(Debug, Clone, Copy)]
pub enum NetAddr {
    V4 { ip: [u8; 4], port: u16 },
    V6 { segments: [u16; 8], port: u16, flowinfo: u32, scope_id: u32 },
}

/// The mathematical value of a [`NetAddr`].
pub ghost enum NetAddrModel {
    V4 { ip: Seq<u8>, port: u16 },
    V6 { segments: Seq<u16>, port: u16, flowinfo: u32, scope_id: u32 },
}

impl View for NetAddr {
    type V = NetAddrModel;

    open spec fn view(&self) -> NetAddrModel {
        match *self {
            NetAddr::V4 { ip, port } => NetAddrModel::V4 { ip: ip@, port },
            NetAddr::V6 { segments, port, flowinfo, scope_id } => NetAddrModel::V6 {
                segments: segments@,
                port,
                flowinfo,
                scope_id,
            },
        }
    }
}

/// Four bytes in dotted decimal.
pub open spec fn ipv4_text(ip: Seq<u8>) -> Seq<char> {
    text::decimal(ip[0] as nat) + seq!['.'] + text::decimal(ip[1] as nat) + seq!['.']
        + text::decimal(ip[2] as nat) + seq!['.'] + text::decimal(ip[3] as nat)
}

/// Segments in hexadecimal, with a colon between neighbours.
pub open spec fn groups_text(segments: Seq<u16>) -> Seq<char>
    decreases segments.len(),
{
    if segments.len() == 0 {
        Seq::empty()
    } else if segments.len() == 1 {
        text::hex(segments[0] as nat)
    } else {
        groups_text(segments.drop_last()) + seq![':'] + text::hex(segments.last() as nat)
    }
}

/// The `len` segments from `start` on are all zero.
pub open spec fn zero_run(segments: Seq<u16>, start: int, len: int) -> bool {
    &&& 0 <= start
    &&& 0 <= len
    &&& start + len <= segments.len()
    &&& forall|i: int| start <= i < start + len ==> #[trigger] segments[i] == 0
}

/// The run of zeros that the text leaves out: the longest one, and of several the first.
pub open spec fn longest_zero_run(segments: Seq<u16>, start: int, len: int) -> bool {
    &&& zero_run(segments, start, len)
    &&& forall|s: int, n: int| #[trigger]
        zero_run(segments, s, n) ==> n < len || (n == len && start <= s)
}

/// Whether the address stands for an IPv4 address: `::ffff:0:0/96`.
pub open spec fn ipv4_mapped(segments: Seq<u16>) -> bool {
    zero_run(segments, 0, 5) && segments[5] == 0xffff
}

/// The bytes of the last two segments.
pub open spec fn mapped_ipv4(segments: Seq<u16>) -> Seq<u8> {
    seq![
        (segments[6] / 256) as u8,
        (segments[6] % 256) as u8,
        (segments[7] / 256) as u8,
        (segments[7] % 256) as u8,
    ]
}

/// Eight segments as text: an IPv4-mapped address ends in dotted decimal; in any other one
/// the longest run of at least two zeros is written `::`.
pub open spec fn ipv6_text(segments: Seq<u16>) -> Seq<char> {
    if ipv4_mapped(segments) {
        seq![':', ':', 'f', 'f', 'f', 'f', ':'] + ipv4_text(mapped_ipv4(segments))
    } else if exists|start: int| #[trigger] zero_run(segments, start, 2) {
        let (start, len) = choose|start: int, len: int| longest_zero_run(segments, start, len);
        groups_text(segments.take(start)) + seq![':', ':'] + groups_text(segments.skip(start + len))
    } else {
        groups_text(segments)
    }
}

/// The zone of an IPv6 address, left out where it is zero.
pub open spec fn scope_text(scope_id: u32) -> Seq<char> {
    if scope_id == 0 {
        Seq::empty()
    } else {
        seq!['%'] + text::decimal(scope_id as nat)
    }
}

impl NetAddrModel {
    /// The address as text: `<ip>:<port>`, an IPv6 address in square brackets.
    pub open spec fn text(self) -> Seq<char> {
        match self {
            NetAddrModel::V4 { ip, port } => ipv4_text(ip) + seq![':'] + text::decimal(port as nat),
            NetAddrModel::V6 { segments, port, scope_id, .. } => seq!['['] + ipv6_text(segments)
                + scope_text(scope_id) + seq![']', ':'] + text::decimal(port as nat),
        }
    }
}

proof fn lemma_longest_zero_run_is_unique(
    segments: Seq<u16>,
    start1: int,
    len1: int,
    start2: int,
    len2: int,
)
    requires
        longest_zero_run(segments, start1, len1),
        longest_zero_run(segments, start2, len2),
    ensures
        start1 == start2,
        len1 == len2,
{
}

/// Of the runs of the greatest length, one comes first.
proof fn lemma_first_zero_run_exists(segments: Seq<u16>, start: int, len: int)
    requires
        zero_run(segments, start, len),
        forall|s: int, n: int| #[trigger] zero_run(segments, s, n) ==> n <= len,
    ensures
        exists|s: int, n: int| longest_zero_run(segments, s, n),
    decreases start,
{
    if exists|s: int| s < start && #[trigger] zero_run(segments, s, len) {
        let s = choose|s: int| s < start && #[trigger] zero_run(segments, s, len);
        lemma_first_zero_run_exists(segments, s, len);
    } else {
        assert(longest_zero_run(segments, start, len));
    }
}

/// Where no run is longer than `most`, one of them is the first of the longest.
pub proof fn lemma_longest_zero_run_exists(segments: Seq<u16>, most: int)
    requires
        most >= 0,
        forall|s: int, n: int| #[trigger] zero_run(segments, s, n) ==> n <= most,
    ensures
        exists|s: int, n: int| longest_zero_run(segments, s, n),
    decreases most,
{
    if exists|s: int| #[trigger] zero_run(segments, s, most) {
        let s = choose|s: int| #[trigger] zero_run(segments, s, most);
        lemma_first_zero_run_exists(segments, s, most);
    } else {
        assert(zero_run(segments, 0, 0));
        lemma_longest_zero_run_exists(segments, most - 1);
    }
}

fn push_ipv4(out: &mut String, ip: &[u8; 4])
    ensures
        final(out)@ == old(out)@ + ipv4_text(ip@),
{
    text::push_decimal(out, ip[0] as u32);
    out.push('.');
    text::push_decimal(out, ip[1] as u32);
    out.push('.');
    text::push_decimal(out, ip[2] as u32);
    out.push('.');
    text::push_decimal(out, ip[3] as u32);
}

/// Appends the segments from `from` up to `to`.
fn push_groups(out: &mut String, segments: &[u16; 8], from: usize, to: usize)
    requires
        from <= to <= 8,
    ensures
        final(out)@ == old(out)@ + groups_text(segments@.subrange(from as int, to as int)),
{
    let ghost before = out@;
    let mut i: usize = from;
    while i < to
        invariant
            from <= i <= to <= 8,
            out@ == before + groups_text(segments@.subrange(from as int, i as int)),
        decreases to - i,
    {
        if i > from {
            out.push(':');
        }
        text::push_hex(out, segments[i]);
        proof {
            let done = segments@.subrange(from as int, i + 1);
            assert(done.drop_last() =~= segments@.subrange(from as int, i as int));
        }
        i += 1;
    }
}

/// The first of the longest runs of zeros, as its start and its length.
fn find_longest_zero_run(segments: &[u16; 8]) -> (r: (usize, usize))
    ensures
        longest_zero_run(segments@, r.0 as int, r.1 as int),
{
    let mut longest: (usize, usize) = (0, 0);
    let mut current: (usize, usize) = (0, 0);
    let mut i: usize = 0;
    while i < 8
        invariant
            i <= 8,
            zero_run(segments@, longest.0 as int, longest.1 as int),
            longest.0 + longest.1 <= i,
            current.1 > 0 ==> current.0 + current.1 == i,
            current.1 <= i,
            zero_run(segments@, i - current.1, current.1 as int),
            i > current.1 ==> segments@[i - current.1 - 1] != 0,
            forall|s: int, n: int| #[trigger]
                zero_run(segments@, s, n) && s + n <= i ==> n < longest.1 || (n == longest.1
                    && longest.0 <= s),
        decreases 8 - i,
    {
        let ghost old_current = current;
        if segments[i] == 0 {
            if current.1 == 0 {
                current.0 = i;
            }
            current.1 += 1;
            if current.1 > longest.1 {
                longest = current;
            }
        } else {
            current = (0, 0);
        }
        proof {
            assert forall|s: int, n: int| #[trigger]
                zero_run(segments@, s, n) && s + n <= i + 1 implies n < longest.1 || (n
                == longest.1 && longest.0 <= s) by {
                if s + n == i + 1 && n > 0 {
                    assert(segments@[i as int] == 0);
                    if s < i - old_current.1 {
                        assert(segments@[i - old_current.1 - 1] == 0);
                    }
                }
            }
        }
        i += 1;
    }
    longest
}

fn push_ipv6(out: &mut String, segments: &[u16; 8])
    ensures
        final(out)@ == old(out)@ + ipv6_text(segments@),
{
    let mapped = segments[0] == 0 && segments[1] == 0 && segments[2] == 0 && segments[3] == 0
        && segments[4] == 0 && segments[5] == 0xffff;
    if mapped {
        assert(ipv4_mapped(segments@));
        out.append("::ffff:");
        proof {
            reveal_strlit("::ffff:");
            assert("::ffff:"@ =~= seq![':', ':', 'f', 'f', 'f', 'f', ':']);
        }
        let ip = [
            (segments[6] / 256) as u8,
            (segments[6] % 256) as u8,
            (segments[7] / 256) as u8,
            (segments[7] % 256) as u8,
        ];
        assert(ip@ =~= mapped_ipv4(segments@));
        push_ipv4(out, &ip);
        return;
    }
    assert(!ipv4_mapped(segments@));
    let (start, len) = find_longest_zero_run(segments);
    if len > 1 {
        proof {
            assert(zero_run(segments@, start as int, 2));
            let (s, n) = choose|s: int, n: int| longest_zero_run(segments@, s, n);
            lemma_longest_zero_run_is_unique(segments@, start as int, len as int, s, n);
            assert(segments@.subrange(0, start as int) =~= segments@.take(start as int));
            assert(segments@.subrange(start + len, 8) =~= segments@.skip(start + len));
        }
        push_groups(out, segments, 0, start);
        out.push(':');
        out.push(':');
        push_groups(out, segments, start + len, 8);
    } else {
        proof {
            assert(segments@.subrange(0, 8) =~= segments@);
        }
        push_groups(out, segments, 0, 8);
    }
}

impl NetAddr {
    /// Appends the address as text.
    pub fn push_text(&self, out: &mut String)
        ensures
            final(out)@ == old(out)@ + self@.text(),
    {
        match self {
            NetAddr::V4 { ip, port } => {
                push_ipv4(out, ip);
                out.push(':');
                text::push_decimal(out, *port as u32);
            },
            NetAddr::V6 { segments, port, scope_id, .. } => {
                out.push('[');
                push_ipv6(out, segments);
                if *scope_id != 0 {
                    out.push('%');
                    text::push_decimal(out, *scope_id);
                }
                out.push(']');
                out.push(':');
                text::push_decimal(out, *port as u32);
            },
        }
    }
}

} // verus!
