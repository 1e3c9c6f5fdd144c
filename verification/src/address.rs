//! How the address of a client is shown.
use vstd::prelude::*;
use vstd::string::*;

use crate::message::{SocketAddr, SocketAddrModel};
use crate::text::{
    decimal, hexadecimal, padded, precision_of, push_decimal, push_hexadecimal, width_of, written,
};
use crate::wire::Wire;

verus! {

/// Four octets in decimal, with dots between them.
pub open spec fn ipv4_text(ip: Seq<u8>) -> Seq<char> {
    decimal(ip[0] as nat) + seq!['.'] + decimal(ip[1] as nat) + seq!['.'] + decimal(ip[2] as nat)
        + seq!['.'] + decimal(ip[3] as nat)
}

/// The eight segments of an IPv6 address: its octets in pairs, the high one first.
pub open spec fn segments(ip: Seq<u8>) -> Seq<u16> {
    Seq::new(8, |i: int| (256 * ip[2 * i] + ip[2 * i + 1]) as u16)
}

/// Segments in hexadecimal, with colons between them.
pub open spec fn joined(segs: Seq<u16>) -> Seq<char>
    decreases segs.len(),
{
    if segs.len() == 0 {
        seq![]
    } else if segs.len() == 1 {
        hexadecimal(segs[0] as nat)
    } else {
        joined(segs.drop_last()) + seq![':'] + hexadecimal(segs.last() as nat)
    }
}

/// How many segments from `start` on are zero, without a gap.
pub open spec fn zeros_from(segs: Seq<u16>, start: int) -> nat
    decreases segs.len() - start,
{
    if 0 <= start < segs.len() && segs[start] == 0 {
        1 + zeros_from(segs, start + 1)
    } else {
        0
    }
}

/// Whether no run of zeros is longer than the one at `start`, and none before it
/// is as long.
pub open spec fn starts_longest_run(segs: Seq<u16>, start: int) -> bool {
    &&& 0 <= start < segs.len()
    &&& forall|i: int|
        0 <= i < segs.len() ==> #[trigger] zeros_from(segs, i) <= zeros_from(segs, start)
    &&& forall|i: int| 0 <= i < start ==> #[trigger] zeros_from(segs, i) < zeros_from(segs, start)
}

/// Segments in the short form: two colons stand for the first of the longest runs
/// of zeros, if it has more than one.
pub open spec fn compressed(segs: Seq<u16>) -> Seq<char> {
    let start = choose|start: int| #[trigger] starts_longest_run(segs, start);
    let len = zeros_from(segs, start);
    if len > 1 {
        joined(segs.take(start)) + seq![':', ':'] + joined(segs.skip(start + len))
    } else {
        joined(segs)
    }
}

/// Whether an IPv6 address stands for an IPv4 address, in its last four octets.
pub open spec fn is_ipv4_mapped(ip: Seq<u8>) -> bool {
    &&& forall|i: int| 0 <= i < 10 ==> ip[i] == 0
    &&& ip[10] == 0xff
    &&& ip[11] == 0xff
}

/// An IPv6 address in the short form; the IPv4 address in it, if any, with dots.
pub open spec fn ipv6_text(ip: Seq<u8>) -> Seq<char> {
    if is_ipv4_mapped(ip) {
        "::ffff:"@ + ipv4_text(ip.subrange(12, 16))
    } else {
        compressed(segments(ip))
    }
}

/// How an address is shown: `203.0.113.5:51820`, `[2001:db8::1]:443`, or, with a
/// scope, `[fe80::1%2]:443`. The flow information is not shown.
pub open spec fn address_text(addr: SocketAddrModel) -> Seq<char> {
    match addr {
        SocketAddrModel::V4 { ip, port } => ipv4_text(ip) + seq![':'] + decimal(port as nat),
        SocketAddrModel::V6 { ip, port, scope_id, .. } => {
            let scope = if scope_id == 0 {
                seq![]
            } else {
                seq!['%'] + decimal(scope_id as nat)
            };
            seq!['['] + ipv6_text(ip) + scope + seq![']', ':'] + decimal(port as nat)
        },
    }
}

/// Appends four octets in decimal.
fn push_ipv4(out: &mut String, a: u8, b: u8, c: u8, d: u8)
    ensures
        final(out)@ == old(out)@ + ipv4_text(seq![a, b, c, d]),
{
    push_decimal(out, a as u32);
    out.push('.');
    push_decimal(out, b as u32);
    out.push('.');
    push_decimal(out, c as u32);
    out.push('.');
    push_decimal(out, d as u32);
    assert(out@ =~= old(out)@ + ipv4_text(seq![a, b, c, d]));
}

/// Appends the segments from `start` to `end`, with colons between them.
fn push_joined(out: &mut String, segs: &[u16; 8], start: usize, end: usize)
    requires
        start <= end <= 8,
    ensures
        final(out)@ == old(out)@ + joined(segs@.subrange(start as int, end as int)),
    decreases end - start,
{
    if start < end {
        let ghost part = segs@.subrange(start as int, end as int);
        if start + 1 < end {
            push_joined(out, segs, start, end - 1);
            out.push(':');
            assert(part.drop_last() =~= segs@.subrange(start as int, end - 1));
        }
        push_hexadecimal(out, segs[end - 1]);
        assert(part.last() == segs@[end - 1]);
    }
    assert(out@ =~= old(out)@ + joined(segs@.subrange(start as int, end as int)));
}

/// The number of zeros from `start` on.
fn count_zeros(segs: &[u16; 8], start: usize) -> (n: usize)
    requires
        start <= 8,
    ensures
        n == zeros_from(segs@, start as int),
        start + n <= 8,
    decreases 8 - start,
{
    if start < 8 && segs[start] == 0 {
        1 + count_zeros(segs, start + 1)
    } else {
        0
    }
}

/// The start and the length of the first of the longest runs of zeros.
fn longest_run(segs: &[u16; 8]) -> (r: (usize, usize))
    ensures
        starts_longest_run(segs@, r.0 as int),
        r.1 == zeros_from(segs@, r.0 as int),
        r.0 + r.1 <= 8,
{
    let mut start: usize = 0;
    let mut len: usize = count_zeros(segs, 0);
    for i in 1..8
        invariant
            start < i,
            start + len <= 8,
            len == zeros_from(segs@, start as int),
            forall|j: int| 0 <= j < i ==> #[trigger] zeros_from(segs@, j) <= len,
            forall|j: int| 0 <= j < start ==> #[trigger] zeros_from(segs@, j) < len,
    {
        let n: usize = count_zeros(segs, i);
        if n > len {
            start = i;
            len = n;
        }
    }
    (start, len)
}

/// Only one run is the first of the longest.
proof fn lemma_longest_run_is_unique(segs: Seq<u16>, a: int, b: int)
    requires
        starts_longest_run(segs, a),
        starts_longest_run(segs, b),
    ensures
        a == b,
{
    assert(zeros_from(segs, a) <= zeros_from(segs, b));
    assert(zeros_from(segs, b) <= zeros_from(segs, a));
}

/// Appends segments in the short form.
fn push_compressed(out: &mut String, segs: &[u16; 8])
    ensures
        final(out)@ == old(out)@ + compressed(segs@),
{
    let (start, len): (usize, usize) = longest_run(segs);
    proof {
        let chosen = choose|start: int| #[trigger] starts_longest_run(segs@, start);
        lemma_longest_run_is_unique(segs@, chosen, start as int);
    }
    if len > 1 {
        push_joined(out, segs, 0, start);
        out.push(':');
        out.push(':');
        push_joined(out, segs, start + len, 8);
        assert(segs@.subrange(0, start as int) =~= segs@.take(start as int));
        assert(segs@.subrange(start + len, 8) =~= segs@.skip(start + len));
    } else {
        push_joined(out, segs, 0, 8);
        assert(segs@.subrange(0, 8) =~= segs@);
    }
    assert(out@ =~= old(out)@ + compressed(segs@));
}

/// Whether the octets are those of an IPv4 address inside an IPv6 address.
fn ipv4_mapped(ip: &[u8; 16]) -> (r: bool)
    ensures
        r == is_ipv4_mapped(ip@),
{
    for i in 0..10
        invariant
            forall|j: int| 0 <= j < i ==> ip@[j] == 0,
    {
        if ip[i] != 0 {
            assert(ip@[i as int] != 0);
            return false;
        }
    }
    ip[10] == 0xff && ip[11] == 0xff
}

/// Appends an IPv6 address.
fn push_ipv6(out: &mut String, ip: &[u8; 16])
    ensures
        final(out)@ == old(out)@ + ipv6_text(ip@),
{
    if ipv4_mapped(ip) {
        out.append("::ffff:");
        push_ipv4(out, ip[12], ip[13], ip[14], ip[15]);
        assert(seq![ip@[12], ip@[13], ip@[14], ip@[15]] =~= ip@.subrange(12, 16));
    } else {
        let mut segs: [u16; 8] = [0u16; 8];
        for i in 0..8
            invariant
                forall|j: int| 0 <= j < i ==> segs@[j] == segments(ip@)[j],
        {
            segs[i] = 256 * (ip[2 * i] as u16) + ip[2 * i + 1] as u16;
        }
        assert(segs@ =~= segments(ip@));
        push_compressed(out, &segs);
    }
    assert(out@ =~= old(out)@ + ipv6_text(ip@));
}

impl SocketAddr {
    /// The text of the `Debug` form, e.g. `203.0.113.5:51820` or `[2001:db8::1]:443`.
    pub fn debug_text(&self) -> (text: String)
        ensures
            text@ == address_text(self.model()),
    {
        let mut text = String::new();
        match self {
            SocketAddr::V4 { ip, port } => {
                push_ipv4(&mut text, ip[0], ip[1], ip[2], ip[3]);
                assert(seq![ip@[0], ip@[1], ip@[2], ip@[3]] =~= ip@);
                text.push(':');
                push_decimal(&mut text, *port as u32);
            },
            SocketAddr::V6 { ip, port, scope_id, .. } => {
                text.push('[');
                push_ipv6(&mut text, ip);
                if *scope_id != 0 {
                    text.push('%');
                    push_decimal(&mut text, *scope_id);
                }
                text.push(']');
                text.push(':');
                push_decimal(&mut text, *port as u32);
            },
        }
        assert(text@ =~= address_text(self.model()));
        text
    }
}

impl core::fmt::Debug for SocketAddr {
    /// Writes the address, padded to the width or cut to the precision where the
    /// formatter asks for one.
    fn fmt(&self, f: &mut core::fmt::Formatter<'_>) -> (r: core::fmt::Result)
        ensures
            r is Ok ==> written(*final(f)) == written(*old(f)) + if width_of(*old(f)) is None
                && precision_of(*old(f)) is None {
                address_text(self.model())
            } else {
                padded(*old(f), address_text(self.model()))
            },
    {
        let text = self.debug_text();
        if f.width().is_none() && f.precision().is_none() {
            f.write_str(text.as_str())
        } else {
            f.pad(text.as_str())
        }
    }
}

/// An IPv4 address is shown as its octets in decimal, in their order, with dots
/// between them.
pub proof fn ipv4_form(a: u8, b: u8, c: u8, d: u8)
    ensures
        ({
            let t = ipv4_text(seq![a, b, c, d]);
            let i = decimal(a as nat).len() as int;
            let j = i + 1 + decimal(b as nat).len();
            let k = j + 1 + decimal(c as nat).len();
            &&& t.take(i) == decimal(a as nat)
            &&& t[i] == '.'
            &&& t.subrange(i + 1, j) == decimal(b as nat)
            &&& t[j] == '.'
            &&& t.subrange(j + 1, k) == decimal(c as nat)
            &&& t[k] == '.'
            &&& t.skip(k + 1) == decimal(d as nat)
        }),
{
    let t = ipv4_text(seq![a, b, c, d]);
    let i = decimal(a as nat).len() as int;
    let j = i + 1 + decimal(b as nat).len();
    let k = j + 1 + decimal(c as nat).len();
    assert(t.take(i) =~= decimal(a as nat));
    assert(t.subrange(i + 1, j) =~= decimal(b as nat));
    assert(t.subrange(j + 1, k) =~= decimal(c as nat));
    assert(t.skip(k + 1) =~= decimal(d as nat));
}

/// Each segment of an IPv6 address has two octets, of which the first weighs more.
pub proof fn segments_pair_octets(ip: Seq<u8>, i: int)
    requires
        0 <= i < 8,
    ensures
        segments(ip).len() == 8,
        segments(ip)[i] == 256 * ip[2 * i] + ip[2 * i + 1],
{
}

/// One segment is shown in hexadecimal, and two groups of segments with a colon
/// between them.
pub proof fn joined_form(x: u16, a: Seq<u16>, b: Seq<u16>)
    requires
        a.len() > 0,
        b.len() > 0,
    ensures
        joined(Seq::empty()) == Seq::<char>::empty(),
        joined(seq![x]) == hexadecimal(x as nat),
        joined(a + b) == joined(a) + seq![':'] + joined(b),
    decreases b.len(),
{
    assert((a + b).last() == b.last());
    if b.len() == 1 {
        assert((a + b).drop_last() =~= a);
    } else {
        joined_form(x, a, b.drop_last());
        assert((a + b).drop_last() =~= a + b.drop_last());
    }
    assert(joined(a + b) =~= joined(a) + seq![':'] + joined(b));
}

/// Whether `len` segments from `start` on are zero.
pub open spec fn all_zero(segs: Seq<u16>, start: int, len: int) -> bool {
    forall|i: int| start <= i < start + len ==> segs[i] == 0
}

/// Where two or more segments in a row are zero, two colons stand for the longest
/// such row, and for the first one if several are as long.
pub proof fn two_colons_stand_for_the_longest_run(segs: Seq<u16>, start: int, len: int)
    requires
        len > 1,
        0 <= start,
        start + len <= segs.len(),
        all_zero(segs, start, len),
        forall|i: int, n: int|
            0 <= i && 0 < n && i + n <= segs.len() && #[trigger] all_zero(segs, i, n) ==> n < len
                || (n == len && start <= i),
    ensures
        compressed(segs) == joined(segs.take(start)) + seq![':', ':'] + joined(
            segs.skip(start + len),
        ),
{
    assert forall|i: int| 0 <= i < segs.len() implies {
        &&& #[trigger] zeros_from(segs, i) <= len
        &&& i < start ==> zeros_from(segs, i) < len
    } by {
        lemma_zeros_from(segs, i);
        assert(all_zero(segs, i, zeros_from(segs, i) as int));
    }
    lemma_zeros_from(segs, start);
    if zeros_from(segs, start) < len {
        assert(segs[start + zeros_from(segs, start)] == 0);
    }
    assert(starts_longest_run(segs, start));
    let chosen = choose|start: int| #[trigger] starts_longest_run(segs, start);
    lemma_longest_run_is_unique(segs, chosen, start);
}

/// Where no two segments in a row are zero, all segments are shown.
pub proof fn single_zeros_are_shown(segs: Seq<u16>)
    requires
        forall|i: int, j: int|
            0 <= i && j == i + 1 && j < segs.len() ==> #[trigger] segs[i] != 0 || #[trigger] segs[j]
                != 0,
    ensures
        compressed(segs) == joined(segs),
{
    assert forall|i: int| #[trigger] zeros_from(segs, i) <= 1 by {
        if 0 <= i < segs.len() {
            lemma_zeros_from(segs, i);
            if zeros_from(segs, i) > 1 {
                assert(segs[i] == 0 && segs[i + 1] == 0);
            }
        }
    }
}

/// The zeros that are counted are zeros, and what follows them is none.
proof fn lemma_zeros_from(segs: Seq<u16>, start: int)
    requires
        0 <= start <= segs.len(),
    ensures
        start + zeros_from(segs, start) <= segs.len(),
        forall|i: int| start <= i < start + zeros_from(segs, start) ==> segs[i] == 0,
        start + zeros_from(segs, start) < segs.len() ==> segs[start + zeros_from(segs, start)] != 0,
    decreases segs.len() - start,
{
    if start < segs.len() && segs[start] == 0 {
        lemma_zeros_from(segs, start + 1);
    }
}

/// An IPv6 address that starts with ten zero octets and two of all ones is shown as
/// the IPv4 address in its last four; any other one by its segments.
pub proof fn ipv6_form(ip: Seq<u8>)
    requires
        ip.len() == 16,
    ensures
        if ip.take(10) == Seq::new(10, |i: int| 0u8) && ip[10] == 255 && ip[11] == 255 {
            ipv6_text(ip) == seq![':', ':', 'f', 'f', 'f', 'f', ':'] + ipv4_text(
                seq![ip[12], ip[13], ip[14], ip[15]],
            )
        } else {
            ipv6_text(ip) == compressed(segments(ip))
        },
{
    reveal_strlit("::ffff:");
    assert("::ffff:"@ =~= seq![':', ':', 'f', 'f', 'f', 'f', ':']);
    assert(ip.subrange(12, 16) =~= seq![ip[12], ip[13], ip[14], ip[15]]);
    if is_ipv4_mapped(ip) {
        assert(ip.take(10) =~= Seq::new(10, |i: int| 0u8));
    } else if ip.take(10) == Seq::new(10, |i: int| 0u8) {
        assert forall|i: int| 0 <= i < 10 implies ip[i] == 0 by {
            assert(ip.take(10)[i] == ip[i]);
        }
    }
}

/// An address is shown with its port behind a colon. An IPv6 address stands in
/// brackets, with its scope behind a percent sign unless that is zero; its flow
/// information is not shown.
pub proof fn address_form(
    v4: [u8; 4],
    v6: [u8; 16],
    port: u16,
    flowinfo: u32,
    scope_id: u32,
)
    ensures
        ({
            let t = address_text(SocketAddr::V4 { ip: v4, port }.model());
            let n = ipv4_text(v4@).len() as int;
            &&& t.take(n) == ipv4_text(v4@)
            &&& t[n] == ':'
            &&& t.skip(n + 1) == decimal(port as nat)
        }),
        ({
            let t = address_text(SocketAddr::V6 { ip: v6, port, flowinfo, scope_id }.model());
            let n = 1 + ipv6_text(v6@).len() as int;
            let m = if scope_id == 0 {
                n
            } else {
                n + 1 + decimal(scope_id as nat).len()
            };
            &&& t[0] == '['
            &&& t.subrange(1, n) == ipv6_text(v6@)
            &&& scope_id != 0 ==> t[n] == '%' && t.subrange(n + 1, m) == decimal(scope_id as nat)
            &&& t[m] == ']' && t[m + 1] == ':'
            &&& t.skip(m + 2) == decimal(port as nat)
        }),
{
    let t = address_text(SocketAddr::V4 { ip: v4, port }.model());
    let n = ipv4_text(v4@).len() as int;
    assert(t.take(n) =~= ipv4_text(v4@));
    assert(t.skip(n + 1) =~= decimal(port as nat));
    let t = address_text(SocketAddr::V6 { ip: v6, port, flowinfo, scope_id }.model());
    let n = 1 + ipv6_text(v6@).len() as int;
    let m = if scope_id == 0 {
        n
    } else {
        n + 1 + decimal(scope_id as nat).len()
    };
    assert(t.subrange(1, n) =~= ipv6_text(v6@));
    if scope_id != 0 {
        assert(t.subrange(n + 1, m) =~= decimal(scope_id as nat));
    }
    assert(t.skip(m + 2) =~= decimal(port as nat));
}

} // verus!
