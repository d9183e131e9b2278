//! Network addresses, as text and as ranges.
//!
//! An address is held as the numbers it is made of. Its text is read and
//! written in the usual forms: dotted decimal for IPv4; for IPv6 hexadecimal
//! groups with the longest run of zeros left out.

use crate::number;
use crate::text;
use vstd::prelude::*;
use vstd::slice::slice_subrange;

verus! {

broadcast use vstd::string::group_string_axioms;

/// An IPv4 address, octet by octet.
#[derive(Debug, Clone, Copy, PartialEq, Eq, Structural)]
pub struct Ipv4Addr {
    pub a: u8,
    pub b: u8,
    pub c: u8,
    pub d: u8,
}

/// An IPv6 address, segment by segment.
#[derive(Debug, Clone, Copy, PartialEq, Eq, Structural)]
pub struct Ipv6Addr {
    pub a: u16,
    pub b: u16,
    pub c: u16,
    pub d: u16,
    pub e: u16,
    pub f: u16,
    pub g: u16,
    pub h: u16,
}

/// An address of either family.
#[derive(Debug, Clone, Copy, PartialEq, Eq, Structural)]
pub enum IpAddr {
    V4(Ipv4Addr),
    V6(Ipv6Addr),
}

impl View for Ipv6Addr {
    type V = Seq<u16>;

    open spec fn view(&self) -> Seq<u16> {
        seq![self.a, self.b, self.c, self.d, self.e, self.f, self.g, self.h]
    }
}

impl Ipv4Addr {
    /// The address with these octets.
    pub fn new(a: u8, b: u8, c: u8, d: u8) -> (r: Self)
        ensures
            r == (Ipv4Addr { a, b, c, d }),
    {
        Ipv4Addr { a, b, c, d }
    }

    /// The address as one number, first octet highest.
    pub open spec fn bits(self) -> nat {
        (self.a * 0x100_0000 + self.b * 0x1_0000 + self.c * 0x100 + self.d) as nat
    }

    /// The address as one number, first octet highest.
    pub fn to_bits(self) -> (r: u32)
        ensures
            r == self.bits(),
    {
        self.a as u32 * 0x100_0000 + self.b as u32 * 0x1_0000 + self.c as u32 * 0x100
            + self.d as u32
    }

    /// `169.254.0.0/16`.
    pub open spec fn link_local(self) -> bool {
        self.a == 169 && self.b == 254
    }

    /// `169.254.0.0/16`.
    pub fn is_link_local(self) -> (r: bool)
        ensures
            r == self.link_local(),
    {
        self.a == 169 && self.b == 254
    }

    /// An address that is never the public answer for a public name: one of
    /// the private ranges, link-local, loopback, or the unspecified address.
    pub open spec fn not_public(self) -> bool {
        ||| self.a == 10
        ||| self.a == 172 && 16 <= self.b <= 31
        ||| self.a == 192 && self.b == 168
        ||| self.link_local()
        ||| self.a == 127
        ||| self.a == 0 && self.b == 0 && self.c == 0 && self.d == 0
    }

    /// Whether this address is never a public answer.
    pub fn is_not_public(self) -> (r: bool)
        ensures
            r == self.not_public(),
    {
        self.a == 10 || (self.a == 172 && 16 <= self.b && self.b <= 31) || (self.a == 192 && self.b
            == 168) || self.is_link_local() || self.a == 127 || (self.a == 0 && self.b == 0
            && self.c == 0 && self.d == 0)
    }

    /// `100.64.0.0/10`, the block shared behind carrier-grade NAT.
    pub open spec fn shared_space(self) -> bool {
        self.a == 100 && 64 <= self.b <= 127
    }
}

impl Ipv6Addr {
    /// The address with these segments.
    pub fn new(a: u16, b: u16, c: u16, d: u16, e: u16, f: u16, g: u16, h: u16) -> (r: Self)
        ensures
            r == (Ipv6Addr { a, b, c, d, e, f, g, h }),
            r@ == seq![a, b, c, d, e, f, g, h],
    {
        Ipv6Addr { a, b, c, d, e, f, g, h }
    }

    /// The address whose segments are the eight given ones.
    pub open spec fn of(s: Seq<u16>) -> Ipv6Addr {
        Ipv6Addr {
            a: s[0],
            b: s[1],
            c: s[2],
            d: s[3],
            e: s[4],
            f: s[5],
            g: s[6],
            h: s[7],
        }
    }

    /// `fe80::/10`.
    pub open spec fn link_local(self) -> bool {
        0xfe80 <= self.a <= 0xfebf
    }

    /// The unique-local block `fc00::/7`, link-local, loopback, or the
    /// unspecified address.
    pub open spec fn not_public(self) -> bool {
        ||| 0xfc00 <= self.a <= 0xfdff
        ||| self.link_local()
        ||| self@ =~= seq![0u16, 0, 0, 0, 0, 0, 0, 1]
        ||| self@ =~= seq![0u16, 0, 0, 0, 0, 0, 0, 0]
    }

    /// Whether this address is never a public answer.
    pub fn is_not_public(self) -> (r: bool)
        ensures
            r == self.not_public(),
    {
        let zero = self.a == 0 && self.b == 0 && self.c == 0 && self.d == 0 && self.e == 0 && self.f
            == 0 && self.g == 0;
        proof {
            let z = seq![0u16, 0, 0, 0, 0, 0, 0, 0];
            let o = seq![0u16, 0, 0, 0, 0, 0, 0, 1];
            if zero && self.h == 0 {
                assert(self@ =~= z);
            }
            if zero && self.h == 1 {
                assert(self@ =~= o);
            }
            if self@ == z {
                assert(self@[0] == z[0] && self@[1] == z[1] && self@[2] == z[2] && self@[3] == z[3]
                    && self@[4] == z[4] && self@[5] == z[5] && self@[6] == z[6] && self@[7]
                    == z[7]);
            }
            if self@ == o {
                assert(self@[0] == o[0] && self@[1] == o[1] && self@[2] == o[2] && self@[3] == o[3]
                    && self@[4] == o[4] && self@[5] == o[5] && self@[6] == o[6] && self@[7]
                    == o[7]);
            }
        }
        (0xfc00 <= self.a && self.a <= 0xfdff) || (0xfe80 <= self.a && self.a <= 0xfebf) || (zero
            && self.h <= 1)
    }
}

impl IpAddr {
    /// Link-local in its own family.
    pub open spec fn link_local(self) -> bool {
        match self {
            IpAddr::V4(v) => v.link_local(),
            IpAddr::V6(v) => v.link_local(),
        }
    }

    /// An address that cannot be the answer for a public name.
    pub open spec fn not_public(self) -> bool {
        match self {
            IpAddr::V4(v) => v.not_public(),
            IpAddr::V6(v) => v.not_public(),
        }
    }

    /// In the IPv4 block shared behind carrier-grade NAT.
    pub open spec fn shared_space(self) -> bool {
        match self {
            IpAddr::V4(v) => v.shared_space(),
            IpAddr::V6(_) => false,
        }
    }

    /// Whether this is in the block shared behind carrier-grade NAT.
    pub fn is_shared_space(self) -> (r: bool)
        ensures
            r == self.shared_space(),
    {
        match self {
            IpAddr::V4(v) => v.a == 100 && 64 <= v.b && v.b <= 127,
            IpAddr::V6(_) => false,
        }
    }

    /// Whether this is an IPv6 address.
    pub fn is_ipv6(self) -> (r: bool)
        ensures
            r == (self is V6),
    {
        match self {
            IpAddr::V4(_) => false,
            IpAddr::V6(_) => true,
        }
    }
}

/// Whether `ip` is link-local in its own family.
pub fn is_link_local(ip: IpAddr) -> (r: bool)
    ensures
        r == ip.link_local(),
{
    match ip {
        IpAddr::V4(v) => v.is_link_local(),
        IpAddr::V6(v) => 0xfe80 <= v.a && v.a <= 0xfebf,
    }
}

// ---- writing ----

/// Dotted decimal.
pub open spec fn v4_text(v: Ipv4Addr) -> Seq<char> {
    number::decimal(v.a as nat) + seq!['.'] + number::decimal(v.b as nat) + seq!['.']
        + number::decimal(v.c as nat) + seq!['.'] + number::decimal(v.d as nat)
}

/// Hexadecimal groups with colons between them.
pub open spec fn groups_text(s: Seq<u16>) -> Seq<char>
    decreases s.len(),
{
    if s.len() == 0 {
        seq![]
    } else if s.len() == 1 {
        number::numeral(s[0] as nat, 16)
    } else {
        groups_text(s.drop_last()) + seq![':'] + number::numeral(s.last() as nat, 16)
    }
}

/// The `n` segments from `i` on are all zero.
pub open spec fn zero_run(s: Seq<u16>, i: int, n: int) -> bool {
    0 <= i && 0 <= n && i + n <= s.len() && forall|k: int| i <= k < i + n ==> s[k] == 0
}

/// The longest run of zero segments, and the first of that length.
pub open spec fn longest_run(s: Seq<u16>, i: int, n: int) -> bool {
    zero_run(s, i, n) && forall|j: int, m: int| #[trigger]
        zero_run(s, j, m) ==> m < n || (m == n && i <= j)
}

/// The address is an IPv4 address mapped into IPv6.
pub open spec fn v4_mapped(s: Seq<u16>) -> bool {
    s[0] == 0 && s[1] == 0 && s[2] == 0 && s[3] == 0 && s[4] == 0 && s[5] == 0xffff
}

/// The IPv4 address in the last two segments.
pub open spec fn v4_tail(s: Seq<u16>) -> Ipv4Addr {
    Ipv4Addr {
        a: (s[6] / 256) as u8,
        b: (s[6] % 256) as u8,
        c: (s[7] / 256) as u8,
        d: (s[7] % 256) as u8,
    }
}

/// The usual text of an IPv6 address: a mapped IPv4 address keeps its dotted
/// form; otherwise the longest run of two or more zero segments becomes `::`.
pub open spec fn v6_text(s: Seq<u16>) -> Seq<char> {
    if v4_mapped(s) {
        "::ffff:"@ + v4_text(v4_tail(s))
    } else if exists|i: int, n: int| longest_run(s, i, n) && n > 1 {
        let (i, n) = choose|i: int, n: int| longest_run(s, i, n) && n > 1;
        groups_text(s.take(i)) + "::"@ + groups_text(s.skip(i + n))
    } else {
        groups_text(s)
    }
}

/// The text of an address.
pub open spec fn ip_text(ip: IpAddr) -> Seq<char> {
    match ip {
        IpAddr::V4(v) => v4_text(v),
        IpAddr::V6(v) => v6_text(v@),
    }
}

/// Writes an IPv4 address.
pub fn v4_to_string(v: Ipv4Addr) -> (r: String)
    ensures
        r@ == v4_text(v),
{
    let mut s: String = String::new();
    number::push_numeral(&mut s, v.a as u128, 10);
    s.push('.');
    number::push_numeral(&mut s, v.b as u128, 10);
    s.push('.');
    number::push_numeral(&mut s, v.c as u128, 10);
    s.push('.');
    number::push_numeral(&mut s, v.d as u128, 10);
    assert(s@ =~= v4_text(v));
    s
}

fn push_groups(out: &mut String, s: &[u16])
    ensures
        final(out)@ == old(out)@ + groups_text(s@),
{
    let mut i: usize = 0;
    assert(s@.take(0) =~= seq![]);
    assert(out@ =~= old(out)@ + groups_text(s@.take(0)));
    while i < s.len()
        invariant
            i <= s@.len(),
            out@ == old(out)@ + groups_text(s@.take(i as int)),
        decreases s@.len() - i,
    {
        let ghost before = out@;
        if i > 0 {
            out.push(':');
        }
        number::push_numeral(out, s[i] as u128, 16);
        proof {
            let t = s@.take(i + 1);
            assert(t.drop_last() == s@.take(i as int));
            assert(t.last() == s@[i as int]);
            if i == 0 {
                assert(out@ =~= old(out)@ + groups_text(t));
            } else {
                assert(out@ =~= old(out)@ + groups_text(t));
            }
        }
        i += 1;
    }
    assert(s@.take(i as int) == s@);
}

/// The longest run of zeros: where it starts and how long it is.
fn find_longest_run(s: &[u16]) -> (r: (usize, usize))
    ensures
        longest_run(s@, r.0 as int, r.1 as int),
{
    let mut best: usize = 0;
    let mut best_len: usize = 0;
    let mut start: usize = 0;
    let mut len: usize = 0;
    let mut k: usize = 0;
    while k < s.len()
        invariant
            k <= s@.len(),
            start + len == k,
            best + best_len <= k,
            zero_run(s@, start as int, len as int),
            zero_run(s@, best as int, best_len as int),
            start > 0 ==> s@[start - 1] != 0,
            forall|j: int, m: int| #[trigger]
                zero_run(s@, j, m) && j + m <= k ==> m < best_len || (m == best_len && best <= j),
        decreases s@.len() - k,
    {
        if s[k] == 0 {
            len += 1;
            if len > best_len {
                best = start;
                best_len = len;
            }
            assert forall|j: int, m: int| #[trigger]
                zero_run(s@, j, m) && j + m <= k + 1 implies m < best_len || (m == best_len && best
                <= j) by {
                if j + m == k + 1 && m > 0 {
                    if j < start {
                        assert(s@[start - 1] == 0);
                    }
                    assert(zero_run(s@, start as int, (k - start) as int));
                } else if m == 0 {
                    assert(zero_run(s@, 0, 0));
                }
            }
        } else {
            start = k + 1;
            len = 0;
            assert forall|j: int, m: int| #[trigger]
                zero_run(s@, j, m) && j + m <= k + 1 implies m < best_len || (m == best_len && best
                <= j) by {
                if j + m == k + 1 {
                    if m > 0 {
                        assert(s@[k as int] == 0);
                    } else {
                        assert(zero_run(s@, 0, 0));
                    }
                }
            }
        }
        k += 1;
    }
    (best, best_len)
}

proof fn lemma_longest_unique(s: Seq<u16>, i: int, n: int, j: int, m: int)
    requires
        longest_run(s, i, n),
        longest_run(s, j, m),
    ensures
        i == j,
        n == m,
{
    assert(zero_run(s, i, n));
    assert(zero_run(s, j, m));
}

/// Writes an IPv6 address.
pub fn v6_to_string(v: Ipv6Addr) -> (r: String)
    ensures
        r@ == v6_text(v@),
{
    let mut out: String = String::new();
    if v.a == 0 && v.b == 0 && v.c == 0 && v.d == 0 && v.e == 0 && v.f == 0xffff {
        let tail = Ipv4Addr::new(
            (v.g / 256) as u8,
            (v.g % 256) as u8,
            (v.h / 256) as u8,
            (v.h % 256) as u8,
        );
        out.append("::ffff:");
        out.append(v4_to_string(tail).as_str());
        assert(out@ =~= v6_text(v@));
        return out;
    }
    let segs: [u16; 8] = [v.a, v.b, v.c, v.d, v.e, v.f, v.g, v.h];
    let s: &[u16] = &segs;
    assert(s@ =~= v@);
    let (i, n) = find_longest_run(s);
    if n > 1 {
        push_groups(&mut out, slice_subrange(s, 0, i));
        out.append("::");
        push_groups(&mut out, slice_subrange(s, i + n, s.len()));
        proof {
            assert(longest_run(v@, i as int, n as int) && n > 1);
            let (j, m) = choose|j: int, m: int| longest_run(v@, j, m) && m > 1;
            lemma_longest_unique(v@, i as int, n as int, j, m);
            assert(s@.subrange(0, i as int) == v@.take(i as int));
            assert(s@.subrange(i + n, 8) == v@.skip(i + n));
            assert(out@ =~= v6_text(v@));
        }
    } else {
        push_groups(&mut out, s);
        proof {
            assert forall|j: int, m: int| longest_run(v@, j, m) implies m <= 1 by {
                lemma_longest_unique(v@, i as int, n as int, j, m);
            }
            assert(out@ =~= v6_text(v@));
        }
    }
    out
}

/// Writes an address.
pub fn ip_to_string(ip: IpAddr) -> (r: String)
    ensures
        r@ == ip_text(ip),
{
    match ip {
        IpAddr::V4(v) => v4_to_string(v),
        IpAddr::V6(v) => v6_to_string(v),
    }
}


// ---- reading ----

/// An octet: one to three digits without a leading zero, at most 255.
pub open spec fn octet_value(p: Seq<char>) -> Option<nat> {
    if 1 <= p.len() <= 3 && (p.len() == 1 || p[0] != '0') {
        number::bounded_digits(p, 10, 255)
    } else {
        None
    }
}

/// Four octets with dots between them.
pub open spec fn v4_value(s: Seq<char>) -> Option<Ipv4Addr> {
    let ps = text::pieces(s, '.');
    if ps.len() == 4 {
        match (octet_value(ps[0]), octet_value(ps[1]), octet_value(ps[2]), octet_value(ps[3])) {
            (Some(a), Some(b), Some(c), Some(d)) => Some(
                Ipv4Addr { a: a as u8, b: b as u8, c: c as u8, d: d as u8 },
            ),
            _ => None,
        }
    } else {
        None
    }
}

/// A group: one to four hexadecimal digits.
pub open spec fn group_value(p: Seq<char>) -> Option<nat> {
    if 1 <= p.len() <= 4 {
        number::bounded_digits(p, 16, 0xffff)
    } else {
        None
    }
}

/// The segments that a list of groups stands for. With `dotted`, the last
/// group may be an IPv4 address and then stands for two segments.
pub open spec fn groups_value(ps: Seq<Seq<char>>, dotted: bool) -> Option<Seq<u16>>
    decreases ps.len(),
{
    if ps.len() == 0 {
        Some(seq![])
    } else {
        match (groups_value(ps.drop_last(), false), group_value(ps.last()), v4_value(ps.last())) {
            (Some(head), _, Some(v)) if dotted => Some(
                head + seq![(v.a * 256 + v.b) as u16, (v.c * 256 + v.d) as u16],
            ),
            (Some(head), Some(g), _) => Some(head.push(g as u16)),
            _ => None,
        }
    }
}

/// The segments of one side of an address, which may be empty.
pub open spec fn side_value(s: Seq<char>, dotted: bool) -> Option<Seq<u16>> {
    if s.len() == 0 {
        Some(seq![])
    } else {
        groups_value(text::pieces(s, ':'), dotted)
    }
}

/// Eight segments, or two sides around one `::` that stands for at least one
/// zero segment.
pub open spec fn v6_value(s: Seq<char>) -> Option<Ipv6Addr> {
    match text::split_at_first(s, "::"@) {
        Some((h, t)) => match (side_value(h, false), side_value(t, true)) {
            (Some(a), Some(b)) if a.len() + b.len() <= 7 => Some(
                Ipv6Addr::of(a + Seq::new((8 - a.len() - b.len()) as nat, |i: int| 0u16) + b),
            ),
            _ => None,
        },
        None => match side_value(s, true) {
            Some(a) if a.len() == 8 => Some(Ipv6Addr::of(a)),
            _ => None,
        },
    }
}

/// The address that a text spells.
pub open spec fn ip_value(s: Seq<char>) -> Option<IpAddr> {
    match v4_value(s) {
        Some(v) => Some(IpAddr::V4(v)),
        None => match v6_value(s) {
            Some(v) => Some(IpAddr::V6(v)),
            None => None,
        },
    }
}

fn read_octet(p: &[char]) -> (r: Option<u8>)
    ensures
        match r {
            Some(n) => octet_value(p@) == Some(n as nat),
            None => octet_value(p@) is None,
        },
{
    if p.len() < 1 || p.len() > 3 || (p.len() > 1 && p[0] == '0') {
        return None;
    }
    match number::read_digits(p, 10, 255) {
        Some(n) => Some(n as u8),
        None => None,
    }
}

/// Reads an IPv4 address.
pub fn parse_v4(s: &[char]) -> (r: Option<Ipv4Addr>)
    ensures
        r == v4_value(s@),
{
    let ps = text::split(s, '.');
    assert(ps@.len() == text::views(ps@).len());
    if ps.len() != 4 {
        return None;
    }
    assert forall|i: int| 0 <= i < 4 implies #[trigger] text::views(ps@)[i] == ps@[i]@ by {}
    assert(text::views(ps@)[0] == ps@[0]@);
    assert(text::views(ps@)[1] == ps@[1]@);
    assert(text::views(ps@)[2] == ps@[2]@);
    assert(text::views(ps@)[3] == ps@[3]@);
    match (read_octet(ps[0]), read_octet(ps[1]), read_octet(ps[2]), read_octet(ps[3])) {
        (Some(a), Some(b), Some(c), Some(d)) => Some(Ipv4Addr { a, b, c, d }),
        _ => None,
    }
}

/// An optional list of segments as an optional sequence.
pub open spec fn segs_view(o: Option<Vec<u16>>) -> Option<Seq<u16>> {
    match o {
        Some(v) => Some(v@),
        None => None,
    }
}

proof fn lemma_groups_prefix(ps: Seq<Seq<char>>, n: int, dotted: bool)
    requires
        0 <= n < ps.len(),
        groups_value(ps, dotted) is Some,
    ensures
        groups_value(ps.take(n), false) is Some,
    decreases ps.len(),
{
    assert(groups_value(ps.drop_last(), false) is Some);
    if n == ps.len() - 1 {
        assert(ps.take(n) == ps.drop_last());
    } else {
        lemma_groups_prefix(ps.drop_last(), n, false);
        assert(ps.drop_last().take(n) == ps.take(n));
    }
}

fn read_side(s: &[char], dotted: bool) -> (r: Option<Vec<u16>>)
    ensures
        segs_view(r) == side_value(s@, dotted),
{
    let mut out: Vec<u16> = Vec::new();
    if s.len() == 0 {
        return Some(out);
    }
    let ps = text::split(s, ':');
    let ghost gs = text::views(ps@);
    let n: usize = ps.len();
    proof {
        assert(gs.len() == n);
        assert(gs.take(0) =~= seq![]);
    }
    let mut i: usize = 0;
    while i < n
        invariant
            i <= n,
            n == ps@.len(),
            n == gs.len(),
            gs == text::views(ps@),
            gs == text::pieces(s@, ':'),
            s@.len() > 0,
            i < n ==> groups_value(gs.take(i as int), false) == Some(out@),
            i == n ==> groups_value(gs, dotted) == Some(out@) || n == 0,
            n == 0 ==> groups_value(gs, dotted) == Some(out@),
        decreases n - i,
    {
        let p = ps[i];
        proof {
            assert(gs[i as int] == p@);
            assert(gs.take(i + 1).drop_last() == gs.take(i as int));
            assert(gs.take(i + 1).last() == p@);
            if i + 1 == n {
                assert(gs.take(i + 1) == gs);
            }
        }
        let last = i + 1 == n;
        let ghost before = out@;
        let v4 = if dotted && last {
            parse_v4(p)
        } else {
            None
        };
        match v4 {
            Some(v) => {
                out.push(v.a as u16 * 256 + v.b as u16);
                out.push(v.c as u16 * 256 + v.d as u16);
                assert(out@ =~= before + seq![(v.a * 256 + v.b) as u16, (v.c * 256 + v.d) as u16]);
            },
            None => {
                let g = if p.len() < 1 || p.len() > 4 {
                    None
                } else {
                    number::read_digits(p, 16, 0xffff)
                };
                match g {
                    Some(x) => {
                        out.push(x as u16);
                    },
                    None => {
                        proof {
                            if groups_value(gs, dotted) is Some && i + 1 < n {
                                lemma_groups_prefix(gs, i + 1, dotted);
                            }
                        }
                        return None;
                    },
                }
            },
        }
        i += 1;
    }
    Some(out)
}

/// Reads an IPv6 address.
pub fn parse_v6(s: &[char]) -> (r: Option<Ipv6Addr>)
    ensures
        r == v6_value(s@),
{
    let segs = match text::split_once(s, "::") {
        Some((h, t)) => {
            let mut a = match read_side(h, false) {
                Some(a) => a,
                None => {
                    return None;
                },
            };
            let b = match read_side(t, true) {
                Some(b) => b,
                None => {
                    return None;
                },
            };
            if a.len() > 7 || b.len() > 7 - a.len() {
                return None;
            }
            let ghost head = a@;
            let zeros: usize = 8 - a.len() - b.len();
            let mut k: usize = 0;
            while k < zeros
                invariant
                    k <= zeros,
                    a@ == head + Seq::new(k as nat, |i: int| 0u16),
                decreases zeros - k,
            {
                a.push(0);
                k += 1;
                assert(a@ =~= head + Seq::new(k as nat, |i: int| 0u16));
            }
            let mut k: usize = 0;
            let ghost mid = a@;
            while k < b.len()
                invariant
                    k <= b@.len(),
                    a@ == mid + b@.take(k as int),
                decreases b@.len() - k,
            {
                a.push(b[k]);
                k += 1;
                assert(a@ =~= mid + b@.take(k as int));
            }
            assert(b@.take(k as int) == b@);
            a
        },
        None => match read_side(s, true) {
            Some(a) => {
                if a.len() != 8 {
                    return None;
                }
                a
            },
            None => {
                return None;
            },
        },
    };
    assert(segs@.len() == 8);
    Some(
        Ipv6Addr {
            a: segs[0],
            b: segs[1],
            c: segs[2],
            d: segs[3],
            e: segs[4],
            f: segs[5],
            g: segs[6],
            h: segs[7],
        },
    )
}

/// Reads an address of either family.
pub fn parse_ip(s: &[char]) -> (r: Option<IpAddr>)
    ensures
        r == ip_value(s@),
{
    match parse_v4(s) {
        Some(v) => Some(IpAddr::V4(v)),
        None => match parse_v6(s) {
            Some(v) => Some(IpAddr::V6(v)),
            None => None,
        },
    }
}

/// Reads an address out of a string.
pub fn ip_from_str(s: &str) -> (r: Option<IpAddr>)
    ensures
        r == ip_value(s@),
{
    let cs = text::chars_of(s);
    parse_ip(cs.as_slice())
}

// ---- laws ----

/// An octet reads back from its numeral.
proof fn lemma_octet(n: u8)
    ensures
        octet_value(number::decimal(n as nat)) == Some(n as nat),
        text::pieces(number::decimal(n as nat), '.') == seq![number::decimal(n as nat)],
        number::decimal(n as nat).len() <= 3,
        forall|i: int|
            0 <= i < number::decimal(n as nat).len() ==> number::decimal(n as nat)[i] != ':',
{
    let s = number::decimal(n as nat);
    number::a_numeral_reads_back(n as nat, 10);
    assert(vstd::arithmetic::power::pow(10, 3) == 1000) by {
        reveal_with_fuel(vstd::arithmetic::power::pow, 4);
    }
    number::lemma_numeral_len(n as nat, 10, 3);
    text::lemma_one_piece(s, '.');
}

/// The pieces of dotted decimal.
proof fn lemma_v4_pieces(v: Ipv4Addr)
    ensures
        text::pieces(v4_text(v), '.') == seq![
            number::decimal(v.a as nat),
            number::decimal(v.b as nat),
            number::decimal(v.c as nat),
            number::decimal(v.d as nat),
        ],
{
    let a = number::decimal(v.a as nat);
    let b = number::decimal(v.b as nat);
    let c = number::decimal(v.c as nat);
    let d = number::decimal(v.d as nat);
    lemma_octet(v.a);
    lemma_octet(v.b);
    lemma_octet(v.c);
    lemma_octet(v.d);
    text::lemma_pieces_of_both(a, '.', b);
    text::lemma_pieces_of_both(a + seq!['.'] + b, '.', c);
    text::lemma_pieces_of_both(a + seq!['.'] + b + seq!['.'] + c, '.', d);
    assert(text::pieces(v4_text(v), '.') =~= seq![a, b, c, d]);
}

/// An IPv4 address reads back from its text.
pub proof fn an_ipv4_address_reads_back(v: Ipv4Addr)
    ensures
        v4_value(v4_text(v)) == Some(v),
{
    lemma_v4_pieces(v);
    lemma_octet(v.a);
    lemma_octet(v.b);
    lemma_octet(v.c);
    lemma_octet(v.d);
}

/// A group reads back from its numeral, and is no dotted address.
proof fn lemma_group(n: u16)
    ensures
        group_value(number::numeral(n as nat, 16)) == Some(n as nat),
        v4_value(number::numeral(n as nat, 16)) is None,
        text::pieces(number::numeral(n as nat, 16), ':') == seq![number::numeral(n as nat, 16)],
{
    let s = number::numeral(n as nat, 16);
    number::a_numeral_reads_back(n as nat, 16);
    assert(vstd::arithmetic::power::pow(16, 4) == 0x1_0000) by {
        reveal_with_fuel(vstd::arithmetic::power::pow, 5);
    }
    number::lemma_numeral_len(n as nat, 16, 4);
    text::lemma_one_piece(s, ':');
    text::lemma_one_piece(s, '.');
}

/// The text has no colon at its end and no two in a row.
#[verifier::opaque]
spec fn colons_apart(s: Seq<char>) -> bool {
    &&& s.len() > 0 ==> s.last() != ':'
    &&& forall|i: int, j: int| 0 <= i < j < s.len() && j == i + 1 && s[i] == ':' ==> s[j] != ':'
}

/// The text holds no point.
#[verifier::opaque]
spec fn pointless(s: Seq<char>) -> bool {
    forall|i: int| 0 <= i < s.len() ==> s[i] != '.'
}

/// Groups read back from their text, which keeps its colons apart and holds no
/// point.
proof fn lemma_groups(s: Seq<u16>, dotted: bool)
    ensures
        side_value(groups_text(s), dotted) == Some(s),
        colons_apart(groups_text(s)),
        pointless(groups_text(s)),
        s.len() > 0 ==> groups_text(s).len() > 0,
    decreases s.len(),
{
    reveal(colons_apart);
    reveal(pointless);
    let text = groups_text(s);
    if s.len() == 0 {
        assert(s =~= Seq::<u16>::empty());
    } else {
        let last = number::numeral(s.last() as nat, 16);
        number::a_numeral_reads_back(s.last() as nat, 16);
        lemma_group(s.last());
        if s.len() == 1 {
            let ps = seq![last];
            assert(text == last);
            assert(ps.drop_last() =~= Seq::<Seq<char>>::empty());
            assert(groups_value(ps.drop_last(), false) == Some(Seq::<u16>::empty()));
            assert(Seq::<u16>::empty().push(s.last()) =~= s);
        } else {
            let head = s.drop_last();
            lemma_groups(head, false);
            text::lemma_pieces_of_both(groups_text(head), ':', last);
            let ps = text::pieces(text, ':');
            assert(ps =~= text::pieces(groups_text(head), ':').push(last));
            assert(ps.drop_last() =~= text::pieces(groups_text(head), ':'));
            assert(head.push(s.last()) =~= s);
        }
    }
}

/// What keeps its colons apart is what precedes the first two colons behind it.
proof fn lemma_sides(head: Seq<char>, tail: Seq<char>)
    requires
        colons_apart(head),
    ensures
        text::split_at_first(head + "::"@ + tail, "::"@) == Some((head, tail)),
{
    reveal(colons_apart);
    reveal_strlit("::");
    let text = head + "::"@ + tail;
    let at = head.len() as int;
    assert(text.subrange(at, at + 2) =~= "::"@);
    assert forall|j: int| 0 <= j < at implies !text::occurs_at(text, j, "::"@) by {
        if text::occurs_at(text, j, "::"@) {
            assert(text.subrange(j, j + 2)[0] == ':');
            assert(text.subrange(j, j + 2)[1] == ':');
            assert(text[j] == head[j]);
            if j + 1 < at {
                assert(head[j + 1] == text[j + 1]);
            } else {
                assert(head.last() == ':');
            }
        }
    }
    text::lemma_first_unique(text, at, "::"@);
    assert(text.take(at) =~= head);
    assert(text.skip(at + 2) =~= tail);
}

/// A text without points is no dotted address.
proof fn lemma_pointless(head: Seq<char>, tail: Seq<char>)
    requires
        pointless(head),
        pointless(tail),
    ensures
        v4_value(head + "::"@ + tail) is None,
        v4_value(head) is None,
{
    reveal(pointless);
    reveal_strlit("::");
    text::lemma_one_piece(head + "::"@ + tail, '.');
    text::lemma_one_piece(head, '.');
}

/// Segments around a run of zeros read back from the text that leaves it out.
proof fn lemma_shortened(s: Seq<u16>, i: int, n: int)
    requires
        s.len() == 8,
        zero_run(s, i, n),
        n > 1,
    ensures
        v6_value(groups_text(s.take(i)) + "::"@ + groups_text(s.skip(i + n))) == Some(
            Ipv6Addr::of(s),
        ),
        v4_value(groups_text(s.take(i)) + "::"@ + groups_text(s.skip(i + n))) is None,
{
    let a = s.take(i);
    let b = s.skip(i + n);
    lemma_groups(a, false);
    lemma_groups(b, true);
    lemma_sides(groups_text(a), groups_text(b));
    lemma_pointless(groups_text(a), groups_text(b));
    assert(a + Seq::new((8 - a.len() - b.len()) as nat, |k: int| 0u16) + b =~= s);
}

/// Eight groups read back from their text.
proof fn lemma_in_full(s: Seq<u16>)
    requires
        s.len() == 8,
    ensures
        v6_value(groups_text(s)) == Some(Ipv6Addr::of(s)),
        v4_value(groups_text(s)) is None,
{
    let text = groups_text(s);
    lemma_groups(s, true);
    lemma_pointless(text, text);
    assert forall|j: int| !text::occurs_at(text, j, "::"@) by {
        reveal(colons_apart);
        reveal_strlit("::");
        if text::occurs_at(text, j, "::"@) {
            assert(text.subrange(j, j + 2)[0] == ':');
            assert(text.subrange(j, j + 2)[1] == ':');
            assert(text[j + 1] == ':');
        }
    }
}

/// A mapped IPv4 address is no dotted one: its first piece between points is
/// too long for an octet.
proof fn lemma_mapped_is_not_dotted(v: Ipv4Addr)
    ensures
        v4_value("::ffff:"@ + v4_text(v)) is None,
{
    reveal_strlit("::ffff:");
    let first = "::ffff:"@ + number::decimal(v.a as nat);
    let rest = number::decimal(v.b as nat) + seq!['.'] + number::decimal(v.c as nat) + seq!['.']
        + number::decimal(v.d as nat);
    assert("::ffff:"@ + v4_text(v) =~= first + seq!['.'] + rest);
    number::a_numeral_reads_back(v.a as nat, 10);
    text::lemma_one_piece(first, '.');
    text::lemma_pieces_of_both(first, '.', rest);
    assert(text::pieces(first + seq!['.'] + rest, '.')[0] == first);
}

/// One more hexadecimal `f`.
proof fn lemma_another_f(s: Seq<char>, v: nat)
    requires
        number::digits_value(s, 16) == Some(v),
    ensures
        number::digits_value(s.push('f'), 16) == Some(v * 16 + 15),
{
    assert(s.push('f').drop_last() =~= s);
}

/// The group in front of a mapped IPv4 address.
proof fn lemma_mapped_group(group: Seq<char>)
    requires
        group == seq!['f', 'f', 'f', 'f'],
    ensures
        groups_value(seq![group], false) == Some(seq![0xffffu16]),
{
    let none = Seq::<char>::empty();
    assert(number::digits_value(none, 16) == Some(0nat));
    lemma_another_f(none, 0);
    lemma_another_f(none.push('f'), 15);
    lemma_another_f(none.push('f').push('f'), 255);
    lemma_another_f(none.push('f').push('f').push('f'), 4095);
    assert(group =~= none.push('f').push('f').push('f').push('f'));
    assert(group_value(group) == Some(0xffffnat));
    let one = seq![group];
    assert(one.drop_last() =~= Seq::<Seq<char>>::empty());
    assert(groups_value(one.drop_last(), false) == Some(Seq::<u16>::empty()));
    assert(Seq::<u16>::empty().push(0xffffu16) =~= seq![0xffffu16]);
}

/// The text of an IPv4 address holds no colon.
proof fn lemma_dotted_has_no_colon(v: Ipv4Addr)
    ensures
        forall|i: int| 0 <= i < v4_text(v).len() ==> v4_text(v)[i] != ':',
{
    lemma_octet(v.a);
    lemma_octet(v.b);
    lemma_octet(v.c);
    lemma_octet(v.d);
}

/// What follows the two colons of a mapped IPv4 address.
spec fn mapped_tail(v: Ipv4Addr) -> Seq<char> {
    seq!['f', 'f', 'f', 'f'] + seq![':'] + v4_text(v)
}

proof fn lemma_mapped_tail(v: Ipv4Addr)
    ensures
        side_value(mapped_tail(v), true) == Some(
            seq![0xffffu16] + seq![(v.a * 256 + v.b) as u16, (v.c * 256 + v.d) as u16],
        ),
{
    let dotted = v4_text(v);
    let group = seq!['f', 'f', 'f', 'f'];
    lemma_dotted_has_no_colon(v);
    text::lemma_one_piece(group, ':');
    text::lemma_one_piece(dotted, ':');
    text::lemma_pieces_of_both(group, ':', dotted);
    let ps = text::pieces(mapped_tail(v), ':');
    assert(ps =~= seq![group, dotted]);
    assert(ps.drop_last() =~= seq![group]);
    lemma_mapped_group(group);
    an_ipv4_address_reads_back(v);
}

/// A mapped IPv4 address reads back from the text that keeps its dotted form.
proof fn lemma_mapped(s: Seq<u16>)
    requires
        s.len() == 8,
        v4_mapped(s),
    ensures
        v6_value("::ffff:"@ + v4_text(v4_tail(s))) == Some(Ipv6Addr::of(s)),
{
    let v = v4_tail(s);
    let tail = mapped_tail(v);
    let none = Seq::<char>::empty();
    assert("::ffff:"@ + v4_text(v) =~= none + "::"@ + tail) by {
        reveal_strlit("::");
        reveal_strlit("::ffff:");
    }
    assert(colons_apart(none)) by {
        reveal(colons_apart);
    }
    lemma_sides(none, tail);
    lemma_mapped_tail(v);
    let b = seq![0xffffu16] + seq![(v.a * 256 + v.b) as u16, (v.c * 256 + v.d) as u16];
    assert(side_value(none, false) == Some(Seq::<u16>::empty()));
    assert(Seq::<u16>::empty() + Seq::new(5, |k: int| 0u16) + b =~= s);
}

/// An IPv6 address reads back from its text, which is no IPv4 address.
pub proof fn an_ipv6_address_reads_back(v: Ipv6Addr)
    ensures
        v6_value(v6_text(v@)) == Some(v),
        v4_value(v6_text(v@)) is None,
{
    assert(Ipv6Addr::of(v@) == v);
    if v4_mapped(v@) {
        lemma_mapped(v@);
        lemma_mapped_is_not_dotted(v4_tail(v@));
    } else if exists|i: int, n: int| longest_run(v@, i, n) && n > 1 {
        let (i, n) = choose|i: int, n: int| longest_run(v@, i, n) && n > 1;
        lemma_shortened(v@, i, n);
    } else {
        lemma_in_full(v@);
    }
}

/// An address reads back from its text.
pub proof fn an_address_reads_back(ip: IpAddr)
    ensures
        ip_value(ip_text(ip)) == Some(ip),
{
    match ip {
        IpAddr::V4(v) => an_ipv4_address_reads_back(v),
        IpAddr::V6(v) => an_ipv6_address_reads_back(v),
    }
}

/// A single star spells no address.
pub proof fn a_star_is_no_address()
    ensures
        ip_value("*"@) is None,
{
    reveal_strlit("*");
    reveal_strlit("::");
    let s = "*"@;
    text::lemma_one_piece(s, '.');
    text::lemma_one_piece(s, ':');
    assert forall|j: int| !text::occurs_at(s, j, "::"@) by {}
    let one = seq![s];
    assert(number::digits_value(s, 16) is None) by {
        assert(s.last() == '*');
    }
    assert(group_value(s) is None);
    assert(one.last() == s);
    assert(groups_value(one, true) is None);
}

/// The addresses that no public name has are whole blocks: `10.0.0.0/8`,
/// `172.16.0.0/12`, `192.168.0.0/16`, `169.254.0.0/16`, `127.0.0.0/8`, and the
/// address of no one.
pub proof fn private_ipv4_addresses_are_whole_blocks(v: Ipv4Addr)
    ensures
        v.not_public() <==> (0x0a00_0000 <= v.bits() <= 0x0aff_ffff || 0xac10_0000 <= v.bits()
            <= 0xac1f_ffff || 0xc0a8_0000 <= v.bits() <= 0xc0a8_ffff || 0xa9fe_0000 <= v.bits()
            <= 0xa9fe_ffff || 0x7f00_0000 <= v.bits() <= 0x7fff_ffff || v.bits() == 0),
        v.link_local() <==> 0xa9fe_0000 <= v.bits() <= 0xa9fe_ffff,
        v.shared_space() <==> 0x6440_0000 <= v.bits() <= 0x647f_ffff,
{
}

/// The IPv6 addresses that no public name has begin with seven bits of
/// `fc00`, with ten bits of `fe80`, or are the loopback or the address of no
/// one.
pub proof fn private_ipv6_addresses_are_whole_blocks(v: Ipv6Addr)
    ensures
        v.not_public() <==> v.a / 512 == 126 || v.a / 64 == 1018 || (v.a == 0 && v.b == 0 && v.c
            == 0 && v.d == 0 && v.e == 0 && v.f == 0 && v.g == 0 && v.h <= 1),
        v.link_local() <==> v.a / 64 == 1018,
{
    let z = seq![0u16, 0, 0, 0, 0, 0, 0, 0];
    let o = seq![0u16, 0, 0, 0, 0, 0, 0, 1];
    let s = v@;
    if s == z {
        assert(s[0] == z[0] && s[1] == z[1] && s[2] == z[2] && s[3] == z[3] && s[4] == z[4] && s[5]
            == z[5] && s[6] == z[6] && s[7] == z[7]);
    }
    if s == o {
        assert(s[0] == o[0] && s[1] == o[1] && s[2] == o[2] && s[3] == o[3] && s[4] == o[4] && s[5]
            == o[5] && s[6] == o[6] && s[7] == o[7]);
    }
    if v.a == 0 && v.b == 0 && v.c == 0 && v.d == 0 && v.e == 0 && v.f == 0 && v.g == 0 {
        if v.h == 0 {
            assert(s =~= z);
        } else if v.h == 1 {
            assert(s =~= o);
        }
    }
}

/// An octet is read in its usual form alone: no leading zero, at most 255, three
/// digits.
pub proof fn an_octet_is_read_in_one_form(p: Seq<char>)
    ensures
        octet_value(p) matches Some(n) ==> n <= 255 && 1 <= p.len() <= 3 && (p.len() > 1 ==> p[0]
            != '0') && number::digits_value(p, 10) == Some(n),
        octet_value(p) is Some <==> 1 <= p.len() <= 3 && (p.len() > 1 ==> p[0] != '0') && (
        number::digits_value(p, 10) matches Some(n) && n <= 255),
{
}

/// A character that the text of an address may hold.
pub open spec fn in_address(c: char) -> bool {
    number::is_digit(c) || c == '.' || c == ':'
}

proof fn lemma_groups_characters(s: Seq<u16>)
    ensures
        forall|i: int| 0 <= i < groups_text(s).len() ==> in_address(#[trigger] groups_text(s)[i]),
    decreases s.len(),
{
    if s.len() > 0 {
        number::a_numeral_reads_back(s.last() as nat, 16);
        let last = number::numeral(s.last() as nat, 16);
        if s.len() > 1 {
            let head = groups_text(s.drop_last());
            lemma_groups_characters(s.drop_last());
            let all = head + seq![':'] + last;
            assert forall|i: int| 0 <= i < all.len() implies in_address(#[trigger] all[i]) by {
                if i < head.len() {
                    assert(all[i] == head[i]);
                } else if i > head.len() {
                    assert(all[i] == last[i - head.len() - 1]);
                }
            }
            assert(groups_text(s) == all);
        } else {
            assert(groups_text(s) == last);
        }
    }
}

/// The text of an address holds digits, points and colons alone, and is never
/// empty.
pub proof fn an_address_is_spelt_in_digits_points_and_colons(ip: IpAddr)
    ensures
        ip_text(ip).len() > 0,
        forall|i: int| 0 <= i < ip_text(ip).len() ==> in_address(#[trigger] ip_text(ip)[i]),
{
    match ip {
        IpAddr::V4(v) => {
            lemma_v4_characters(v);
        },
        IpAddr::V6(v) => {
            let s = v@;
            if v4_mapped(s) {
                reveal_strlit("::ffff:");
                lemma_v4_characters(v4_tail(s));
            } else if exists|i: int, n: int| longest_run(s, i, n) && n > 1 {
                let (i, n) = choose|i: int, n: int| longest_run(s, i, n) && n > 1;
                reveal_strlit("::");
                lemma_groups_characters(s.take(i));
                lemma_groups_characters(s.skip(i + n));
            } else {
                lemma_groups_characters(s);
                lemma_groups(s, false);
            }
        },
    }
}

proof fn lemma_v4_characters(v: Ipv4Addr)
    ensures
        v4_text(v).len() > 0,
        forall|i: int| 0 <= i < v4_text(v).len() ==> in_address(#[trigger] v4_text(v)[i]),
{
    number::a_numeral_reads_back(v.a as nat, 10);
    number::a_numeral_reads_back(v.b as nat, 10);
    number::a_numeral_reads_back(v.c as nat, 10);
    number::a_numeral_reads_back(v.d as nat, 10);
}

} // verus!
