//! IP address literals: their textual notation and the address ranges that
//! never leave a machine or its local network.
use vstd::prelude::*;

use crate::text;
use crate::text::split_ranges;

verus! {

/// An IP address: four octets or eight 16-bit segments.
#[derive(Clone, Copy, Debug)]
pub enum IpAddress {
    /// An IPv4 address.
    V4([u8; 4]),
    /// An IPv6 address.
    V6([u16; 8]),
}

/// The mathematical value of an [`IpAddress`].
#[verifier::ext_equal]
pub ghost enum IpValue {
    /// Four octets.
    V4(Seq<u8>),
    /// Eight segments.
    V6(Seq<u16>),
}

impl View for IpAddress {
    type V = IpValue;

    open spec fn view(&self) -> IpValue {
        match *self {
            IpAddress::V4(octets) => IpValue::V4(octets@),
            IpAddress::V6(segments) => IpValue::V6(segments@),
        }
    }
}

/// A decimal octet: one to three digits, no leading zero, at most 255.
pub open spec fn octet(s: Seq<char>) -> Option<u8> {
    if 1 <= s.len() <= 3 && text::all_digits(s, 10) && (s.len() > 1 ==> s[0] != '0') && text::number(s, 10)
        <= 255 {
        Some(text::number(s, 10) as u8)
    } else {
        None
    }
}

/// Dotted-decimal notation: four octets between dots.
pub open spec fn ipv4(s: Seq<char>) -> Option<Seq<u8>> {
    let p = text::split(s, '.');
    if p.len() == 4 && octet(p[0]) is Some && octet(p[1]) is Some && octet(p[2]) is Some && octet(
        p[3],
    ) is Some {
        Some(seq![octet(p[0])->0, octet(p[1])->0, octet(p[2])->0, octet(p[3])->0])
    } else {
        None
    }
}

/// One group of an IPv6 address: one to four hexadecimal digits.
pub open spec fn group(s: Seq<char>) -> Option<u16> {
    if 1 <= s.len() <= 4 && text::all_digits(s, 16) {
        Some(text::number(s, 16) as u16)
    } else {
        None
    }
}

/// The two segments that four octets fill.
pub open spec fn octet_segments(o: Seq<u8>) -> Seq<u16> {
    seq![(o[0] * 256 + o[1]) as u16, (o[2] * 256 + o[3]) as u16]
}

/// The segments that colon-separated groups denote; none for an empty text.
/// Where `v4_tail` holds, the last piece may be a dotted-decimal address, which
/// fills two segments.
pub open spec fn groups(s: Seq<char>, v4_tail: bool) -> Option<Seq<u16>> {
    let p = text::split(s, ':');
    if s.len() == 0 {
        Some(Seq::empty())
    } else if forall|k: int| 0 <= k < p.len() - 1 ==> group(#[trigger] p[k]) is Some {
        let init = Seq::new((p.len() - 1) as nat, |k: int| group(p[k])->0);
        if group(p.last()) is Some {
            Some(init.push(group(p.last())->0))
        } else if v4_tail && ipv4(p.last()) is Some {
            Some(init + octet_segments(ipv4(p.last())->0))
        } else {
            None
        }
    } else {
        None
    }
}

/// Whether two colons stand at `k`.
pub open spec fn is_gap(s: Seq<char>, k: int) -> bool {
    0 <= k && k + 1 < s.len() && s[k] == ':' && s[k + 1] == ':'
}

/// Whether the first two adjacent colons stand at `k`.
pub open spec fn is_first_gap(s: Seq<char>, k: int) -> bool {
    is_gap(s, k) && forall|j: int| 0 <= j < k ==> !is_gap(s, j)
}

/// IPv6 notation: eight segments, of which one run of at least one zero segment
/// may be written as two colons.
pub open spec fn ipv6(s: Seq<char>) -> Option<Seq<u16>> {
    if exists|k: int| is_first_gap(s, k) {
        let k = choose|k: int| is_first_gap(s, k);
        match (groups(s.subrange(0, k), false), groups(s.subrange(k + 2, s.len() as int), true)) {
            (Some(head), Some(tail)) => if head.len() + tail.len() <= 7 {
                Some(
                    head + Seq::new((8 - head.len() - tail.len()) as nat, |i: int| 0u16) + tail,
                )
            } else {
                None
            },
            _ => None,
        }
    } else {
        match groups(s, true) {
            Some(all) => if all.len() == 8 {
                Some(all)
            } else {
                None
            },
            None => None,
        }
    }
}

/// The address that `s` denotes, if it is an IP address literal.
pub open spec fn ip_value(s: Seq<char>) -> Option<IpValue> {
    match ipv4(s) {
        Some(octets) => Some(IpValue::V4(octets)),
        None => match ipv6(s) {
            Some(segments) => Some(IpValue::V6(segments)),
            None => None,
        },
    }
}

/// Bounds on the value of one to four digits.
pub proof fn lemma_number_bound(s: Seq<char>, radix: int)
    requires
        radix == 10 || radix == 16,
        text::all_digits(s, radix),
        s.len() <= 4,
    ensures
        0 <= text::number(s, radix),
        s.len() == 0 ==> text::number(s, radix) == 0,
        s.len() == 1 ==> text::number(s, radix) < radix,
        s.len() == 2 ==> text::number(s, radix) < radix * radix,
        s.len() == 3 ==> text::number(s, radix) < radix * radix * radix,
        s.len() == 4 ==> text::number(s, radix) < radix * radix * radix * radix,
    decreases s.len(),
{
    if s.len() > 0 {
        assert(text::is_digit(s.last(), radix));
        lemma_number_bound(s.drop_last(), radix);
    }
}

/// The number that `chars[lo..hi]` denotes, if it is one to `max` digits of the
/// given radix.
fn parse_number(chars: &Vec<char>, lo: usize, hi: usize, radix: u32, max: usize) -> (r: Option<u32>)
    requires
        lo <= hi <= chars.len(),
        radix == 10 || radix == 16,
        max <= 4,
    ensures
        r is Some <==> 1 <= hi - lo <= max && text::all_digits(
            chars@.subrange(lo as int, hi as int),
            radix as int,
        ),
        r matches Some(n) ==> n == text::number(chars@.subrange(lo as int, hi as int), radix as int),
{
    if lo == hi || hi - lo > max {
        return None;
    }
    let ghost s = chars@.subrange(lo as int, hi as int);
    let mut n: u32 = 0;
    let mut i: usize = lo;
    while i < hi
        invariant
            lo <= i <= hi <= chars.len(),
            hi - lo <= 4,
            radix == 10 || radix == 16,
            s == chars@.subrange(lo as int, hi as int),
            text::all_digits(s.take(i - lo), radix as int),
            n == text::number(s.take(i - lo), radix as int),
        decreases hi - i,
    {
        let c = chars[i];
        proof {
            assert(c == s[i - lo]);
        }
        if !text::digit_test(c, radix) {
            return None;
        }
        proof {
            lemma_number_bound(s.take(i - lo), radix as int);
            let t = s.take(i - lo + 1);
            assert(t.drop_last() =~= s.take(i - lo));
            assert(t.last() == c);
            assert forall|k: int| 0 <= k < t.len() implies text::is_digit(
                #[trigger] t[k],
                radix as int,
            ) by {
                if k < i - lo {
                    assert(t[k] == s.take(i - lo)[k]);
                }
            }
        }
        n = n * radix + text::digit_of(c);
        i = i + 1;
    }
    proof {
        assert(s.take(hi - lo) =~= s);
    }
    Some(n)
}

/// Reads a decimal octet.
fn parse_octet(chars: &Vec<char>, lo: usize, hi: usize) -> (r: Option<u8>)
    requires
        lo <= hi <= chars.len(),
    ensures
        r == octet(chars@.subrange(lo as int, hi as int)),
{
    match parse_number(chars, lo, hi, 10, 3) {
        Some(n) => if n > 255 || (hi - lo > 1 && chars[lo] == '0') {
            None
        } else {
            Some(n as u8)
        },
        None => None,
    }
}

/// Reads one group of an IPv6 address.
fn parse_group(chars: &Vec<char>, lo: usize, hi: usize) -> (r: Option<u16>)
    requires
        lo <= hi <= chars.len(),
    ensures
        r == group(chars@.subrange(lo as int, hi as int)),
{
    match parse_number(chars, lo, hi, 16, 4) {
        Some(n) => {
            proof {
                lemma_number_bound(chars@.subrange(lo as int, hi as int), 16);
            }
            Some(n as u16)
        },
        None => None,
    }
}

/// Reads a dotted-decimal address.
fn parse_ipv4(chars: &Vec<char>, lo: usize, hi: usize) -> (r: Option<[u8; 4]>)
    requires
        lo <= hi <= chars.len(),
    ensures
        r is Some <==> ipv4(chars@.subrange(lo as int, hi as int)) is Some,
        r matches Some(o) ==> ipv4(chars@.subrange(lo as int, hi as int)) == Some(o@),
{
    let p = split_ranges(chars, lo, hi, '.');
    if p.len() != 4 {
        return None;
    }
    let a = parse_octet(chars, p[0].0, p[0].1);
    let b = parse_octet(chars, p[1].0, p[1].1);
    let c = parse_octet(chars, p[2].0, p[2].1);
    let d = parse_octet(chars, p[3].0, p[3].1);
    match (a, b, c, d) {
        (Some(a), Some(b), Some(c), Some(d)) => {
            let o: [u8; 4] = [a, b, c, d];
            proof {
                assert(o@ =~= seq![a, b, c, d]);
            }
            Some(o)
        },
        _ => None,
    }
}

/// Reads colon-separated groups.
fn parse_groups(chars: &Vec<char>, lo: usize, hi: usize, v4_tail: bool) -> (r: Option<Vec<u16>>)
    requires
        lo <= hi <= chars.len(),
    ensures
        r is Some <==> groups(chars@.subrange(lo as int, hi as int), v4_tail) is Some,
        r matches Some(g) ==> groups(chars@.subrange(lo as int, hi as int), v4_tail) == Some(g@),
{
    let ghost s = chars@.subrange(lo as int, hi as int);
    let ghost pieces = text::split(s, ':');
    let mut g: Vec<u16> = Vec::new();
    if lo == hi {
        proof {
            assert(g@ =~= Seq::<u16>::empty());
        }
        return Some(g);
    }
    let p = split_ranges(chars, lo, hi, ':');
    proof {
        text::lemma_split_nonempty(s, ':');
    }
    let last: usize = p.len() - 1;
    let mut k: usize = 0;
    while k < last
        invariant
            lo <= hi <= chars.len(),
            s == chars@.subrange(lo as int, hi as int),
            pieces == text::split(s, ':'),
            p.len() == pieces.len(),
            last == p.len() - 1,
            k <= last,
            forall|j: int| 0 <= j < p.len() ==> lo <= (#[trigger] p[j]).0 <= p[j].1 <= hi,
            forall|j: int|
                0 <= j < p.len() ==> chars@.subrange((#[trigger] p[j]).0 as int, p[j].1 as int)
                    == pieces[j],
            g.len() == k,
            forall|j: int| 0 <= j < k ==> group(#[trigger] pieces[j]) == Some(g[j]),
            lo < hi,
        decreases last - k,
    {
        match parse_group(chars, p[k].0, p[k].1) {
            Some(v) => {
                g.push(v);
            },
            None => {
                proof {
                    assert(group(pieces[k as int]) is None);
                }
                return None;
            },
        }
        k = k + 1;
    }
    proof {
        assert(g@ =~= Seq::new((pieces.len() - 1) as nat, |k: int| group(pieces[k])->0));
    }
    match parse_group(chars, p[last].0, p[last].1) {
        Some(v) => {
            g.push(v);
            Some(g)
        },
        None => {
            if !v4_tail {
                return None;
            }
            match parse_ipv4(chars, p[last].0, p[last].1) {
                Some(o) => {
                    let ghost init = g@;
                    g.push(o[0] as u16 * 256 + o[1] as u16);
                    g.push(o[2] as u16 * 256 + o[3] as u16);
                    proof {
                        assert(g@ =~= init + octet_segments(o@));
                    }
                    Some(g)
                },
                None => None,
            }
        },
    }
}

/// The place of the first two adjacent colons in `chars[lo..hi]`.
fn find_gap(chars: &Vec<char>, lo: usize, hi: usize) -> (r: Option<usize>)
    requires
        lo <= hi <= chars.len(),
    ensures
        r is None ==> forall|j: int| !is_gap(chars@.subrange(lo as int, hi as int), j),
        r matches Some(k) ==> lo <= k && k + 2 <= hi && is_first_gap(
            chars@.subrange(lo as int, hi as int),
            k - lo,
        ),
{
    let ghost s = chars@.subrange(lo as int, hi as int);
    if hi - lo < 2 {
        return None;
    }
    let mut k: usize = lo;
    while k < hi - 1
        invariant
            lo <= k < hi <= chars.len(),
            hi - lo >= 2,
            s == chars@.subrange(lo as int, hi as int),
            forall|j: int| 0 <= j < k - lo ==> !is_gap(s, j),
        decreases hi - k,
    {
        if chars[k] == ':' && chars[k + 1] == ':' {
            proof {
                assert(is_gap(s, k - lo));
            }
            return Some(k);
        }
        k = k + 1;
    }
    None
}

/// Eight segments as an array.
fn segment_array(g: &Vec<u16>) -> (r: [u16; 8])
    requires
        g.len() == 8,
    ensures
        r@ == g@,
{
    let r: [u16; 8] = [g[0], g[1], g[2], g[3], g[4], g[5], g[6], g[7]];
    proof {
        assert(r@ =~= g@);
    }
    r
}

/// Reads an IPv6 address.
fn parse_ipv6(chars: &Vec<char>, lo: usize, hi: usize) -> (r: Option<[u16; 8]>)
    requires
        lo <= hi <= chars.len(),
    ensures
        r is Some <==> ipv6(chars@.subrange(lo as int, hi as int)) is Some,
        r matches Some(g) ==> ipv6(chars@.subrange(lo as int, hi as int)) == Some(g@),
{
    let ghost s = chars@.subrange(lo as int, hi as int);
    match find_gap(chars, lo, hi) {
        Some(k) => {
            proof {
                assert forall|j: int| is_first_gap(s, j) implies j == k - lo by {
                    assert(is_gap(s, j) && is_gap(s, k - lo));
                }
                assert(s.subrange(0, k - lo) =~= chars@.subrange(lo as int, k as int));
                assert(s.subrange(k - lo + 2, s.len() as int) =~= chars@.subrange(
                    k + 2,
                    hi as int,
                ));
            }
            let head = parse_groups(chars, lo, k, false);
            let tail = parse_groups(chars, k + 2, hi, true);
            match (head, tail) {
                (Some(head), Some(tail)) => {
                    if head.len() > 7 || tail.len() > 7 - head.len() {
                        return None;
                    }
                    let zeros: usize = 8 - head.len() - tail.len();
                    let mut g: Vec<u16> = head;
                    let mut i: usize = 0;
                    while i < zeros
                        invariant
                            i <= zeros,
                            g@ == head@ + Seq::new(i as nat, |i: int| 0u16),
                        decreases zeros - i,
                    {
                        g.push(0);
                        i = i + 1;
                    }
                    let mut j: usize = 0;
                    let ghost filled = g@;
                    while j < tail.len()
                        invariant
                            j <= tail.len(),
                            g@ == filled + tail@.take(j as int),
                        decreases tail.len() - j,
                    {
                        g.push(tail[j]);
                        j = j + 1;
                    }
                    proof {
                        assert(tail@.take(tail.len() as int) =~= tail@);
                        assert(g@ =~= head@ + Seq::new(zeros as nat, |i: int| 0u16) + tail@);
                    }
                    Some(segment_array(&g))
                },
                _ => None,
            }
        },
        None => match parse_groups(chars, lo, hi, true) {
            Some(g) => if g.len() == 8 {
                Some(segment_array(&g))
            } else {
                None
            },
            None => None,
        },
    }
}

/// Reads the IP address literal that fills `chars[lo..hi]`.
pub fn parse_ip(chars: &Vec<char>, lo: usize, hi: usize) -> (r: Option<IpAddress>)
    requires
        lo <= hi <= chars.len(),
    ensures
        r is Some <==> ip_value(chars@.subrange(lo as int, hi as int)) is Some,
        r matches Some(ip) ==> ip_value(chars@.subrange(lo as int, hi as int)) == Some(ip@),
{
    match parse_ipv4(chars, lo, hi) {
        Some(octets) => Some(IpAddress::V4(octets)),
        None => match parse_ipv6(chars, lo, hi) {
            Some(segments) => Some(IpAddress::V6(segments)),
            None => None,
        },
    }
}

/// The IPv4 loopback range, `127.0.0.0/8`.
pub open spec fn v4_loopback(o: Seq<u8>) -> bool {
    o[0] == 127
}

/// The IPv4 private ranges, `10.0.0.0/8`, `172.16.0.0/12` and `192.168.0.0/16`.
pub open spec fn v4_private(o: Seq<u8>) -> bool {
    ||| o[0] == 10
    ||| o[0] == 172 && 16 <= o[1] <= 31
    ||| o[0] == 192 && o[1] == 168
}

/// The IPv4 link-local range, `169.254.0.0/16`.
pub open spec fn v4_link_local(o: Seq<u8>) -> bool {
    o[0] == 169 && o[1] == 254
}

/// The unspecified IPv4 address, `0.0.0.0`.
pub open spec fn v4_unspecified(o: Seq<u8>) -> bool {
    o[0] == 0 && o[1] == 0 && o[2] == 0 && o[3] == 0
}

/// The IPv4 broadcast address, `255.255.255.255`.
pub open spec fn v4_broadcast(o: Seq<u8>) -> bool {
    o[0] == 255 && o[1] == 255 && o[2] == 255 && o[3] == 255
}

/// The IPv6 loopback address, `::1`.
pub open spec fn v6_loopback(g: Seq<u16>) -> bool {
    (forall|i: int| 0 <= i < 7 ==> #[trigger] g[i] == 0) && g[7] == 1
}

/// The unspecified IPv6 address, `::`.
pub open spec fn v6_unspecified(g: Seq<u16>) -> bool {
    forall|i: int| 0 <= i < 8 ==> #[trigger] g[i] == 0
}

/// The IPv6 unique local range, `fc00::/7`.
pub open spec fn v6_unique_local(g: Seq<u16>) -> bool {
    0xfc00 <= g[0] <= 0xfdff
}

/// The IPv6 link-local unicast range, `fe80::/10`.
pub open spec fn v6_link_local(g: Seq<u16>) -> bool {
    0xfe80 <= g[0] <= 0xfebf
}

/// The addresses that name the machine itself or its local network.
pub open spec fn is_local_address(ip: IpValue) -> bool {
    match ip {
        IpValue::V4(o) => v4_loopback(o) || v4_private(o) || v4_link_local(o) || v4_unspecified(o)
            || v4_broadcast(o),
        IpValue::V6(g) => v6_loopback(g) || v6_unspecified(g) || v6_unique_local(g)
            || v6_link_local(g),
    }
}

impl IpAddress {
    /// Tests whether the address names the machine itself or its local network.
    pub fn is_local(&self) -> (r: bool)
        ensures
            r == is_local_address(self@),
    {
        match self {
            IpAddress::V4(o) => {
                o[0] == 127 || o[0] == 10 || (o[0] == 172 && 16 <= o[1] && o[1] <= 31) || (o[0]
                    == 192 && o[1] == 168) || (o[0] == 169 && o[1] == 254) || (o[0] == 0 && o[1]
                    == 0 && o[2] == 0 && o[3] == 0) || (o[0] == 255 && o[1] == 255 && o[2] == 255
                    && o[3] == 255)
            },
            IpAddress::V6(g) => {
                let zeros = g[0] == 0 && g[1] == 0 && g[2] == 0 && g[3] == 0 && g[4] == 0 && g[5]
                    == 0 && g[6] == 0;
                (zeros && g[7] <= 1) || (0xfc00 <= g[0] && g[0] <= 0xfdff) || (0xfe80 <= g[0]
                    && g[0] <= 0xfebf)
            },
        }
    }
}

} // verus!
