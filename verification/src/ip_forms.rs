//! Which texts are IP address literals, and of which addresses: exactly those
//! that can be put together in the ways described here.
use vstd::prelude::*;

use crate::ip;
use crate::ip::IpValue;
use crate::ip_laws;
use crate::text;
use crate::text_laws;

verus! {

/// A group of an IPv6 address is one to four hexadecimal digits, read by their
/// places.
pub proof fn groups_are_hexadecimal(s: Seq<char>)
    ensures
        ip::group(s) is Some <==> 1 <= s.len() <= 4 && forall|i: int|
            0 <= i < s.len() ==> text_laws::is_hex_code(#[trigger] s[i]),
        ip::group(s) is Some ==> ip::group(s)->0 == text_laws::place_value(s, 16),
{
    let by_code = forall|i: int| 0 <= i < s.len() ==> text_laws::is_hex_code(#[trigger] s[i]);
    assert(text::all_digits(s, 16) <==> by_code) by {
        if text::all_digits(s, 16) {
            assert forall|i: int| 0 <= i < s.len() implies text_laws::is_hex_code(
                #[trigger] s[i],
            ) by {
                assert(text::is_digit(s[i], 16));
            }
        }
    }
    if 1 <= s.len() <= 4 && by_code {
        text_laws::numbers_are_read_by_place(s, 16);
        ip::lemma_number_bound(s, 16);
    }
}

/// A decimal octet is the decimal notation of its value.
proof fn lemma_octet_is_decimal(s: Seq<char>)
    requires
        ip::octet(s) is Some,
    ensures
        s == text::decimal((ip::octet(s)->0) as nat),
{
    assert forall|i: int| 0 <= i < s.len() implies text_laws::is_decimal_code(#[trigger] s[i]) by {
        assert(text::is_digit(s[i], 10));
    }
    text_laws::numbers_are_read_by_place(s, 10);
    text_laws::decimal_notation_is_unique(s);
}

/// A text denotes an IPv4 address if and only if it is the dotted-decimal
/// notation of its octets.
pub proof fn ipv4_literals_are_dotted_decimals(s: Seq<char>, o: Seq<u8>)
    ensures
        ip::ipv4(s) == Some(o) <==> o.len() == 4 && s == ip_laws::dotted(o),
{
    if o.len() == 4 {
        ip_laws::dotted_denotes_its_octets(o);
    }
    if ip::ipv4(s) == Some(o) {
        let p = text::split(s, '.');
        lemma_octet_is_decimal(p[0]);
        lemma_octet_is_decimal(p[1]);
        lemma_octet_is_decimal(p[2]);
        lemma_octet_is_decimal(p[3]);
        text::join_undoes_split(s, '.');
        assert(p =~= seq![
            text::decimal(o[0] as nat),
            text::decimal(o[1] as nat),
            text::decimal(o[2] as nat),
            text::decimal(o[3] as nat),
        ]);
    }
}

/// Groups and a dotted-decimal address behind them, with colons between, and the
/// segments that they fill.
pub open spec fn is_mixed(s: Seq<char>, g: Seq<u16>, p: Seq<Seq<char>>, o: Seq<u8>) -> bool {
    &&& ip_laws::all_groups(p)
    &&& o.len() == 4
    &&& s == text::join(p.push(ip_laws::dotted(o)), ':')
    &&& g == ip_laws::group_values(p) + seq![
        (o[0] * 256 + o[1]) as u16,
        (o[2] * 256 + o[3]) as u16,
    ]
}

/// A list of groups with colons between them, and the segments that they fill.
/// Where `tail` holds, a dotted-decimal address may stand at the end.
pub open spec fn is_list(s: Seq<char>, g: Seq<u16>, tail: bool) -> bool {
    ||| s.len() == 0 && g.len() == 0
    ||| exists|p: Seq<Seq<char>>| #[trigger]
        ip_laws::all_groups(p) && p.len() > 0 && s == text::join(p, ':') && g
            == ip_laws::group_values(p)
    ||| tail && exists|p: Seq<Seq<char>>, o: Seq<u8>| #[trigger] is_mixed(s, g, p, o)
}

/// Dotted-decimal notation holds no colon.
proof fn lemma_dotted_no_colon(o: Seq<u8>)
    requires
        o.len() == 4,
    ensures
        !ip_laws::dotted(o).contains(':'),
        ip::group(ip_laws::dotted(o)) is None,
{
    ip_laws::lemma_dotted_chars(o);
    let s = ip_laws::dotted(o);
    if s.contains(':') {
        let i = choose|i: int| 0 <= i < s.len() && s[i] == ':';
        assert('0' <= s[i] <= '9' || s[i] == '.');
    }
}

/// The pieces of a mixed list.
proof fn lemma_mixed_pieces(s: Seq<char>, g: Seq<u16>, p: Seq<Seq<char>>, o: Seq<u8>)
    requires
        is_mixed(s, g, p, o),
    ensures
        text::split(s, ':') == p.push(ip_laws::dotted(o)),
        s.len() > 0,
{
    let q = p.push(ip_laws::dotted(o));
    ip_laws::lemma_join_groups(p);
    lemma_dotted_no_colon(o);
    assert forall|k: int| 0 <= k < q.len() implies !(#[trigger] q[k]).contains(':') by {
        if k < p.len() {
            assert(q[k] == p[k]);
        }
    }
    text::split_undoes_join(q, ':');
    if s.len() == 0 {
        ip_laws::lemma_dotted_chars(o);
        assert(text::split(s, ':').last().len() == 0);
        assert(q.last() == ip_laws::dotted(o));
    }
}

/// A text denotes colon-separated groups if and only if it is a list of them.
pub proof fn groups_are_lists(s: Seq<char>, g: Seq<u16>, tail: bool)
    ensures
        ip::groups(s, tail) == Some(g) <==> is_list(s, g, tail),
{
    let p = text::split(s, ':');
    text::lemma_split_nonempty(s, ':');
    if ip::groups(s, tail) == Some(g) {
        if s.len() > 0 {
            text::join_undoes_split(s, ':');
            if ip::group(p.last()) is Some {
                assert forall|k: int| 0 <= k < p.len() implies ip::group(#[trigger] p[k]) is Some by {
                    if k == p.len() - 1 {
                        assert(p[k] == p.last());
                    }
                }
                assert(ip_laws::all_groups(p));
                assert(g =~= ip_laws::group_values(p));
            } else {
                let o = ip::ipv4(p.last())->0;
                ipv4_literals_are_dotted_decimals(p.last(), o);
                let q = p.drop_last();
                assert(q.push(ip_laws::dotted(o)) =~= p);
                assert forall|k: int| 0 <= k < q.len() implies ip::group(#[trigger] q[k]) is Some by {
                    assert(q[k] == p[k]);
                }
                assert(g =~= ip_laws::group_values(q) + seq![
                    (o[0] * 256 + o[1]) as u16,
                    (o[2] * 256 + o[3]) as u16,
                ]);
                assert(is_mixed(s, g, q, o));
            }
        }
    }
    if is_list(s, g, tail) {
        if s.len() == 0 && g.len() == 0 {
            assert(g =~= Seq::<u16>::empty());
        } else if exists|p: Seq<Seq<char>>| #[trigger]
            ip_laws::all_groups(p) && p.len() > 0 && s == text::join(p, ':') && g
                == ip_laws::group_values(p) {
            let q = choose|p: Seq<Seq<char>>| #[trigger]
                ip_laws::all_groups(p) && p.len() > 0 && s == text::join(p, ':') && g
                    == ip_laws::group_values(p);
            ip_laws::lemma_groups_of_join(q, tail);
        } else {
            let (q, o) = choose|p: Seq<Seq<char>>, o: Seq<u8>| #[trigger] is_mixed(s, g, p, o);
            lemma_mixed_pieces(s, g, q, o);
            lemma_dotted_no_colon(o);
            ipv4_literals_are_dotted_decimals(ip_laws::dotted(o), o);
            assert(p.last() == ip_laws::dotted(o));
            assert forall|k: int| 0 <= k < p.len() - 1 implies ip::group(#[trigger] p[k]) is Some by {
                assert(p[k] == q[k]);
            }
            let init = Seq::new((p.len() - 1) as nat, |k: int| ip::group(p[k])->0);
            assert(init =~= ip_laws::group_values(q));
            assert(init + ip::octet_segments(o) =~= g);
        }
    }
}

/// Pieces that are not empty and hold no colon, joined by colons: no adjacent
/// colons, and none at the end.
proof fn lemma_join_no_gap(p: Seq<Seq<char>>)
    requires
        p.len() > 0,
        forall|k: int| 0 <= k < p.len() ==> (#[trigger] p[k]).len() > 0 && !p[k].contains(':'),
    ensures
        text::join(p, ':').len() > 0,
        text::join(p, ':').last() != ':',
        forall|k: int| !ip::is_gap(text::join(p, ':'), k),
    decreases p.len(),
{
    let s = text::join(p, ':');
    let b = p.last();
    assert(b == p[p.len() - 1]);
    assert(b.contains(b.last()));
    assert(b.contains(b[0]));
    if p.len() == 1 {
        assert forall|k: int| !ip::is_gap(s, k) by {
            if ip::is_gap(s, k) {
                assert(b.contains(b[k]));
            }
        }
    } else {
        let q = p.drop_last();
        assert forall|k: int| 0 <= k < q.len() implies (#[trigger] q[k]).len() > 0
            && !q[k].contains(':') by {
            assert(q[k] == p[k]);
        }
        lemma_join_no_gap(q);
        let a = text::join(q, ':');
        assert(s =~= a.push(':') + b);
        assert(s.last() == b.last());
        assert forall|k: int| !ip::is_gap(s, k) by {
            if ip::is_gap(s, k) {
                if k + 1 < a.len() {
                    assert(ip::is_gap(a, k));
                } else if k + 1 == a.len() {
                    assert(a.last() == s[k]);
                } else {
                    assert(s[k + 1] == b[k + 1 - a.len() - 1]);
                    assert(b.contains(b[k + 1 - a.len() - 1]));
                }
            }
        }
    }
}

/// A list has no adjacent colons, and none at its end.
proof fn lemma_list_no_gap(s: Seq<char>, g: Seq<u16>, tail: bool)
    requires
        is_list(s, g, tail),
    ensures
        s.len() > 0 ==> s.last() != ':',
        forall|k: int| !ip::is_gap(s, k),
{
    if s.len() == 0 {
    } else if exists|p: Seq<Seq<char>>| #[trigger]
        ip_laws::all_groups(p) && p.len() > 0 && s == text::join(p, ':') && g
            == ip_laws::group_values(p) {
        let p = choose|p: Seq<Seq<char>>| #[trigger]
            ip_laws::all_groups(p) && p.len() > 0 && s == text::join(p, ':') && g
                == ip_laws::group_values(p);
        ip_laws::lemma_join_groups(p);
    } else {
        let (p, o) = choose|p: Seq<Seq<char>>, o: Seq<u8>| #[trigger] is_mixed(s, g, p, o);
        let q = p.push(ip_laws::dotted(o));
        ip_laws::lemma_join_groups(p);
        ip_laws::lemma_dotted_chars(o);
        lemma_dotted_no_colon(o);
        assert forall|k: int| 0 <= k < q.len() implies (#[trigger] q[k]).len() > 0
            && !q[k].contains(':') by {
            if k < p.len() {
                assert(q[k] == p[k]);
                assert(ip::group(p[k]) is Some);
            }
        }
        lemma_join_no_gap(q);
    }
}

/// Two lists with two colons between them, for segments that are zero in between.
pub open spec fn is_shortened(
    s: Seq<char>,
    g: Seq<u16>,
    a: Seq<char>,
    b: Seq<char>,
    h: Seq<u16>,
    t: Seq<u16>,
) -> bool {
    &&& s == a + seq![':', ':'] + b
    &&& is_list(a, h, false)
    &&& is_list(b, t, true)
    &&& g.len() == 8
    &&& h.len() + t.len() <= 7
    &&& forall|i: int| 0 <= i < h.len() ==> #[trigger] g[i] == h[i]
    &&& forall|i: int| h.len() <= i < 8 - t.len() ==> #[trigger] g[i] == 0
    &&& forall|i: int| 8 - t.len() <= i < 8 ==> #[trigger] g[i] == t[i - (8 - t.len())]
}

/// A list of eight segments, or a shortened one.
pub open spec fn is_v6_notation(s: Seq<char>, g: Seq<u16>) -> bool {
    ||| g.len() == 8 && is_list(s, g, true)
    ||| exists|a: Seq<char>, b: Seq<char>, h: Seq<u16>, t: Seq<u16>| #[trigger]
        is_shortened(s, g, a, b, h, t)
}

/// A text is IPv6 notation if and only if it is a list of eight segments or a
/// shortened one.
pub proof fn ipv6_literals_are_lists(s: Seq<char>, g: Seq<u16>)
    ensures
        ip::ipv6(s) == Some(g) <==> is_v6_notation(s, g),
{
    let n = s.len() as int;
    if ip::ipv6(s) == Some(g) {
        if exists|k: int| ip::is_first_gap(s, k) {
            let k = choose|k: int| ip::is_first_gap(s, k);
            assert(ip::is_gap(s, k));
            let a = s.subrange(0, k);
            let b = s.subrange(k + 2, n);
            let h = ip::groups(a, false)->0;
            let t = ip::groups(b, true)->0;
            groups_are_lists(a, h, false);
            groups_are_lists(b, t, true);
            assert(s =~= a + seq![':', ':'] + b);
            assert(is_shortened(s, g, a, b, h, t));
        } else {
            groups_are_lists(s, g, true);
        }
    }
    if is_v6_notation(s, g) {
        if exists|a: Seq<char>, b: Seq<char>, h: Seq<u16>, t: Seq<u16>| #[trigger]
            is_shortened(s, g, a, b, h, t) {
            let (a, b, h, t) = choose|a: Seq<char>, b: Seq<char>, h: Seq<u16>, t: Seq<u16>|
             #[trigger]
                is_shortened(s, g, a, b, h, t);
            let k = a.len() as int;
            lemma_list_no_gap(a, h, false);
            assert(ip::is_gap(s, k));
            assert forall|j: int| 0 <= j < k implies !ip::is_gap(s, j) by {
                if ip::is_gap(s, j) {
                    if j + 1 < k {
                        assert(ip::is_gap(a, j));
                    } else {
                        assert(a.last() == s[j]);
                    }
                }
            }
            assert(ip::is_first_gap(s, k));
            assert forall|j: int| ip::is_first_gap(s, j) implies j == k by {
                assert(ip::is_gap(s, j) && ip::is_gap(s, k));
            }
            assert(s.subrange(0, k) =~= a);
            assert(s.subrange(k + 2, n) =~= b);
            groups_are_lists(a, h, false);
            groups_are_lists(b, t, true);
            assert(g =~= h + Seq::new((8 - h.len() - t.len()) as nat, |i: int| 0u16) + t);
        } else {
            lemma_list_no_gap(s, g, true);
            groups_are_lists(s, g, true);
        }
    }
}

/// A text is an IP address literal if and only if it is the dotted-decimal
/// notation of four octets, or a list or a shortened list of eight segments.
pub proof fn literals_are_put_together(s: Seq<char>, o: Seq<u8>, g: Seq<u16>)
    ensures
        ip::ip_value(s) == Some(IpValue::V4(o)) <==> o.len() == 4 && s == ip_laws::dotted(o),
        ip::ip_value(s) == Some(IpValue::V6(g)) <==> is_v6_notation(s, g),
{
    ipv4_literals_are_dotted_decimals(s, o);
    ipv6_literals_are_lists(s, g);
    if ip::ipv4(s) is Some {
        let q = ip::ipv4(s)->0;
        ipv4_literals_are_dotted_decimals(s, q);
        lemma_dotted_no_colon(q);
        text::lemma_split_single(s, ':');
        if is_v6_notation(s, g) {
            if exists|a: Seq<char>, b: Seq<char>, h: Seq<u16>, t: Seq<u16>| #[trigger]
                is_shortened(s, g, a, b, h, t) {
                let (a, b, h, t) = choose|a: Seq<char>, b: Seq<char>, h: Seq<u16>, t: Seq<u16>|
                 #[trigger]
                    is_shortened(s, g, a, b, h, t);
                assert(s[a.len() as int] == ':');
            } else {
                groups_are_lists(s, g, true);
            }
        }
    }
}

} // verus!
