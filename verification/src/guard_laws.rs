//! What the guard refuses, said of the text of a host: by the number of an
//! address, and by the letters of a name.
use vstd::prelude::*;

use crate::fetch;
use crate::guard;
use crate::ip;
use crate::ip::IpValue;
use crate::ip_forms;
use crate::ip_laws;
use crate::ip_ranges;
use crate::text;
use crate::text::CharSet;
use crate::text_laws;

verus! {

/// Whether a number of thirty-two bits is in one of the local IPv4 blocks.
pub open spec fn is_local_v4_number(v: int) -> bool {
    ||| v / 0x100_0000 == 127
    ||| v / 0x100_0000 == 10
    ||| v / 0x10_0000 == 172 * 16 + 1
    ||| v / 0x1_0000 == 192 * 256 + 168
    ||| v / 0x1_0000 == 169 * 256 + 254
    ||| v == 0
    ||| v == 0xffff_ffff
}

/// Whether a number of one hundred and twenty-eight bits is in one of the local
/// IPv6 blocks.
pub open spec fn is_local_v6_number(v: int) -> bool {
    ||| v == 0
    ||| v == 1
    ||| v / 0x200_0000_0000_0000_0000_0000_0000_0000 == 0x7e
    ||| v / 0x40_0000_0000_0000_0000_0000_0000_0000 == 0x3fa
}

/// Whether `host` is the dotted-decimal notation of `o`, a local address.
pub open spec fn is_local_v4_host(host: Seq<char>, o: Seq<u8>) -> bool {
    o.len() == 4 && host == ip_laws::dotted(o) && is_local_v4_number(ip_ranges::v4_number(o))
}

/// Whether `host` is IPv6 notation of `g`, a local address.
pub open spec fn is_local_v6_host(host: Seq<char>, g: Seq<u16>) -> bool {
    ip_forms::is_v6_notation(host, g) && is_local_v6_number(ip_ranges::v6_number(g))
}

/// Whether `host` is `localhost` or a name under it, in letters of either case.
pub open spec fn is_localhost_name(host: Seq<char>) -> bool {
    ||| text_laws::same_but_case(host, "localhost"@)
    ||| host.len() >= 10 && text_laws::same_but_case(host.skip(host.len() - 10), ".localhost"@)
}

/// Whether `host` names the machine itself or its local network.
pub open spec fn names_local(host: Seq<char>) -> bool {
    ||| exists|o: Seq<u8>| #[trigger] is_local_v4_host(host, o)
    ||| exists|g: Seq<u16>| #[trigger] is_local_v6_host(host, g)
    ||| is_localhost_name(host)
}

/// The names under `localhost` are known by their lower case.
proof fn lemma_localhost_name(host: Seq<char>)
    ensures
        is_localhost_name(host) <==> text::lower(host) == "localhost"@ || text::ends_with(
            text::lower(host),
            ".localhost"@,
        ),
{
    reveal_strlit("localhost");
    reveal_strlit(".localhost");
    let a = "localhost"@;
    let b = ".localhost"@;
    text_laws::lower_case_is_equal_but_for_case(host, a);
    assert(text::lower(a) =~= a);
    assert(text::lower(b) =~= b);
    let n = host.len() as int;
    if n >= 10 {
        let tail = host.skip(n - 10);
        text_laws::lower_case_is_equal_but_for_case(tail, b);
        assert(text::lower(tail) =~= text::lower(host).subrange(n - 10, n));
    }
}

/// A host is local if and only if it is the notation of an address in one of the
/// local blocks, or `localhost` or a name under it.
pub proof fn local_hosts_are_known_by_number_or_name(host: Seq<char>)
    ensures
        guard::is_local_host(host) <==> names_local(host),
{
    lemma_localhost_name(host);
    if is_localhost_name(host) {
        guard::localhost_names_are_local(host);
    }
    match ip::ip_value(host) {
        Some(IpValue::V4(o)) => {
            ip_forms::literals_are_put_together(host, o, Seq::empty());
            ip_ranges::local_ipv4_addresses_are_known_by_number(o);
            if guard::is_local_host(host) {
                assert(is_local_v4_host(host, o));
            }
        },
        Some(IpValue::V6(g)) => {
            ip_forms::literals_are_put_together(host, Seq::empty(), g);
            lemma_v6_len(host, g);
            ip_ranges::local_ipv6_addresses_are_known_by_number(g);
            if guard::is_local_host(host) {
                assert(is_local_v6_host(host, g));
            }
        },
        None => {},
    }
    if exists|o: Seq<u8>| #[trigger] is_local_v4_host(host, o) {
        let o = choose|o: Seq<u8>| #[trigger] is_local_v4_host(host, o);
        ip_forms::literals_are_put_together(host, o, Seq::empty());
        ip_ranges::local_ipv4_addresses_are_known_by_number(o);
    }
    if exists|g: Seq<u16>| #[trigger] is_local_v6_host(host, g) {
        let g = choose|g: Seq<u16>| #[trigger] is_local_v6_host(host, g);
        ip_forms::literals_are_put_together(host, Seq::empty(), g);
        lemma_v6_len(host, g);
        ip_ranges::local_ipv6_addresses_are_known_by_number(g);
    }
}

/// IPv6 notation is of eight segments.
proof fn lemma_v6_len(s: Seq<char>, g: Seq<u16>)
    requires
        ip_forms::is_v6_notation(s, g),
    ensures
        g.len() == 8,
{
}

/// What the guard answers to any scheme, any host and any setting. The host is
/// `a + host + b`, where `a` and `b` are the brackets at its ends.
///
/// A scheme but `http` and `https` is refused whatever the rest. The settings
/// `true` and `1` let every host pass. Else a host is refused if and only if it
/// is local, and the reason names it without its brackets.
pub proof fn the_guard_refuses_schemes_and_local_hosts(
    scheme: Option<Seq<char>>,
    a: Seq<char>,
    host: Seq<char>,
    b: Seq<char>,
    setting: Option<Seq<char>>,
)
    requires
        forall|i: int| 0 <= i < a.len() ==> #[trigger] a[i] == '[' || a[i] == ']',
        forall|i: int| 0 <= i < b.len() ==> #[trigger] b[i] == '[' || b[i] == ']',
        host.len() > 0 ==> host[0] != '[' && host[0] != ']' && host.last() != '[' && host.last()
            != ']',
    ensures
        ({
            let allowed = scheme == Some("http"@) || scheme == Some("https"@);
            let permitted = setting == Some("true"@) || setting == Some("1"@);
            let r = guard::denial(scheme, Some(a + host + b), setting);
            &&& !allowed ==> r == Some(
                "denied: scheme "@ + guard::debug_text(
                    match scheme {
                        Some(s) => s,
                        None => "none"@,
                    },
                ) + " is not allowed (use http or https)"@,
            )
            &&& allowed && permitted ==> r is None
            &&& allowed && !permitted && !names_local(host) ==> r is None
            &&& allowed && !permitted && names_local(host) ==> r == Some(
                "denied: "@ + host
                    + " is a local/private target (set MCP_HTTP_GET_ALLOW_LOCAL=true to permit in development)"@,
            )
        }),
{
    assert forall|i: int| 0 <= i < a.len() implies CharSet::Brackets.has(#[trigger] a[i]) by {
        assert(a[i] == '[' || a[i] == ']');
    }
    assert forall|i: int| 0 <= i < b.len() implies CharSet::Brackets.has(#[trigger] b[i]) by {
        assert(b[i] == '[' || b[i] == ']');
    }
    text_laws::trimming_keeps_the_middle(a, host, b, CharSet::Brackets);
    local_hosts_are_known_by_number_or_name(host);
}

/// What the guard answers where the URI has no host.
pub proof fn the_guard_lets_missing_hosts_pass(
    scheme: Option<Seq<char>>,
    setting: Option<Seq<char>>,
)
    ensures
        guard::denial(scheme, None, setting) == guard::denial(
            scheme,
            Some(Seq::<char>::empty()),
            setting,
        ),
        scheme == Some("http"@) || scheme == Some("https"@) ==> guard::denial(
            scheme,
            None,
            setting,
        ) is None,
{
    let e = Seq::<char>::empty();
    text_laws::trimming_keeps_the_middle(e, e, e, CharSet::Brackets);
    assert(e + e + e =~= e);
    local_hosts_are_known_by_number_or_name(e);
    reveal_strlit("localhost");
    reveal_strlit(".localhost");
    assert(!names_local(e)) by {
        if exists|o: Seq<u8>| #[trigger] is_local_v4_host(e, o) {
            let o = choose|o: Seq<u8>| #[trigger] is_local_v4_host(e, o);
            ip_laws::lemma_dotted_chars(o);
        }
        if exists|g: Seq<u16>| #[trigger] is_local_v6_host(e, g) {
            let g = choose|g: Seq<u16>| #[trigger] is_local_v6_host(e, g);
            ip_forms::literals_are_put_together(e, Seq::empty(), g);
            ip_forms::groups_are_lists(e, g, true);
            if exists|a: Seq<char>, b: Seq<char>, h: Seq<u16>, t: Seq<u16>| #[trigger]
                ip_forms::is_shortened(e, g, a, b, h, t) {
                let (a, b, h, t) = choose|a: Seq<char>, b: Seq<char>, h: Seq<u16>, t: Seq<u16>|
                 #[trigger]
                    ip_forms::is_shortened(e, g, a, b, h, t);
                assert((a + seq![':', ':'] + b).len() >= 2);
            }
        }
    }
}

/// A host in dotted-decimal notation is refused if and only if the number of the
/// address is in a local block.
pub proof fn ipv4_hosts_are_refused_by_number(o: Seq<u8>)
    requires
        o.len() == 4,
    ensures
        guard::denial(Some("http"@), Some(ip_laws::dotted(o)), None) is Some
            <==> is_local_v4_number(ip_ranges::v4_number(o)),
        guard::denial(Some("https"@), Some(ip_laws::dotted(o)), None) is Some
            <==> is_local_v4_number(ip_ranges::v4_number(o)),
{
    guard::ipv4_hosts_are_denied_by_range(Some("http"@), o, None);
    guard::ipv4_hosts_are_denied_by_range(Some("https"@), o, None);
    ip_ranges::local_ipv4_addresses_are_known_by_number(o);
}

/// A bracketed host in IPv6 notation is refused if and only if the number of the
/// address is in a local block.
pub proof fn ipv6_hosts_are_refused_by_number(s: Seq<char>, g: Seq<u16>)
    requires
        ip_forms::is_v6_notation(s, g),
    ensures
        guard::denial(Some("http"@), Some(seq!['['] + s + seq![']']), None) is Some
            <==> is_local_v6_number(ip_ranges::v6_number(g)),
        guard::denial(Some("https"@), Some(seq!['['] + s + seq![']']), None) is Some
            <==> is_local_v6_number(ip_ranges::v6_number(g)),
{
    lemma_v6_chars(s, g);
    ip_forms::literals_are_put_together(s, Seq::empty(), g);
    ip_ranges::local_ipv6_addresses_are_known_by_number(g);
    text_laws::trimming_keeps_the_middle(seq!['['], s, seq![']'], CharSet::Brackets);
}

/// The number of pieces and the characters of a list.
proof fn lemma_list_chars(s: Seq<char>, g: Seq<u16>, tail: bool)
    requires
        ip_forms::is_list(s, g, tail),
    ensures
        forall|i: int|
            0 <= i < s.len() ==> text_laws::is_hex_code(#[trigger] s[i]) || s[i] == ':' || s[i]
                == '.',
        text::split(s, ':').len() <= (if g.len() == 0 {
            1
        } else {
            g.len() as int
        }),
{
    ip_forms::groups_are_lists(s, g, tail);
    let p = text::split(s, ':');
    text::join_undoes_split(s, ':');
    text::lemma_split_nonempty(s, ':');
    if s.len() > 0 {
        assert forall|k: int, i: int|
            0 <= k < p.len() && 0 <= i < p[k].len() implies text_laws::is_hex_code(
            #[trigger] p[k][i],
        ) || p[k][i] == '.' by {
            if k < p.len() - 1 || ip::group(p.last()) is Some {
                assert(ip::group(p[k]) is Some);
                assert(text::is_digit(p[k][i], 16));
            } else {
                let o = ip::ipv4(p.last())->0;
                ip_forms::ipv4_literals_are_dotted_decimals(p.last(), o);
                ip_laws::lemma_dotted_chars(o);
                assert(p[k] == ip_laws::dotted(o));
                assert(text_laws::is_decimal_code(ip_laws::dotted(o)[i]) || ip_laws::dotted(o)[i]
                    == '.');
            }
        }
        lemma_join_chars(p);
    }
}

/// Joined pieces hold the characters of the pieces and the separator.
proof fn lemma_join_chars(p: Seq<Seq<char>>)
    requires
        forall|k: int, i: int|
            0 <= k < p.len() && 0 <= i < p[k].len() ==> text_laws::is_hex_code(#[trigger] p[k][i])
                || p[k][i] == '.',
    ensures
        forall|i: int|
            0 <= i < text::join(p, ':').len() ==> text_laws::is_hex_code(
                #[trigger] text::join(p, ':')[i],
            ) || text::join(p, ':')[i] == ':' || text::join(p, ':')[i] == '.',
    decreases p.len(),
{
    let s = text::join(p, ':');
    if p.len() == 1 {
        assert forall|i: int| 0 <= i < s.len() implies text_laws::is_hex_code(#[trigger] s[i])
            || s[i] == ':' || s[i] == '.' by {
            assert(s[i] == p[0][i]);
        }
    } else if p.len() > 1 {
        let q = p.drop_last();
        assert forall|k: int, i: int|
            0 <= k < q.len() && 0 <= i < q[k].len() implies text_laws::is_hex_code(
            #[trigger] q[k][i],
        ) || q[k][i] == '.' by {
            assert(q[k][i] == p[k][i]);
        }
        lemma_join_chars(q);
        let a = text::join(q, ':');
        let b = p.last();
        assert forall|i: int| 0 <= i < s.len() implies text_laws::is_hex_code(#[trigger] s[i])
            || s[i] == ':' || s[i] == '.' by {
            if i < a.len() {
                assert(s[i] == a[i]);
            } else if i > a.len() {
                assert(s[i] == p[p.len() - 1][i - a.len() - 1]);
            }
        }
    }
}

/// IPv6 notation is made of hexadecimal digits, colons and dots, with at most
/// eight colons.
proof fn lemma_v6_chars(s: Seq<char>, g: Seq<u16>)
    requires
        ip_forms::is_v6_notation(s, g),
    ensures
        g.len() == 8,
        forall|i: int|
            0 <= i < s.len() ==> text_laws::is_hex_code(#[trigger] s[i]) || s[i] == ':' || s[i]
                == '.',
        text::split(s, ':').len() <= 9,
{
    if exists|a: Seq<char>, b: Seq<char>, h: Seq<u16>, t: Seq<u16>| #[trigger]
        ip_forms::is_shortened(s, g, a, b, h, t) {
        let (a, b, h, t) = choose|a: Seq<char>, b: Seq<char>, h: Seq<u16>, t: Seq<u16>| #[trigger]
            ip_forms::is_shortened(s, g, a, b, h, t);
        lemma_list_chars(a, h, false);
        lemma_list_chars(b, t, true);
        let none = Seq::<char>::empty();
        assert(a.push(':') + none =~= a.push(':'));
        fetch::lemma_split_len(a, none, ':');
        assert(text::split(none, ':').len() == 1);
        fetch::lemma_split_len(a.push(':'), b, ':');
        assert(s =~= a.push(':').push(':') + b);
        assert forall|i: int| 0 <= i < s.len() implies text_laws::is_hex_code(#[trigger] s[i])
            || s[i] == ':' || s[i] == '.' by {
            if i < a.len() {
                assert(s[i] == a[i]);
            } else if i >= a.len() + 2 {
                assert(s[i] == b[i - a.len() - 2]);
            }
        }
    } else {
        lemma_list_chars(s, g, true);
    }
}

/// IPv6 notation can stand in a URL as its host, in brackets.
pub proof fn ipv6_literals_stand_in_urls(s: Seq<char>, g: Seq<u16>)
    requires
        ip_forms::is_v6_notation(s, g),
    ensures
        fetch::is_url_host(seq!['['] + s + seq![']']),
{
    lemma_v6_chars(s, g);
    assert forall|i: int| 0 <= i < s.len() implies fetch::is_literal_char(#[trigger] s[i]) by {
        assert(text_laws::is_hex_code(s[i]) || s[i] == ':' || s[i] == '.');
    }
    assert(fetch::is_literal(s));
    assert(seq!['['] + s + seq![']'] == fetch::bracketed(s));
}

} // verus!
