//! Which addresses are local, said of addresses as numbers.
use vstd::prelude::*;

use crate::ip;
use crate::ip::{IpAddress, IpValue};

verus! {

/// An IPv4 address as a number of thirty-two bits.
pub open spec fn v4_number(o: Seq<u8>) -> int {
    ((o[0] * 256 + o[1]) * 256 + o[2]) * 256 + o[3]
}

/// An IPv6 address as a number of one hundred and twenty-eight bits.
pub open spec fn v6_number(g: Seq<u16>) -> int {
    ((((((g[0] * 0x10000 + g[1]) * 0x10000 + g[2]) * 0x10000 + g[3]) * 0x10000 + g[4]) * 0x10000
        + g[5]) * 0x10000 + g[6]) * 0x10000 + g[7]
}

/// An IPv4 address is local if and only if its number is in one of the blocks:
/// `127/8` and `10/8` by the upper eight bits, `172.16/12` by the upper twelve,
/// `192.168/16` and `169.254/16` by the upper sixteen, or the lowest or the
/// highest number of all.
pub proof fn local_ipv4_addresses_are_known_by_number(o: Seq<u8>)
    requires
        o.len() == 4,
    ensures
        ({
            let v = v4_number(o);
            ip::is_local_address(IpValue::V4(o)) <==> {
                ||| v / 0x100_0000 == 127
                ||| v / 0x100_0000 == 10
                ||| v / 0x10_0000 == 172 * 16 + 1
                ||| v / 0x1_0000 == 192 * 256 + 168
                ||| v / 0x1_0000 == 169 * 256 + 254
                ||| v == 0
                ||| v == 0xffff_ffff
            }
        }),
{
    let v = v4_number(o);
    assert(v / 0x100_0000 == o[0]);
    assert(v / 0x10_0000 == o[0] * 16 + o[1] / 16);
    assert(v / 0x1_0000 == o[0] * 256 + o[1]);
}

/// Two IPv4 addresses with the same upper sixteen bits are both local or both
/// not, whatever their lower bits, but for the two that stand alone.
pub proof fn local_ipv4_blocks_are_closed(o: Seq<u8>, q: Seq<u8>)
    requires
        o.len() == 4,
        q.len() == 4,
        v4_number(o) / 0x1_0000 == v4_number(q) / 0x1_0000,
        v4_number(o) != 0 && v4_number(o) != 0xffff_ffff,
        v4_number(q) != 0 && v4_number(q) != 0xffff_ffff,
    ensures
        ip::is_local_address(IpValue::V4(o)) == ip::is_local_address(IpValue::V4(q)),
{
    local_ipv4_addresses_are_known_by_number(o);
    local_ipv4_addresses_are_known_by_number(q);
    assert(v4_number(o) / 0x1_0000 == o[0] * 256 + o[1]);
    assert(v4_number(q) / 0x1_0000 == q[0] * 256 + q[1]);
    assert(o[0] == q[0] && o[1] == q[1]);
}

/// The first segment of an IPv6 address is the upper sixteen bits of its number.
proof fn lemma_v6_upper_bits(g: Seq<u16>)
    requires
        g.len() == 8,
    ensures
        v6_number(g) / 0x200_0000_0000_0000_0000_0000_0000_0000 == g[0] / 512,
        v6_number(g) / 0x40_0000_0000_0000_0000_0000_0000_0000 == g[0] / 64,
{
    let rest = (((((g[1] * 0x10000 + g[2]) * 0x10000 + g[3]) * 0x10000 + g[4]) * 0x10000 + g[5])
        * 0x10000 + g[6]) * 0x10000 + g[7];
    assert(0 <= rest < 0x1_0000_0000_0000_0000_0000_0000_0000);
    assert(v6_number(g) == g[0] * 0x1_0000_0000_0000_0000_0000_0000_0000 + rest);
}

/// An IPv6 address is local if and only if its number is zero or one, or in one
/// of the blocks: `fc00::/7` by the upper seven bits, `fe80::/10` by the upper
/// ten.
pub proof fn local_ipv6_addresses_are_known_by_number(g: Seq<u16>)
    requires
        g.len() == 8,
    ensures
        ({
            let v = v6_number(g);
            ip::is_local_address(IpValue::V6(g)) <==> {
                ||| v == 0
                ||| v == 1
                ||| v / 0x200_0000_0000_0000_0000_0000_0000_0000 == 0x7e
                ||| v / 0x40_0000_0000_0000_0000_0000_0000_0000 == 0x3fa
            }
        }),
{
    lemma_v6_upper_bits(g);
    let v = v6_number(g);
    if v == 0 || v == 1 {
        assert(g[0] == 0 && g[1] == 0 && g[2] == 0 && g[3] == 0 && g[4] == 0 && g[5] == 0 && g[6]
            == 0 && g[7] == v);
    }
    if ip::v6_loopback(g) || ip::v6_unspecified(g) {
        assert(g[0] == 0 && g[1] == 0 && g[2] == 0 && g[3] == 0 && g[4] == 0 && g[5] == 0 && g[6]
            == 0);
    }
    assert(g[0] / 512 == 0x7e <==> 0xfc00 <= g[0] <= 0xfdff);
    assert(g[0] / 64 == 0x3fa <==> 0xfe80 <= g[0] <= 0xfebf);
}

/// Two IPv6 addresses above one with the same upper ten bits are both local or
/// both not, whatever their lower bits.
pub proof fn local_ipv6_blocks_are_closed(g: Seq<u16>, h: Seq<u16>)
    requires
        g.len() == 8,
        h.len() == 8,
        v6_number(g) / 0x40_0000_0000_0000_0000_0000_0000_0000 == v6_number(h)
            / 0x40_0000_0000_0000_0000_0000_0000_0000,
        v6_number(g) > 1,
        v6_number(h) > 1,
    ensures
        ip::is_local_address(IpValue::V6(g)) == ip::is_local_address(IpValue::V6(h)),
{
    local_ipv6_addresses_are_known_by_number(g);
    local_ipv6_addresses_are_known_by_number(h);
    lemma_v6_upper_bits(g);
    lemma_v6_upper_bits(h);
    assert(g[0] / 64 == h[0] / 64);
    assert(g[0] / 512 == (g[0] / 64) / 8);
    assert(h[0] / 512 == (h[0] / 64) / 8);
}

/// An address stands for its octets or its segments.
pub proof fn addresses_stand_for_their_parts(ip: IpAddress)
    ensures
        match ip {
            IpAddress::V4(o) => ip@ == IpValue::V4(o@),
            IpAddress::V6(g) => ip@ == IpValue::V6(g@),
        },
{
}

} // verus!
