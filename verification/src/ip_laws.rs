//! What holds of IP address notation as a whole.
use vstd::prelude::*;

use crate::ip;
use crate::ip::IpValue;
use crate::text;

verus! {

/// The dotted-decimal notation of four octets.
pub open spec fn dotted(o: Seq<u8>) -> Seq<char> {
    text::join(
        seq![
            text::decimal(o[0] as nat),
            text::decimal(o[1] as nat),
            text::decimal(o[2] as nat),
            text::decimal(o[3] as nat),
        ],
        '.',
    )
}

/// The decimal notation of an octet is read back as that octet.
proof fn lemma_octet_decimal(n: u8)
    ensures
        ip::octet(text::decimal(n as nat)) == Some(n),
        !text::decimal(n as nat).contains('.'),
{
    let s = text::decimal(n as nat);
    reveal_with_fuel(text::decimal, 4);
    reveal_with_fuel(text::number, 4);
    text::lemma_decimal_nonempty(n as nat);
    if n < 10 {
        assert(s.drop_last() =~= Seq::<char>::empty());
    } else if n < 100 {
        assert(s.drop_last() =~= text::decimal((n / 10) as nat));
        assert(s.drop_last().drop_last() =~= Seq::<char>::empty());
    } else {
        assert(s.drop_last() =~= text::decimal((n / 10) as nat));
        assert(s.drop_last().drop_last() =~= text::decimal((n / 100) as nat));
        assert(s.drop_last().drop_last().drop_last() =~= Seq::<char>::empty());
    }
    assert(text::number(s, 10) == n);
}

/// Every IPv4 address is read back from its dotted-decimal notation.
pub proof fn dotted_denotes_its_octets(o: Seq<u8>)
    requires
        o.len() == 4,
    ensures
        ip::ip_value(dotted(o)) == Some(IpValue::V4(o)),
{
    let p = seq![
        text::decimal(o[0] as nat),
        text::decimal(o[1] as nat),
        text::decimal(o[2] as nat),
        text::decimal(o[3] as nat),
    ];
    lemma_octet_decimal(o[0]);
    lemma_octet_decimal(o[1]);
    lemma_octet_decimal(o[2]);
    lemma_octet_decimal(o[3]);
    text::split_undoes_join(p, '.');
    assert(ip::ipv4(dotted(o))->0 =~= o);
}

/// Dotted-decimal notation starts and ends with a digit.
pub proof fn lemma_dotted_ends(o: Seq<u8>)
    requires
        o.len() == 4,
    ensures
        dotted(o).len() > 0,
        '0' <= dotted(o)[0] <= '9',
        '0' <= dotted(o).last() <= '9',
{
    let a = text::decimal(o[0] as nat);
    let b = text::decimal(o[1] as nat);
    let c = text::decimal(o[2] as nat);
    let d = text::decimal(o[3] as nat);
    text::lemma_decimal_nonempty(o[0] as nat);
    text::lemma_decimal_nonempty(o[3] as nat);
    reveal_with_fuel(text::join, 4);
    let p = seq![a, b, c, d];
    assert(p.drop_last() =~= seq![a, b, c]);
    assert(p.drop_last().drop_last() =~= seq![a, b]);
    assert(p.drop_last().drop_last().drop_last() =~= seq![a]);
    assert(dotted(o) =~= ((a.push('.') + b).push('.') + c).push('.') + d);
    assert(dotted(o)[0] == a[0]);
    assert(dotted(o).last() == d.last());
}

/// Dotted-decimal notation is made of digits and dots, at most fifteen.
pub proof fn lemma_dotted_chars(o: Seq<u8>)
    requires
        o.len() == 4,
    ensures
        7 <= dotted(o).len() <= 15,
        forall|i: int|
            0 <= i < dotted(o).len() ==> ('0' <= #[trigger] dotted(o)[i] <= '9' || dotted(o)[i]
                == '.'),
{
    let a = text::decimal(o[0] as nat);
    let b = text::decimal(o[1] as nat);
    let c = text::decimal(o[2] as nat);
    let d = text::decimal(o[3] as nat);
    lemma_octet_decimal(o[0]);
    lemma_octet_decimal(o[1]);
    lemma_octet_decimal(o[2]);
    lemma_octet_decimal(o[3]);
    text::lemma_decimal_nonempty(o[0] as nat);
    text::lemma_decimal_nonempty(o[1] as nat);
    text::lemma_decimal_nonempty(o[2] as nat);
    text::lemma_decimal_nonempty(o[3] as nat);
    reveal_with_fuel(text::join, 4);
    let p = seq![a, b, c, d];
    assert(p.drop_last() =~= seq![a, b, c]);
    assert(p.drop_last().drop_last() =~= seq![a, b]);
    assert(p.drop_last().drop_last().drop_last() =~= seq![a]);
    let ab = a.push('.') + b;
    let abc = ab.push('.') + c;
    assert(dotted(o) =~= abc.push('.') + d);
    assert forall|i: int| 0 <= i < dotted(o).len() implies ('0' <= #[trigger] dotted(o)[i] <= '9'
        || dotted(o)[i] == '.') by {
        if i < a.len() {
            assert(dotted(o)[i] == a[i]);
        } else if a.len() < i < ab.len() {
            assert(dotted(o)[i] == b[i - a.len() - 1]);
        } else if ab.len() < i < abc.len() {
            assert(dotted(o)[i] == c[i - ab.len() - 1]);
        } else if abc.len() < i {
            assert(dotted(o)[i] == d[i - abc.len() - 1]);
        }
    }
}

/// Whether all pieces are groups of an IPv6 address.
pub open spec fn all_groups(p: Seq<Seq<char>>) -> bool {
    forall|k: int| 0 <= k < p.len() ==> ip::group(#[trigger] p[k]) is Some
}

/// The segments that the pieces denote.
pub open spec fn group_values(p: Seq<Seq<char>>) -> Seq<u16> {
    p.map_values(|s: Seq<char>| ip::group(s)->0)
}

/// Groups joined by colons: no dots, no adjacent colons, no colon at the end.
pub proof fn lemma_join_groups(p: Seq<Seq<char>>)
    requires
        all_groups(p),
    ensures
        !text::join(p, ':').contains('.'),
        forall|k: int| !ip::is_gap(text::join(p, ':'), k),
        p.len() == 0 <==> text::join(p, ':').len() == 0,
        p.len() >= 1 ==> text::join(p, ':').last() != ':',
        forall|k: int| 0 <= k < p.len() ==> !(#[trigger] p[k]).contains(':'),
    decreases p.len(),
{
    let s = text::join(p, ':');
    assert forall|k: int| 0 <= k < p.len() implies !(#[trigger] p[k]).contains(':')
        && !p[k].contains('.') && p[k].len() >= 1 by {
        assert(ip::group(p[k]) is Some);
        if p[k].contains(':') {
            let i = choose|i: int| 0 <= i < p[k].len() && p[k][i] == ':';
            assert(text::is_digit(p[k][i], 16));
        }
        if p[k].contains('.') {
            let i = choose|i: int| 0 <= i < p[k].len() && p[k][i] == '.';
            assert(text::is_digit(p[k][i], 16));
        }
    }
    if p.len() == 1 {
        let b = p[0];
        assert(b.contains(b.last()));
        assert forall|k: int| !ip::is_gap(s, k) by {
            if ip::is_gap(s, k) {
                assert(b.contains(b[k]));
            }
        }
    } else if p.len() > 1 {
        let init = p.drop_last();
        let b = p.last();
        assert(b == p[p.len() - 1]);
        assert(all_groups(init)) by {
            assert forall|k: int| 0 <= k < init.len() implies ip::group(
                #[trigger] init[k],
            ) is Some by {
                assert(init[k] == p[k]);
            }
        }
        lemma_join_groups(init);
        let a = text::join(init, ':');
        assert(s =~= a.push(':') + b);
        assert(b.contains(b[0]));
        assert(b.contains(b.last()));
        assert(s.last() == b.last());
        assert forall|k: int| !ip::is_gap(s, k) by {
            if ip::is_gap(s, k) {
                if k + 1 < a.len() {
                    assert(ip::is_gap(a, k));
                } else if k + 1 == a.len() {
                    assert(a.last() == s[k]);
                } else {
                    assert(s[k + 1] == b[k + 1 - a.len() - 1]);
                    assert(b.contains(b[k + 1 - a.len() - 1]));
                }
            }
        }
        if s.contains('.') {
            let i = choose|i: int| 0 <= i < s.len() && s[i] == '.';
            if i < a.len() {
                assert(a[i] == '.');
            } else {
                assert(b[i - a.len() - 1] == '.');
            }
        }
    }
}

/// Groups joined by colons start and end with a digit.
pub proof fn lemma_join_ends(p: Seq<Seq<char>>)
    requires
        all_groups(p),
    ensures
        p.len() > 0 ==> text::join(p, ':').len() > 0 && text::is_digit(text::join(p, ':')[0], 16)
            && text::is_digit(text::join(p, ':').last(), 16),
        p.len() == 0 ==> text::join(p, ':').len() == 0,
    decreases p.len(),
{
    if p.len() > 0 {
        assert(ip::group(p[0]) is Some && ip::group(p[p.len() - 1]) is Some);
        let b = p.last();
        assert(text::is_digit(b[b.len() - 1], 16));
        assert(text::is_digit(p[0][0], 16));
        if p.len() > 1 {
            let init = p.drop_last();
            assert forall|k: int| 0 <= k < init.len() implies ip::group(#[trigger] init[k]) is Some by {
                assert(init[k] == p[k]);
            }
            lemma_join_ends(init);
        }
    }
}

/// What groups joined by colons denote.
pub proof fn lemma_groups_of_join(p: Seq<Seq<char>>, v4_tail: bool)
    requires
        all_groups(p),
    ensures
        ip::groups(text::join(p, ':'), v4_tail) == Some(group_values(p)),
{
    let s = text::join(p, ':');
    lemma_join_groups(p);
    if p.len() == 0 {
        assert(group_values(p) =~= Seq::<u16>::empty());
    } else {
        text::split_undoes_join(p, ':');
        let init = Seq::new((p.len() - 1) as nat, |k: int| ip::group(p[k])->0);
        assert(ip::group(p[p.len() - 1]) is Some);
        assert(init.push(ip::group(p.last())->0) =~= group_values(p));
    }
}

/// A text without dots is no IPv4 address.
proof fn lemma_no_dots(s: Seq<char>)
    requires
        !s.contains('.'),
    ensures
        ip::ipv4(s) is None,
{
    text::lemma_split_single(s, '.');
}

/// Eight groups joined by colons denote the IPv6 address with those segments.
pub proof fn eight_groups_denote_their_segments(p: Seq<Seq<char>>)
    requires
        p.len() == 8,
        all_groups(p),
    ensures
        ip::ip_value(text::join(p, ':')) == Some(IpValue::V6(group_values(p))),
{
    lemma_join_groups(p);
    lemma_groups_of_join(p, true);
    lemma_no_dots(text::join(p, ':'));
}

/// Two colons stand for the zero segments between the groups on either side.
pub proof fn two_colons_denote_zeros(head: Seq<Seq<char>>, tail: Seq<Seq<char>>)
    requires
        all_groups(head),
        all_groups(tail),
        head.len() + tail.len() <= 7,
    ensures
        ip::ip_value(
            text::join(head, ':') + seq![':', ':'] + text::join(tail, ':'),
        ) == Some(
            IpValue::V6(
                group_values(head) + Seq::new(
                    (8 - head.len() - tail.len()) as nat,
                    |i: int| 0u16,
                ) + group_values(tail),
            ),
        ),
{
    let a = text::join(head, ':');
    let b = text::join(tail, ':');
    let s = a + seq![':', ':'] + b;
    let k = a.len() as int;
    lemma_join_groups(head);
    lemma_join_groups(tail);
    lemma_groups_of_join(head, false);
    lemma_groups_of_join(tail, true);
    assert(ip::is_gap(s, k));
    assert forall|j: int| 0 <= j < k implies !ip::is_gap(s, j) by {
        if ip::is_gap(s, j) {
            if j + 1 < k {
                assert(ip::is_gap(a, j));
            } else {
                assert(a.last() == s[j]);
            }
        }
    }
    assert(ip::is_first_gap(s, k));
    assert forall|j: int| ip::is_first_gap(s, j) implies j == k by {
        assert(ip::is_gap(s, j) && ip::is_gap(s, k));
    }
    assert(s.subrange(0, k) =~= a);
    assert(s.subrange(k + 2, s.len() as int) =~= b);
    assert(!s.contains('.')) by {
        if s.contains('.') {
            let i = choose|i: int| 0 <= i < s.len() && s[i] == '.';
            if i < k {
                assert(a[i] == '.');
            } else {
                assert(i >= k + 2);
                assert(b[i - k - 2] == '.');
            }
        }
    }
    lemma_no_dots(s);
}

/// Digits are the same digits in lower case.
proof fn lemma_digits_lower(s: Seq<char>, radix: int)
    requires
        radix == 10 || radix == 16,
    ensures
        text::all_digits(text::lower(s), radix) == text::all_digits(s, radix),
        text::all_digits(s, radix) ==> text::number(text::lower(s), radix) == text::number(s, radix),
    decreases s.len(),
{
    let t = text::lower(s);
    assert forall|i: int| 0 <= i < s.len() implies text::is_digit(#[trigger] t[i], radix)
        == text::is_digit(s[i], radix) by {}
    if text::all_digits(t, radix) {
        assert forall|i: int| 0 <= i < s.len() implies text::is_digit(#[trigger] s[i], radix) by {
            assert(text::is_digit(t[i], radix));
        }
    }
    if s.len() > 0 && text::all_digits(s, radix) {
        assert(text::is_digit(s.last(), radix));
        assert(text::all_digits(s.drop_last(), radix));
        lemma_digits_lower(s.drop_last(), radix);
        assert(t.drop_last() =~= text::lower(s.drop_last()));
        assert(text::digit_value(t.last()) == text::digit_value(s.last()));
    }
}

/// The notation of a group or an octet ignores case.
proof fn lemma_piece_lower(s: Seq<char>)
    ensures
        ip::octet(text::lower(s)) == ip::octet(s),
        ip::group(text::lower(s)) == ip::group(s),
{
    lemma_digits_lower(s, 10);
    lemma_digits_lower(s, 16);
}

/// Dotted-decimal notation ignores case.
proof fn lemma_ipv4_lower(s: Seq<char>)
    ensures
        ip::ipv4(text::lower(s)) == ip::ipv4(s),
{
    text::lemma_split_lower(s, '.');
    let p = text::split(s, '.');
    if p.len() == 4 {
        lemma_piece_lower(p[0]);
        lemma_piece_lower(p[1]);
        lemma_piece_lower(p[2]);
        lemma_piece_lower(p[3]);
    }
}

/// Colon-separated groups ignore case.
proof fn lemma_groups_lower(s: Seq<char>, v4_tail: bool)
    ensures
        ip::groups(text::lower(s), v4_tail) == ip::groups(s, v4_tail),
{
    text::lemma_split_lower(s, ':');
    text::lemma_split_nonempty(s, ':');
    let p = text::split(s, ':');
    let q = text::split(text::lower(s), ':');
    assert forall|k: int| 0 <= k < p.len() implies #[trigger] ip::group(q[k]) == ip::group(
        p[k],
    ) by {
        lemma_piece_lower(p[k]);
    }
    lemma_ipv4_lower(p.last());
    lemma_piece_lower(p.last());
    assert((forall|k: int| 0 <= k < p.len() - 1 ==> ip::group(#[trigger] q[k]) is Some) <==> (
    forall|k: int| 0 <= k < p.len() - 1 ==> ip::group(#[trigger] p[k]) is Some)) by {
        if forall|k: int| 0 <= k < p.len() - 1 ==> ip::group(#[trigger] q[k]) is Some {
            assert forall|k: int| 0 <= k < p.len() - 1 implies ip::group(#[trigger] p[k]) is Some by {
                assert(ip::group(q[k]) is Some);
            }
        }
    }
    assert(Seq::new((p.len() - 1) as nat, |k: int| ip::group(q[k])->0) =~= Seq::new(
        (p.len() - 1) as nat,
        |k: int| ip::group(p[k])->0,
    ));
}

/// The notation of an IP address ignores case.
pub proof fn ip_value_ignores_case(s: Seq<char>)
    ensures
        ip::ip_value(text::lower(s)) == ip::ip_value(s),
{
    let t = text::lower(s);
    lemma_ipv4_lower(s);
    assert forall|k: int| ip::is_gap(t, k) == ip::is_gap(s, k) by {}
    assert forall|k: int| ip::is_first_gap(t, k) == ip::is_first_gap(s, k) by {
        assert(ip::is_gap(t, k) == ip::is_gap(s, k));
        assert forall|j: int| 0 <= j < k implies ip::is_gap(t, j) == ip::is_gap(s, j) by {}
        if ip::is_first_gap(t, k) {
            assert forall|j: int| 0 <= j < k implies !ip::is_gap(s, j) by {
                assert(!ip::is_gap(t, j));
            }
        }
        if ip::is_first_gap(s, k) {
            assert forall|j: int| 0 <= j < k implies !ip::is_gap(t, j) by {
                assert(!ip::is_gap(s, j));
            }
        }
    }
    if exists|k: int| ip::is_first_gap(s, k) {
        let k = choose|k: int| ip::is_first_gap(s, k);
        let j = choose|k: int| ip::is_first_gap(t, k);
        assert(ip::is_first_gap(t, k));
        assert(ip::is_gap(t, j) && ip::is_gap(t, k));
        assert(j == k);
        assert(t.subrange(0, k) =~= text::lower(s.subrange(0, k)));
        assert(t.subrange(k + 2, t.len() as int) =~= text::lower(
            s.subrange(k + 2, s.len() as int),
        ));
        lemma_groups_lower(s.subrange(0, k), false);
        lemma_groups_lower(s.subrange(k + 2, s.len() as int), true);
    } else {
        assert(!exists|k: int| ip::is_first_gap(t, k)) by {
            if exists|k: int| ip::is_first_gap(t, k) {
                let k = choose|k: int| ip::is_first_gap(t, k);
                assert(ip::is_first_gap(s, k));
            }
        }
        lemma_groups_lower(s, true);
    }
}

/// The last character of a text that does not end in the separator is the last
/// character of its last piece.
proof fn lemma_last_of_split(s: Seq<char>, sep: char)
    requires
        s.len() > 0,
        s.last() != sep,
    ensures
        text::split(s, sep).len() >= 1,
        text::split(s, sep).last().len() > 0,
        text::split(s, sep).last().last() == s.last(),
{
    text::lemma_split_nonempty(s.drop_last(), sep);
}

/// Dotted-decimal notation ends in a decimal digit.
proof fn lemma_ipv4_ends_in_digit(s: Seq<char>)
    requires
        s.len() > 0,
        !text::is_digit(s.last(), 10),
    ensures
        ip::ipv4(s) is None,
{
    let p = text::split(s, '.');
    if s.last() == '.' {
        assert(p.last() =~= Seq::<char>::empty());
    } else {
        lemma_last_of_split(s, '.');
        let x = p.last();
        assert(!text::is_digit(x[x.len() - 1], 10));
        assert(!text::all_digits(x, 10));
    }
    if p.len() == 4 {
        assert(p.last() == p[3]);
    }
}

/// Colon-separated groups end in a hexadecimal digit.
proof fn lemma_groups_end_in_digit(s: Seq<char>, v4_tail: bool)
    requires
        s.len() > 0,
        !text::is_digit(s.last(), 16),
        s.last() != ':',
    ensures
        ip::groups(s, v4_tail) is None,
{
    lemma_last_of_split(s, ':');
    let x = text::split(s, ':').last();
    assert(!text::is_digit(x[x.len() - 1], 16));
    assert(!text::all_digits(x, 16));
    lemma_ipv4_ends_in_digit(x);
}

/// An IP address literal ends in a hexadecimal digit or a colon.
pub proof fn ip_value_ends_in_digit_or_colon(s: Seq<char>)
    requires
        s.len() > 0,
        !text::is_digit(s.last(), 16),
        s.last() != ':',
    ensures
        ip::ip_value(s) is None,
{
    lemma_ipv4_ends_in_digit(s);
    lemma_groups_end_in_digit(s, true);
    if exists|k: int| ip::is_first_gap(s, k) {
        let k = choose|k: int| ip::is_first_gap(s, k);
        assert(ip::is_gap(s, k));
        let tail = s.subrange(k + 2, s.len() as int);
        assert(s.last() == s[s.len() - 1]);
        assert(tail.len() > 0);
        assert(tail.last() == s.last());
        lemma_groups_end_in_digit(tail, true);
    }
}

} // verus!
