//! What holds of text as a whole, said of character codes and of positions.
use vstd::arithmetic::power::pow;
use vstd::prelude::*;

use crate::text;
use crate::text::CharSet;

verus! {

/// The value of a digit, by the code of its character.
pub open spec fn code_value(c: char) -> int {
    if c as int <= 57 {
        c as int - 48
    } else if c as int <= 70 {
        c as int - 55
    } else {
        c as int - 87
    }
}

/// Whether a character is a decimal digit, by its code.
pub open spec fn is_decimal_code(c: char) -> bool {
    48 <= c as int <= 57
}

/// Whether a character is a hexadecimal digit, by its code.
pub open spec fn is_hex_code(c: char) -> bool {
    is_decimal_code(c) || 65 <= c as int <= 70 || 97 <= c as int <= 102
}

/// The number that digits denote: each counts by its place, the first the most.
pub open spec fn place_value(s: Seq<char>, radix: int) -> int
    decreases s.len(),
{
    if s.len() == 0 {
        0
    } else {
        code_value(s[0]) * pow(radix, (s.len() - 1) as nat) + place_value(s.drop_first(), radix)
    }
}

/// Whether two texts differ in nothing but the case of ASCII letters.
pub open spec fn same_but_case(a: Seq<char>, b: Seq<char>) -> bool {
    &&& a.len() == b.len()
    &&& forall|i: int|
        0 <= i < a.len() ==> {
            ||| #[trigger] a[i] == b[i]
            ||| 65 <= a[i] as int <= 90 && b[i] as int == a[i] as int + 32
            ||| 97 <= a[i] as int <= 122 && b[i] as int == a[i] as int - 32
        }
}

/// The digits of either radix are those with the usual codes, and count what
/// their codes say.
pub proof fn digits_are_known_by_code(c: char)
    ensures
        text::is_digit(c, 10) <==> is_decimal_code(c),
        text::is_digit(c, 16) <==> is_hex_code(c),
        is_hex_code(c) ==> text::digit_value(c) == code_value(c) && 0 <= code_value(c) < 16,
        is_decimal_code(c) ==> 0 <= code_value(c) < 10,
{
}

/// One more digit multiplies the number by the radix and adds the digit.
proof fn lemma_place_value_push(s: Seq<char>, c: char, radix: int)
    ensures
        place_value(s.push(c), radix) == place_value(s, radix) * radix + code_value(c),
    decreases s.len(),
{
    reveal(pow);
    let t = s.push(c);
    if s.len() == 0 {
        assert(t.drop_first() =~= s);
        assert(pow(radix, 0) == 1);
        assert(place_value(s, radix) == 0);
        assert(code_value(c) * 1 == code_value(c));
        assert(0 * radix == 0) by (nonlinear_arith);
        assert(place_value(t, radix) == code_value(t[0]) * pow(radix, 0) + place_value(
            t.drop_first(),
            radix,
        ));
    } else {
        let rest = s.drop_first();
        assert(t.drop_first() =~= rest.push(c));
        lemma_place_value_push(rest, c, radix);
        let d = code_value(s[0]);
        let p = pow(radix, (s.len() - 1) as nat);
        assert(pow(radix, s.len()) == radix * p);
        let v = place_value(rest, radix);
        assert(d * (radix * p) + (v * radix + code_value(c)) == (d * p + v) * radix + code_value(
            c,
        )) by (nonlinear_arith);
    }
}

/// Digits are read by their places.
pub proof fn numbers_are_read_by_place(s: Seq<char>, radix: int)
    requires
        radix == 10 || radix == 16,
        forall|i: int|
            0 <= i < s.len() ==> is_decimal_code(#[trigger] s[i]) || radix == 16 && is_hex_code(
                s[i],
            ),
    ensures
        text::all_digits(s, radix),
        text::number(s, radix) == place_value(s, radix),
    decreases s.len(),
{
    if s.len() > 0 {
        let t = s.drop_last();
        assert forall|i: int| 0 <= i < t.len() implies is_decimal_code(#[trigger] t[i]) || radix
            == 16 && is_hex_code(t[i]) by {
            assert(t[i] == s[i]);
        }
        numbers_are_read_by_place(t, radix);
        lemma_place_value_push(t, s.last(), radix);
        assert(t.push(s.last()) =~= s);
        assert(s.last() == s[s.len() - 1]);
    }
}

/// A number is read back from its decimal notation, which is made of digits and
/// has no leading zero.
pub proof fn decimals_are_read_back(n: nat)
    ensures
        text::decimal(n).len() >= 1,
        forall|i: int| 0 <= i < text::decimal(n).len() ==> is_decimal_code(#[trigger] text::decimal(n)[i]),
        place_value(text::decimal(n), 10) == n,
        text::number(text::decimal(n), 10) == n,
        text::decimal(n)[0] == '0' ==> n == 0 && text::decimal(n).len() == 1,
    decreases n,
{
    let s = text::decimal(n);
    if n < 10 {
        assert(s =~= Seq::<char>::empty().push(text::digit_char(n)));
        lemma_place_value_push(Seq::empty(), text::digit_char(n), 10);
    } else {
        decimals_are_read_back(n / 10);
        lemma_place_value_push(text::decimal(n / 10), text::digit_char(n % 10), 10);
        assert(n == (n / 10) * 10 + n % 10);
        assert(s[0] == text::decimal(n / 10)[0]);
    }
    numbers_are_read_by_place(s, 10);
}

/// Digits without a leading zero are the decimal notation of the number that
/// they denote.
pub proof fn decimal_notation_is_unique(s: Seq<char>)
    requires
        s.len() >= 1,
        forall|i: int| 0 <= i < s.len() ==> is_decimal_code(#[trigger] s[i]),
        s.len() > 1 ==> s[0] != '0',
    ensures
        place_value(s, 10) >= 0,
        s.len() > 1 ==> place_value(s, 10) >= 10,
        text::decimal(place_value(s, 10) as nat) == s,
    decreases s.len(),
{
    let t = s.drop_last();
    let c = s.last();
    assert(c == s[s.len() - 1]);
    assert(t.push(c) =~= s);
    lemma_place_value_push(t, c, 10);
    if s.len() == 1 {
        assert(place_value(t, 10) == 0);
        assert(text::decimal(place_value(s, 10) as nat) =~= s);
    } else {
        assert forall|i: int| 0 <= i < t.len() implies is_decimal_code(#[trigger] t[i]) by {
            assert(t[i] == s[i]);
        }
        assert(t[0] == s[0]);
        decimal_notation_is_unique(t);
        let m = place_value(t, 10);
        assert(m >= 1) by {
            if t.len() == 1 {
                assert(t.drop_last() =~= Seq::<char>::empty());
                assert(t.drop_last().push(t[0]) =~= t);
                lemma_place_value_push(t.drop_last(), t[0], 10);
                assert(place_value(t.drop_last(), 10) == 0);
            }
        }
        let v = place_value(s, 10);
        assert(v == m * 10 + code_value(c));
        assert(v / 10 == m && v % 10 == code_value(c));
        assert(text::digit_char((v % 10) as nat) == c);
        assert(text::decimal(v as nat) =~= s);
    }
}

/// White space is what Unicode lists as such.
pub proof fn white_space_is_known_by_code(c: char)
    ensures
        text::is_white_space(c) <==> set![
            0x9int, 0xa, 0xb, 0xc, 0xd, 0x20, 0x85, 0xa0, 0x1680, 0x2000, 0x2001, 0x2002, 0x2003,
            0x2004, 0x2005, 0x2006, 0x2007, 0x2008, 0x2009, 0x200a, 0x2028, 0x2029, 0x202f, 0x205f,
            0x3000
        ].contains(c as int),
        CharSet::WhiteSpace.has(c) == text::is_white_space(c),
        CharSet::Brackets.has(c) <==> c as int == 91 || c as int == 93,
{
}

/// Trimming takes away a prefix and a suffix of the set's characters, and keeps
/// all of what is between them.
pub proof fn trimming_keeps_the_middle(a: Seq<char>, t: Seq<char>, b: Seq<char>, set: CharSet)
    requires
        forall|i: int| 0 <= i < a.len() ==> set.has(#[trigger] a[i]),
        forall|i: int| 0 <= i < b.len() ==> set.has(#[trigger] b[i]),
        t.len() > 0 ==> !set.has(t[0]) && !set.has(t.last()),
    ensures
        text::trim(a + t + b, set) == t,
    decreases a.len() + b.len(), b.len(),
{
    let s = a + t + b;
    if a.len() > 0 {
        assert(s[0] == a[0]);
        assert(s.drop_first() =~= a.drop_first() + t + b);
        assert forall|i: int| 0 <= i < a.drop_first().len() implies set.has(
            #[trigger] a.drop_first()[i],
        ) by {
            assert(a.drop_first()[i] == a[i + 1]);
        }
        trimming_keeps_the_middle(a.drop_first(), t, b, set);
    } else if b.len() > 0 && t.len() > 0 {
        assert(s[0] == t[0]);
        let c = b.drop_last();
        assert(s.last() == b[b.len() - 1]);
        assert(s.drop_last() =~= a + t + c);
        assert((a + t + c)[0] == t[0]);
        assert forall|i: int| 0 <= i < c.len() implies set.has(#[trigger] c[i]) by {
            assert(c[i] == b[i]);
        }
        trimming_keeps_the_middle(a, t, c, set);
        assert(text::trim_start(a + t + c, set) == a + t + c);
    } else if b.len() > 0 {
        assert(s =~= b + t + a);
        assert(s[0] == b[0]);
        trimming_keeps_the_middle(b, t, a, set);
    } else {
        assert(s =~= t);
    }
}

/// Joining puts the separator between the pieces, and nothing else.
pub proof fn joining_puts_separators_between(pieces: Seq<Seq<char>>, last: Seq<char>, sep: char)
    ensures
        text::join(Seq::<Seq<char>>::empty(), sep) == Seq::<char>::empty(),
        pieces.len() == 0 ==> text::join(pieces.push(last), sep) == last,
        pieces.len() > 0 ==> text::join(pieces.push(last), sep) == text::join(pieces, sep)
            + seq![sep] + last,
{
    let p = pieces.push(last);
    assert(p.drop_last() =~= pieces);
    if pieces.len() > 0 {
        assert(text::join(p, sep) =~= text::join(pieces, sep) + seq![sep] + last);
    }
}

/// Lower case shifts the upper-case ASCII letters by thirty-two, and leaves every
/// other character and the length as they are.
pub proof fn lower_case_is_known_by_code(s: Seq<char>)
    ensures
        text::lower(s).len() == s.len(),
        forall|i: int|
            0 <= i < s.len() ==> (#[trigger] text::lower(s)[i]) as int == (if 65 <= s[i] as int
                <= 90 {
                s[i] as int + 32
            } else {
                s[i] as int
            }),
{
    assert forall|i: int| 0 <= i < s.len() implies (#[trigger] text::lower(s)[i]) as int == (
    if 65 <= s[i] as int <= 90 {
        s[i] as int + 32
    } else {
        s[i] as int
    }) by {}
}

/// Lower case shifts an upper-case ASCII letter by thirty-two, and leaves every
/// other character as it is.
pub proof fn lower_characters_are_known_by_code(c: char)
    ensures
        text::lower_char(c) as int == (if 65 <= c as int <= 90 {
            c as int + 32
        } else {
            c as int
        }),
{
}

/// Two texts have the same lower case if and only if they differ in nothing but
/// the case of letters.
pub proof fn lower_case_is_equal_but_for_case(a: Seq<char>, b: Seq<char>)
    ensures
        text::lower(a) == text::lower(b) <==> same_but_case(a, b),
{
    lower_case_is_known_by_code(a);
    lower_case_is_known_by_code(b);
    let x = text::lower(a);
    let y = text::lower(b);
    if x == y {
        assert forall|i: int| 0 <= i < a.len() implies {
            ||| #[trigger] a[i] == b[i]
            ||| 65 <= a[i] as int <= 90 && b[i] as int == a[i] as int + 32
            ||| 97 <= a[i] as int <= 122 && b[i] as int == a[i] as int - 32
        } by {
            assert(x[i] == y[i]);
            assert(x[i] as int == y[i] as int);
        }
    }
    if same_but_case(a, b) {
        assert forall|i: int| 0 <= i < x.len() implies x[i] == #[trigger] y[i] by {
            assert(a[i] == a[i]);
            assert(x[i] as int == y[i] as int);
        }
        assert(x =~= y);
    }
}

/// A text ends in what was put behind it, and in nothing else.
pub proof fn endings_are_suffixes(a: Seq<char>, b: Seq<char>)
    ensures
        text::ends_with(a + b, b),
        text::ends_with(a, b) <==> exists|c: Seq<char>| a == #[trigger] (c + b),
{
    assert((a + b).subrange(a.len() as int, (a + b).len() as int) =~= b);
    if text::ends_with(a, b) {
        let c = a.take(a.len() - b.len());
        assert(a =~= c + b);
    }
    if exists|c: Seq<char>| a == #[trigger] (c + b) {
        let c = choose|c: Seq<char>| a == #[trigger] (c + b);
        assert(a.subrange(a.len() - b.len(), a.len() as int) =~= b);
    }
}

/// Optional strings and lists of strings stand for their characters.
pub proof fn strings_stand_for_their_characters(s: String, t: &str, v: Seq<String>, k: int)
    ensures
        text::text_of(Some(s)) == Some(s@),
        text::text_of(None) is None,
        text::str_of(Some(t)) == Some(t@),
        text::str_of(None) is None,
        text::texts(v).len() == v.len(),
        0 <= k < v.len() ==> text::texts(v)[k] == v[k]@,
{
}

/// A digit below ten has the code that many above that of zero.
pub proof fn digit_characters_are_known_by_code(d: nat)
    requires
        d < 10,
    ensures
        text::digit_char(d) as int == 48 + d,
{
}

} // verus!
