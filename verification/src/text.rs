//! Operations on character sequences: trimming, splitting, ASCII case folding
//! and decimal notation.
//!
//! The executable functions work on a `Vec<char>` and index ranges into it;
//! their contracts speak of the subsequences that the ranges select.
use vstd::prelude::*;

verus! {

/// A set of characters that [`trim`] removes from both ends of a text.
#[derive(Clone, Copy)]
pub enum CharSet {
    /// The characters with the Unicode property `White_Space`.
    WhiteSpace,
    /// The two square brackets.
    Brackets,
}

/// The characters with the Unicode property `White_Space`.
pub open spec fn is_white_space(c: char) -> bool {
    ||| '\u{9}' <= c <= '\u{d}'
    ||| c == '\u{20}'
    ||| c == '\u{85}'
    ||| c == '\u{a0}'
    ||| c == '\u{1680}'
    ||| '\u{2000}' <= c <= '\u{200a}'
    ||| c == '\u{2028}'
    ||| c == '\u{2029}'
    ||| c == '\u{202f}'
    ||| c == '\u{205f}'
    ||| c == '\u{3000}'
}

impl CharSet {
    /// Membership of a character.
    pub open spec fn has(self, c: char) -> bool {
        match self {
            CharSet::WhiteSpace => is_white_space(c),
            CharSet::Brackets => c == '[' || c == ']',
        }
    }

    /// Tests the membership of a character.
    pub fn contains(&self, c: char) -> (r: bool)
        ensures
            r == self.has(c),
    {
        match self {
            CharSet::WhiteSpace => {
                ('\u{9}' <= c && c <= '\u{d}') || c == '\u{20}' || c == '\u{85}' || c == '\u{a0}'
                    || c == '\u{1680}' || ('\u{2000}' <= c && c <= '\u{200a}') || c == '\u{2028}'
                    || c == '\u{2029}' || c == '\u{202f}' || c == '\u{205f}' || c == '\u{3000}'
            },
            CharSet::Brackets => c == '[' || c == ']',
        }
    }
}

/// `s` without its leading characters that are in `set`.
pub open spec fn trim_start(s: Seq<char>, set: CharSet) -> Seq<char>
    decreases s.len(),
{
    if s.len() > 0 && set.has(s[0]) {
        trim_start(s.drop_first(), set)
    } else {
        s
    }
}

/// `s` without its trailing characters that are in `set`.
pub open spec fn trim_end(s: Seq<char>, set: CharSet) -> Seq<char>
    decreases s.len(),
{
    if s.len() > 0 && set.has(s.last()) {
        trim_end(s.drop_last(), set)
    } else {
        s
    }
}

/// `s` without its leading and its trailing characters that are in `set`.
pub open spec fn trim(s: Seq<char>, set: CharSet) -> Seq<char> {
    trim_end(trim_start(s, set), set)
}

/// The pieces of `s` between occurrences of `sep`: one more than there are
/// occurrences, in order, empty ones included.
pub open spec fn split(s: Seq<char>, sep: char) -> Seq<Seq<char>>
    decreases s.len(),
{
    if s.len() == 0 {
        seq![Seq::empty()]
    } else {
        let init = split(s.drop_last(), sep);
        if s.last() == sep {
            init.push(Seq::empty())
        } else {
            init.drop_last().push(init.last().push(s.last()))
        }
    }
}

/// The pieces joined again, with `sep` between neighbours.
pub open spec fn join(pieces: Seq<Seq<char>>, sep: char) -> Seq<char>
    decreases pieces.len(),
{
    if pieces.len() == 0 {
        Seq::empty()
    } else if pieces.len() == 1 {
        pieces[0]
    } else {
        join(pieces.drop_last(), sep).push(sep) + pieces.last()
    }
}

/// The lower-case form of an ASCII letter; any other character as it is.
pub open spec fn lower_char(c: char) -> char {
    if 'A' <= c <= 'Z' {
        ((c as u8) + 32) as char
    } else {
        c
    }
}

/// `s` with its ASCII letters in lower case.
pub open spec fn lower(s: Seq<char>) -> Seq<char> {
    s.map_values(|c: char| lower_char(c))
}

/// Whether `s` ends in `suffix`.
pub open spec fn ends_with(s: Seq<char>, suffix: Seq<char>) -> bool {
    &&& suffix.len() <= s.len()
    &&& s.subrange(s.len() - suffix.len(), s.len() as int) == suffix
}

/// The digit for a number below ten.
pub open spec fn digit_char(d: nat) -> char
    recommends
        d < 10,
{
    (('0' as u8) + d) as char
}

/// The decimal notation of `n`, without leading zeros.
pub open spec fn decimal(n: nat) -> Seq<char>
    decreases n,
{
    if n < 10 {
        seq![digit_char(n)]
    } else {
        decimal(n / 10).push(digit_char(n % 10))
    }
}

/// Whether `c` is a digit of the given radix, 10 or 16.
pub open spec fn is_digit(c: char, radix: int) -> bool {
    ||| '0' <= c <= '9'
    ||| radix == 16 && 'a' <= c <= 'f'
    ||| radix == 16 && 'A' <= c <= 'F'
}

/// The value of a digit.
pub open spec fn digit_value(c: char) -> int {
    if '0' <= c <= '9' {
        c as int - '0' as int
    } else if 'a' <= c <= 'f' {
        c as int - 'a' as int + 10
    } else {
        c as int - 'A' as int + 10
    }
}

/// Whether all of `s` are digits of the given radix.
pub open spec fn all_digits(s: Seq<char>, radix: int) -> bool {
    forall|i: int| 0 <= i < s.len() ==> is_digit(#[trigger] s[i], radix)
}

/// The number that the digits `s` denote.
pub open spec fn number(s: Seq<char>, radix: int) -> int
    decreases s.len(),
{
    if s.len() == 0 {
        0
    } else {
        number(s.drop_last(), radix) * radix + digit_value(s.last())
    }
}

/// The characters of an optional string.
pub open spec fn text_of(s: Option<String>) -> Option<Seq<char>> {
    match s {
        Some(s) => Some(s@),
        None => None,
    }
}

/// The characters of an optional string slice.
pub open spec fn str_of(s: Option<&str>) -> Option<Seq<char>> {
    match s {
        Some(s) => Some(s@),
        None => None,
    }
}

/// The characters of each string of a list.
pub open spec fn texts(v: Seq<String>) -> Seq<Seq<char>> {
    v.map_values(|s: String| s@)
}

/// The characters of a string.
pub fn chars_of(s: &str) -> (r: Vec<char>)
    ensures
        r@ == s@,
{
    let mut r: Vec<char> = Vec::new();
    for c in it: s.chars()
        invariant
            r@ == s@.take(it.index() as int),
            it.seq() == s@,
    {
        proof {
            assert(s@.take(it.index() + 1) =~= s@.take(it.index() as int).push(c));
        }
        r.push(c);
    }
    proof {
        assert(s@.take(s@.len() as int) =~= s@);
    }
    r
}

/// Whether two strings hold the same characters.
pub fn same_text(a: &str, b: &str) -> (r: bool)
    ensures
        r == (a@ == b@),
{
    let a: String = a.to_owned();
    let b: String = b.to_owned();
    a == b
}

/// The range of `chars[lo..hi]` that is left when it is trimmed.
pub fn trim_range(chars: &Vec<char>, lo: usize, hi: usize, set: CharSet) -> (r: (usize, usize))
    requires
        lo <= hi <= chars.len(),
    ensures
        lo <= r.0 <= r.1 <= hi,
        chars@.subrange(r.0 as int, r.1 as int) == trim(chars@.subrange(lo as int, hi as int), set),
{
    let mut a: usize = lo;
    while a < hi && set.contains(chars[a])
        invariant
            lo <= a <= hi <= chars.len(),
            trim_start(chars@.subrange(lo as int, hi as int), set) == trim_start(
                chars@.subrange(a as int, hi as int),
                set,
            ),
        decreases hi - a,
    {
        proof {
            let s = chars@.subrange(a as int, hi as int);
            assert(s.drop_first() =~= chars@.subrange(a + 1, hi as int));
        }
        a = a + 1;
    }
    let mut b: usize = hi;
    let ghost kept = chars@.subrange(a as int, hi as int);
    while b > a && set.contains(chars[b - 1])
        invariant
            lo <= a <= b <= hi <= chars.len(),
            trim_end(kept, set) == trim_end(chars@.subrange(a as int, b as int), set),
        decreases b - a,
    {
        proof {
            let s = chars@.subrange(a as int, b as int);
            assert(s.drop_last() =~= chars@.subrange(a as int, b - 1));
        }
        b = b - 1;
    }
    (a, b)
}

/// The ranges of the pieces of `chars[lo..hi]` between occurrences of `sep`.
pub fn split_ranges(chars: &Vec<char>, lo: usize, hi: usize, sep: char) -> (r: Vec<(usize, usize)>)
    requires
        lo <= hi <= chars.len(),
    ensures
        r.len() == split(chars@.subrange(lo as int, hi as int), sep).len(),
        forall|k: int| 0 <= k < r.len() ==> lo <= (#[trigger] r[k]).0 <= r[k].1 <= hi,
        forall|k: int|
            0 <= k < r.len() ==> chars@.subrange((#[trigger] r[k]).0 as int, r[k].1 as int)
                == split(chars@.subrange(lo as int, hi as int), sep)[k],
{
    let mut r: Vec<(usize, usize)> = Vec::new();
    let mut start: usize = lo;
    let mut i: usize = lo;
    proof {
        assert(chars@.subrange(lo as int, lo as int) =~= Seq::<char>::empty());
    }
    while i < hi
        invariant
            lo <= start <= i <= hi <= chars.len(),
            r.len() + 1 == split(chars@.subrange(lo as int, i as int), sep).len(),
            forall|k: int| 0 <= k < r.len() ==> lo <= (#[trigger] r[k]).0 <= r[k].1 <= i,
            forall|k: int|
                0 <= k < r.len() ==> chars@.subrange((#[trigger] r[k]).0 as int, r[k].1 as int)
                    == split(chars@.subrange(lo as int, i as int), sep)[k],
            chars@.subrange(start as int, i as int) == split(
                chars@.subrange(lo as int, i as int),
                sep,
            ).last(),
        decreases hi - i,
    {
        proof {
            let s = chars@.subrange(lo as int, i + 1);
            assert(s.drop_last() =~= chars@.subrange(lo as int, i as int));
            assert(s.last() == chars@[i as int]);
            assert(chars@.subrange(i + 1, i + 1) =~= Seq::<char>::empty());
            assert(chars@.subrange(start as int, i + 1) =~= chars@.subrange(
                start as int,
                i as int,
            ).push(chars@[i as int]));
        }
        if chars[i] == sep {
            r.push((start, i));
            start = i + 1;
        }
        i = i + 1;
    }
    r.push((start, hi));
    r
}

/// The lower-case form of an ASCII letter; any other character as it is.
pub fn lower_of(c: char) -> (r: char)
    ensures
        r == lower_char(c),
{
    if 'A' <= c && c <= 'Z' {
        (c as u8 + 32) as char
    } else {
        c
    }
}

/// Whether the characters `chars[lo..hi]`, in lower case, are those of `word`.
pub fn lower_range_is(chars: &Vec<char>, lo: usize, hi: usize, word: &Vec<char>) -> (r: bool)
    requires
        lo <= hi <= chars.len(),
    ensures
        r == (lower(chars@.subrange(lo as int, hi as int)) == word@),
{
    let ghost s = lower(chars@.subrange(lo as int, hi as int));
    if hi - lo != word.len() {
        return false;
    }
    let mut i: usize = 0;
    while i < word.len()
        invariant
            lo <= hi <= chars.len(),
            hi - lo == word.len(),
            i <= word.len(),
            s == lower(chars@.subrange(lo as int, hi as int)),
            forall|k: int| 0 <= k < i ==> s[k] == #[trigger] word[k],
        decreases word.len() - i,
    {
        if lower_of(chars[lo + i]) != word[i] {
            proof {
                assert(s[i as int] != word[i as int]);
            }
            return false;
        }
        i = i + 1;
    }
    proof {
        assert(s =~= word@);
    }
    true
}

/// Tests whether `c` is a digit of the given radix, 10 or 16.
pub fn digit_test(c: char, radix: u32) -> (r: bool)
    ensures
        r == is_digit(c, radix as int),
{
    ('0' <= c && c <= '9') || (radix == 16 && 'a' <= c && c <= 'f') || (radix == 16 && 'A' <= c && c
        <= 'F')
}

/// The value of a digit.
pub fn digit_of(c: char) -> (r: u32)
    requires
        is_digit(c, 16),
    ensures
        r == digit_value(c),
        r < 16,
{
    if '0' <= c && c <= '9' {
        c as u32 - '0' as u32
    } else if 'a' <= c && c <= 'f' {
        c as u32 - 'a' as u32 + 10
    } else {
        c as u32 - 'A' as u32 + 10
    }
}

/// The one-character string for a digit.
fn digit_str(d: u8) -> (r: &'static str)
    requires
        d < 10,
    ensures
        r@ == seq![digit_char(d as nat)],
{
    proof {
        reveal_strlit("0");
        reveal_strlit("1");
        reveal_strlit("2");
        reveal_strlit("3");
        reveal_strlit("4");
        reveal_strlit("5");
        reveal_strlit("6");
        reveal_strlit("7");
        reveal_strlit("8");
        reveal_strlit("9");
    }
    match d {
        0 => "0",
        1 => "1",
        2 => "2",
        3 => "3",
        4 => "4",
        5 => "5",
        6 => "6",
        7 => "7",
        8 => "8",
        _ => "9",
    }
}

/// The decimal notation of a number.
pub fn to_decimal(n: u128) -> (r: String)
    ensures
        r@ == decimal(n as nat),
    decreases n,
{
    if n < 10 {
        digit_str(n as u8).to_owned()
    } else {
        let mut r: String = to_decimal(n / 10);
        r.append(digit_str((n % 10) as u8));
        r
    }
}

/// Splitting yields at least one piece.
pub proof fn lemma_split_nonempty(s: Seq<char>, sep: char)
    ensures
        split(s, sep).len() >= 1,
    decreases s.len(),
{
    if s.len() > 0 {
        lemma_split_nonempty(s.drop_last(), sep);
    }
}

/// Trimming the end keeps a prefix.
pub proof fn lemma_trim_end_is_prefix(s: Seq<char>, set: CharSet)
    ensures
        trim_end(s, set).len() <= s.len(),
        trim_end(s, set) == s.take(trim_end(s, set).len() as int),
    decreases s.len(),
{
    let t = trim_end(s, set);
    if s.len() > 0 && set.has(s.last()) {
        lemma_trim_end_is_prefix(s.drop_last(), set);
    }
    assert(t =~= s.take(t.len() as int));
}

/// Trimming keeps one stretch of a text.
pub proof fn lemma_trim_is_subrange(s: Seq<char>, set: CharSet)
    ensures
        exists|a: int|
            0 <= a <= a + trim(s, set).len() <= s.len() && trim(s, set) == #[trigger] s.subrange(
                a,
                a + trim(s, set).len(),
            ),
    decreases s.len(),
{
    let t = trim(s, set);
    if s.len() > 0 && set.has(s[0]) {
        let u = s.drop_first();
        lemma_trim_is_subrange(u, set);
        let a = choose|a: int|
            0 <= a <= a + t.len() <= u.len() && t == #[trigger] u.subrange(a, a + t.len());
        assert(t =~= s.subrange(a + 1, a + 1 + t.len()));
    } else {
        lemma_trim_end_is_prefix(s, set);
        assert(t =~= s.subrange(0, 0int + t.len()));
    }
}

/// Appending a text without separators extends the last piece by it.
proof fn lemma_split_append(s: Seq<char>, t: Seq<char>, sep: char)
    requires
        !t.contains(sep),
    ensures
        split(s + t, sep) == split(s, sep).drop_last().push(split(s, sep).last() + t),
    decreases t.len(),
{
    lemma_split_nonempty(s, sep);
    if t.len() == 0 {
        assert(s + t =~= s);
        assert(split(s, sep).last() + t =~= split(s, sep).last());
        assert(split(s, sep).drop_last().push(split(s, sep).last()) =~= split(s, sep));
    } else {
        let u = t.drop_last();
        assert(t.last() == t[t.len() - 1]);
        assert(t.contains(t.last()));
        assert(!u.contains(sep)) by {
            if u.contains(sep) {
                let i = choose|i: int| 0 <= i < u.len() && u[i] == sep;
                assert(t[i] == sep);
            }
        }
        lemma_split_append(s, u, sep);
        assert((s + t).drop_last() =~= s + u);
        assert((s + t).last() == t.last());
        let p = split(s, sep);
        let init = split(s + u, sep);
        assert(init.drop_last() =~= p.drop_last());
        assert(init.last().push(t.last()) =~= p.last() + t);
    }
}

/// A text without separators is its own only piece.
pub proof fn lemma_split_single(s: Seq<char>, sep: char)
    requires
        !s.contains(sep),
    ensures
        split(s, sep) == seq![s],
{
    let e = Seq::<char>::empty();
    lemma_split_append(e, s, sep);
    assert(e + s =~= s);
    assert(split(e, sep) =~= seq![e]);
    assert(split(e, sep).drop_last().push(e + s) =~= seq![s]);
}

/// Splitting undoes joining: pieces without separators come back as they were.
pub proof fn split_undoes_join(pieces: Seq<Seq<char>>, sep: char)
    requires
        pieces.len() >= 1,
        forall|k: int| 0 <= k < pieces.len() ==> !(#[trigger] pieces[k]).contains(sep),
    ensures
        split(join(pieces, sep), sep) == pieces,
    decreases pieces.len(),
{
    if pieces.len() == 1 {
        lemma_split_single(pieces[0], sep);
        assert(pieces =~= seq![pieces[0]]);
    } else {
        let init = pieces.drop_last();
        split_undoes_join(init, sep);
        let a = join(init, sep);
        assert(a.push(sep).drop_last() =~= a);
        assert(split(a.push(sep), sep) == init.push(Seq::empty()));
        lemma_split_append(a.push(sep), pieces.last(), sep);
        let e = Seq::<char>::empty();
        assert(init.push(e).drop_last() =~= init);
        assert(e + pieces.last() =~= pieces.last());
        assert(init.push(pieces.last()) =~= pieces);
    }
}

/// Joining undoes splitting, and no piece holds the separator.
pub proof fn join_undoes_split(s: Seq<char>, sep: char)
    ensures
        join(split(s, sep), sep) == s,
        forall|k: int| 0 <= k < split(s, sep).len() ==> !(#[trigger] split(s, sep)[k]).contains(sep),
    decreases s.len(),
{
    let p = split(s, sep);
    if s.len() == 0 {
        assert(join(p, sep) =~= s);
    } else {
        let init = split(s.drop_last(), sep);
        join_undoes_split(s.drop_last(), sep);
        lemma_split_nonempty(s.drop_last(), sep);
        assert(s =~= s.drop_last().push(s.last()));
        if s.last() == sep {
            assert(p.drop_last() =~= init);
            assert(join(p, sep) =~= join(init, sep).push(sep));
        } else {
            assert(p.drop_last() =~= init.drop_last());
            assert(p.last() =~= init.last().push(s.last()));
            assert(join(p, sep) =~= join(init, sep).push(s.last()));
            assert forall|k: int| 0 <= k < p.len() implies !(#[trigger] p[k]).contains(sep) by {
                if k < p.len() - 1 {
                    assert(p[k] == init[k]);
                } else {
                    assert(!init[init.len() - 1].contains(sep));
                    if p[k].contains(sep) {
                        let i = choose|i: int| 0 <= i < p[k].len() && p[k][i] == sep;
                        assert(init.last()[i] == sep);
                    }
                }
            }
        }
    }
}

/// Lower case is stable: folding twice is folding once.
pub proof fn lower_is_idempotent(s: Seq<char>)
    ensures
        lower(lower(s)) == lower(s),
{
    assert(lower(lower(s)) =~= lower(s));
}

/// Folding case first changes nothing about where a text is split, as long as
/// the separator is no letter.
pub proof fn lemma_split_lower(s: Seq<char>, sep: char)
    requires
        !('A' <= sep <= 'Z'),
        !('a' <= sep <= 'z'),
    ensures
        split(lower(s), sep) == split(s, sep).map_values(|p: Seq<char>| lower(p)),
    decreases s.len(),
{
    let f = |p: Seq<char>| lower(p);
    lemma_split_nonempty(s, sep);
    if s.len() == 0 {
        assert(lower(s) =~= s);
        assert(split(s, sep).map_values(f) =~= split(s, sep)) by {
            assert(lower(split(s, sep)[0]) =~= split(s, sep)[0]);
        }
    } else {
        let t = s.drop_last();
        lemma_split_nonempty(t, sep);
        lemma_split_lower(t, sep);
        assert(lower(s).drop_last() =~= lower(t));
        assert(lower(s).last() == lower_char(s.last()));
        let init = split(t, sep);
        if s.last() == sep {
            assert(lower(Seq::<char>::empty()) =~= Seq::<char>::empty());
            assert(split(lower(s), sep) =~= split(s, sep).map_values(f));
        } else {
            assert(lower_char(s.last()) != sep);
            assert(lower(init.last().push(s.last())) =~= lower(init.last()).push(
                lower_char(s.last()),
            ));
            assert(split(lower(s), sep) =~= split(s, sep).map_values(f));
        }
    }
}

/// Every number has a decimal notation of its own.
pub proof fn decimal_is_injective(m: nat, n: nat)
    requires
        decimal(m) == decimal(n),
    ensures
        m == n,
    decreases m,
{
    lemma_decimal_nonempty(m / 10);
    lemma_decimal_nonempty(n / 10);
    assert(decimal(m).last() == digit_char(m % 10));
    assert(decimal(n).last() == digit_char(n % 10));
    if m >= 10 && n >= 10 {
        assert(decimal(m).drop_last() =~= decimal(m / 10));
        assert(decimal(n).drop_last() =~= decimal(n / 10));
        decimal_is_injective(m / 10, n / 10);
    } else {
        assert(decimal(m).len() == decimal(n).len());
    }
}

/// A decimal notation has at least one digit, and nothing but digits.
pub proof fn lemma_decimal_nonempty(n: nat)
    ensures
        decimal(n).len() >= 1,
        forall|i: int| 0 <= i < decimal(n).len() ==> '0' <= #[trigger] decimal(n)[i] <= '9',
    decreases n,
{
    if n >= 10 {
        lemma_decimal_nonempty(n / 10);
    }
}

} // verus!
