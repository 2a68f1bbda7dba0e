//! Response bodies: how much of a body a tool shows.
use vstd::prelude::*;
use vstd::utf8;

verus! {

/// Response bodies larger than this many bytes are truncated.
pub const HTTP_GET_BODY_LIMIT: usize = 4096;

/// Whether `index` is the largest index up to `limit` that falls on a character
/// boundary of the UTF-8 encoding of `s`.
pub open spec fn is_truncation_boundary(s: Seq<char>, limit: int, index: int) -> bool {
    let bytes = utf8::encode_utf8(s);
    &&& 0 <= index <= limit
    &&& utf8::is_char_boundary(bytes, index)
    &&& forall|j: int| index < j <= limit ==> !#[trigger] utf8::is_char_boundary(bytes, j)
}

/// Largest index `<= limit` that falls on a UTF-8 character boundary of `s`.
pub fn truncation_boundary(s: &str, limit: usize) -> (r: usize)
    ensures
        is_truncation_boundary(s@, limit as int, r as int),
        r <= utf8::encode_utf8(s@).len(),
        limit >= utf8::encode_utf8(s@).len() ==> r == utf8::encode_utf8(s@).len(),
        r <= limit,
        utf8::is_char_boundary(utf8::encode_utf8(s@), r as int),
        forall|j: int|
            r < j <= limit ==> !#[trigger] utf8::is_char_boundary(utf8::encode_utf8(s@), j),
{
    let n: usize = s.as_bytes().len();
    let ghost bytes = utf8::encode_utf8(s@);
    proof {
        utf8::encode_utf8_valid_utf8(s@);
        utf8::is_char_boundary_start_end_of_seq(bytes);
    }
    let mut index: usize = if limit < n {
        limit
    } else {
        n
    };
    while !s.is_char_boundary(index)
        invariant
            bytes == utf8::encode_utf8(s@),
            utf8::valid_utf8(bytes),
            index <= limit,
            index <= bytes.len(),
            limit >= bytes.len() ==> index == bytes.len(),
            utf8::is_char_boundary(bytes, bytes.len() as int),
            forall|j: int|
                index < j <= limit ==> !#[trigger] utf8::is_char_boundary(bytes, j),
        decreases index,
    {
        index = index - 1;
    }
    index
}

/// Whether the first `n` characters of `text` are the longest prefix whose UTF-8
/// encoding has at most `limit` bytes.
pub open spec fn is_longest_fit(text: Seq<char>, limit: int, n: int) -> bool {
    &&& 0 <= n <= text.len()
    &&& utf8::encode_utf8(text.take(n)).len() <= limit
    &&& n < text.len() ==> utf8::encode_utf8(text.take(n + 1)).len() > limit
}

/// The length of the longest prefix of `text` that fits `limit` bytes.
pub open spec fn longest_fit(text: Seq<char>, limit: int) -> int {
    choose|n: int| is_longest_fit(text, limit, n)
}

/// What is shown of a body: all of it up to the limit, else the longest prefix
/// that fits, and a mark.
pub open spec fn shown_body(text: Seq<char>) -> Seq<char> {
    if utf8::encode_utf8(text).len() <= HTTP_GET_BODY_LIMIT {
        text
    } else {
        text.take(longest_fit(text, HTTP_GET_BODY_LIMIT as int)) + "…[truncated]"@
    }
}

/// The encoding of a concatenation is the concatenation of the encodings.
pub proof fn lemma_encode_concat(a: Seq<char>, b: Seq<char>)
    ensures
        utf8::encode_utf8(a + b) == utf8::encode_utf8(a) + utf8::encode_utf8(b),
    decreases a.len(),
{
    if a.len() == 0 {
        assert(a + b =~= b);
        assert(utf8::encode_utf8(a) + utf8::encode_utf8(b)
            =~= utf8::encode_utf8(b));
    } else {
        assert((a + b).drop_first() =~= a.drop_first() + b);
        lemma_encode_concat(a.drop_first(), b);
        assert(utf8::encode_utf8(a + b) =~= utf8::encode_utf8(a)
            + utf8::encode_utf8(b));
    }
}

/// A longer prefix has a longer encoding.
proof fn lemma_encode_grows(text: Seq<char>, m: int, n: int)
    requires
        0 <= m < n <= text.len(),
    ensures
        utf8::encode_utf8(text.take(m)).len() < utf8::encode_utf8(text.take(n)).len(),
{
    let rest = text.subrange(m, n);
    assert(text.take(n) =~= text.take(m) + rest);
    lemma_encode_concat(text.take(m), rest);
    assert(rest.len() > 0);
    assert(utf8::encode_utf8(rest).len() > 0);
}

/// There is only one longest prefix that fits.
proof fn lemma_longest_fit_unique(text: Seq<char>, limit: int, m: int, n: int)
    requires
        is_longest_fit(text, limit, m),
        is_longest_fit(text, limit, n),
    ensures
        m == n,
{
    if m < n {
        if m + 1 < n {
            lemma_encode_grows(text, m + 1, n);
        }
    } else if n < m {
        if n + 1 < m {
            lemma_encode_grows(text, n + 1, m);
        }
    }
}

/// The encoding of a prefix ends on a character boundary.
pub proof fn lemma_prefix_boundary(text: Seq<char>, n: int)
    requires
        0 <= n <= text.len(),
    ensures
        utf8::is_char_boundary(
            utf8::encode_utf8(text),
            utf8::encode_utf8(text.take(n)).len() as int,
        ),
    decreases n,
{
    let bytes = utf8::encode_utf8(text);
    utf8::encode_utf8_valid_utf8(text);
    if n == 0 {
        assert(utf8::encode_utf8(text.take(0)).len() == 0);
    } else {
        let rest = text.drop_first();
        utf8::encode_utf8_first_scalar(text);
        assert(utf8::pop_first_scalar(bytes) =~= utf8::encode_utf8(rest));
        lemma_prefix_boundary(rest, n - 1);
        assert(text.take(n).drop_first() =~= rest.take(n - 1));
        assert(text.take(n)[0] == text[0]);
        assert(text =~= text.take(n) + text.skip(n));
        lemma_encode_concat(text.take(n), text.skip(n));
    }
}

/// What is shown of a body: all of it up to the limit, else the longest prefix
/// that fits, and a mark.
pub fn limit_body(text: &str) -> (r: String)
    ensures
        r@ == shown_body(text@),
{
    if text.as_bytes().len() <= HTTP_GET_BODY_LIMIT {
        return text.to_owned();
    }
    let cut: usize = truncation_boundary(text, HTTP_GET_BODY_LIMIT);
    let (head, tail) = text.split_at(cut);
    proof {
        let limit = HTTP_GET_BODY_LIMIT as int;
        let bytes = utf8::encode_utf8(text@);
        utf8::encode_utf8_valid_utf8(text@);
        utf8::decode_utf8_split(bytes, cut as int);
        utf8::encode_utf8_decode_utf8(text@);
        utf8::encode_utf8_decode_utf8(head@);
        utf8::encode_utf8_decode_utf8(tail@);
        let n = head@.len() as int;
        assert(text@ == head@ + tail@);
        assert(text@.take(n) =~= head@);
        if n < text@.len() {
            lemma_prefix_boundary(text@, n + 1);
            lemma_encode_grows(text@, n, n + 1);
        }
        assert(is_longest_fit(text@, limit, n));
        lemma_longest_fit_unique(text@, limit, n, longest_fit(text@, limit));
    }
    let mut r: String = head.to_owned();
    r.append("…[truncated]");
    r
}

/// Every place in an encoding has a character boundary at most three bytes
/// before it.
proof fn lemma_near_boundary(bytes: Seq<u8>, limit: int) -> (b: int)
    requires
        utf8::valid_utf8(bytes),
        0 <= limit <= bytes.len(),
    ensures
        limit - 3 <= b <= limit,
        0 <= b,
        utf8::is_char_boundary(bytes, b),
    decreases bytes.len(),
{
    if limit <= 3 {
        0
    } else {
        let k = utf8::length_of_first_scalar(bytes);
        let b = lemma_near_boundary(utf8::pop_first_scalar(bytes), limit - k);
        b + k
    }
}

/// Truncation gives up at most three bytes of the limit.
pub proof fn truncation_keeps_all_but_three_bytes(s: Seq<char>, limit: int, index: int)
    requires
        is_truncation_boundary(s, limit, index),
        limit <= utf8::encode_utf8(s).len(),
    ensures
        limit - index <= 3,
{
    utf8::encode_utf8_valid_utf8(s);
    let b = lemma_near_boundary(utf8::encode_utf8(s), limit);
}

/// There is at most one truncation boundary.
pub proof fn truncation_boundary_is_unique(s: Seq<char>, limit: int, i: int, j: int)
    requires
        is_truncation_boundary(s, limit, i),
        is_truncation_boundary(s, limit, j),
    ensures
        i == j,
{
}

/// There is a longest prefix that fits.
proof fn lemma_longest_fit_exists(text: Seq<char>, limit: int, n: int) -> (m: int)
    requires
        0 <= n <= text.len(),
        utf8::encode_utf8(text.take(n)).len() <= limit,
    ensures
        is_longest_fit(text, limit, m),
    decreases text.len() - n,
{
    if n < text.len() && utf8::encode_utf8(text.take(n + 1)).len() <= limit {
        lemma_longest_fit_exists(text, limit, n + 1)
    } else {
        n
    }
}

/// A body within the limit is shown as it is. Of a longer one a prefix is shown
/// that takes up all but at most three bytes of the limit, followed by the mark.
pub proof fn shown_body_fills_the_limit(text: Seq<char>)
    ensures
        utf8::encode_utf8(text).len() <= HTTP_GET_BODY_LIMIT ==> shown_body(text) == text,
        utf8::encode_utf8(text).len() > HTTP_GET_BODY_LIMIT ==> ({
            let n = longest_fit(text, HTTP_GET_BODY_LIMIT as int);
            &&& 0 <= n < text.len()
            &&& shown_body(text) == text.take(n) + "…[truncated]"@
            &&& HTTP_GET_BODY_LIMIT - 3 <= utf8::encode_utf8(text.take(n)).len()
                <= HTTP_GET_BODY_LIMIT
        }),
{
    let limit = HTTP_GET_BODY_LIMIT as int;
    if utf8::encode_utf8(text).len() > limit {
        assert(utf8::encode_utf8(text.take(0)).len() == 0);
        let m = lemma_longest_fit_exists(text, limit, 0);
        let n = longest_fit(text, limit);
        assert(is_longest_fit(text, limit, n));
        assert(text.take(text.len() as int) =~= text);
        assert(n < text.len());
        let last = seq![text[n]];
        assert(text.take(n + 1) =~= text.take(n) + last);
        lemma_encode_concat(text.take(n), last);
        assert(utf8::encode_utf8(last).len() <= 4) by {
            assert(last.drop_first() =~= Seq::<char>::empty());
            assert(utf8::encode_utf8(last.drop_first()).len() == 0);
        }
    }
}

/// A body of up to 4096 bytes is shown as it is, character for character. Of a
/// longer one as many characters are shown as fit in 4096 bytes, and then a mark.
pub proof fn bodies_are_shown_up_to_the_limit(text: Seq<char>, n: int)
    ensures
        utf8::encode_utf8(text).len() <= 4096 ==> shown_body(text) == text,
        0 <= n < text.len() && utf8::encode_utf8(text.take(n)).len() <= 4096
            && utf8::encode_utf8(text.take(n + 1)).len() > 4096 ==> shown_body(text) == text.take(n)
            + "…[truncated]"@,
        utf8::encode_utf8(text).len() > 4096 ==> exists|m: int|
            0 <= m < text.len() && (#[trigger] utf8::encode_utf8(text.take(m))).len() <= 4096
                && utf8::encode_utf8(text.take(m + 1)).len() > 4096,
{
    assert(text.take(text.len() as int) =~= text);
    if 0 <= n < text.len() && utf8::encode_utf8(text.take(n)).len() <= 4096 && utf8::encode_utf8(
        text.take(n + 1),
    ).len() > 4096 {
        if n + 1 < text.len() {
            lemma_encode_grows(text, n + 1, text.len() as int);
        }
        assert(is_longest_fit(text, 4096, n));
        lemma_longest_fit_unique(text, 4096, n, longest_fit(text, 4096));
    }
    if utf8::encode_utf8(text).len() > 4096 {
        assert(utf8::encode_utf8(text.take(0)).len() == 0);
        let m = lemma_longest_fit_exists(text, 4096, 0);
        assert(utf8::encode_utf8(text.take(m)).len() <= 4096);
    }
}

} // verus!
