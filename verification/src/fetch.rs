//! Outbound HTTP: reading a URL before the request and a response after it.
use vstd::prelude::*;
use vstd::utf8;

use crate::guard::RequestTarget;
use crate::ip;
use crate::ip_laws;
use crate::text;

verus! {

/// What building a GET request for a URL yields: the scheme and the host of its
/// URI, or the text of the error.
pub uninterp spec fn get_request_target(url: Seq<char>) -> Result<
    (Option<Seq<char>>, Option<Seq<char>>),
    Seq<char>,
>;

/// What follows the number in the text of a status code.
pub uninterp spec fn reason_phrase(status: u16) -> Seq<char>;

/// The text of bytes that should be UTF-8, with replacement characters where
/// they are not.
pub uninterp spec fn lossy_text(bytes: Seq<u8>) -> Seq<char>;

/// The value that the result of [`read_target`] stands for.
pub open spec fn target_value(r: Result<RequestTarget, String>) -> Result<
    (Option<Seq<char>>, Option<Seq<char>>),
    Seq<char>,
> {
    match r {
        Ok(target) => Ok((text::text_of(target.scheme), text::text_of(target.host))),
        Err(err) => Err(err@),
    }
}

/// The letters, digits and marks of which a host name is made.
pub open spec fn is_host_char(c: char) -> bool {
    ||| 'a' <= c <= 'z'
    ||| 'A' <= c <= 'Z'
    ||| '0' <= c <= '9'
    ||| '&' <= c <= '.'
    ||| c == '!'
    ||| c == '$'
    ||| c == ';'
    ||| c == '='
    ||| c == '_'
    ||| c == '~'
}

/// Whether all of `s` are characters of a host name.
pub open spec fn all_host_chars(s: Seq<char>) -> bool {
    forall|i: int| 0 <= i < s.len() ==> is_host_char(#[trigger] s[i])
}

/// The characters between the brackets of an IPv6 literal.
pub open spec fn is_literal_char(c: char) -> bool {
    is_host_char(c) || c == ':' || c == '%'
}

/// A text in brackets.
pub open spec fn bracketed(s: Seq<char>) -> Seq<char> {
    seq!['['] + s + seq![']']
}

/// What may stand between the brackets of an IPv6 literal: its characters, with
/// at most eight colons.
pub open spec fn is_literal(s: Seq<char>) -> bool {
    &&& text::split(s, ':').len() <= 9
    &&& forall|i: int| 0 <= i < s.len() ==> is_literal_char(#[trigger] s[i])
}

/// A host as it stands in a URL: a name or an IPv4 address, or an IPv6 literal in
/// brackets.
pub open spec fn is_url_host(host: Seq<char>) -> bool {
    ||| host.len() > 0 && all_host_chars(host)
    ||| exists|s: Seq<char>| #[trigger] is_literal(s) && host == bracketed(s)
}

/// A scheme as it stands in a URL: up to sixty-four letters, digits and marks.
pub open spec fn is_url_scheme(scheme: Seq<char>) -> bool {
    &&& 1 <= scheme.len() <= 64
    &&& forall|i: int| 0 <= i < scheme.len() ==> is_scheme_char(#[trigger] scheme[i])
}

/// The letters, digits and marks that make up a URI scheme.
pub open spec fn is_scheme_char(c: char) -> bool {
    ||| 'a' <= c <= 'z'
    ||| 'A' <= c <= 'Z'
    ||| '0' <= c <= '9'
    ||| c == '+'
    ||| c == '-'
    ||| c == '.'
}

/// The characters of a user name and a password.
pub open spec fn is_info_char(c: char) -> bool {
    is_host_char(c) || c == ':' || c == '%' || c == '@'
}

/// Nothing, or a user name, perhaps with a password, and an at sign behind it;
/// at most eight colons.
pub open spec fn is_user_info(info: Seq<char>) -> bool {
    &&& info.len() > 0 ==> info.last() == '@'
    &&& text::split(info, ':').len() <= 9
    &&& forall|i: int| 0 <= i < info.len() ==> is_info_char(#[trigger] info[i])
}

/// Nothing, or a port with a colon before it. That it is a number is not asked.
pub open spec fn is_url_port(port: Seq<char>) -> bool {
    port.len() > 0 ==> port[0] == ':' && all_host_chars(port.drop_first())
}

/// The characters of a path: visible ASCII but for `#`, `<`, `>`, `?` and the
/// grave accent, and everything beyond ASCII.
pub open spec fn is_path_char(c: char) -> bool {
    ||| '!' <= c <= '"'
    ||| '$' <= c <= ';'
    ||| c == '='
    ||| '@' <= c <= '_'
    ||| 'a' <= c <= '~'
    ||| c >= '\u{80}'
}

/// Nothing, or a path that starts with a slash.
pub open spec fn is_url_path(path: Seq<char>) -> bool {
    &&& path.len() > 0 ==> path[0] == '/'
    &&& forall|i: int| 0 <= i < path.len() ==> is_path_char(#[trigger] path[i])
}

/// The characters of a query: visible ASCII but for `"`, `#`, `<` and `>`, and
/// everything beyond ASCII.
pub open spec fn is_query_char(c: char) -> bool {
    ||| c == '!'
    ||| '$' <= c <= ';'
    ||| c == '='
    ||| '?' <= c <= '~'
    ||| c >= '\u{80}'
}

/// Nothing, or a query with its question mark.
pub open spec fn is_url_query(query: Seq<char>) -> bool {
    &&& query.len() > 0 ==> query[0] == '?'
    &&& forall|i: int| 0 <= i < query.len() ==> is_query_char(#[trigger] query[i])
}

/// Nothing, or a fragment of any characters with its number sign.
pub open spec fn is_url_fragment(fragment: Seq<char>) -> bool {
    fragment.len() > 0 ==> fragment[0] == '#'
}

/// Whether `url` is made of the given parts, and is not too long.
pub open spec fn is_url(
    url: Seq<char>,
    scheme: Seq<char>,
    info: Seq<char>,
    host: Seq<char>,
    port: Seq<char>,
    path: Seq<char>,
    query: Seq<char>,
    fragment: Seq<char>,
) -> bool {
    &&& is_url_scheme(scheme)
    &&& is_user_info(info)
    &&& is_url_host(host)
    &&& is_url_port(port)
    &&& is_url_path(path)
    &&& is_url_query(query)
    &&& is_url_fragment(fragment)
    &&& url == scheme + "://"@ + info + host + port + path + query + fragment
    &&& utf8::encode_utf8(url).len() <= 65534
}

/// Whether `url` is a URL with this scheme and this host.
pub open spec fn is_url_of(url: Seq<char>, scheme: Seq<char>, host: Seq<char>) -> bool {
    exists|
        info: Seq<char>,
        port: Seq<char>,
        path: Seq<char>,
        query: Seq<char>,
        fragment: Seq<char>,
    | #[trigger]
        is_url(url, scheme, info, host, port, path, query, fragment)
}

/// The scheme of a request whose URL has the given one: `http` and `https` are
/// recognised whatever the case of their letters.
pub open spec fn scheme_value(scheme: Seq<char>) -> Seq<char> {
    if text::lower(scheme) == "http"@ {
        "http"@
    } else if text::lower(scheme) == "https"@ {
        "https"@
    } else {
        scheme
    }
}

/// Whether `r` is a target with the given scheme and host.
pub open spec fn is_target(
    r: Result<RequestTarget, String>,
    scheme: Seq<char>,
    host: Seq<char>,
) -> bool {
    r matches Ok(target) && text::text_of(target.scheme) == Some(scheme) && text::text_of(
        target.host,
    ) == Some(host)
}

/// The target of a GET request for a URL, by `http::Request::get` and the
/// builder's `body`: the scheme and the host of the request's URI
/// (`http::Uri::scheme_str` and `http::Uri::host`), or the text of the
/// `http::Error`.
///
/// The outcome is a function of the URL alone. A URL of a scheme, a host, and
/// perhaps a user name, a port, a path, a query and a fragment, each as
/// [`is_url`] admits it, is accepted, and has that scheme and that host. What
/// other URLs yield is left unsaid.
#[verifier::external_body]
pub(crate) fn read_target(url: &str) -> (r: Result<RequestTarget, String>)
    ensures
        target_value(r) == get_request_target(url@),
        forall|scheme: Seq<char>, host: Seq<char>| #[trigger]
            is_url_of(url@, scheme, host) ==> is_target(r, scheme_value(scheme), host),
{
    match http::Request::get(url).body(()) {
        Ok(request) => Ok(
            RequestTarget {
                scheme: request.uri().scheme_str().map(str::to_owned),
                host: request.uri().host().map(str::to_owned),
            },
        ),
        Err(err) => Err(err.to_string()),
    }
}

/// A separator adds up the numbers of pieces on its sides.
pub proof fn lemma_split_len(a: Seq<char>, b: Seq<char>, sep: char)
    ensures
        text::split(a.push(sep) + b, sep).len() == text::split(a, sep).len() + text::split(
            b,
            sep,
        ).len(),
    decreases b.len(),
{
    let s = a.push(sep) + b;
    text::lemma_split_nonempty(a, sep);
    if b.len() == 0 {
        assert(s =~= a.push(sep));
        assert(s.drop_last() =~= a);
    } else {
        assert(s.drop_last() =~= a.push(sep) + b.drop_last());
        assert(s.last() == b.last());
        lemma_split_len(a, b.drop_last(), sep);
        text::lemma_split_nonempty(b.drop_last(), sep);
    }
}

/// Groups joined by colons are made of the characters of a literal.
proof fn lemma_join_is_literal(p: Seq<Seq<char>>)
    requires
        ip_laws::all_groups(p),
    ensures
        forall|i: int|
            0 <= i < text::join(p, ':').len() ==> is_literal_char(
                #[trigger] text::join(p, ':')[i],
            ),
        p.len() > 0 ==> text::split(text::join(p, ':'), ':').len() == p.len(),
        p.len() == 0 ==> text::split(text::join(p, ':'), ':').len() == 1,
    decreases p.len(),
{
    if p.len() > 0 {
        let s = text::join(p, ':');
        let b = p.last();
        assert(ip::group(p[p.len() - 1]) is Some);
        assert forall|i: int| 0 <= i < b.len() implies #[trigger] b[i] != ':' && is_literal_char(
            b[i],
        ) by {
            assert(text::is_digit(b[i], 16));
        }
        text::lemma_split_single(b, ':');
        if p.len() > 1 {
            let init = p.drop_last();
            assert forall|k: int| 0 <= k < init.len() implies ip::group(
                #[trigger] init[k],
            ) is Some by {
                assert(init[k] == p[k]);
            }
            lemma_join_is_literal(init);
            let a = text::join(init, ':');
            lemma_split_len(a, b, ':');
            assert forall|i: int| 0 <= i < s.len() implies is_literal_char(#[trigger] s[i]) by {
                if i < a.len() {
                    assert(s[i] == a[i]);
                } else if i > a.len() {
                    assert(s[i] == b[i - a.len() - 1]);
                }
            }
        }
    }
}

/// A dotted-decimal address can stand in a URL as its host.
pub proof fn dotted_is_url_host(o: Seq<u8>)
    requires
        o.len() == 4,
    ensures
        is_url_host(ip_laws::dotted(o)),
{
    ip_laws::lemma_dotted_chars(o);
    let s = ip_laws::dotted(o);
    assert forall|i: int| 0 <= i < s.len() implies is_host_char(#[trigger] s[i]) by {}
}

/// Eight groups in brackets can stand in a URL as its host.
pub proof fn eight_groups_are_url_host(p: Seq<Seq<char>>)
    requires
        p.len() == 8,
        ip_laws::all_groups(p),
    ensures
        is_url_host(bracketed(text::join(p, ':'))),
{
    lemma_join_is_literal(p);
    assert(is_literal(text::join(p, ':')));
}

/// An address with two colons for zero segments can stand in a URL as its host,
/// in brackets.
pub proof fn two_colons_are_url_host(head: Seq<Seq<char>>, tail: Seq<Seq<char>>)
    requires
        ip_laws::all_groups(head),
        ip_laws::all_groups(tail),
        head.len() + tail.len() <= 7,
    ensures
        is_url_host(bracketed(text::join(head, ':') + seq![':', ':'] + text::join(tail, ':'))),
{
    let a = text::join(head, ':');
    let b = text::join(tail, ':');
    let s = a + seq![':', ':'] + b;
    lemma_join_is_literal(head);
    lemma_join_is_literal(tail);
    let none = Seq::<char>::empty();
    assert(a.push(':') + none =~= a.push(':'));
    lemma_split_len(a, none, ':');
    assert(text::split(none, ':').len() == 1);
    lemma_split_len(a.push(':'), b, ':');
    assert(s =~= a.push(':').push(':') + b);
    assert forall|i: int| 0 <= i < s.len() implies is_literal_char(#[trigger] s[i]) by {
        if i < a.len() {
            assert(s[i] == a[i]);
        } else if i >= a.len() + 2 {
            assert(s[i] == b[i - a.len() - 2]);
        }
    }
    assert(is_literal(s));
}

/// The text of a status code, by the `Display` of `http::StatusCode`: the number,
/// a space and a phrase that is a function of the number alone. Which phrase is
/// left unsaid.
#[verifier::external_body]
pub(crate) fn status_text(status: u16) -> (r: String)
    requires
        100 <= status <= 999,
    ensures
        r@ == text::decimal(status as nat) + " "@ + reason_phrase(status),
{
    http::StatusCode::from_u16(status).unwrap().to_string()
}

/// The text of a body, by `std`'s `String::from_utf8_lossy`.
///
/// It is a function of the bytes alone. Valid UTF-8 is decoded as it is; where
/// replacement characters go is left unsaid.
#[verifier::external_body]
pub(crate) fn decode_lossy(bytes: &Vec<u8>) -> (r: String)
    ensures
        r@ == lossy_text(bytes@),
        utf8::valid_utf8(bytes@) ==> r@ == utf8::decode_utf8(bytes@),
{
    String::from_utf8_lossy(bytes).into_owned()
}

/// The bounds on one outbound exchange.
#[derive(Debug)]
pub struct OutboundLimits {
    /// The deadline, in milliseconds.
    pub timeout_ms: u64,
    /// The largest response body that is buffered, in bytes.
    pub max_bytes: u64,
}

/// The number that a setting gives in decimal digits, or `default` where it is
/// unset, is no number, or is too large.
pub open spec fn setting_or(setting: Option<Seq<char>>, default: u64) -> u64 {
    match setting {
        Some(s) => if s.len() > 0 && text::all_digits(s, 10) && text::number(s, 10) <= u64::MAX {
            text::number(s, 10) as u64
        } else {
            default
        },
        None => default,
    }
}

/// Digits denote a number that is not negative.
pub proof fn lemma_number_not_negative(s: Seq<char>)
    requires
        text::all_digits(s, 10),
    ensures
        0 <= text::number(s, 10),
    decreases s.len(),
{
    if s.len() > 0 {
        assert(text::is_digit(s.last(), 10));
        lemma_number_not_negative(s.drop_last());
    }
}

/// Reads a numeric setting.
fn read_setting(setting: Option<&str>, default: u64) -> (r: u64)
    ensures
        r == setting_or(text::str_of(setting), default),
{
    let s: &str = match setting {
        Some(s) => s,
        None => {
            return default;
        },
    };
    let chars = text::chars_of(s);
    if chars.len() == 0 {
        return default;
    }
    let mut n: u64 = 0;
    let mut fits: bool = true;
    let mut i: usize = 0;
    while i < chars.len()
        invariant
            text::str_of(setting) == Some(s@),
            chars@ == s@,
            i <= chars.len(),
            text::all_digits(s@.take(i as int), 10),
            fits ==> n == text::number(s@.take(i as int), 10),
            !fits ==> text::number(s@.take(i as int), 10) > u64::MAX,
        decreases chars.len() - i,
    {
        let c = chars[i];
        let ghost t = s@.take(i + 1);
        if !text::digit_test(c, 10) {
            proof {
                assert(!text::is_digit(s@[i as int], 10));
            }
            return default;
        }
        let d: u32 = text::digit_of(c);
        proof {
            assert(t.drop_last() =~= s@.take(i as int));
            assert(t.last() == c);
            assert forall|k: int| 0 <= k < t.len() implies text::is_digit(#[trigger] t[k], 10) by {
                if k < i {
                    assert(t[k] == s@.take(i as int)[k]);
                }
            }
            lemma_number_not_negative(s@.take(i as int));
        }
        if fits {
            match n.checked_mul(10) {
                Some(m) => match m.checked_add(d as u64) {
                    Some(v) => {
                        n = v;
                    },
                    None => {
                        fits = false;
                    },
                },
                None => {
                    fits = false;
                },
            }
        }
        i = i + 1;
    }
    proof {
        assert(s@.take(chars.len() as int) =~= s@);
    }
    if fits {
        n
    } else {
        default
    }
}

/// The bounds on one outbound exchange, for the values of
/// `MCP_OUTBOUND_TIMEOUT_MS` and `MCP_OUTBOUND_MAX_BYTES`: thirty seconds and
/// four mebibytes unless they are set.
pub fn outbound_limits(timeout_ms: Option<&str>, max_bytes: Option<&str>) -> (r: OutboundLimits)
    ensures
        r.timeout_ms == setting_or(text::str_of(timeout_ms), 30000),
        r.max_bytes == setting_or(text::str_of(max_bytes), 4194304),
{
    OutboundLimits {
        timeout_ms: read_setting(timeout_ms, 30000),
        max_bytes: read_setting(max_bytes, 4194304),
    }
}

} // verus!
