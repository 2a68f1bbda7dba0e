//! What holds of URLs and of numeric settings, said of their characters.
use vstd::prelude::*;
use vstd::utf8;

use crate::fetch;
use crate::guard::RequestTarget;
use crate::text;
use crate::text_laws;

verus! {

/// A setting of digits that denote a number of sixty-four bits is that number.
/// Every other setting, and none, is the default.
pub proof fn settings_are_read_as_numbers(s: Seq<char>, default: u64)
    ensures
        ({
            let digits = s.len() > 0 && forall|i: int|
                0 <= i < s.len() ==> text_laws::is_decimal_code(#[trigger] s[i]);
            let n = text_laws::place_value(s, 10);
            &&& digits && n <= 0xffff_ffff_ffff_ffff ==> fetch::setting_or(Some(s), default) == n
            &&& digits && n > 0xffff_ffff_ffff_ffff ==> fetch::setting_or(Some(s), default)
                == default
            &&& !digits ==> fetch::setting_or(Some(s), default) == default
            &&& fetch::setting_or(None, default) == default
        }),
{
    let all = forall|i: int| 0 <= i < s.len() ==> text_laws::is_decimal_code(#[trigger] s[i]);
    if all {
        text_laws::numbers_are_read_by_place(s, 10);
        fetch::lemma_number_not_negative(s);
    } else if text::all_digits(s, 10) {
        assert forall|i: int| 0 <= i < s.len() implies text_laws::is_decimal_code(
            #[trigger] s[i],
        ) by {
            assert(text::is_digit(s[i], 10));
        }
    }
}

/// A number that is written into a setting is read from it.
pub proof fn numbers_are_read_from_settings(n: u64, default: u64)
    ensures
        fetch::setting_or(Some(text::decimal(n as nat)), default) == n,
{
    text_laws::decimals_are_read_back(n as nat);
    settings_are_read_as_numbers(text::decimal(n as nat), default);
}

/// The scheme of a request is that of its URL, but that `http` and `https` are
/// recognised in letters of either case.
pub proof fn schemes_are_recognised_but_for_case(scheme: Seq<char>)
    ensures
        text_laws::same_but_case(scheme, "http"@) ==> fetch::scheme_value(scheme) == "http"@,
        text_laws::same_but_case(scheme, "https"@) ==> fetch::scheme_value(scheme) == "https"@,
        !text_laws::same_but_case(scheme, "http"@) && !text_laws::same_but_case(scheme, "https"@)
            ==> fetch::scheme_value(scheme) == scheme,
{
    reveal_strlit("http");
    reveal_strlit("https");
    assert(text::lower("http"@) =~= "http"@);
    assert(text::lower("https"@) =~= "https"@);
    text_laws::lower_case_is_equal_but_for_case(scheme, "http"@);
    text_laws::lower_case_is_equal_but_for_case(scheme, "https"@);
}

/// The value of a target is its scheme and its host, or the error.
pub proof fn targets_stand_for_scheme_and_host(target: RequestTarget, err: String)
    ensures
        fetch::target_value(Ok(target)) == Ok::<(Option<Seq<char>>, Option<Seq<char>>), Seq<char>>(
            (text::text_of(target.scheme), text::text_of(target.host)),
        ),
        fetch::target_value(Err(err)) == Err::<(Option<Seq<char>>, Option<Seq<char>>), Seq<char>>(
            err@,
        ),
{
}

/// A letter, a digit, a hyphen or a dot, by its code.
pub open spec fn is_name_code(c: char) -> bool {
    ||| 97 <= c as int <= 122
    ||| 65 <= c as int <= 90
    ||| 48 <= c as int <= 57
    ||| c as int == 45
    ||| c as int == 46
}

/// Whether all characters of a text are letters, digits, hyphens and dots.
pub open spec fn is_name(s: Seq<char>) -> bool {
    forall|i: int| 0 <= i < s.len() ==> is_name_code(#[trigger] s[i])
}

/// A URL of a scheme, a name as host, and perhaps a port, a path and a query has
/// that scheme and that host.
pub proof fn usual_urls_have_their_host(
    scheme: Seq<char>,
    host: Seq<char>,
    port: Seq<char>,
    path: Seq<char>,
    query: Seq<char>,
)
    requires
        1 <= scheme.len() <= 64,
        is_name(scheme),
        host.len() > 0,
        is_name(host),
        is_name(port),
        forall|i: int|
            0 <= i < path.len() ==> is_name_code(#[trigger] path[i]) || path[i] == '/' || path[i]
                == '%' || path[i] == '_',
        forall|i: int|
            0 <= i < query.len() ==> is_name_code(#[trigger] query[i]) || query[i] == '='
                || query[i] == '&' || query[i] == '%',
        scheme.len() + host.len() + port.len() + path.len() + query.len() <= 60000,
    ensures
        fetch::is_url_of(scheme + "://"@ + host, scheme, host),
        fetch::is_url_of(
            scheme + "://"@ + host + (seq![':'] + port) + (seq!['/'] + path) + (seq!['?'] + query),
            scheme,
            host,
        ),
{
    reveal_strlit("://");
    let none = Seq::<char>::empty();
    assert forall|i: int| 0 <= i < scheme.len() implies fetch::is_scheme_char(
        #[trigger] scheme[i],
    ) by {
        assert(is_name_code(scheme[i]));
    }
    assert forall|i: int| 0 <= i < host.len() implies fetch::is_host_char(#[trigger] host[i]) by {
        assert(is_name_code(host[i]));
    }
    let short = scheme + "://"@ + host;
    assert(short =~= scheme + "://"@ + none + host + none + none + none + none);
    assert(utf8::is_ascii_chars(short)) by {
        assert forall|i: int| 0 <= i < short.len() implies '\0' <= #[trigger] short[i]
            <= '\u{7f}' by {
            if i < scheme.len() {
                assert(is_name_code(scheme[i]));
            } else if i >= scheme.len() + 3 {
                assert(is_name_code(host[i - scheme.len() - 3]));
            }
        }
    }
    utf8::is_ascii_chars_encode_utf8(short);
    assert(text::split(none, ':').len() == 1);
    assert(fetch::is_user_info(none));
    assert(fetch::is_url(short, scheme, none, host, none, none, none, none));
    let p = seq![':'] + port;
    let q = seq!['/'] + path;
    let r = seq!['?'] + query;
    assert(p.drop_first() =~= port);
    assert forall|i: int| 0 <= i < port.len() implies fetch::is_host_char(#[trigger] port[i]) by {
        assert(is_name_code(port[i]));
    }
    assert forall|i: int| 0 <= i < q.len() implies fetch::is_path_char(#[trigger] q[i]) by {
        if i > 0 {
            assert(q[i] == path[i - 1]);
        }
    }
    assert forall|i: int| 0 <= i < r.len() implies fetch::is_query_char(#[trigger] r[i]) by {
        if i > 0 {
            assert(r[i] == query[i - 1]);
        }
    }
    let long = short + p + q + r;
    assert(long =~= scheme + "://"@ + none + host + p + q + r + none);
    assert(utf8::is_ascii_chars(long)) by {
        assert forall|i: int| 0 <= i < long.len() implies '\0' <= #[trigger] long[i]
            <= '\u{7f}' by {
            let a = short.len();
            let b = a + p.len();
            let c = b + q.len();
            if i < a {
                assert(long[i] == short[i]);
            } else if i < b {
                assert(long[i] == p[i - a]);
                if i > a {
                    assert(is_name_code(port[i - a - 1]));
                }
            } else if i < c {
                assert(long[i] == q[i - b]);
                if i > b {
                    assert(long[i] == path[i - b - 1]);
                }
            } else {
                assert(long[i] == r[i - c]);
                if i > c {
                    assert(long[i] == query[i - c - 1]);
                }
            }
        }
    }
    utf8::is_ascii_chars_encode_utf8(long);
    assert(fetch::is_url(long, scheme, none, host, p, q, r, none));
    assert(long == scheme + "://"@ + host + (seq![':'] + port) + (seq!['/'] + path) + (seq!['?']
        + query));
}

/// A user name, with or without a password, can stand before the host of a URL.
pub proof fn user_names_stand_in_urls(user: Seq<char>, password: Seq<char>)
    requires
        is_name(user),
        is_name(password),
    ensures
        fetch::is_user_info(user + seq!['@']),
        fetch::is_user_info(user + seq![':'] + password + seq!['@']),
{
    let a = user + seq!['@'];
    let b = password + seq!['@'];
    let s = user + seq![':'] + password + seq!['@'];
    assert forall|i: int| 0 <= i < a.len() implies fetch::is_info_char(#[trigger] a[i]) && a[i]
        != ':' by {
        if i < user.len() {
            assert(is_name_code(user[i]));
        }
    }
    assert forall|i: int| 0 <= i < b.len() implies fetch::is_info_char(#[trigger] b[i]) && b[i]
        != ':' by {
        if i < password.len() {
            assert(is_name_code(password[i]));
        }
    }
    assert forall|i: int| 0 <= i < user.len() implies #[trigger] user[i] != ':' by {
        assert(is_name_code(user[i]));
    }
    text::lemma_split_single(a, ':');
    text::lemma_split_single(b, ':');
    text::lemma_split_single(user, ':');
    fetch::lemma_split_len(user, b, ':');
    assert(s =~= user.push(':') + b);
    assert forall|i: int| 0 <= i < s.len() implies fetch::is_info_char(#[trigger] s[i]) by {
        if i < user.len() {
            assert(s[i] == a[i]);
        } else if i > user.len() {
            assert(s[i] == b[i - user.len() - 1]);
        }
    }
}

} // verus!
