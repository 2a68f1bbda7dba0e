//! The outbound request guard: which request targets a tool refuses to fetch.
//!
//! The guard refuses every scheme but `http` and `https`, and, unless local
//! targets are permitted, every host that names the machine itself or its local
//! network. A host name that resolves to a local address is not recognised
//! here: only the host can see that.
use vstd::prelude::*;

use crate::fetch;
use crate::ip;
use crate::ip::IpValue;
use crate::text;
use crate::text::CharSet;

verus! {

/// What the guard reads of a request: the scheme and the host of its URI.
#[derive(Debug)]
pub struct RequestTarget {
    /// The scheme, if the URI has one.
    pub scheme: Option<String>,
    /// The host, if the URI has an authority. An IPv6 literal keeps its
    /// brackets.
    pub host: Option<String>,
}

/// The two schemes that may be fetched.
pub open spec fn is_http_scheme(scheme: Option<Seq<char>>) -> bool {
    scheme == Some("http"@) || scheme == Some("https"@)
}

/// The settings that permit local targets.
pub open spec fn permits_local(setting: Option<Seq<char>>) -> bool {
    setting == Some("true"@) || setting == Some("1"@)
}

/// The host without the brackets of an IPv6 literal; empty if there is none.
pub open spec fn bare_host(host: Option<Seq<char>>) -> Seq<char> {
    match host {
        Some(host) => text::trim(host, CharSet::Brackets),
        None => Seq::empty(),
    }
}

/// Whether a host names the machine itself or its local network: a local
/// address, `localhost`, or a name under `localhost`.
pub open spec fn is_local_host(host: Seq<char>) -> bool {
    match ip::ip_value(host) {
        Some(ip) => ip::is_local_address(ip),
        None => {
            ||| text::lower(host) == "localhost"@
            ||| text::ends_with(text::lower(host), ".localhost"@)
        },
    }
}

/// What the `Debug` notation of a string is.
pub uninterp spec fn debug_text(text: Seq<char>) -> Seq<char>;

/// A text between double quotes.
pub open spec fn quoted(text: Seq<char>) -> Seq<char> {
    seq!['"'] + text + seq!['"']
}

/// Whether all of `s` are characters of a URI scheme.
pub open spec fn all_scheme_chars(s: Seq<char>) -> bool {
    forall|i: int| 0 <= i < s.len() ==> fetch::is_scheme_char(#[trigger] s[i])
}

/// The `Debug` notation of a string, by `std`'s `format!` with `{:?}`.
///
/// It is a function of the characters alone. A text of letters, digits, `+`, `-`
/// and `.` is shown as it is, between double quotes; how other characters are
/// escaped is left unsaid.
#[verifier::external_body]
fn debug_notation(text: &str) -> (r: String)
    ensures
        r@ == debug_text(text@),
        all_scheme_chars(text@) ==> r@ == quoted(text@),
{
    format!("{:?}", text)
}

/// The reason given for a refused scheme, from the scheme's `Debug` notation.
pub open spec fn scheme_reason(quoted: Seq<char>) -> Seq<char> {
    "denied: scheme "@ + quoted + " is not allowed (use http or https)"@
}

/// The reason given for a refused host.
pub open spec fn host_reason(host: Seq<char>) -> Seq<char> {
    "denied: "@ + host
        + " is a local/private target (set MCP_HTTP_GET_ALLOW_LOCAL=true to permit in development)"@
}

/// The scheme that a reason shows.
pub open spec fn shown_scheme(scheme: Option<Seq<char>>) -> Seq<char> {
    match scheme {
        Some(scheme) => scheme,
        None => "none"@,
    }
}

/// The reason for which a target is refused, or `None` where it may be fetched.
///
/// `setting` is the value of `MCP_HTTP_GET_ALLOW_LOCAL`, if it is set.
pub open spec fn denial(
    scheme: Option<Seq<char>>,
    host: Option<Seq<char>>,
    setting: Option<Seq<char>>,
) -> Option<Seq<char>> {
    if !is_http_scheme(scheme) {
        Some(scheme_reason(debug_text(shown_scheme(scheme))))
    } else if permits_local(setting) {
        None
    } else if is_local_host(bare_host(host)) {
        Some(host_reason(bare_host(host)))
    } else {
        None
    }
}

/// Whether the reason for a refused scheme, where there is none or one of the
/// usual characters, quotes it as it is.
pub open spec fn names_scheme(reason: Option<Seq<char>>, scheme: Option<Seq<char>>) -> bool {
    !is_http_scheme(scheme) && all_scheme_chars(shown_scheme(scheme)) ==> reason == Some(
        scheme_reason(quoted(shown_scheme(scheme))),
    )
}

/// The reason given for a refused scheme, from the scheme's `Debug` notation.
pub fn deny_scheme(quoted: &str) -> (r: String)
    ensures
        r@ == scheme_reason(quoted@),
        r@ == "denied: scheme "@ + quoted@ + " is not allowed (use http or https)"@,
{
    let mut r: String = "denied: scheme ".to_owned();
    r.append(quoted);
    r.append(" is not allowed (use http or https)");
    r
}

/// The reason given for a refused host.
pub fn deny_host(host: &str) -> (r: String)
    ensures
        r@ == host_reason(host@),
        r@ == "denied: "@ + host@
            + " is a local/private target (set MCP_HTTP_GET_ALLOW_LOCAL=true to permit in development)"@,
{
    let mut r: String = "denied: ".to_owned();
    r.append(host);
    r.append(
        " is a local/private target (set MCP_HTTP_GET_ALLOW_LOCAL=true to permit in development)",
    );
    r
}

/// Tests whether a setting permits local targets.
fn local_permitted(setting: Option<&str>) -> (r: bool)
    ensures
        r == permits_local(text::str_of(setting)),
{
    match setting {
        Some(v) => text::same_text(v, "true") || text::same_text(v, "1"),
        None => false,
    }
}

/// Tests whether a host, without brackets, is local.
pub fn local_host(host: &str) -> (r: bool)
    ensures
        r == is_local_host(host@),
{
    let chars = text::chars_of(host);
    let n: usize = chars.len();
    proof {
        assert(chars@.subrange(0, n as int) =~= host@);
    }
    match ip::parse_ip(&chars, 0, n) {
        Some(ip) => ip.is_local(),
        None => {
            let name = text::chars_of("localhost");
            if text::lower_range_is(&chars, 0, n, &name) {
                return true;
            }
            let suffix = text::chars_of(".localhost");
            let k: usize = suffix.len();
            if n < k {
                return false;
            }
            proof {
                assert(text::lower(chars@.subrange(n - k, n as int))
                    =~= text::lower(host@).subrange(n - k, n as int));
            }
            text::lower_range_is(&chars, n - k, n, &suffix)
        },
    }
}

/// The host without the brackets of an IPv6 literal; empty if there is none.
fn strip_brackets(host: Option<&str>) -> (r: String)
    ensures
        r@ == bare_host(text::str_of(host)),
{
    match host {
        Some(host) => {
            let chars = text::chars_of(host);
            proof {
                assert(chars@.subrange(0, chars.len() as int) =~= host@);
            }
            let (a, b) = text::trim_range(&chars, 0, chars.len(), CharSet::Brackets);
            host.substring_char(a, b).to_owned()
        },
        None => String::new(),
    }
}

/// Refuses targets whose scheme is not http(s) or whose host is local.
///
/// Returns the reason, or `None` if the target may be fetched. `setting` is the
/// value of `MCP_HTTP_GET_ALLOW_LOCAL`, if it is set: `true` or `1` permits
/// local targets, but no other scheme.
pub fn deny_private_target(target: &RequestTarget, setting: Option<&str>) -> (r: Option<String>)
    ensures
        text::text_of(r) == denial(
            text::text_of(target.scheme),
            text::text_of(target.host),
            text::str_of(setting),
        ),
        names_scheme(text::text_of(r), text::text_of(target.scheme)),
        target.scheme matches Some(scheme) ==> scheme@ != "http"@ && scheme@ != "https"@ ==> (
        r matches Some(reason) && reason@ == "denied: scheme "@ + debug_text(scheme@)
            + " is not allowed (use http or https)"@),
        target.scheme is None ==> (r matches Some(reason) && reason@
            == "denied: scheme \"none\" is not allowed (use http or https)"@),
{
    proof {
        reveal_strlit("none");
        reveal_strlit("denied: scheme ");
        reveal_strlit(" is not allowed (use http or https)");
        reveal_strlit("denied: scheme \"none\" is not allowed (use http or https)");
        assert("denied: scheme "@ + quoted("none"@) + " is not allowed (use http or https)"@
            =~= "denied: scheme \"none\" is not allowed (use http or https)"@);
    }
    match &target.scheme {
        Some(scheme) => {
            if !text::same_text(scheme.as_str(), "http") && !text::same_text(
                scheme.as_str(),
                "https",
            ) {
                let quoted = debug_notation(scheme.as_str());
                return Some(deny_scheme(quoted.as_str()));
            }
        },
        None => {
            let quoted = debug_notation("none");
            return Some(deny_scheme(quoted.as_str()));
        },
    }
    if local_permitted(setting) {
        return None;
    }
    let host: String = match &target.host {
        Some(host) => strip_brackets(Some(host.as_str())),
        None => strip_brackets(None),
    };
    if local_host(host.as_str()) {
        Some(deny_host(host.as_str()))
    } else {
        None
    }
}

/// Every scheme but `http` and `https` is refused, whatever the host and the
/// setting.
pub proof fn other_schemes_are_denied(
    scheme: Option<Seq<char>>,
    host: Option<Seq<char>>,
    setting: Option<Seq<char>>,
)
    requires
        !is_http_scheme(scheme),
    ensures
        denial(scheme, host, setting) is Some,
        denial(scheme, host, setting) == denial(scheme, None, None),
{
}

/// The setting lifts the refusal of local hosts, and nothing else depends on it.
pub proof fn setting_permits_local_hosts(
    scheme: Option<Seq<char>>,
    host: Option<Seq<char>>,
    setting: Option<Seq<char>>,
)
    requires
        is_http_scheme(scheme),
    ensures
        permits_local(setting) ==> denial(scheme, host, setting) is None,
        !permits_local(setting) ==> denial(scheme, host, setting) == denial(scheme, host, None),
        denial(scheme, host, None) is Some <==> is_local_host(bare_host(host)),
{
    reveal_strlit("true");
    reveal_strlit("1");
}

/// Whether a host is local does not depend on the case of its letters.
pub proof fn local_host_ignores_case(host: Seq<char>)
    ensures
        is_local_host(text::lower(host)) == is_local_host(host),
{
    crate::ip_laws::ip_value_ignores_case(host);
    text::lower_is_idempotent(host);
}

/// A text whose ends are no brackets is left as it is.
proof fn lemma_trim_plain(s: Seq<char>)
    requires
        s.len() > 0 ==> !CharSet::Brackets.has(s[0]) && !CharSet::Brackets.has(s.last()),
    ensures
        text::trim(s, CharSet::Brackets) == s,
{
}

/// Trimming a text with one more trimmed character at its end.
proof fn lemma_trim_push(s: Seq<char>, set: CharSet, c: char)
    requires
        set.has(c),
    ensures
        text::trim(s.push(c), set) == text::trim(s, set),
    decreases s.len(),
{
    if s.len() > 0 && set.has(s[0]) {
        assert(s.push(c).drop_first() =~= s.drop_first().push(c));
        lemma_trim_push(s.drop_first(), set, c);
    } else if s.len() == 0 {
        assert(s.push(c).drop_first() =~= s);
    } else {
        assert(s.push(c).drop_last() =~= s);
    }
}

/// Brackets around a host make no difference.
pub proof fn brackets_are_ignored(host: Seq<char>)
    ensures
        bare_host(Some(fetch::bracketed(host))) == bare_host(Some(host)),
{
    let s = seq!['['] + host;
    assert(s + seq![']'] =~= s.push(']'));
    lemma_trim_push(s, CharSet::Brackets, ']');
    assert(s.drop_first() =~= host);
}

/// `localhost` and every name under it is local.
pub proof fn localhost_names_are_local(host: Seq<char>)
    requires
        text::lower(host) == "localhost"@ || text::ends_with(text::lower(host), ".localhost"@),
    ensures
        is_local_host(host),
{
    reveal_strlit("localhost");
    reveal_strlit(".localhost");
    let t = text::lower(host);
    assert(t.len() >= 9);
    assert(t.last() == 't') by {
        if text::ends_with(t, ".localhost"@) {
            assert(t.last() == t.subrange(t.len() - 10, t.len() as int)[9]);
        }
    }
    crate::ip_laws::ip_value_ignores_case(host);
    crate::ip_laws::ip_value_ends_in_digit_or_colon(t);
}

/// A dotted-decimal host is refused if and only if its address is local, with a
/// reason that names it.
pub proof fn ipv4_hosts_are_denied_by_range(
    scheme: Option<Seq<char>>,
    o: Seq<u8>,
    setting: Option<Seq<char>>,
)
    requires
        is_http_scheme(scheme),
        !permits_local(setting),
        o.len() == 4,
    ensures
        denial(scheme, Some(crate::ip_laws::dotted(o)), setting) == (if ip::is_local_address(
            IpValue::V4(o),
        ) {
            Some(host_reason(crate::ip_laws::dotted(o)))
        } else {
            None
        }),
{
    let s = crate::ip_laws::dotted(o);
    crate::ip_laws::dotted_denotes_its_octets(o);
    crate::ip_laws::lemma_dotted_ends(o);
    lemma_trim_plain(s);
}

/// A bracketed host of eight groups is refused if and only if its address is
/// local.
pub proof fn ipv6_hosts_are_denied_by_range(
    scheme: Option<Seq<char>>,
    p: Seq<Seq<char>>,
    setting: Option<Seq<char>>,
)
    requires
        is_http_scheme(scheme),
        !permits_local(setting),
        p.len() == 8,
        crate::ip_laws::all_groups(p),
    ensures
        denial(scheme, Some(fetch::bracketed(text::join(p, ':'))), setting) == (
        if ip::is_local_address(IpValue::V6(crate::ip_laws::group_values(p))) {
            Some(host_reason(text::join(p, ':')))
        } else {
            None
        }),
{
    let s = text::join(p, ':');
    crate::ip_laws::eight_groups_denote_their_segments(p);
    crate::ip_laws::lemma_join_ends(p);
    brackets_are_ignored(s);
    lemma_trim_plain(s);
}

/// A bracketed host with two colons for zero segments is refused if and only if
/// its address is local.
pub proof fn short_ipv6_hosts_are_denied_by_range(
    scheme: Option<Seq<char>>,
    head: Seq<Seq<char>>,
    tail: Seq<Seq<char>>,
    setting: Option<Seq<char>>,
)
    requires
        is_http_scheme(scheme),
        !permits_local(setting),
        crate::ip_laws::all_groups(head),
        crate::ip_laws::all_groups(tail),
        head.len() + tail.len() <= 7,
    ensures
        ({
            let host = text::join(head, ':') + seq![':', ':'] + text::join(tail, ':');
            let segments = crate::ip_laws::group_values(head) + Seq::new(
                (8 - head.len() - tail.len()) as nat,
                |i: int| 0u16,
            ) + crate::ip_laws::group_values(tail);
            denial(scheme, Some(fetch::bracketed(host)), setting) == (
            if ip::is_local_address(IpValue::V6(segments)) {
                Some(host_reason(host))
            } else {
                None
            })
        }),
{
    let s = text::join(head, ':') + seq![':', ':'] + text::join(tail, ':');
    crate::ip_laws::two_colons_denote_zeros(head, tail);
    crate::ip_laws::lemma_join_ends(head);
    crate::ip_laws::lemma_join_ends(tail);
    brackets_are_ignored(s);
    lemma_trim_plain(s);
}

} // verus!
