//! The transport configuration: stateless, with a guard on the `Host` header.
use vstd::prelude::*;

use crate::text;
use crate::text::CharSet;
use crate::text_laws;

verus! {

/// What the server sets of the streamable HTTP transport's configuration.
#[derive(Debug)]
pub struct TransportConfig {
    /// Whether clients of older protocol revisions get a session.
    pub legacy_session_mode: bool,
    /// Whether a plain JSON response is preferred to an event stream.
    pub json_response: bool,
    /// The accepted values of the `Host` header: `host` for any port, or
    /// `host:port`. An empty list accepts every value.
    pub allowed_hosts: Vec<String>,
}

/// The hosts that the transport accepts unless it is told otherwise.
pub open spec fn loopback_hosts() -> Seq<Seq<char>> {
    seq!["localhost"@, "127.0.0.1"@, "::1"@]
}

/// The transport's own defaults, by the `Default` of
/// `rmcp::transport::StreamableHttpServerConfig`: sessions for older clients,
/// event streams, and the loopback hosts.
#[verifier::external_body]
fn default_config() -> (r: TransportConfig)
    ensures
        r.legacy_session_mode,
        !r.json_response,
        text::texts(r.allowed_hosts@) == loopback_hosts(),
{
    let config = rmcp::transport::StreamableHttpServerConfig::default();
    TransportConfig {
        legacy_session_mode: config.legacy_session_mode,
        json_response: config.json_response,
        allowed_hosts: config.allowed_hosts,
    }
}

/// The pieces without surrounding white space, leaving out those that are then
/// empty.
pub open spec fn trimmed(pieces: Seq<Seq<char>>) -> Seq<Seq<char>> {
    pieces.map_values(|p: Seq<char>| text::trim(p, CharSet::WhiteSpace)).filter(
        |p: Seq<char>| p.len() > 0,
    )
}

/// The entries of a comma-separated list, in order.
pub open spec fn host_entries(list: Seq<char>) -> Seq<Seq<char>> {
    trimmed(text::split(list, ','))
}

/// The accepted hosts for a value of `MCP_ALLOWED_HOSTS`: the transport's
/// default if it is unset, none at all (which accepts every host) if one of the
/// entries is `*`, else the entries.
pub open spec fn accepted_hosts(setting: Option<Seq<char>>) -> Seq<Seq<char>> {
    match setting {
        Some(list) => if host_entries(list).contains("*"@) {
            Seq::empty()
        } else {
            host_entries(list)
        },
        None => loopback_hosts(),
    }
}

/// One more piece: its trimmed form is appended, unless it is empty.
proof fn lemma_trimmed_push(pieces: Seq<Seq<char>>, k: int)
    requires
        0 <= k < pieces.len(),
    ensures
        trimmed(pieces.take(k + 1)) == (if text::trim(pieces[k], CharSet::WhiteSpace).len() > 0 {
            trimmed(pieces.take(k)).push(text::trim(pieces[k], CharSet::WhiteSpace))
        } else {
            trimmed(pieces.take(k))
        }),
{
    reveal(Seq::filter);
    let f = |p: Seq<char>| text::trim(p, CharSet::WhiteSpace);
    let a = pieces.take(k + 1).map_values(f);
    assert(a.drop_last() =~= pieces.take(k).map_values(f));
    assert(a.last() == f(pieces[k]));
}

/// The entries of a comma-separated list, in order.
pub fn parse_hosts(list: &str) -> (r: Vec<String>)
    ensures
        text::texts(r@) == host_entries(list@),
        r.len() == host_entries(list@).len(),
        forall|k: int|
            0 <= k < r.len() ==> #[trigger] r[k]@ == host_entries(list@)[k],
{
    let chars = text::chars_of(list);
    let n: usize = chars.len();
    proof {
        assert(chars@.subrange(0, n as int) =~= list@);
    }
    let ranges = text::split_ranges(&chars, 0, n, ',');
    let ghost pieces = text::split(list@, ',');
    let mut r: Vec<String> = Vec::new();
    let mut k: usize = 0;
    proof {
        reveal(Seq::filter);
        assert(pieces.take(0).map_values(|p: Seq<char>| text::trim(p, CharSet::WhiteSpace))
            =~= Seq::<Seq<char>>::empty());
        assert(text::texts(r@) =~= trimmed(pieces.take(0)));
    }
    while k < ranges.len()
        invariant
            chars@ == list@,
            n == chars.len(),
            pieces == text::split(list@, ','),
            ranges.len() == pieces.len(),
            k <= ranges.len(),
            forall|j: int| 0 <= j < ranges.len() ==> (#[trigger] ranges[j]).0 <= ranges[j].1 <= n,
            forall|j: int|
                0 <= j < ranges.len() ==> chars@.subrange(
                    (#[trigger] ranges[j]).0 as int,
                    ranges[j].1 as int,
                ) == pieces[j],
            text::texts(r@) == trimmed(pieces.take(k as int)),
        decreases ranges.len() - k,
    {
        let (a, b) = text::trim_range(&chars, ranges[k].0, ranges[k].1, CharSet::WhiteSpace);
        proof {
            lemma_trimmed_push(pieces, k as int);
        }
        if a < b {
            let entry: String = list.substring_char(a, b).to_owned();
            let ghost before = r@;
            r.push(entry);
            proof {
                assert(text::texts(r@) =~= text::texts(before).push(entry@));
            }
        }
        k = k + 1;
    }
    proof {
        assert(pieces.take(pieces.len() as int) =~= pieces);
        assert forall|k: int| 0 <= k < r.len() implies #[trigger] r[k]@ == host_entries(
            list@,
        )[k] by {
            assert(text::texts(r@)[k] == r[k]@);
        }
    }
    r
}

/// Tests whether a list of strings holds a given one.
fn holds(list: &Vec<String>, word: &str) -> (r: bool)
    ensures
        r == text::texts(list@).contains(word@),
{
    let ghost t = text::texts(list@);
    let mut k: usize = 0;
    while k < list.len()
        invariant
            k <= list.len(),
            t == text::texts(list@),
            forall|j: int| 0 <= j < k ==> #[trigger] t[j] != word@,
        decreases list.len() - k,
    {
        if text::same_text(list[k].as_str(), word) {
            proof {
                assert(t[k as int] == word@);
            }
            return true;
        }
        proof {
            assert(t[k as int] != word@);
        }
        k = k + 1;
    }
    false
}

/// The transport configuration for a value of `MCP_ALLOWED_HOSTS`.
///
/// It is fully stateless: no client gets a session, of whatever protocol
/// revision. Responses keep the transport's default framing as event streams,
/// which lets long-running tools stream progress. `*` in the list turns the
/// guard on the `Host` header off; an unset variable keeps the transport's
/// default, which accepts loopback hosts only.
pub fn transport_config(setting: Option<&str>) -> (r: TransportConfig)
    ensures
        !r.legacy_session_mode,
        !r.json_response,
        text::texts(r.allowed_hosts@) == accepted_hosts(text::str_of(setting)),
        ({
            let hosts = accepted_hosts(
                match setting {
                    Some(list) => Some(list@),
                    None => None,
                },
            );
            &&& r.allowed_hosts.len() == hosts.len()
            &&& forall|k: int| 0 <= k < hosts.len() ==> #[trigger] r.allowed_hosts[k]@ == hosts[k]
        }),
{
    let mut config = default_config();
    config.legacy_session_mode = false;
    match setting {
        Some(list) => {
            let hosts = parse_hosts(list);
            if holds(&hosts, "*") {
                config.allowed_hosts = Vec::new();
                proof {
                    assert(text::texts(config.allowed_hosts@) =~= Seq::<Seq<char>>::empty());
                }
            } else {
                config.allowed_hosts = hosts;
            }
        },
        None => {},
    }
    proof {
        let hosts = accepted_hosts(text::str_of(setting));
        assert forall|k: int| 0 <= k < hosts.len() implies #[trigger] config.allowed_hosts[k]@
            == hosts[k] by {
            assert(text::texts(config.allowed_hosts@)[k] == hosts[k]);
        }
    }
    config
}

/// The message of the error that is returned when a request body cannot be read.
pub fn body_read_failure(err: &str) -> (r: String)
    ensures
        r@ == "failed to read body: "@ + err@,
{
    let mut r: String = "failed to read body: ".to_owned();
    r.append(err);
    r
}

/// Whether `h` can stand in the list as it is: not empty, no comma in it, no
/// white space at its ends.
pub open spec fn is_clean_entry(h: Seq<char>) -> bool {
    &&& h.len() > 0
    &&& !h.contains(',')
    &&& !text::is_white_space(h[0])
    &&& !text::is_white_space(h.last())
}

/// The entries of a list are the trimmed pieces that it was joined of: white
/// space around an entry and empty entries make no difference.
pub proof fn entries_are_the_trimmed_pieces(pieces: Seq<Seq<char>>)
    requires
        pieces.len() >= 1,
        forall|k: int| 0 <= k < pieces.len() ==> !(#[trigger] pieces[k]).contains(','),
    ensures
        host_entries(text::join(pieces, ',')) == trimmed(pieces),
{
    text::split_undoes_join(pieces, ',');
}

/// Clean pieces are left as they are.
proof fn lemma_trimmed_clean(pieces: Seq<Seq<char>>, k: int)
    requires
        0 <= k <= pieces.len(),
        forall|j: int| 0 <= j < pieces.len() ==> is_clean_entry(#[trigger] pieces[j]),
    ensures
        trimmed(pieces.take(k)) == pieces.take(k),
    decreases k,
{
    if k == 0 {
        reveal(Seq::filter);
        assert(pieces.take(0).map_values(|p: Seq<char>| text::trim(p, CharSet::WhiteSpace))
            =~= Seq::<Seq<char>>::empty());
        assert(trimmed(pieces.take(0)) =~= pieces.take(0));
    } else {
        lemma_trimmed_clean(pieces, k - 1);
        lemma_trimmed_push(pieces, k - 1);
        assert(is_clean_entry(pieces[k - 1]));
        assert(pieces.take(k) =~= pieces.take(k - 1).push(pieces[k - 1]));
    }
}

/// Hosts listed with commas between them are accepted, exactly these and in this
/// order.
pub proof fn listed_hosts_are_accepted(hosts: Seq<Seq<char>>)
    requires
        hosts.len() >= 1,
        forall|k: int| 0 <= k < hosts.len() ==> is_clean_entry(#[trigger] hosts[k]),
        !hosts.contains("*"@),
    ensures
        accepted_hosts(Some(text::join(hosts, ','))) == hosts,
{
    entries_are_the_trimmed_pieces(hosts);
    lemma_trimmed_clean(hosts, hosts.len() as int);
    assert(hosts.take(hosts.len() as int) =~= hosts);
}

/// An asterisk among the entries turns the guard off.
pub proof fn asterisk_accepts_every_host(pieces: Seq<Seq<char>>, k: int)
    requires
        forall|j: int| 0 <= j < pieces.len() ==> !(#[trigger] pieces[j]).contains(','),
        0 <= k < pieces.len(),
        text::trim(pieces[k], CharSet::WhiteSpace) == "*"@,
    ensures
        accepted_hosts(Some(text::join(pieces, ','))) == Seq::<Seq<char>>::empty(),
{
    reveal_strlit("*");
    entries_are_the_trimmed_pieces(pieces);
    lemma_trimmed_contains(pieces, pieces.len() as int, k);
    assert(pieces.take(pieces.len() as int) =~= pieces);
}

/// A piece that is not blank is among the trimmed ones.
proof fn lemma_trimmed_contains(pieces: Seq<Seq<char>>, n: int, k: int)
    requires
        0 <= k < n <= pieces.len(),
        text::trim(pieces[k], CharSet::WhiteSpace).len() > 0,
    ensures
        trimmed(pieces.take(n)).contains(text::trim(pieces[k], CharSet::WhiteSpace)),
    decreases n,
{
    lemma_trimmed_push(pieces, n - 1);
    let t = trimmed(pieces.take(n));
    let w = text::trim(pieces[k], CharSet::WhiteSpace);
    if k == n - 1 {
        assert(t.last() == w);
    } else {
        lemma_trimmed_contains(pieces, n - 1, k);
        let u = trimmed(pieces.take(n - 1));
        let i = choose|i: int| 0 <= i < u.len() && u[i] == w;
        assert(t[i] == w);
    }
}

/// Trimming leaves no white space at the ends and adds no characters.
proof fn lemma_trim_is_clean(s: Seq<char>)
    ensures
        ({
            let t = text::trim(s, CharSet::WhiteSpace);
            &&& t.len() > 0 ==> !text::is_white_space(t[0]) && !text::is_white_space(t.last())
            &&& forall|c: char| t.contains(c) ==> s.contains(c)
        }),
    decreases s.len(),
{
    let t = text::trim(s, CharSet::WhiteSpace);
    if s.len() > 0 && text::is_white_space(s[0]) {
        lemma_trim_is_clean(s.drop_first());
        assert forall|c: char| t.contains(c) implies s.contains(c) by {
            assert(s.drop_first().contains(c));
            let i = choose|i: int| 0 <= i < s.drop_first().len() && s.drop_first()[i] == c;
            assert(s[i + 1] == c);
        }
    } else {
        lemma_trim_end_is_clean(s);
    }
}

/// Trimming the end keeps a prefix.
proof fn lemma_trim_end_is_clean(s: Seq<char>)
    ensures
        ({
            let t = text::trim_end(s, CharSet::WhiteSpace);
            &&& t.len() <= s.len()
            &&& t == s.take(t.len() as int)
            &&& t.len() > 0 ==> !text::is_white_space(t.last())
            &&& forall|c: char| t.contains(c) ==> s.contains(c)
        }),
    decreases s.len(),
{
    let t = text::trim_end(s, CharSet::WhiteSpace);
    if s.len() > 0 && text::is_white_space(s.last()) {
        lemma_trim_end_is_clean(s.drop_last());
        assert(t =~= s.take(t.len() as int));
    } else {
        assert(t =~= s.take(t.len() as int));
    }
    assert forall|c: char| t.contains(c) implies s.contains(c) by {
        let i = choose|i: int| 0 <= i < t.len() && t[i] == c;
        assert(s[i] == c);
    }
}

/// Trimmed pieces without commas are clean entries.
proof fn lemma_trimmed_entries_clean(pieces: Seq<Seq<char>>, n: int)
    requires
        0 <= n <= pieces.len(),
        forall|k: int| 0 <= k < pieces.len() ==> !(#[trigger] pieces[k]).contains(','),
    ensures
        forall|k: int|
            0 <= k < trimmed(pieces.take(n)).len() ==> is_clean_entry(
                #[trigger] trimmed(pieces.take(n))[k],
            ),
    decreases n,
{
    if n == 0 {
        reveal(Seq::filter);
        assert(pieces.take(0).map_values(|p: Seq<char>| text::trim(p, CharSet::WhiteSpace))
            =~= Seq::<Seq<char>>::empty());
    } else {
        lemma_trimmed_entries_clean(pieces, n - 1);
        lemma_trimmed_push(pieces, n - 1);
        lemma_trim_is_clean(pieces[n - 1]);
        let t = trimmed(pieces.take(n));
        let u = trimmed(pieces.take(n - 1));
        assert forall|k: int| 0 <= k < t.len() implies is_clean_entry(#[trigger] t[k]) by {
            if k < u.len() {
                assert(t[k] == u[k]);
            }
        }
    }
}

/// Every entry of a list is clean: not empty, no comma in it, no white space at
/// its ends.
pub proof fn entries_are_clean(list: Seq<char>, k: int)
    requires
        0 <= k < host_entries(list).len(),
    ensures
        is_clean_entry(host_entries(list)[k]),
{
    let pieces = text::split(list, ',');
    text::join_undoes_split(list, ',');
    lemma_trimmed_entries_clean(pieces, pieces.len() as int);
    assert(pieces.take(pieces.len() as int) =~= pieces);
}

/// What is kept of a sequence was in it.
proof fn lemma_filter_keeps(s: Seq<Seq<char>>, f: spec_fn(Seq<char>) -> bool, x: Seq<char>)
    requires
        s.filter(f).contains(x),
    ensures
        s.contains(x),
    decreases s.len(),
{
    reveal(Seq::filter);
    if s.len() > 0 {
        let t = s.drop_last();
        let i = choose|i: int| 0 <= i < s.filter(f).len() && s.filter(f)[i] == x;
        if f(s.last()) && i == t.filter(f).len() {
            assert(s[s.len() - 1] == x);
        } else {
            assert(t.filter(f)[i] == x);
            lemma_filter_keeps(t, f, x);
            let j = choose|j: int| 0 <= j < t.len() && t[j] == x;
            assert(s[j] == x);
        }
    }
}

/// Entries with white space around them.
pub open spec fn padded(
    before: Seq<Seq<char>>,
    hosts: Seq<Seq<char>>,
    after: Seq<Seq<char>>,
) -> Seq<Seq<char>> {
    Seq::new(hosts.len(), |k: int| before[k] + hosts[k] + after[k])
}

/// Whether `before` and `after` are white space around `hosts`, which hold no
/// comma and have no white space at their ends. A host may be empty.
pub open spec fn are_padding(
    before: Seq<Seq<char>>,
    hosts: Seq<Seq<char>>,
    after: Seq<Seq<char>>,
) -> bool {
    &&& hosts.len() >= 1
    &&& before.len() == hosts.len()
    &&& after.len() == hosts.len()
    &&& forall|k: int, i: int|
        0 <= k < hosts.len() && 0 <= i < before[k].len() ==> text::is_white_space(
            #[trigger] before[k][i],
        )
    &&& forall|k: int, i: int|
        0 <= k < hosts.len() && 0 <= i < after[k].len() ==> text::is_white_space(
            #[trigger] after[k][i],
        )
    &&& forall|k: int, i: int|
        0 <= k < hosts.len() && 0 <= i < hosts[k].len() ==> #[trigger] hosts[k][i] != ','
    &&& forall|k: int|
        0 <= k < hosts.len() && (#[trigger] hosts[k]).len() > 0 ==> !text::is_white_space(
            hosts[k][0],
        ) && !text::is_white_space(hosts[k].last())
}

/// The entries of a list are its hosts without the white space around them, but
/// for the empty ones: all of them, in order.
pub proof fn entries_ignore_white_space(
    before: Seq<Seq<char>>,
    hosts: Seq<Seq<char>>,
    after: Seq<Seq<char>>,
)
    requires
        are_padding(before, hosts, after),
    ensures
        host_entries(text::join(padded(before, hosts, after), ',')) == hosts.filter(
            |h: Seq<char>| h.len() > 0,
        ),
{
    let pieces = padded(before, hosts, after);
    assert forall|k: int| 0 <= k < pieces.len() implies !(#[trigger] pieces[k]).contains(',')
        && text::trim(pieces[k], CharSet::WhiteSpace) == hosts[k] by {
        let a = before[k];
        let h = hosts[k];
        let b = after[k];
        if pieces[k].contains(',') {
            let i = choose|i: int| 0 <= i < pieces[k].len() && pieces[k][i] == ',';
            if i < a.len() {
                assert(before[k][i] == ',');
            } else if i < a.len() + h.len() {
                assert(hosts[k][i - a.len()] == ',');
            } else {
                assert(after[k][i - a.len() - h.len()] == ',');
            }
        }
        assert forall|i: int| 0 <= i < a.len() implies CharSet::WhiteSpace.has(#[trigger] a[i]) by {
            assert(text::is_white_space(before[k][i]));
        }
        assert forall|i: int| 0 <= i < b.len() implies CharSet::WhiteSpace.has(#[trigger] b[i]) by {
            assert(text::is_white_space(after[k][i]));
        }
        text_laws::trimming_keeps_the_middle(a, h, b, CharSet::WhiteSpace);
    }
    entries_are_the_trimmed_pieces(pieces);
    let f = |p: Seq<char>| text::trim(p, CharSet::WhiteSpace);
    assert(pieces.map_values(f) =~= hosts);
    let keep = |p: Seq<char>| p.len() > 0;
    let same = |h: Seq<char>| h.len() > 0;
    assert(keep =~= same);
    assert(trimmed(pieces) == hosts.filter(keep));
}

/// White space around the entries of a list does not change which hosts are
/// accepted, and neither do empty entries: all the others are accepted, in order.
pub proof fn accepted_hosts_ignore_white_space(
    before: Seq<Seq<char>>,
    hosts: Seq<Seq<char>>,
    after: Seq<Seq<char>>,
)
    requires
        are_padding(before, hosts, after),
        !hosts.contains("*"@),
    ensures
        accepted_hosts(Some(text::join(padded(before, hosts, after), ','))) == hosts.filter(
            |h: Seq<char>| h.len() > 0,
        ),
{
    entries_ignore_white_space(before, hosts, after);
    let keep = |h: Seq<char>| h.len() > 0;
    if hosts.filter(keep).contains("*"@) {
        lemma_filter_keeps(hosts, keep, "*"@);
    }
}

/// A list with white space in it accepts the hosts that it accepts without.
pub proof fn padding_changes_nothing(
    before: Seq<Seq<char>>,
    hosts: Seq<Seq<char>>,
    after: Seq<Seq<char>>,
)
    requires
        are_padding(before, hosts, after),
    ensures
        accepted_hosts(Some(text::join(padded(before, hosts, after), ','))) == accepted_hosts(
            Some(text::join(hosts, ',')),
        ),
{
    let none = Seq::new(hosts.len(), |k: int| Seq::<char>::empty());
    assert(padded(none, hosts, none) =~= hosts) by {
        assert forall|k: int| 0 <= k < hosts.len() implies padded(none, hosts, none)[k]
            == #[trigger] hosts[k] by {
            assert(none[k] + hosts[k] + none[k] =~= hosts[k]);
        }
    }
    assert(are_padding(none, hosts, none));
    entries_ignore_white_space(before, hosts, after);
    entries_ignore_white_space(none, hosts, none);
}

/// Where all entries hold something and none is an asterisk, as many hosts are
/// accepted as there are entries, and each at its place.
pub proof fn every_listed_host_is_accepted(
    before: Seq<Seq<char>>,
    hosts: Seq<Seq<char>>,
    after: Seq<Seq<char>>,
)
    requires
        are_padding(before, hosts, after),
        forall|k: int|
            0 <= k < hosts.len() ==> (#[trigger] hosts[k]).len() > 0 && hosts[k] != "*"@,
    ensures
        accepted_hosts(Some(text::join(padded(before, hosts, after), ','))) == hosts,
{
    accepted_hosts_ignore_white_space(before, hosts, after);
    lemma_filter_all(hosts);
}

/// Nothing is lost where all are kept.
proof fn lemma_filter_all(s: Seq<Seq<char>>)
    requires
        forall|k: int| 0 <= k < s.len() ==> (#[trigger] s[k]).len() > 0,
    ensures
        s.filter(|h: Seq<char>| h.len() > 0) == s,
    decreases s.len(),
{
    reveal(Seq::filter);
    if s.len() > 0 {
        let t = s.drop_last();
        assert forall|k: int| 0 <= k < t.len() implies (#[trigger] t[k]).len() > 0 by {
            assert(t[k] == s[k]);
        }
        lemma_filter_all(t);
        assert(s.last() == s[s.len() - 1]);
        assert(t.push(s.last()) =~= s);
    }
}

/// An asterisk among the entries, with or without white space around it, accepts
/// every host, and without the variable three loopback hosts are accepted.
pub proof fn the_guard_is_set_by_the_list(
    before: Seq<Seq<char>>,
    hosts: Seq<Seq<char>>,
    after: Seq<Seq<char>>,
)
    requires
        are_padding(before, hosts, after),
        hosts.contains("*"@),
    ensures
        accepted_hosts(Some(text::join(padded(before, hosts, after), ','))).len() == 0,
        accepted_hosts(None) == seq!["localhost"@, "127.0.0.1"@, "::1"@],
{
    reveal_strlit("*");
    entries_ignore_white_space(before, hosts, after);
    let keep = |h: Seq<char>| h.len() > 0;
    let k = choose|k: int| 0 <= k < hosts.len() && hosts[k] == "*"@;
    hosts.lemma_filter_contains(keep, k);
}

} // verus!
