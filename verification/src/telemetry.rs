//! Observability: what is logged, and which fields a request's span carries.
use vstd::prelude::*;
use vstd::utf8;

use crate::body;
use crate::text;
use crate::text::CharSet;
use crate::text_laws;

verus! {

/// The HTTP header map.
#[verifier::external_type_specification]
#[verifier::external_body]
#[verifier::reject_recursive_types(T)]
pub struct ExHeaderMap<T>(http::HeaderMap<T>);

/// The value of an HTTP header.
#[verifier::external_type_specification]
#[verifier::external_body]
pub struct ExHeaderValue(http::HeaderValue);

/// The first value under each lower-case header name.
pub uninterp spec fn first_values(headers: http::HeaderMap<http::HeaderValue>) -> Map<
    Seq<char>,
    Seq<u8>,
>;

/// The bytes of a header value.
pub uninterp spec fn value_bytes(value: http::HeaderValue) -> Seq<u8>;

/// Whether the log filter takes `directives`.
pub uninterp spec fn directives_parse(directives: Seq<char>) -> bool;

/// The lower-case letters and the hyphen, of which the header names asked for
/// here are made.
pub open spec fn is_name_char(c: char) -> bool {
    'a' <= c <= 'z' || c == '-'
}

/// The value of a header, by `http::HeaderMap::get`: the first one under the
/// name, if there is any.
#[verifier::external_body]
fn first_value<'a>(headers: &'a http::HeaderMap<http::HeaderValue>, name: &str) -> (r: Option<
    &'a http::HeaderValue,
>)
    requires
        1 <= name@.len() <= 64,
        forall|i: int| 0 <= i < name@.len() ==> is_name_char(#[trigger] name@[i]),
    ensures
        r is Some <==> first_values(*headers).contains_key(name@),
        r matches Some(value) ==> value_bytes(*value) == first_values(*headers)[name@],
{
    headers.get(name)
}

/// The bytes that a header value may hold to be read as text: visible ASCII,
/// the space and the tab.
pub open spec fn is_visible(b: u8) -> bool {
    32 <= b < 127 || b == 9
}

/// The text of a header value, if all of its bytes are visible.
pub open spec fn visible_text(bytes: Seq<u8>) -> Option<Seq<char>> {
    if forall|i: int| 0 <= i < bytes.len() ==> is_visible(#[trigger] bytes[i]) {
        Some(bytes.map_values(|b: u8| b as char))
    } else {
        None
    }
}

/// The text of a header value, by `http::HeaderValue::to_str`: there is one if
/// and only if all bytes are visible ASCII, spaces or tabs, and then each byte
/// is one character of it.
#[verifier::external_body]
fn value_text(value: &http::HeaderValue) -> (r: Option<String>)
    ensures
        text::text_of(r) == visible_text(value_bytes(*value)),
{
    value.to_str().ok().map(str::to_owned)
}

/// The part of a directive, written `target[span{field}]=level`, that is being
/// read.
#[derive(Clone, Copy, Debug)]
pub enum Scan {
    /// The target, or a level that stands alone.
    Name,
    /// The name of a span.
    Span,
    /// A field of a span.
    Field,
    /// What is behind the name or the fields of a span.
    Rest,
}

/// Whether `piece` has a character boundary at the byte at which character `j` of
/// `t` stands in `t`.
pub open spec fn cut_fits(piece: Seq<char>, t: Seq<char>, j: int) -> bool {
    utf8::is_char_boundary(
        utf8::encode_utf8(piece),
        utf8::encode_utf8(t.take(j)).len() as int,
    )
}

/// Whether `piece` can be cut at the places where the parts of `t` start and end,
/// from character `j` on.
pub open spec fn cuts_fit(piece: Seq<char>, t: Seq<char>, j: int, scan: Scan) -> bool
    decreases t.len() - j,
{
    if j >= t.len() {
        true
    } else {
        match (scan, t[j]) {
            (Scan::Name, '=') => cut_fits(piece, t, j) && cut_fits(piece, t, j + 1),
            (Scan::Name, '[') => {
                &&& cut_fits(piece, t, j)
                &&& cut_fits(piece, t, j + 1)
                &&& cuts_fit(piece, t, j + 1, Scan::Span)
            },
            (Scan::Span, ']') => cut_fits(piece, t, j) && cuts_fit(piece, t, j + 1, Scan::Rest),
            (Scan::Span, '{') => {
                &&& cut_fits(piece, t, j)
                &&& cut_fits(piece, t, j + 1)
                &&& cuts_fit(piece, t, j + 1, Scan::Field)
            },
            (Scan::Field, '}') => cut_fits(piece, t, j) && cuts_fit(piece, t, j + 1, Scan::Rest),
            (Scan::Rest, '=') => cut_fits(piece, t, j + 1),
            _ => cuts_fit(piece, t, j + 1, scan),
        }
    }
}

/// Whether a directive is cut between characters only.
///
/// The places at which it is cut are those of the directive without surrounding
/// white space. White space before it shifts them, and with characters of more
/// than one byte they may come to lie inside one.
pub open spec fn is_cut_safely(piece: Seq<char>) -> bool {
    cuts_fit(piece, text::trim(piece, CharSet::WhiteSpace), 0, Scan::Name)
}

/// Whether every directive of a comma-separated list is cut safely.
pub open spec fn are_cut_safely(directives: Seq<char>) -> bool {
    forall|k: int|
        0 <= k < text::split(directives, ',').len() ==> is_cut_safely(
            #[trigger] text::split(directives, ',')[k],
        )
}

/// Whether the directives parse, by `tracing_subscriber::EnvFilter::try_new`.
///
/// The answer is a function of the directives alone; their grammar is left
/// unsaid. Directives that are not cut safely are left out: the parser slices a
/// directive at places that it found in the trimmed one, and panics where such a
/// place is inside a character.
#[verifier::external_body]
fn filter_takes(directives: &str) -> (r: bool)
    requires
        are_cut_safely(directives@),
    ensures
        r == directives_parse(directives@),
{
    tracing_subscriber::EnvFilter::try_new(directives).is_ok()
}

/// Tests whether `piece` has a character boundary at the byte at which character
/// `j` of `t` stands in `t`.
fn test_cut(piece: &str, t: &str, j: usize) -> (r: bool)
    requires
        j <= t@.len(),
    ensures
        r == cut_fits(piece@, t@, j as int),
{
    let head: &str = t.substring_char(0, j);
    proof {
        assert(head@ =~= t@.take(j as int));
    }
    let place: usize = head.as_bytes().len();
    piece.is_char_boundary(place)
}

/// Tests whether a directive is cut safely.
fn cut_safely(piece: &str) -> (r: bool)
    ensures
        r == is_cut_safely(piece@),
{
    let chars = text::chars_of(piece);
    proof {
        assert(chars@.subrange(0, chars.len() as int) =~= piece@);
    }
    let (a, b) = text::trim_range(&chars, 0, chars.len(), CharSet::WhiteSpace);
    let t: &str = piece.substring_char(a, b);
    let n: usize = b - a;
    let mut scan: Scan = Scan::Name;
    let mut j: usize = 0;
    while j < n
        invariant
            chars@ == piece@,
            a <= b <= chars.len(),
            n == b - a,
            t@ == chars@.subrange(a as int, b as int),
            j <= n,
            is_cut_safely(piece@) == cuts_fit(piece@, t@, j as int, scan),
        decreases n - j,
    {
        let c: char = chars[a + j];
        proof {
            assert(c == t@[j as int]);
        }
        match scan {
            Scan::Name => {
                if c == '=' {
                    return test_cut(piece, t, j) && test_cut(piece, t, j + 1);
                }
                if c == '[' {
                    if !test_cut(piece, t, j) || !test_cut(piece, t, j + 1) {
                        return false;
                    }
                    scan = Scan::Span;
                }
            },
            Scan::Span => {
                if c == ']' {
                    if !test_cut(piece, t, j) {
                        return false;
                    }
                    scan = Scan::Rest;
                } else if c == '{' {
                    if !test_cut(piece, t, j) || !test_cut(piece, t, j + 1) {
                        return false;
                    }
                    scan = Scan::Field;
                }
            },
            Scan::Field => {
                if c == '}' {
                    if !test_cut(piece, t, j) {
                        return false;
                    }
                    scan = Scan::Rest;
                }
            },
            Scan::Rest => {
                if c == '=' {
                    return test_cut(piece, t, j + 1);
                }
            },
        }
        j = j + 1;
    }
    true
}

/// Tests whether every directive of a comma-separated list is cut safely.
fn all_cut_safely(directives: &str) -> (r: bool)
    ensures
        r == are_cut_safely(directives@),
{
    let chars = text::chars_of(directives);
    let n: usize = chars.len();
    proof {
        assert(chars@.subrange(0, n as int) =~= directives@);
    }
    let ranges = text::split_ranges(&chars, 0, n, ',');
    let ghost pieces = text::split(directives@, ',');
    let mut k: usize = 0;
    while k < ranges.len()
        invariant
            chars@ == directives@,
            n == chars.len(),
            pieces == text::split(directives@, ','),
            ranges.len() == pieces.len(),
            k <= ranges.len(),
            forall|j: int| 0 <= j < ranges.len() ==> (#[trigger] ranges[j]).0 <= ranges[j].1 <= n,
            forall|j: int|
                0 <= j < ranges.len() ==> chars@.subrange(
                    (#[trigger] ranges[j]).0 as int,
                    ranges[j].1 as int,
                ) == pieces[j],
            forall|j: int| 0 <= j < k ==> is_cut_safely(#[trigger] pieces[j]),
        decreases ranges.len() - k,
    {
        let piece: &str = directives.substring_char(ranges[k].0, ranges[k].1);
        proof {
            assert(piece@ == pieces[k as int]);
        }
        if !cut_safely(piece) {
            proof {
                assert(!is_cut_safely(pieces[k as int]));
            }
            return false;
        }
        k = k + 1;
    }
    true
}

/// Where all prefixes of `t` fit, all cuts do.
proof fn lemma_all_cuts_fit(piece: Seq<char>, t: Seq<char>, j: int, scan: Scan)
    requires
        0 <= j,
        forall|k: int| 0 <= k <= t.len() ==> #[trigger] cut_fits(piece, t, k),
    ensures
        cuts_fit(piece, t, j, scan),
    decreases t.len() - j,
{
    if j < t.len() {
        assert(cut_fits(piece, t, j) && cut_fits(piece, t, j + 1));
        lemma_all_cuts_fit(piece, t, j + 1, Scan::Span);
        lemma_all_cuts_fit(piece, t, j + 1, Scan::Field);
        lemma_all_cuts_fit(piece, t, j + 1, Scan::Rest);
        lemma_all_cuts_fit(piece, t, j + 1, scan);
    }
}

/// A directive without white space before it is cut safely, whatever its
/// characters.
pub proof fn directives_without_indent_are_cut_safely(piece: Seq<char>)
    requires
        piece.len() > 0 ==> !text::is_white_space(piece[0]),
    ensures
        is_cut_safely(piece),
{
    let t = text::trim(piece, CharSet::WhiteSpace);
    text::lemma_trim_end_is_prefix(piece, CharSet::WhiteSpace);
    assert forall|k: int| 0 <= k <= t.len() implies #[trigger] cut_fits(piece, t, k) by {
        assert(t.take(k) =~= piece.take(k));
        body::lemma_prefix_boundary(piece, k);
    }
    lemma_all_cuts_fit(piece, t, 0, Scan::Name);
}

/// A directive of ASCII characters is cut safely, wherever its white space.
pub proof fn ascii_directives_are_cut_safely(piece: Seq<char>)
    requires
        utf8::is_ascii_chars(piece),
    ensures
        is_cut_safely(piece),
{
    let t = text::trim(piece, CharSet::WhiteSpace);
    text::lemma_trim_is_subrange(piece, CharSet::WhiteSpace);
    let a = choose|a: int|
        0 <= a <= a + t.len() <= piece.len() && t == #[trigger] piece.subrange(a, a + t.len());
    assert forall|k: int| 0 <= k <= t.len() implies #[trigger] cut_fits(piece, t, k) by {
        assert(t.take(k) =~= piece.subrange(a, a + k));
        assert(utf8::is_ascii_chars(t.take(k)));
        assert(utf8::is_ascii_chars(piece.take(k)));
        utf8::is_ascii_chars_encode_utf8(t.take(k));
        utf8::is_ascii_chars_encode_utf8(piece.take(k));
        body::lemma_prefix_boundary(piece, k);
    }
    lemma_all_cuts_fit(piece, t, 0, Scan::Name);
}

/// The log filter directives: those of the setting where they parse, else
/// `info`.
pub open spec fn filter_directives(setting: Option<Seq<char>>, parses: bool) -> Seq<char> {
    match setting {
        Some(directives) => if parses {
            directives
        } else {
            "info"@
        },
        None => "info"@,
    }
}

/// The log filter directives, given whether those of the setting parse.
pub fn choose_filter(setting: Option<&str>, parses: bool) -> (r: String)
    ensures
        r@ == filter_directives(text::str_of(setting), parses),
{
    match setting {
        Some(directives) => if parses {
            directives.to_owned()
        } else {
            "info".to_owned()
        },
        None => "info".to_owned(),
    }
}

/// The log filter directives for a value of `RUST_LOG`: that value where it is
/// set, is cut safely and parses, else `info`.
pub fn log_filter(setting: Option<&str>) -> (r: String)
    ensures
        r@ == filter_directives(
            text::str_of(setting),
            setting is Some && are_cut_safely(setting->0@) && directives_parse(setting->0@),
        ),
        match setting {
            Some(directives) => if are_cut_safely(directives@) && directives_parse(directives@) {
                r@ == directives@
            } else {
                r@ == "info"@
            },
            None => r@ == "info"@,
        },
{
    match setting {
        Some(directives) => {
            let parses: bool = all_cut_safely(directives) && filter_takes(directives);
            choose_filter(setting, parses)
        },
        None => choose_filter(None, false),
    }
}

/// The fields of the root span of one MCP HTTP exchange.
#[derive(Debug)]
pub struct RequestSpan {
    /// The HTTP method.
    pub http_method: String,
    /// The path of the request URI.
    pub http_path: String,
    /// The `mcp-method` header, empty if it is missing or not visible ASCII.
    pub mcp_method: String,
    /// The W3C `traceparent` header, empty if it is missing or not visible
    /// ASCII.
    pub traceparent: String,
}

/// Whether `field` records a header: byte for byte where it is there and all of
/// its bytes are visible ASCII, spaces or tabs, and else as nothing.
pub open spec fn records(
    values: Map<Seq<char>, Seq<u8>>,
    name: Seq<char>,
    field: Seq<char>,
) -> bool {
    if values.contains_key(name) && forall|i: int|
        0 <= i < values[name].len() ==> 32 <= #[trigger] values[name][i] <= 126 || values[name][i]
            == 9 {
        &&& field.len() == values[name].len()
        &&& forall|i: int| 0 <= i < field.len() ==> #[trigger] field[i] as int == values[name][i]
    } else {
        field.len() == 0
    }
}

/// The text of a header, empty if the header is missing or not visible ASCII.
pub open spec fn header_text(values: Map<Seq<char>, Seq<u8>>, name: Seq<char>) -> Seq<char> {
    if values.contains_key(name) {
        match visible_text(values[name]) {
            Some(text) => text,
            None => Seq::empty(),
        }
    } else {
        Seq::empty()
    }
}

/// The text of a header, empty if the header is missing or not visible ASCII.
fn header_or_empty(headers: &http::HeaderMap<http::HeaderValue>, name: &str) -> (r: String)
    requires
        1 <= name@.len() <= 64,
        forall|i: int| 0 <= i < name@.len() ==> is_name_char(#[trigger] name@[i]),
    ensures
        r@ == header_text(first_values(*headers), name@),
{
    match first_value(headers, name) {
        Some(value) => match value_text(value) {
            Some(text) => text,
            None => String::new(),
        },
        None => String::new(),
    }
}

/// The fields of the root span for one MCP HTTP exchange: the HTTP method, the
/// path, and, if present, the `mcp-method` and `traceparent` headers.
pub fn request_span(
    method: &str,
    path: &str,
    headers: &http::HeaderMap<http::HeaderValue>,
) -> (r: RequestSpan)
    ensures
        r.http_method@ == method@,
        r.http_path@ == path@,
        r.mcp_method@ == header_text(first_values(*headers), "mcp-method"@),
        r.traceparent@ == header_text(first_values(*headers), "traceparent"@),
        records(first_values(*headers), "mcp-method"@, r.mcp_method@),
        records(first_values(*headers), "traceparent"@, r.traceparent@),
{
    proof {
        reveal_strlit("mcp-method");
        reveal_strlit("traceparent");
        visible_headers_are_recorded(first_values(*headers), "mcp-method"@);
        visible_headers_are_recorded(first_values(*headers), "traceparent"@);
    }
    RequestSpan {
        http_method: method.to_owned(),
        http_path: path.to_owned(),
        mcp_method: header_or_empty(headers, "mcp-method"),
        traceparent: header_or_empty(headers, "traceparent"),
    }
}

/// A header that is there, of visible ASCII, spaces and tabs, is recorded byte for
/// byte, whatever its length. One that is missing or holds another byte is
/// recorded as nothing.
pub proof fn visible_headers_are_recorded(values: Map<Seq<char>, Seq<u8>>, name: Seq<char>)
    ensures
        !values.contains_key(name) ==> header_text(values, name).len() == 0,
        values.contains_key(name) && (exists|i: int|
            0 <= i < values[name].len() && !(32 <= #[trigger] values[name][i] <= 126)
                && values[name][i] != 9) ==> header_text(values, name).len() == 0,
        values.contains_key(name) && (forall|i: int|
            0 <= i < values[name].len() ==> 32 <= #[trigger] values[name][i] <= 126
                || values[name][i] == 9) ==> {
            &&& header_text(values, name).len() == values[name].len()
            &&& forall|i: int|
                0 <= i < values[name].len() ==> (#[trigger] header_text(values, name)[i]) as int
                    == values[name][i]
        },
        records(values, name, header_text(values, name)),
{
    if values.contains_key(name) {
        let bytes = values[name];
        if exists|i: int|
            0 <= i < bytes.len() && !(32 <= #[trigger] bytes[i] <= 126) && bytes[i] != 9 {
            let i = choose|i: int|
                0 <= i < bytes.len() && !(32 <= #[trigger] bytes[i] <= 126) && bytes[i] != 9;
            assert(!is_visible(bytes[i]));
        } else {
            assert forall|i: int| 0 <= i < bytes.len() implies is_visible(#[trigger] bytes[i]) by {}
        }
    }
}

/// Two visible values that differ are recorded differently.
pub proof fn different_headers_are_recorded_differently(
    a: Map<Seq<char>, Seq<u8>>,
    b: Map<Seq<char>, Seq<u8>>,
    name: Seq<char>,
)
    requires
        a.contains_key(name),
        b.contains_key(name),
        forall|i: int|
            0 <= i < a[name].len() ==> 32 <= #[trigger] a[name][i] <= 126 || a[name][i] == 9,
        forall|i: int|
            0 <= i < b[name].len() ==> 32 <= #[trigger] b[name][i] <= 126 || b[name][i] == 9,
        header_text(a, name) == header_text(b, name),
    ensures
        a[name] == b[name],
{
    visible_headers_are_recorded(a, name);
    visible_headers_are_recorded(b, name);
    assert forall|i: int| 0 <= i < a[name].len() implies a[name][i] == b[name][i] by {
        assert(header_text(a, name)[i] as int == a[name][i]);
        assert(header_text(b, name)[i] as int == b[name][i]);
    }
    assert(a[name] =~= b[name]);
}

/// The filter is what the setting says where that parses, and `info` where it does
/// not or nothing is set.
pub proof fn filters_are_kept_where_they_parse(directives: Seq<char>, parses: bool)
    ensures
        filter_directives(Some(directives), true) == directives,
        filter_directives(Some(directives), false) == "info"@,
        filter_directives(None, parses) == "info"@,
{
}

/// A list of directives is cut safely if and only if each of them is.
pub proof fn lists_are_cut_safely_piece_by_piece(pieces: Seq<Seq<char>>)
    requires
        pieces.len() >= 1,
        forall|k: int| 0 <= k < pieces.len() ==> !(#[trigger] pieces[k]).contains(','),
    ensures
        are_cut_safely(text::join(pieces, ',')) <==> forall|k: int|
            0 <= k < pieces.len() ==> is_cut_safely(#[trigger] pieces[k]),
{
    text::split_undoes_join(pieces, ',');
}

/// The byte at which character `j` of `t` starts.
pub open spec fn byte_of(t: Seq<char>, j: int) -> int {
    utf8::encode_utf8(t.take(j)).len() as int
}

/// Whether `c` is one of the marks that part a directive.
pub open spec fn is_mark(c: char) -> bool {
    c == '=' || c == '[' || c == ']' || c == '{' || c == '}'
}

/// Where every mark of a directive, counted in bytes from its first character that
/// is no white space, falls between characters, the directive is cut safely.
pub proof fn directives_whose_marks_fit_are_cut_safely(a: Seq<char>, t: Seq<char>, b: Seq<char>)
    requires
        forall|i: int| 0 <= i < a.len() ==> text::is_white_space(#[trigger] a[i]),
        forall|i: int| 0 <= i < b.len() ==> text::is_white_space(#[trigger] b[i]),
        t.len() > 0 ==> !text::is_white_space(t[0]) && !text::is_white_space(t.last()),
        forall|j: int|
            0 <= j < t.len() && is_mark(#[trigger] t[j]) ==> utf8::is_char_boundary(
                utf8::encode_utf8(a + t + b),
                byte_of(t, j),
            ) && utf8::is_char_boundary(utf8::encode_utf8(a + t + b), byte_of(t, j + 1)),
    ensures
        is_cut_safely(a + t + b),
{
    assert forall|i: int| 0 <= i < a.len() implies CharSet::WhiteSpace.has(#[trigger] a[i]) by {
        assert(text::is_white_space(a[i]));
    }
    assert forall|i: int| 0 <= i < b.len() implies CharSet::WhiteSpace.has(#[trigger] b[i]) by {
        assert(text::is_white_space(b[i]));
    }
    text_laws::trimming_keeps_the_middle(a, t, b, CharSet::WhiteSpace);
    lemma_marks_fit(a + t + b, t, 0, Scan::Name);
}

/// Where every mark fits, all cuts do.
proof fn lemma_marks_fit(piece: Seq<char>, t: Seq<char>, j: int, scan: Scan)
    requires
        0 <= j,
        forall|k: int|
            0 <= k < t.len() && is_mark(#[trigger] t[k]) ==> cut_fits(piece, t, k) && cut_fits(
                piece,
                t,
                k + 1,
            ),
    ensures
        cuts_fit(piece, t, j, scan),
    decreases t.len() - j,
{
    if j < t.len() {
        lemma_marks_fit(piece, t, j + 1, Scan::Span);
        lemma_marks_fit(piece, t, j + 1, Scan::Field);
        lemma_marks_fit(piece, t, j + 1, Scan::Rest);
        lemma_marks_fit(piece, t, j + 1, scan);
        assert(is_mark(t[j]) || !is_mark(t[j]));
    }
}

/// Where the first mark of a directive, `=` or `[`, falls inside a character, the
/// directive is not cut safely.
pub proof fn a_first_mark_inside_a_character_is_not_cut_safely(
    a: Seq<char>,
    t: Seq<char>,
    b: Seq<char>,
    j: int,
)
    requires
        forall|i: int| 0 <= i < a.len() ==> text::is_white_space(#[trigger] a[i]),
        forall|i: int| 0 <= i < b.len() ==> text::is_white_space(#[trigger] b[i]),
        t.len() > 0 ==> !text::is_white_space(t[0]) && !text::is_white_space(t.last()),
        0 <= j < t.len(),
        t[j] == '=' || t[j] == '[',
        forall|i: int| 0 <= i < j ==> #[trigger] t[i] != '=' && t[i] != '[',
        !utf8::is_char_boundary(utf8::encode_utf8(a + t + b), byte_of(t, j))
            || !utf8::is_char_boundary(utf8::encode_utf8(a + t + b), byte_of(t, j + 1)),
    ensures
        !is_cut_safely(a + t + b),
{
    assert forall|i: int| 0 <= i < a.len() implies CharSet::WhiteSpace.has(#[trigger] a[i]) by {
        assert(text::is_white_space(a[i]));
    }
    assert forall|i: int| 0 <= i < b.len() implies CharSet::WhiteSpace.has(#[trigger] b[i]) by {
        assert(text::is_white_space(b[i]));
    }
    text_laws::trimming_keeps_the_middle(a, t, b, CharSet::WhiteSpace);
    lemma_first_mark(a + t + b, t, 0, j);
}

/// The scan of a name goes on to its first mark.
proof fn lemma_first_mark(piece: Seq<char>, t: Seq<char>, i: int, j: int)
    requires
        0 <= i <= j < t.len(),
        t[j] == '=' || t[j] == '[',
        forall|k: int| i <= k < j ==> #[trigger] t[k] != '=' && t[k] != '[',
        !cut_fits(piece, t, j) || !cut_fits(piece, t, j + 1),
    ensures
        !cuts_fit(piece, t, i, Scan::Name),
    decreases j - i,
{
    if i < j {
        assert(t[i] != '=' && t[i] != '[');
        lemma_first_mark(piece, t, i + 1, j);
    }
}

/// Whether a character ends the part that is being read.
pub open spec fn is_end(scan: Scan, c: char) -> bool {
    match scan {
        Scan::Name => c == '=' || c == '[',
        Scan::Span => c == ']' || c == '{',
        Scan::Field => c == '}',
        Scan::Rest => c == '=',
    }
}

/// A part is read up to its end.
proof fn lemma_read_on(piece: Seq<char>, t: Seq<char>, i: int, j: int, scan: Scan)
    requires
        0 <= i <= j <= t.len(),
        forall|k: int| i <= k < j ==> !is_end(scan, #[trigger] t[k]),
    ensures
        cuts_fit(piece, t, i, scan) == cuts_fit(piece, t, j, scan),
    decreases j - i,
{
    if i < j {
        assert(!is_end(scan, t[i]));
        lemma_read_on(piece, t, i + 1, j, scan);
    }
}

/// Whether `piece` has a character boundary at byte `place`.
pub open spec fn fits(piece: Seq<char>, place: int) -> bool {
    utf8::is_char_boundary(utf8::encode_utf8(piece), place)
}

/// Whether a text holds none of two characters.
pub open spec fn is_without(s: Seq<char>, c: char, d: char) -> bool {
    forall|i: int| 0 <= i < s.len() ==> #[trigger] s[i] != c && s[i] != d
}

/// The number of bytes of a text.
pub open spec fn size(s: Seq<char>) -> int {
    utf8::encode_utf8(s).len() as int
}

/// A target, perhaps with a level, is cut before and behind the equals sign, and
/// nowhere else. The directive stands between the white space `a` and `b`.
pub proof fn targets_are_cut_at_the_level(
    a: Seq<char>,
    name: Seq<char>,
    level: Seq<char>,
    b: Seq<char>,
)
    requires
        forall|i: int| 0 <= i < a.len() ==> text::is_white_space(#[trigger] a[i]),
        forall|i: int| 0 <= i < b.len() ==> text::is_white_space(#[trigger] b[i]),
        is_without(name, '=', '['),
    ensures
        (name.len() > 0 ==> !text::is_white_space(name[0]) && !text::is_white_space(name.last()))
            ==> is_cut_safely(a + name + b),
        ({
            let t = name + seq!['='] + level;
            !text::is_white_space(t[0]) && !text::is_white_space(t.last()) ==> (is_cut_safely(
                a + t + b,
            ) <==> fits(a + t + b, size(name)) && fits(a + t + b, size(name) + 1))
        }),
{
    assert forall|i: int| 0 <= i < a.len() implies CharSet::WhiteSpace.has(#[trigger] a[i]) by {
        assert(text::is_white_space(a[i]));
    }
    assert forall|i: int| 0 <= i < b.len() implies CharSet::WhiteSpace.has(#[trigger] b[i]) by {
        assert(text::is_white_space(b[i]));
    }
    let n = name.len() as int;
    if n > 0 ==> !text::is_white_space(name[0]) && !text::is_white_space(name.last()) {
        text_laws::trimming_keeps_the_middle(a, name, b, CharSet::WhiteSpace);
        lemma_read_on(a + name + b, name, 0, n, Scan::Name);
    }
    let t = name + seq!['='] + level;
    if !text::is_white_space(t[0]) && !text::is_white_space(t.last()) {
        text_laws::trimming_keeps_the_middle(a, t, b, CharSet::WhiteSpace);
        assert forall|k: int| 0 <= k < n implies !is_end(Scan::Name, #[trigger] t[k]) by {
            assert(t[k] == name[k]);
        }
        lemma_read_on(a + t + b, t, 0, n, Scan::Name);
        assert(t.take(n) =~= name);
        assert(t.take(n + 1) =~= name + seq!['=']);
        lemma_mark_size(name, '=');
    }
}

/// A mark takes one byte.
proof fn lemma_mark_size(s: Seq<char>, c: char)
    requires
        c < '\u{80}',
    ensures
        size(s + seq![c]) == size(s) + 1,
{
    body::lemma_encode_concat(s, seq![c]);
    assert(utf8::is_ascii_chars(seq![c]));
    utf8::is_ascii_chars_encode_utf8(seq![c]);
}

/// What comes behind a span: nothing that matters, or a level.
proof fn lemma_rest(piece: Seq<char>, t: Seq<char>, j: int, rest: Seq<char>, level: Seq<char>)
    requires
        0 <= j,
        t == t.take(j) + rest + level,
        j <= t.len(),
        is_without(rest, '=', '='),
        level.len() > 0 ==> level[0] == '=',
    ensures
        cuts_fit(piece, t, j, Scan::Rest) <==> level.len() > 0 ==> fits(
            piece,
            size(t.take(j) + rest) + 1,
        ),
{
    let k = j + rest.len();
    assert forall|i: int| j <= i < k implies !is_end(Scan::Rest, #[trigger] t[i]) by {
        assert(t[i] == rest[i - j]);
    }
    lemma_read_on(piece, t, j, k, Scan::Rest);
    if level.len() > 0 {
        assert(t[k] == level[0]);
        assert(t.take(k + 1) =~= t.take(j) + rest + seq!['=']);
        lemma_mark_size(t.take(j) + rest, '=');
    }
}

/// A directive with a span is cut before and behind the opening bracket, before
/// the closing one, and behind the equals sign where there is a level, and
/// nowhere else.
pub proof fn spans_are_cut_at_their_brackets(
    a: Seq<char>,
    name: Seq<char>,
    span: Seq<char>,
    rest: Seq<char>,
    level: Seq<char>,
    b: Seq<char>,
)
    requires
        forall|i: int| 0 <= i < a.len() ==> text::is_white_space(#[trigger] a[i]),
        forall|i: int| 0 <= i < b.len() ==> text::is_white_space(#[trigger] b[i]),
        is_without(name, '=', '['),
        is_without(span, ']', '{'),
        is_without(rest, '=', '='),
        level.len() > 0 ==> level[0] == '=',
        ({
            let t = name + seq!['['] + span + seq![']'] + rest + level;
            !text::is_white_space(t[0]) && !text::is_white_space(t.last())
        }),
    ensures
        ({
            let t = name + seq!['['] + span + seq![']'] + rest + level;
            let whole = a + t + b;
            is_cut_safely(whole) <==> {
                &&& fits(whole, size(name))
                &&& fits(whole, size(name) + 1)
                &&& fits(whole, size(name + seq!['['] + span))
                &&& level.len() > 0 ==> fits(
                    whole,
                    size(name + seq!['['] + span + seq![']'] + rest) + 1,
                )
            }
        }),
{
    assert forall|i: int| 0 <= i < a.len() implies CharSet::WhiteSpace.has(#[trigger] a[i]) by {
        assert(text::is_white_space(a[i]));
    }
    assert forall|i: int| 0 <= i < b.len() implies CharSet::WhiteSpace.has(#[trigger] b[i]) by {
        assert(text::is_white_space(b[i]));
    }
    let t = name + seq!['['] + span + seq![']'] + rest + level;
    let whole = a + t + b;
    text_laws::trimming_keeps_the_middle(a, t, b, CharSet::WhiteSpace);
    let n = name.len() as int;
    let m = n + 1 + span.len();
    assert forall|k: int| 0 <= k < n implies !is_end(Scan::Name, #[trigger] t[k]) by {
        assert(t[k] == name[k]);
    }
    lemma_read_on(whole, t, 0, n, Scan::Name);
    assert(t[n] == '[');
    assert(t.take(n) =~= name);
    assert(t.take(n + 1) =~= name + seq!['[']);
    lemma_mark_size(name, '[');
    assert forall|k: int| n + 1 <= k < m implies !is_end(Scan::Span, #[trigger] t[k]) by {
        assert(t[k] == span[k - n - 1]);
    }
    lemma_read_on(whole, t, n + 1, m, Scan::Span);
    assert(t[m] == ']');
    assert(t.take(m) =~= name + seq!['['] + span);
    assert(t.take(m + 1) =~= name + seq!['['] + span + seq![']']);
    assert(t =~= t.take(m + 1) + rest + level);
    lemma_rest(whole, t, m + 1, rest, level);
}

/// A directive with a field is cut before and behind the opening bracket and the
/// opening brace, before the closing brace, and behind the equals sign where
/// there is a level, and nowhere else.
pub proof fn fields_are_cut_at_their_braces(
    a: Seq<char>,
    name: Seq<char>,
    span: Seq<char>,
    field: Seq<char>,
    rest: Seq<char>,
    level: Seq<char>,
    b: Seq<char>,
)
    requires
        forall|i: int| 0 <= i < a.len() ==> text::is_white_space(#[trigger] a[i]),
        forall|i: int| 0 <= i < b.len() ==> text::is_white_space(#[trigger] b[i]),
        is_without(name, '=', '['),
        is_without(span, ']', '{'),
        is_without(field, '}', '}'),
        is_without(rest, '=', '='),
        level.len() > 0 ==> level[0] == '=',
        ({
            let t = name + seq!['['] + span + seq!['{'] + field + seq!['}'] + rest + level;
            !text::is_white_space(t[0]) && !text::is_white_space(t.last())
        }),
    ensures
        ({
            let t = name + seq!['['] + span + seq!['{'] + field + seq!['}'] + rest + level;
            let whole = a + t + b;
            is_cut_safely(whole) <==> {
                &&& fits(whole, size(name))
                &&& fits(whole, size(name) + 1)
                &&& fits(whole, size(name + seq!['['] + span))
                &&& fits(whole, size(name + seq!['['] + span) + 1)
                &&& fits(whole, size(name + seq!['['] + span + seq!['{'] + field))
                &&& level.len() > 0 ==> fits(
                    whole,
                    size(name + seq!['['] + span + seq!['{'] + field + seq!['}'] + rest) + 1,
                )
            }
        }),
{
    assert forall|i: int| 0 <= i < a.len() implies CharSet::WhiteSpace.has(#[trigger] a[i]) by {
        assert(text::is_white_space(a[i]));
    }
    assert forall|i: int| 0 <= i < b.len() implies CharSet::WhiteSpace.has(#[trigger] b[i]) by {
        assert(text::is_white_space(b[i]));
    }
    let t = name + seq!['['] + span + seq!['{'] + field + seq!['}'] + rest + level;
    let whole = a + t + b;
    text_laws::trimming_keeps_the_middle(a, t, b, CharSet::WhiteSpace);
    let n = name.len() as int;
    let m = n + 1 + span.len();
    let f = m + 1 + field.len();
    assert forall|k: int| 0 <= k < n implies !is_end(Scan::Name, #[trigger] t[k]) by {
        assert(t[k] == name[k]);
    }
    lemma_read_on(whole, t, 0, n, Scan::Name);
    assert(t[n] == '[');
    assert(t.take(n) =~= name);
    assert(t.take(n + 1) =~= name + seq!['[']);
    lemma_mark_size(name, '[');
    assert forall|k: int| n + 1 <= k < m implies !is_end(Scan::Span, #[trigger] t[k]) by {
        assert(t[k] == span[k - n - 1]);
    }
    lemma_read_on(whole, t, n + 1, m, Scan::Span);
    assert(t[m] == '{');
    assert(t.take(m) =~= name + seq!['['] + span);
    assert(t.take(m + 1) =~= name + seq!['['] + span + seq!['{']);
    lemma_mark_size(name + seq!['['] + span, '{');
    assert forall|k: int| m + 1 <= k < f implies !is_end(Scan::Field, #[trigger] t[k]) by {
        assert(t[k] == field[k - m - 1]);
    }
    lemma_read_on(whole, t, m + 1, f, Scan::Field);
    assert(t[f] == '}');
    assert(t.take(f) =~= name + seq!['['] + span + seq!['{'] + field);
    assert(t.take(f + 1) =~= name + seq!['['] + span + seq!['{'] + field + seq!['}']);
    assert(t =~= t.take(f + 1) + rest + level);
    lemma_rest(whole, t, f + 1, rest, level);
}

} // verus!
