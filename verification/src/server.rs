//! The MCP server: its tools, and what it says of itself.
//!
//! A tool that does no I/O is one function from its parameters to its result.
//! `http_get` is two: [`TemplateServer::http_get`] decides whether to fetch, and
//! [`TemplateServer::http_get_result`] turns what came back into the result.
use vstd::prelude::*;
use vstd::utf8;

use crate::body;
use crate::fetch;
use crate::guard;
use crate::guard::RequestTarget;
use crate::ip;
use crate::ip_laws;
use crate::text;
use crate::text_laws;

verus! {

/// The JSON-RPC code of a request whose parameters cannot be used.
pub const INVALID_PARAMS: i32 = -32602;

/// The JSON-RPC code of a failure inside the server.
pub const INTERNAL_ERROR: i32 = -32603;

/// A protocol-level error.
#[derive(Debug)]
pub struct ErrorData {
    /// The JSON-RPC error code.
    pub code: i32,
    /// What went wrong.
    pub message: String,
}

/// The result of a tool call: text blocks, and whether the tool failed.
#[derive(Debug)]
pub struct ToolResult {
    /// The text blocks.
    pub content: Vec<String>,
    /// Whether the tool ran and failed.
    pub is_error: bool,
}

/// The JSON type of an input.
#[derive(Clone, Copy, Debug, PartialEq, Eq, Structural)]
pub enum InputKind {
    /// A string.
    Text,
    /// A number.
    Number,
}

/// An input of a tool.
#[derive(Debug)]
pub struct ToolInput {
    /// The name of the input.
    pub name: String,
    /// Its type.
    pub kind: InputKind,
    /// Whether a call has to give it.
    pub required: bool,
}

/// A tool, as clients see it.
#[derive(Debug)]
pub struct Tool {
    /// The name that a call gives.
    pub name: String,
    /// What the tool does.
    pub description: String,
    /// The inputs that it takes.
    pub inputs: Vec<ToolInput>,
}

/// The parameters of `echo`.
#[derive(Debug)]
pub struct EchoParams {
    /// The message to echo back.
    pub message: String,
}

/// The parameters of `http_get`.
#[derive(Debug)]
pub struct HttpGetParams {
    /// URL to fetch. Its host must be on the workload's outbound
    /// `allowedHosts` allow-list (deny-all by default).
    pub url: String,
}

/// An outbound HTTP request.
#[derive(Debug)]
pub struct OutboundRequest {
    /// The method.
    pub method: String,
    /// The URL.
    pub url: String,
    /// The headers, each a name and a value.
    pub headers: Vec<(String, String)>,
    /// The body.
    pub body: Vec<u8>,
}

/// What `http_get` does next.
#[derive(Debug)]
pub enum HttpGetStep {
    /// The target is refused: this is the result of the call.
    Refused(ToolResult),
    /// This request is to be sent, once.
    Fetch(OutboundRequest),
}

/// The time since the Unix epoch.
#[derive(Clone, Copy, Debug)]
pub struct SinceEpoch {
    /// Whole seconds.
    pub secs: u64,
    /// The nanoseconds beyond them.
    pub nanos: u32,
}

/// A fetched response.
#[derive(Debug)]
pub struct FetchedResponse {
    /// The status code.
    pub status: u16,
    /// The body.
    pub body: Vec<u8>,
}

/// What the server says of itself.
#[derive(Debug)]
pub struct ServerInfo {
    /// The name of the implementation.
    pub name: String,
    /// The version of the implementation.
    pub version: String,
    /// Whether it offers tools.
    pub tools: bool,
    /// How to use it.
    pub instructions: String,
}

/// The MCP server. One instance is created per request: the transport is
/// stateless, so it keeps no per-session state.
#[derive(Debug)]
pub struct TemplateServer {
    /// The tools that it offers.
    pub tools: Vec<Tool>,
}

/// Whether `r` is one block of text.
pub open spec fn is_text(r: ToolResult, text: Seq<char>, is_error: bool) -> bool {
    &&& r.content.len() == 1
    &&& r.content[0]@ == text
    &&& r.is_error == is_error
}

/// Whether `err` has the given code and message.
pub open spec fn is_failure(err: ErrorData, code: i32, message: Seq<char>) -> bool {
    err.code == code && err.message@ == message
}

/// What clients see of a tool.
pub ghost struct ToolView {
    /// The name that a call gives.
    pub name: Seq<char>,
    /// What the tool does.
    pub description: Seq<char>,
    /// The name and the type of each input, and whether it is required.
    pub inputs: Seq<(Seq<char>, InputKind, bool)>,
}

impl View for ToolInput {
    type V = (Seq<char>, InputKind, bool);

    open spec fn view(&self) -> (Seq<char>, InputKind, bool) {
        (self.name@, self.kind, self.required)
    }
}

impl View for Tool {
    type V = ToolView;

    open spec fn view(&self) -> ToolView {
        ToolView {
            name: self.name@,
            description: self.description@,
            inputs: self.inputs@.map_values(|i: ToolInput| i@),
        }
    }
}

/// What clients see of some tools.
pub open spec fn catalog(tools: Seq<Tool>) -> Seq<ToolView> {
    tools.map_values(|t: Tool| t@)
}

/// The tools of the template. Every input is required.
pub open spec fn template_tools() -> Seq<ToolView> {
    seq![
        ToolView {
            name: "echo"@,
            description: "Echo a message back to the caller"@,
            inputs: seq![("message"@, InputKind::Text, true)],
        },
        ToolView {
            name: "add"@,
            description: "Add two numbers and return the sum"@,
            inputs: seq![("a"@, InputKind::Number, true), ("b"@, InputKind::Number, true)],
        },
        ToolView {
            name: "http_get"@,
            description:
                "HTTP GET a URL (subject to the outbound allow-list policy); returns the status line and up to 4 KiB of the body"@,
            inputs: seq![("url"@, InputKind::Text, true)],
        },
        ToolView {
            name: "current_time"@,
            description: "Get the current UTC time as a unix timestamp in milliseconds"@,
            inputs: Seq::empty(),
        },
    ]
}

/// Whether `request` is a GET of exactly this URL, with no headers of its own and
/// an empty body.
pub open spec fn is_get_of(request: OutboundRequest, url: Seq<char>) -> bool {
    &&& request.method@ == "GET"@
    &&& request.url@ == url
    &&& request.headers@.len() == 0
    &&& request.body@.len() == 0
}

/// Whole milliseconds, rounded down.
pub open spec fn whole_millis(time: SinceEpoch) -> nat {
    (time.secs * 1000 + time.nanos / 1_000_000) as nat
}

/// Whether `r` is the step that a URL leads to whose request target is the given
/// one.
pub open spec fn is_step_for(
    r: Result<HttpGetStep, ErrorData>,
    url: Seq<char>,
    target: Result<(Option<Seq<char>>, Option<Seq<char>>), Seq<char>>,
    setting: Option<Seq<char>>,
) -> bool {
    match target {
        Err(err) => r matches Err(e) && is_failure(e, INVALID_PARAMS, err),
        Ok((scheme, host)) => match guard::denial(scheme, host, setting) {
            Some(reason) => r matches Ok(HttpGetStep::Refused(result)) && is_text(
                result,
                reason,
                true,
            ),
            None => r matches Ok(HttpGetStep::Fetch(request)) && is_get_of(request, url),
        },
    }
}

/// Whether `r` refuses every scheme but `http` and `https`, and quotes it where
/// it has the usual characters.
pub open spec fn refuses_scheme(
    r: Result<HttpGetStep, ErrorData>,
    scheme: Option<Seq<char>>,
) -> bool {
    !guard::is_http_scheme(scheme) ==> (r matches Ok(HttpGetStep::Refused(result))
        && result.is_error && result.content.len() == 1 && guard::names_scheme(
        Some(result.content[0]@),
        scheme,
    ))
}

/// The text that `http_get` returns for a response, from the texts of its status
/// and of its body.
pub open spec fn response_text(status: Seq<char>, body: Seq<char>) -> Seq<char> {
    "HTTP "@ + status + "\n"@ + body::shown_body(body)
}

/// Whether `r` is the result of `http_get` for a response with the given status
/// code and text.
pub open spec fn shows_response(
    r: Result<ToolResult, ErrorData>,
    status: u16,
    body: Seq<char>,
) -> bool {
    r matches Ok(result) && is_text(
        result,
        response_text(
            text::decimal(status as nat) + " "@ + fetch::reason_phrase(status),
            body,
        ),
        false,
    )
}

/// One block of text.
fn text_result(text: String, is_error: bool) -> (r: ToolResult)
    ensures
        is_text(r, text@, is_error),
{
    let mut content: Vec<String> = Vec::new();
    content.push(text);
    ToolResult { content, is_error }
}

/// One tool.
fn tool(name: &str, description: &str, inputs: Vec<ToolInput>) -> (r: Tool)
    ensures
        r.name@ == name@,
        r.description@ == description@,
        r.inputs == inputs,
{
    Tool { name: name.to_owned(), description: description.to_owned(), inputs }
}

/// One input, which a call has to give.
fn required_input(name: &str, kind: InputKind) -> (r: ToolInput)
    ensures
        r@ == (name@, kind, true),
{
    ToolInput { name: name.to_owned(), kind, required: true }
}

/// A GET of exactly this URL, with no headers of its own and an empty body.
pub fn get_request(url: &str) -> (r: OutboundRequest)
    ensures
        is_get_of(r, url@),
        r.method@ == "GET"@,
        r.url@ == url@,
        r.headers.len() == 0,
        r.body.len() == 0,
{
    OutboundRequest {
        method: "GET".to_owned(),
        url: url.to_owned(),
        headers: Vec::new(),
        body: Vec::new(),
    }
}

/// Whole milliseconds, rounded down.
pub fn epoch_millis(time: SinceEpoch) -> (r: u128)
    ensures
        r == time.secs * 1000 + time.nanos / 1_000_000,
        r == whole_millis(time),
{
    time.secs as u128 * 1000 + (time.nanos / 1_000_000) as u128
}

impl TemplateServer {
    /// A server with the template's tools.
    pub fn new() -> (r: Self)
        ensures
            catalog(r.tools@) == template_tools(),
    {
        let message = vec![required_input("message", InputKind::Text)];
        let operands = vec![
            required_input("a", InputKind::Number),
            required_input("b", InputKind::Number),
        ];
        let url = vec![required_input("url", InputKind::Text)];
        let nothing: Vec<ToolInput> = Vec::new();
        let tools = vec![
            tool("echo", "Echo a message back to the caller", message),
            tool("add", "Add two numbers and return the sum", operands),
            tool(
                "http_get",
                "HTTP GET a URL (subject to the outbound allow-list policy); returns the status line and up to 4 KiB of the body",
                url,
            ),
            tool(
                "current_time",
                "Get the current UTC time as a unix timestamp in milliseconds",
                nothing,
            ),
        ];
        proof {
            let expected = template_tools();
            assert(tools[0]@.inputs =~= expected[0].inputs);
            assert(tools[1]@.inputs =~= expected[1].inputs);
            assert(tools[2]@.inputs =~= expected[2].inputs);
            assert(tools[3]@.inputs =~= expected[3].inputs);
            assert(catalog(tools@) =~= expected);
        }
        TemplateServer { tools }
    }

    /// Echoes the provided message back to the client.
    pub fn echo(&self, params: EchoParams) -> (r: Result<ToolResult, ErrorData>)
        ensures
            r matches Ok(result) && is_text(result, params.message@, false),
            r matches Ok(result) && result.content.len() == 1 && result.content[0]@
                == params.message@ && !result.is_error,
    {
        Ok(text_result(params.message, false))
    }

    /// Decides about the request target of a URL, or about the error that building
    /// the request gave: a URL that makes no request is invalid parameters, and a
    /// refused target is a failed tool call whose text is the reason.
    ///
    /// `setting` is the value of `MCP_HTTP_GET_ALLOW_LOCAL`, if it is set.
    pub fn admit_target(
        &self,
        params: &HttpGetParams,
        target: Result<RequestTarget, String>,
        setting: Option<&str>,
    ) -> (r: Result<HttpGetStep, ErrorData>)
        ensures
            is_step_for(r, params.url@, fetch::target_value(target), text::str_of(setting)),
            fetch::target_value(target) matches Ok((scheme, host)) ==> refuses_scheme(
                r,
                scheme,
            ),
            match target {
                Err(err) => r matches Err(e) && e.code == -32602 && e.message@ == err@,
                Ok(target) => match guard::denial(
                    text::text_of(target.scheme),
                    text::text_of(target.host),
                    text::str_of(setting),
                ) {
                    Some(reason) => r matches Ok(HttpGetStep::Refused(result)) && result.is_error
                        && result.content.len() == 1 && result.content[0]@ == reason,
                    None => r matches Ok(HttpGetStep::Fetch(request)) && request.method@ == "GET"@
                        && request.url@ == params.url@ && request.headers.len() == 0
                        && request.body.len() == 0,
                },
            },
    {
        match target {
            Ok(target) => match guard::deny_private_target(&target, setting) {
                Some(reason) => Ok(HttpGetStep::Refused(text_result(reason, true))),
                None => Ok(HttpGetStep::Fetch(get_request(params.url.as_str()))),
            },
            Err(err) => Err(ErrorData { code: INVALID_PARAMS, message: err }),
        }
    }

    /// Decides whether a URL is fetched, and by which request: a GET of that very
    /// URL.
    ///
    /// Local targets are refused unless `setting`, the value of
    /// `MCP_HTTP_GET_ALLOW_LOCAL`, permits them.
    pub fn http_get(&self, params: &HttpGetParams, setting: Option<&str>) -> (r: Result<
        HttpGetStep,
        ErrorData,
    >)
        ensures
            is_step_for(
                r,
                params.url@,
                fetch::get_request_target(params.url@),
                text::str_of(setting),
            ),
            forall|scheme: Seq<char>, host: Seq<char>| #[trigger]
                fetch::is_url_of(params.url@, scheme, host) ==> is_step_for(
                    r,
                    params.url@,
                    Ok((Some(fetch::scheme_value(scheme)), Some(host))),
                    text::str_of(setting),
                ) && refuses_scheme(r, Some(fetch::scheme_value(scheme))),
            fetch::get_request_target(params.url@) matches Err(err) ==> (r matches Err(e) && e.code
                == -32602 && e.message@ == err),
            fetch::get_request_target(params.url@) matches Ok((scheme, host)) ==> match guard::denial(
                scheme,
                host,
                text::str_of(setting),
            ) {
                Some(reason) => r matches Ok(HttpGetStep::Refused(result)) && result.is_error
                    && result.content.len() == 1 && result.content[0]@ == reason,
                None => r matches Ok(HttpGetStep::Fetch(request)) && request.method@ == "GET"@
                    && request.url@ == params.url@ && request.headers.len() == 0
                    && request.body.len() == 0,
            },
            forall|scheme: Seq<char>, host: Seq<char>| #[trigger]
                fetch::is_url_of(params.url@, scheme, host) ==> match guard::denial(
                    Some(fetch::scheme_value(scheme)),
                    Some(host),
                    text::str_of(setting),
                ) {
                    Some(reason) => r matches Ok(HttpGetStep::Refused(result)) && result.is_error
                        && result.content.len() == 1 && result.content[0]@ == reason,
                    None => r matches Ok(HttpGetStep::Fetch(request)) && request.method@ == "GET"@
                        && request.url@ == params.url@ && request.headers.len() == 0
                        && request.body.len() == 0,
                },
    {
        let target = fetch::read_target(params.url.as_str());
        self.admit_target(params, target, setting)
    }

    /// The result for the texts of a response's status and body: the status
    /// line, and the body up to the limit.
    pub fn response_result(&self, status: &str, body: &str) -> (r: ToolResult)
        ensures
            is_text(r, response_text(status@, body@), false),
            !r.is_error,
            r.content.len() == 1,
            r.content[0]@ == "HTTP "@ + status@ + "\n"@ + body::shown_body(body@),
            utf8::encode_utf8(body@).len() <= 4096 ==> r.content[0]@ == "HTTP "@ + status@ + "\n"@
                + body@,
    {
        proof {
            body::bodies_are_shown_up_to_the_limit(body@, 0);
        }
        let mut shown: String = "HTTP ".to_owned();
        shown.append(status);
        shown.append("\n");
        shown.append(body::limit_body(body).as_str());
        text_result(shown, false)
    }

    /// The result of `http_get` for what the fetch gave: a response, or the text
    /// of an error. Either is a result that the caller sees; a failed fetch is a
    /// failed tool call.
    pub fn http_get_result(&self, outcome: Result<FetchedResponse, String>) -> (r: Result<
        ToolResult,
        ErrorData,
    >)
        requires
            outcome matches Ok(response) ==> 100 <= response.status <= 999,
        ensures
            match outcome {
                Ok(response) => shows_response(r, response.status, fetch::lossy_text(response.body@)),
                Err(err) => r matches Ok(result) && is_text(
                    result,
                    "fetch failed: "@ + err@,
                    true,
                ),
            },
            outcome matches Ok(response) ==> utf8::valid_utf8(response.body@) ==> shows_response(
                r,
                response.status,
                utf8::decode_utf8(response.body@),
            ),
            match outcome {
                Ok(response) => r matches Ok(result) && !result.is_error && result.content.len()
                    == 1 && result.content[0]@ == "HTTP "@ + text::decimal(response.status as nat)
                    + " "@ + fetch::reason_phrase(response.status) + "\n"@ + body::shown_body(
                    fetch::lossy_text(response.body@),
                ),
                Err(err) => r matches Ok(result) && result.is_error && result.content.len() == 1
                    && result.content[0]@ == "fetch failed: "@ + err@,
            },
            outcome matches Ok(response) ==> utf8::valid_utf8(response.body@)
                && response.body.len() <= 4096 ==> (r matches Ok(result) && result.content[0]@
                == "HTTP "@ + text::decimal(response.status as nat) + " "@ + fetch::reason_phrase(
                response.status,
            ) + "\n"@ + utf8::decode_utf8(response.body@)),
    {
        match outcome {
            Ok(response) => {
                let status = fetch::status_text(response.status);
                let body = fetch::decode_lossy(&response.body);
                proof {
                    if utf8::valid_utf8(response.body@) {
                        utf8::decode_utf8_encode_utf8(response.body@);
                    }
                    assert("HTTP "@ + status@ + "\n"@ =~= "HTTP "@ + text::decimal(
                        response.status as nat,
                    ) + " "@ + fetch::reason_phrase(response.status) + "\n"@);
                }
                Ok(self.response_result(status.as_str(), body.as_str()))
            },
            Err(err) => {
                let mut message: String = "fetch failed: ".to_owned();
                message.append(err.as_str());
                Ok(text_result(message, true))
            },
        }
    }

    /// Reports the current time in whole milliseconds: `elapsed` is the time since
    /// the Unix epoch, or the text of the error if the clock is before it.
    pub fn current_time(&self, elapsed: Result<SinceEpoch, String>) -> (r: Result<
        ToolResult,
        ErrorData,
    >)
        ensures
            match elapsed {
                Ok(time) => r matches Ok(result) && is_text(
                    result,
                    text::decimal(whole_millis(time)),
                    false,
                ),
                Err(err) => r matches Err(e) && is_failure(e, INTERNAL_ERROR, err@),
            },
            match elapsed {
                Ok(time) => r matches Ok(result) && !result.is_error && result.content.len() == 1
                    && result.content[0]@ == text::decimal(
                    (time.secs * 1000 + time.nanos / 1_000_000) as nat,
                ),
                Err(err) => r matches Err(e) && e.code == -32603 && e.message@ == err@,
            },
    {
        match elapsed {
            Ok(time) => Ok(text_result(text::to_decimal(epoch_millis(time)), false)),
            Err(err) => Err(ErrorData { code: INTERNAL_ERROR, message: err }),
        }
    }

    /// What the server says of itself, given the name and the version of its
    /// package.
    pub fn get_info(&self, name: &str, version: &str) -> (r: ServerInfo)
        ensures
            r.name@ == name@,
            r.version@ == version@,
            r.tools,
            r.instructions@
                == "Template MCP server running as a WebAssembly component on Cosmonic Desktop. Use `echo`, `add`, or `current_time` to verify connectivity, `http_get` to test outbound HTTP, then replace them with your own tools."@,
    {
        ServerInfo {
            name: name.to_owned(),
            version: version.to_owned(),
            tools: true,
            instructions:
                "Template MCP server running as a WebAssembly component on Cosmonic Desktop. Use `echo`, `add`, or `current_time` to verify connectivity, `http_get` to test outbound HTTP, then replace them with your own tools.".to_owned(),
        }
    }
}

/// Whether `r` refuses `host` where it is local, and else lets `url` be fetched.
pub open spec fn guards_host(
    r: Result<HttpGetStep, ErrorData>,
    url: Seq<char>,
    host: Seq<char>,
    local: bool,
) -> bool {
    if local {
        r matches Ok(HttpGetStep::Refused(result)) && is_text(
            result,
            guard::host_reason(host),
            true,
        )
    } else {
        r matches Ok(HttpGetStep::Fetch(request)) && is_get_of(request, url)
    }
}

/// Whether `r` is what `http_get` returns for a URL with this scheme and this
/// host, where local targets are not permitted.
pub open spec fn is_guarded_step(
    r: Result<HttpGetStep, ErrorData>,
    url: Seq<char>,
    scheme: Seq<char>,
    host: Seq<char>,
    setting: Option<Seq<char>>,
) -> bool {
    &&& is_step_for(r, url, Ok((Some(fetch::scheme_value(scheme)), Some(host))), setting)
    &&& !guard::permits_local(setting)
}

/// A URL whose scheme is neither `http` nor `https`, in whatever case, is never
/// fetched; the reason quotes the scheme.
pub proof fn other_schemes_are_refused(r: Result<HttpGetStep, ErrorData>, scheme: Seq<char>)
    requires
        fetch::is_url_scheme(scheme),
        refuses_scheme(r, Some(fetch::scheme_value(scheme))),
        text::lower(scheme) != "http"@,
        text::lower(scheme) != "https"@,
    ensures
        r matches Ok(HttpGetStep::Refused(result)) && is_text(
            result,
            guard::scheme_reason(guard::quoted(scheme)),
            true,
        ),
{
    reveal_strlit("http");
    reveal_strlit("https");
    assert(scheme == "http"@ ==> text::lower(scheme) =~= "http"@);
    assert(scheme == "https"@ ==> text::lower(scheme) =~= "https"@);
}

/// A URL of `http` or `https` is fetched if and only if its host is not local:
/// neither a local address nor `localhost` nor a name under it.
pub proof fn local_hosts_are_refused(
    r: Result<HttpGetStep, ErrorData>,
    url: Seq<char>,
    scheme: Seq<char>,
    host: Seq<char>,
    setting: Option<Seq<char>>,
)
    requires
        is_guarded_step(r, url, scheme, host, setting),
        text::lower(scheme) == "http"@ || text::lower(scheme) == "https"@,
    ensures
        guards_host(
            r,
            url,
            guard::bare_host(Some(host)),
            guard::is_local_host(guard::bare_host(Some(host))),
        ),
{
}

/// A URL of `http` or `https` with a dotted-decimal host is fetched if and only
/// if the address is not local.
pub proof fn local_ipv4_hosts_are_refused(
    r: Result<HttpGetStep, ErrorData>,
    url: Seq<char>,
    scheme: Seq<char>,
    o: Seq<u8>,
    setting: Option<Seq<char>>,
)
    requires
        o.len() == 4,
        is_guarded_step(r, url, scheme, ip_laws::dotted(o), setting),
        text::lower(scheme) == "http"@ || text::lower(scheme) == "https"@,
    ensures
        guards_host(r, url, ip_laws::dotted(o), ip::is_local_address(ip::IpValue::V4(o))),
{
    guard::ipv4_hosts_are_denied_by_range(Some(fetch::scheme_value(scheme)), o, setting);
}

/// A URL of `http` or `https` whose host is eight groups in brackets is fetched
/// if and only if the address is not local.
pub proof fn local_ipv6_hosts_are_refused(
    r: Result<HttpGetStep, ErrorData>,
    url: Seq<char>,
    scheme: Seq<char>,
    p: Seq<Seq<char>>,
    setting: Option<Seq<char>>,
)
    requires
        p.len() == 8,
        ip_laws::all_groups(p),
        is_guarded_step(r, url, scheme, fetch::bracketed(text::join(p, ':')), setting),
        text::lower(scheme) == "http"@ || text::lower(scheme) == "https"@,
    ensures
        guards_host(
            r,
            url,
            text::join(p, ':'),
            ip::is_local_address(ip::IpValue::V6(ip_laws::group_values(p))),
        ),
{
    guard::ipv6_hosts_are_denied_by_range(Some(fetch::scheme_value(scheme)), p, setting);
}

/// A URL of `http` or `https` whose host is an address in brackets, with two
/// colons for zero segments, is fetched if and only if the address is not local.
pub proof fn local_short_ipv6_hosts_are_refused(
    r: Result<HttpGetStep, ErrorData>,
    url: Seq<char>,
    scheme: Seq<char>,
    head: Seq<Seq<char>>,
    tail: Seq<Seq<char>>,
    setting: Option<Seq<char>>,
)
    requires
        ip_laws::all_groups(head),
        ip_laws::all_groups(tail),
        head.len() + tail.len() <= 7,
        is_guarded_step(
            r,
            url,
            scheme,
            fetch::bracketed(text::join(head, ':') + seq![':', ':'] + text::join(tail, ':')),
            setting,
        ),
        text::lower(scheme) == "http"@ || text::lower(scheme) == "https"@,
    ensures
        guards_host(
            r,
            url,
            text::join(head, ':') + seq![':', ':'] + text::join(tail, ':'),
            ip::is_local_address(
                ip::IpValue::V6(
                    ip_laws::group_values(head) + Seq::new(
                        (8 - head.len() - tail.len()) as nat,
                        |i: int| 0u16,
                    ) + ip_laws::group_values(tail),
                ),
            ),
        ),
{
    guard::short_ipv6_hosts_are_denied_by_range(
        Some(fetch::scheme_value(scheme)),
        head,
        tail,
        setting,
    );
}

/// The text for a response is its status line and then its body, of up to 4096
/// bytes, character for character.
pub proof fn responses_end_in_their_body(status: Seq<char>, body: Seq<char>)
    requires
        utf8::encode_utf8(body).len() <= 4096,
    ensures
        response_text(status, body).len() == 6 + status.len() + body.len(),
        forall|i: int|
            0 <= i < status.len() ==> #[trigger] status[i] == response_text(status, body)[5 + i],
        response_text(status, body)[5int + status.len()] == '\n',
        forall|i: int|
            0 <= i < body.len() ==> #[trigger] body[i] == response_text(status, body)[6
                + status.len() + i],
{
    reveal_strlit("HTTP ");
    reveal_strlit("\n");
    body::bodies_are_shown_up_to_the_limit(body, 0);
    let s = response_text(status, body);
    assert(s =~= "HTTP "@ + status + "\n"@ + body);
}

/// What is shown of a body does not depend on the status: behind the status line,
/// two responses with the same body have the same text.
pub proof fn bodies_are_shown_whatever_the_status(a: Seq<char>, b: Seq<char>, body: Seq<char>)
    ensures
        response_text(a, body).len() - a.len() == response_text(b, body).len() - b.len(),
        forall|i: int|
            0 <= i < response_text(a, body).len() - a.len() - 6 ==> #[trigger] response_text(
                a,
                body,
            ).skip((6 + a.len()) as int)[i] == response_text(b, body).skip((6 + b.len()) as int)[i],
        response_text(a, body).skip((6 + a.len()) as int) == body::shown_body(body),
{
    reveal_strlit("HTTP ");
    reveal_strlit("\n");
    let shown = body::shown_body(body);
    assert(response_text(a, body) =~= "HTTP "@ + a + "\n"@ + shown);
    assert(response_text(b, body) =~= "HTTP "@ + b + "\n"@ + shown);
    assert(response_text(a, body).skip((6 + a.len()) as int) =~= shown);
    assert(response_text(b, body).skip((6 + b.len()) as int) =~= shown);
}

/// Bodies of up to 4096 bytes that differ are shown differently.
pub proof fn different_bodies_are_shown_differently(
    status: Seq<char>,
    body: Seq<char>,
    other: Seq<char>,
)
    requires
        utf8::encode_utf8(body).len() <= 4096,
        utf8::encode_utf8(other).len() <= 4096,
        response_text(status, body) == response_text(status, other),
    ensures
        body == other,
{
    bodies_are_shown_whatever_the_status(status, status, body);
    bodies_are_shown_whatever_the_status(status, status, other);
    body::bodies_are_shown_up_to_the_limit(body, 0);
    body::bodies_are_shown_up_to_the_limit(other, 0);
}

/// The result for a response is one block of text and no failure, whatever the
/// status: the status line, and then a body of up to 4096 bytes as it is.
pub proof fn results_show_their_response(
    r: Result<ToolResult, ErrorData>,
    status: u16,
    body: Seq<char>,
)
    requires
        shows_response(r, status, body),
        utf8::encode_utf8(body).len() <= 4096,
    ensures
        r matches Ok(result) && !result.is_error && result.content.len() == 1
            && result.content[0]@ == "HTTP "@ + text::decimal(status as nat) + " "@
            + fetch::reason_phrase(status) + "\n"@ + body,
{
    body::bodies_are_shown_up_to_the_limit(body, 0);
    let line = text::decimal(status as nat) + " "@ + fetch::reason_phrase(status);
    assert("HTTP "@ + line + "\n"@ + body =~= "HTTP "@ + text::decimal(status as nat) + " "@
        + fetch::reason_phrase(status) + "\n"@ + body);
    assert(response_text(line, body) =~= "HTTP "@ + line + "\n"@ + body);
}

/// The time is read back from its text, to the millisecond and rounded down.
pub proof fn times_are_read_back(time: SinceEpoch)
    ensures
        ({
            let millis = text_laws::place_value(text::decimal(whole_millis(time)), 10);
            let nanos = time.secs * 1_000_000_000 + time.nanos;
            millis * 1_000_000 <= nanos < (millis + 1) * 1_000_000
        }),
{
    text_laws::decimals_are_read_back(whole_millis(time));
}

/// A later time, by at least a millisecond, is shown as a greater number.
pub proof fn later_times_are_greater(a: SinceEpoch, b: SinceEpoch)
    requires
        a.secs * 1_000_000_000 + a.nanos + 1_000_000 <= b.secs * 1_000_000_000 + b.nanos,
    ensures
        text_laws::place_value(text::decimal(whole_millis(a)), 10) < text_laws::place_value(
            text::decimal(whole_millis(b)),
            10,
        ),
{
    times_are_read_back(a);
    times_are_read_back(b);
}

} // verus!
