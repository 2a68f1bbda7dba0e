use mcp_server_template::body::{limit_body, truncation_boundary, HTTP_GET_BODY_LIMIT};
use mcp_server_template::fetch::outbound_limits;
use mcp_server_template::guard::RequestTarget;
use mcp_server_template::server::{
    epoch_millis, get_request, EchoParams, ErrorData, FetchedResponse, HttpGetParams, HttpGetStep,
    InputKind, SinceEpoch, TemplateServer, ToolResult, INTERNAL_ERROR, INVALID_PARAMS,
};

fn step(url: &str, setting: Option<&str>) -> Result<HttpGetStep, ErrorData> {
    TemplateServer::new().http_get(&HttpGetParams { url: url.to_owned() }, setting)
}

fn refused(url: &str, setting: Option<&str>) -> Option<String> {
    match step(url, setting) {
        Ok(HttpGetStep::Refused(r)) => {
            assert!(r.is_error);
            assert_eq!(r.content.len(), 1);
            Some(r.content[0].clone())
        }
        Ok(HttpGetStep::Fetch(request)) => {
            assert_eq!(request.method, "GET");
            assert_eq!(request.url, url);
            assert!(request.headers.is_empty());
            assert!(request.body.is_empty());
            None
        }
        Err(e) => panic!("{}", e.message),
    }
}

fn text(r: Result<ToolResult, ErrorData>) -> (String, bool) {
    let r = r.unwrap();
    assert_eq!(r.content.len(), 1);
    (r.content[0].clone(), r.is_error)
}

fn response(status: u16, body: &[u8]) -> (String, bool) {
    let outcome = Ok(FetchedResponse { status, body: body.to_vec() });
    text(TemplateServer::new().http_get_result(outcome))
}

#[test]
fn the_template_offers_four_tools() {
    let tools = TemplateServer::new().tools;
    let names: Vec<&str> = tools.iter().map(|t| t.name.as_str()).collect();
    assert_eq!(names, ["echo", "add", "http_get", "current_time"]);
    assert_eq!(tools[0].description, "Echo a message back to the caller");
    assert_eq!(tools[1].description, "Add two numbers and return the sum");
    assert_eq!(
        tools[2].description,
        "HTTP GET a URL (subject to the outbound allow-list policy); \
                          returns the status line and up to 4 KiB of the body"
    );
    assert_eq!(
        tools[3].description,
        "Get the current UTC time as a unix timestamp in milliseconds"
    );
}

#[test]
fn echo_returns_the_message() {
    for message in ["", "hello", "… \u{1f600}"] {
        let r = TemplateServer::new().echo(EchoParams { message: message.to_owned() });
        assert_eq!(text(r), (message.to_owned(), false));
    }
}

#[test]
fn tools_take_their_inputs() {
    let tools = TemplateServer::new().tools;
    let inputs = |k: usize| -> Vec<(String, InputKind, bool)> {
        tools[k].inputs.iter().map(|i| (i.name.clone(), i.kind, i.required)).collect()
    };
    assert_eq!(inputs(0), [("message".to_owned(), InputKind::Text, true)]);
    assert_eq!(
        inputs(1),
        [
            ("a".to_owned(), InputKind::Number, true),
            ("b".to_owned(), InputKind::Number, true)
        ]
    );
    assert_eq!(inputs(2), [("url".to_owned(), InputKind::Text, true)]);
    assert_eq!(inputs(3), []);
}

#[test]
fn current_time_is_in_decimal() {
    let server = TemplateServer::new();
    let shown = |secs, nanos| text(server.current_time(Ok(SinceEpoch { secs, nanos })));
    assert_eq!(shown(0, 0), ("0".to_owned(), false));
    assert_eq!(shown(0, 999_999), ("0".to_owned(), false));
    assert_eq!(shown(1_785_974_400, 123_999_999), ("1785974400123".to_owned(), false));
    assert_eq!(shown(u64::MAX, 0).0, "18446744073709551615000");
}

#[test]
fn milliseconds_are_rounded_down() {
    for (secs, nanos) in [(0, 0), (0, 1_000_000), (7, 999_999_999), (u64::MAX, 999_999_999)] {
        assert_eq!(
            epoch_millis(SinceEpoch { secs, nanos }),
            core::time::Duration::new(secs, nanos).as_millis()
        );
    }
}

#[test]
fn a_url_is_fetched_by_a_bare_get() {
    let request = get_request("http://example.com/a?b#c");
    assert_eq!(request.method, "GET");
    assert_eq!(request.url, "http://example.com/a?b#c");
    assert_eq!((request.headers.len(), request.body.len()), (0, 0));
}

#[test]
fn a_clock_before_the_epoch_is_an_internal_error() {
    let e = TemplateServer::new().current_time(Err("too early".to_owned())).unwrap_err();
    assert_eq!(e.code, INTERNAL_ERROR);
    assert_eq!(e.code, -32603);
    assert_eq!(e.message, "too early");
}

#[test]
fn the_server_describes_itself() {
    let info = TemplateServer::new().get_info("mcp-server-template", "1.2.3");
    assert_eq!(info.name, "mcp-server-template");
    assert_eq!(info.version, "1.2.3");
    assert!(info.tools);
    assert_eq!(
        info.instructions,
        "Template MCP server running as a WebAssembly component on \
                 Cosmonic Desktop. Use `echo`, `add`, or `current_time` to \
                 verify connectivity, `http_get` to test outbound HTTP, then \
                 replace them with your own tools."
    );
}

#[test]
fn a_url_that_makes_no_request_is_invalid_params() {
    let urls = ["", "http://", "http://exa mple.com", "http:// ", "http://[::1", "a b"];
    for url in urls {
        let e = step(url, Some("true")).unwrap_err();
        assert_eq!(e.code, INVALID_PARAMS);
        assert_eq!(e.code, -32602);
        let expected = http::Request::get(url).body(()).unwrap_err().to_string();
        assert_eq!(e.message, expected);
    }
}

#[test]
fn local_urls_are_refused() {
    let reason = |host: &str| {
        format!("denied: {host} is a local/private target (set MCP_HTTP_GET_ALLOW_LOCAL=true to permit in development)")
    };
    assert_eq!(refused("http://127.0.0.1", None), Some(reason("127.0.0.1")));
    assert_eq!(refused("http://127.0.0.1:8080/x?y", None), Some(reason("127.0.0.1")));
    assert_eq!(refused("https://user:pw@10.1.2.3/", None), Some(reason("10.1.2.3")));
    assert_eq!(refused("http://[::1]:80/", None), Some(reason("::1")));
    assert_eq!(refused("http://LocalHost/", None), Some(reason("LocalHost")));
    assert_eq!(refused("HTTP://169.254.169.254/", None), Some(reason("169.254.169.254")));
    assert_eq!(refused("https://mcp-server.localhost", None), Some(reason("mcp-server.localhost")));
}

#[test]
fn permitted_and_public_urls_are_fetched() {
    assert_eq!(refused("http://127.0.0.1/", Some("true")), None);
    assert_eq!(refused("http://[::1]/", Some("1")), None);
    assert_eq!(refused("http://example.com", None), None);
    assert_eq!(refused("https://8.8.8.8/dns", None), None);
}

#[test]
fn other_schemes_in_urls_are_refused() {
    assert_eq!(
        refused("ftp://example.com/", Some("true")),
        Some("denied: scheme \"ftp\" is not allowed (use http or https)".to_owned())
    );
    assert_eq!(
        refused("/just/a/path", None),
        Some("denied: scheme \"none\" is not allowed (use http or https)".to_owned())
    );
    assert_eq!(
        refused("example.com", None),
        Some("denied: scheme \"none\" is not allowed (use http or https)".to_owned())
    );
}

#[test]
fn targets_are_admitted_as_they_are_read() {
    let server = TemplateServer::new();
    let params = HttpGetParams { url: "u".to_owned() };
    let target = RequestTarget {
        scheme: Some("http".to_owned()),
        host: Some("10.0.0.1".to_owned()),
    };
    assert!(matches!(server.admit_target(&params, Ok(target), None), Ok(HttpGetStep::Refused(_))));
    let target = RequestTarget { scheme: Some("https".to_owned()), host: None };
    match server.admit_target(&params, Ok(target), None) {
        Ok(HttpGetStep::Fetch(request)) => assert_eq!(request.url, "u"),
        other => panic!("{other:?}"),
    }
    let e = server.admit_target(&params, Err("bad".to_owned()), None).unwrap_err();
    assert_eq!((e.code, e.message.as_str()), (-32602, "bad"));
}

#[test]
fn responses_are_shown_with_their_status() {
    assert_eq!(response(200, b"hi"), ("HTTP 200 OK\nhi".to_owned(), false));
    assert_eq!(response(404, b""), ("HTTP 404 Not Found\n".to_owned(), false));
    assert_eq!(response(599, b"x"), ("HTTP 599 <unknown status code>\nx".to_owned(), false));
    assert_eq!(response(100, b"").0, format!("HTTP {}\n", http::StatusCode::CONTINUE));
    assert_eq!(response(999, b"").0, "HTTP 999 <unknown status code>\n");
}

#[test]
fn bodies_that_are_not_utf8_get_replacement_characters() {
    assert_eq!(response(200, b"a\xffb").0, "HTTP 200 OK\na\u{fffd}b");
    assert_eq!(response(200, "é".as_bytes()).0, "HTTP 200 OK\né");
}

#[test]
fn a_failed_fetch_is_a_failed_tool_call() {
    let r = TemplateServer::new().http_get_result(Err("timed out".to_owned()));
    assert_eq!(text(r), ("fetch failed: timed out".to_owned(), true));
}

#[test]
fn texts_of_a_response_are_put_together() {
    let r = TemplateServer::new().response_result("200 OK", "body");
    assert_eq!((r.content, r.is_error), (vec!["HTTP 200 OK\nbody".to_owned()], false));
}

#[test]
fn bodies_within_the_limit_are_kept() {
    let body = "a".repeat(HTTP_GET_BODY_LIMIT);
    assert_eq!(limit_body(&body), body);
    assert_eq!(limit_body(""), "");
}

#[test]
fn longer_bodies_are_truncated_at_a_character() {
    let body = "a".repeat(HTTP_GET_BODY_LIMIT + 1);
    assert_eq!(limit_body(&body), "a".repeat(4096) + "…[truncated]");
    let body = "a".to_owned() + &"\u{1f600}".repeat(2000);
    assert_eq!(limit_body(&body), "a".to_owned() + &"\u{1f600}".repeat(1023) + "…[truncated]");
    let body = "é".repeat(3000);
    assert_eq!(limit_body(&body), "é".repeat(2048) + "…[truncated]");
    assert_eq!(response(200, body.as_bytes()).0, format!("HTTP 200 OK\n{}", limit_body(&body)));
}

#[test]
fn the_boundary_is_the_largest_one() {
    let s = "aé€\u{1f600}z";
    for limit in 0..20 {
        let i = truncation_boundary(s, limit);
        assert!(i <= limit && s.is_char_boundary(i));
        assert!((i + 1..=limit).all(|j| !s.is_char_boundary(j)));
        if limit <= s.len() {
            assert!(limit - i <= 3);
        }
    }
    assert_eq!(truncation_boundary(s, 9), 6);
    assert_eq!(truncation_boundary("", 5), 0);
    assert_eq!(truncation_boundary("abc", 5), 3);
}

#[test]
fn outbound_limits_have_defaults() {
    let l = outbound_limits(None, None);
    assert_eq!((l.timeout_ms, l.max_bytes), (30000, 4_194_304));
    let l = outbound_limits(Some("250"), Some("8388608"));
    assert_eq!((l.timeout_ms, l.max_bytes), (250, 8_388_608));
    let l = outbound_limits(Some("soon"), Some(""));
    assert_eq!((l.timeout_ms, l.max_bytes), (30000, 4_194_304));
    let l = outbound_limits(Some("18446744073709551615"), Some("18446744073709551616"));
    assert_eq!((l.timeout_ms, l.max_bytes), (u64::MAX, 4_194_304));
}

#[test]
fn urls_are_read_by_their_parts() {
    let reason = |host: &str| {
        format!("denied: {host} is a local/private target (set MCP_HTTP_GET_ALLOW_LOCAL=true to permit in development)")
    };
    let hosts = [
        ("10.0.0.1", Some("10.0.0.1")),
        ("[fe80::1]", Some("fe80::1")),
        ("[FD00:1:2:3:4:5:6:7]", Some("FD00:1:2:3:4:5:6:7")),
        ("[fc00:1:2:3:4:5:6::]", Some("fc00:1:2:3:4:5:6::")),
        ("a.b.LOCALHOST", Some("a.b.LOCALHOST")),
        ("[::2:3:4:5:6:7:8]", None),
        ("[2001:db8::ffff:1.2.3.4]", None),
        ("8.8.8.8", None),
        ("under_score.example-1.com", None),
        ("..", None),
        ("!$&'()*+,-.;=_~", None),
        ("[fe80::1%25eth0]", None),
        ("[]", None),
    ];
    for scheme in ["http", "https", "HTTP", "hTTpS"] {
        for info in ["", "@", "user:pass%20word@", "a@b:c:d:e:f:g:h:i:@"] {
            for (host, local) in hosts {
                for port in ["", ":", ":80", ":x!"] {
                    for path in ["", "/@:[%20\"{|}^é", "?q@/`?", "#<any thing>", "/a?b=c&d=é#\u{1f600} "] {
                        let url = format!("{scheme}://{info}{host}{port}{path}");
                        assert_eq!(refused(&url, None), local.map(reason), "{url}");
                        assert_eq!(refused(&url, Some("true")), None, "{url}");
                    }
                }
            }
        }
    }
}

#[test]
fn schemes_are_quoted_as_they_are_written() {
    let long = "x".repeat(64);
    for scheme in ["file", "FTP", "a+b-c.1", "7", long.as_str()] {
        let url = format!("{scheme}://u@[::1]:1/p");
        assert_eq!(
            refused(&url, Some("1")),
            Some(format!("denied: scheme \"{scheme}\" is not allowed (use http or https)"))
        );
    }
}

#[test]
fn the_longest_url_is_read() {
    let url = format!("http://127.0.0.1/{}", "a".repeat(65534 - 17));
    assert_eq!(url.len(), 65534);
    assert!(refused(&url, None).is_some());
    assert_eq!(step(&format!("{url}a"), None).unwrap_err().code, INVALID_PARAMS);
}
