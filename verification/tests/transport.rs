use http::{HeaderMap, HeaderValue};
use mcp_server_template::telemetry::{choose_filter, log_filter, request_span};
use mcp_server_template::transport::{body_read_failure, parse_hosts, transport_config};

#[test]
fn no_setting_keeps_the_loopback_hosts() {
    let config = transport_config(None);
    assert_eq!(config.allowed_hosts, ["localhost", "127.0.0.1", "::1"]);
    assert_eq!(
        config.allowed_hosts,
        rmcp::transport::StreamableHttpServerConfig::default().allowed_hosts
    );
}

#[test]
fn the_transport_is_stateless_and_streams() {
    for setting in [None, Some(""), Some("*"), Some("a,b")] {
        let config = transport_config(setting);
        assert!(!config.legacy_session_mode);
        assert!(!config.json_response);
    }
}

#[test]
fn listed_hosts_are_accepted_in_order() {
    assert_eq!(
        transport_config(Some("mcp-server.localhost,example.com:8080")).allowed_hosts,
        ["mcp-server.localhost", "example.com:8080"]
    );
}

#[test]
fn blanks_around_entries_and_empty_entries_are_dropped() {
    assert_eq!(transport_config(Some(" a , ,\tb,,c\u{a0}")).allowed_hosts, ["a", "b", "c"]);
    assert!(transport_config(Some("")).allowed_hosts.is_empty());
    assert!(transport_config(Some(" , ")).allowed_hosts.is_empty());
}

#[test]
fn an_asterisk_turns_the_guard_off() {
    assert!(transport_config(Some("*")).allowed_hosts.is_empty());
    assert!(transport_config(Some("a, * ,b")).allowed_hosts.is_empty());
    assert_eq!(transport_config(Some("*.example.com")).allowed_hosts, ["*.example.com"]);
}

#[test]
fn entries_are_trimmed_and_never_empty() {
    for list in ["", ",", "a", " a b ,c", "x,,y ,\n"] {
        let expected: Vec<String> = list
            .split(',')
            .map(|host| host.trim().to_owned())
            .filter(|host| !host.is_empty())
            .collect();
        assert_eq!(parse_hosts(list), expected);
    }
}

#[test]
fn a_body_that_cannot_be_read_is_reported() {
    assert_eq!(body_read_failure("closed"), "failed to read body: closed");
}

#[test]
fn the_span_carries_method_path_and_headers() {
    let mut headers = HeaderMap::new();
    headers.insert("Mcp-Method", HeaderValue::from_static("tools/call"));
    headers.insert("traceparent", HeaderValue::from_static("00-abc-def-01"));
    headers.append("traceparent", HeaderValue::from_static("second"));
    let span = request_span("POST", "/mcp", &headers);
    assert_eq!(span.http_method, "POST");
    assert_eq!(span.http_path, "/mcp");
    assert_eq!(span.mcp_method, "tools/call");
    assert_eq!(span.traceparent, "00-abc-def-01");
}

#[test]
fn missing_headers_leave_the_fields_empty() {
    let span = request_span("GET", "/", &HeaderMap::new());
    assert_eq!(span.mcp_method, "");
    assert_eq!(span.traceparent, "");
}

#[test]
fn headers_that_are_not_visible_ascii_leave_the_fields_empty() {
    let mut headers = HeaderMap::new();
    headers.insert("mcp-method", HeaderValue::from_bytes(b"caf\xc3\xa9").unwrap());
    headers.insert("traceparent", HeaderValue::from_bytes(b"a\tb ~").unwrap());
    let span = request_span("GET", "/", &headers);
    assert_eq!(span.mcp_method, "");
    assert_eq!(span.traceparent, "a\tb ~");
}

#[test]
fn the_log_filter_defaults_to_info() {
    assert_eq!(log_filter(None), "info");
    assert_eq!(log_filter(Some("debug")), "debug");
    assert_eq!(log_filter(Some("rmcp=warn,info")), "rmcp=warn,info");
    assert_eq!(log_filter(Some("rmcp=loud")), "info");
    assert_eq!(log_filter(Some("")), "");
}

#[test]
fn directives_that_cannot_be_cut_count_as_unset() {
    assert_eq!(log_filter(Some(" é=info")), "info");
    assert_eq!(log_filter(Some("warn, é[x]")), "info");
    assert_eq!(log_filter(Some("\u{a0}a=info")), "info");
    assert_eq!(log_filter(Some("é=warn")), "é=warn");
    assert_eq!(log_filter(Some("é[ü]=warn,debug")), "é[ü]=warn,debug");
    assert_eq!(log_filter(Some(" é")), " é");
    assert_eq!(log_filter(Some("\u{a0}warn")), "\u{a0}warn");
    assert_eq!(log_filter(Some("warn, rmcp")), "warn, rmcp");
    assert_eq!(log_filter(Some(" a[b]")), " a[b]");
    assert_eq!(log_filter(Some(" a=warn")), "info");
}

#[test]
fn directives_that_are_cut_between_characters_are_kept() {
    let kept = [
        "debug, [réq]",
        " [aéa]",
        " [s{é=1}]",
        " aéb[c]",
        " a[béd{c}]",
        " [{aéb}]",
        "\u{a0} ab[c]",
        "\u{2003}abc[d]",
        "é[ü{ß=1}]=warn, [s]",
        "[é{ü}]=trace",
    ];
    for directives in kept {
        assert!(tracing_subscriber::EnvFilter::try_new(directives).is_ok(), "{directives}");
        assert_eq!(log_filter(Some(directives)), directives);
    }
    for directives in [" é[x]", " abé[x]", " [é]", " [aé{b}]", " [a{é}]", "\u{2003}a[b]", "warn, [é]"] {
        assert_eq!(log_filter(Some(directives)), "info", "{directives}");
    }
}

#[test]
fn the_filter_is_chosen_by_whether_it_parses() {
    assert_eq!(choose_filter(Some("x"), true), "x");
    assert_eq!(choose_filter(Some("x"), false), "info");
    assert_eq!(choose_filter(None, true), "info");
}
