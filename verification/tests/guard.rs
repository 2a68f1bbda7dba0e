use mcp_server_template::guard::{
    deny_host, deny_private_target, deny_scheme, local_host, RequestTarget,
};
use mcp_server_template::ip::{parse_ip, IpAddress};
use mcp_server_template::text::chars_of;

fn ip(s: &str) -> Option<IpAddress> {
    let chars = chars_of(s);
    parse_ip(&chars, 0, chars.len())
}

fn shown(s: &str) -> String {
    match ip(s) {
        Some(IpAddress::V4(o)) => format!("{:?}", o),
        Some(IpAddress::V6(g)) => format!("{:x?}", g),
        None => "none".to_owned(),
    }
}

fn expected(s: &str) -> String {
    match s.parse::<core::net::IpAddr>() {
        Ok(core::net::IpAddr::V4(a)) => format!("{:?}", a.octets()),
        Ok(core::net::IpAddr::V6(a)) => format!("{:x?}", a.segments()),
        Err(_) => "none".to_owned(),
    }
}

fn denied(scheme: Option<&str>, host: Option<&str>, setting: Option<&str>) -> Option<String> {
    let target = RequestTarget {
        scheme: scheme.map(str::to_owned),
        host: host.map(str::to_owned),
    };
    deny_private_target(&target, setting)
}

#[test]
fn addresses_are_read_as_std_reads_them() {
    for s in [
        "", ".", ":", "::", ":::", "0.0.0.0", "127.0.0.1", "255.255.255.255", "256.0.0.1", "1.2.3",
        "1.2.3.4.5", "01.2.3.4", "1.2.3.04", "1.2.3.", ".1.2.3", "1..2.3", "1.2.3.4 ", "+1.2.3.4",
        "0x7f.0.0.1", "2130706433", "1.2.3.0004", "0.0.0.00", "::1", "1::", "1::2", "::1:2",
        "fe80::1", "FE80::ABCD", "fc00::", "1:2:3:4:5:6:7:8", "1:2:3:4:5:6:7:8:9", "1:2:3:4:5:6:7",
        "1:2:3:4:5:6:7::", "::2:3:4:5:6:7:8", "1::2:3:4:5:6:7:8", "1:2:3:4:5:6:7::8",
        "1:2:3:4::5:6:7", "1::2::3", "12345::", "1:2:3:4:5:6:1.2.3.4", "1:2:3:4:5:6:7:1.2.3.4",
        "::1.2.3.4", "::ffff:127.0.0.1", "1:2:3:4:5::1.2.3.4", "1:2:3:4:5:6::1.2.3.4",
        "1.2.3.4::", "::1.2.3.4:5", "1:2:3:1.2.3.4::", "::1.2.3", "::256.1.1.1", "::01.2.3.4",
        "::1.2.3.4f", "fe80::1%eth0", "[::1]", "localhost", "g::", "::g", "1:2:3:4:5:6:7:",
        ":1:2:3:4:5:6:7", "0000:0000:0000:0000:0000:0000:0000:0001", "00000::", "1:::2", "::1::",
        "1:2:3:4:5:6:7:8::", "::0", "0::0", "é::1",
    ] {
        assert_eq!(shown(s), expected(s), "{}", s);
    }
}

#[test]
fn generated_addresses_are_read_as_std_reads_them() {
    let alphabet = ["", "0", "1", "f", "ffff", "fffff", "1.2.3.4", ":", "::", ".", "g"];
    let mut seed: u64 = 12345;
    for _ in 0..40000 {
        let mut s = String::new();
        for _ in 0..11 {
            seed = seed.wrapping_mul(6364136223846793005).wrapping_add(1442695040888963407);
            s.push_str(alphabet[(seed >> 33) as usize % alphabet.len()]);
            if (seed >> 20) % 3 != 0 {
                s.push(':');
            }
        }
        for cut in 0..=s.len() {
            if s.is_char_boundary(cut) {
                assert_eq!(shown(&s[..cut]), expected(&s[..cut]), "{}", &s[..cut]);
            }
        }
    }
}

#[test]
fn every_octet_is_read_back() {
    for n in 0u16..1000 {
        let s = format!("1.{}.3.4", n);
        assert_eq!(shown(&s), expected(&s));
    }
}

#[test]
fn address_notation_ignores_case() {
    assert_eq!(shown("FE80::AbCd"), shown("fe80::abcd"));
    assert_eq!(shown("FE80::ABCD"), "[fe80, 0, 0, 0, 0, 0, 0, abcd]");
}

#[test]
fn local_ranges_have_exact_ends() {
    for (host, local) in [
        ("126.255.255.255", false),
        ("127.0.0.0", true),
        ("127.255.255.255", true),
        ("128.0.0.0", false),
        ("9.255.255.255", false),
        ("10.0.0.0", true),
        ("10.255.255.255", true),
        ("11.0.0.0", false),
        ("172.15.255.255", false),
        ("172.16.0.0", true),
        ("172.31.255.255", true),
        ("172.32.0.0", false),
        ("192.167.255.255", false),
        ("192.168.0.0", true),
        ("192.168.255.255", true),
        ("192.169.0.0", false),
        ("169.253.255.255", false),
        ("169.254.169.254", true),
        ("169.255.0.0", false),
        ("0.0.0.0", true),
        ("0.0.0.1", false),
        ("255.255.255.255", true),
        ("255.255.255.254", false),
        ("8.8.8.8", false),
        ("::", true),
        ("::1", true),
        ("::2", false),
        ("1::", false),
        ("fbff::1", false),
        ("fc00::", true),
        ("fdff:ffff:ffff:ffff:ffff:ffff:ffff:ffff", true),
        ("fe00::", false),
        ("fe7f::1", false),
        ("fe80::", true),
        ("febf::1", true),
        ("fec0::1", false),
        ("2001:db8::1", false),
        ("::ffff:127.0.0.1", false),
    ] {
        assert_eq!(local_host(host), local, "{}", host);
    }
}

#[test]
fn localhost_names_are_recognised() {
    for (host, local) in [
        ("localhost", true),
        ("LOCALHOST", true),
        ("LocalHost", true),
        ("mcp-server.localhost", true),
        ("a.b.LocalHost", true),
        (".localhost", true),
        ("localhost.", false),
        ("xlocalhost", false),
        ("localhost.example", false),
        ("example.com", false),
        ("", false),
    ] {
        assert_eq!(local_host(host), local, "{}", host);
        assert_eq!(local_host(&host.to_ascii_uppercase()), local);
    }
}

#[test]
fn other_schemes_are_refused_whatever_the_setting() {
    let reason = "denied: scheme \"ftp\" is not allowed (use http or https)";
    assert_eq!(denied(Some("ftp"), Some("example.com"), None).unwrap(), reason);
    assert_eq!(denied(Some("ftp"), Some("example.com"), Some("true")).unwrap(), reason);
    assert_eq!(denied(Some("ftp"), None, None).unwrap(), reason);
    assert_eq!(
        denied(None, Some("example.com"), Some("1")).unwrap(),
        "denied: scheme \"none\" is not allowed (use http or https)"
    );
    assert_eq!(
        denied(Some("HTTP"), Some("example.com"), None).unwrap(),
        "denied: scheme \"HTTP\" is not allowed (use http or https)"
    );
    assert_eq!(
        denied(Some("a\"\n"), None, None).unwrap(),
        "denied: scheme \"a\\\"\\n\" is not allowed (use http or https)"
    );
}

#[test]
fn local_hosts_are_refused_with_a_reason() {
    assert_eq!(
        denied(Some("http"), Some("127.0.0.1"), None).unwrap(),
        "denied: 127.0.0.1 is a local/private target (set MCP_HTTP_GET_ALLOW_LOCAL=true to permit in development)"
    );
    assert_eq!(
        denied(Some("https"), Some("[::1]"), Some("false")).unwrap(),
        "denied: ::1 is a local/private target (set MCP_HTTP_GET_ALLOW_LOCAL=true to permit in development)"
    );
    assert_eq!(denied(Some("http"), Some("::1"), None), denied(Some("http"), Some("[::1]"), None));
    assert!(denied(Some("http"), Some("[fe80::1]"), Some("TRUE")).is_some());
    assert!(denied(Some("http"), Some("[0:0:0:0:0:0:0:1]"), Some("")).is_some());
    assert!(denied(Some("http"), Some("web.localhost"), Some("yes")).is_some());
}

#[test]
fn public_hosts_may_be_fetched() {
    for host in ["example.com", "8.8.8.8", "[2001:db8::1]"] {
        assert_eq!(denied(Some("http"), Some(host), None), None);
        assert_eq!(denied(Some("https"), Some(host), Some("no")), None);
    }
    assert_eq!(denied(Some("http"), None, None), None);
}

#[test]
fn the_setting_permits_local_hosts() {
    for setting in ["true", "1"] {
        assert_eq!(denied(Some("http"), Some("localhost"), Some(setting)), None);
        assert_eq!(denied(Some("https"), Some("[::1]"), Some(setting)), None);
    }
}

#[test]
fn reasons_are_spelled_out() {
    assert_eq!(deny_scheme("\"x\""), "denied: scheme \"x\" is not allowed (use http or https)");
    assert_eq!(
        deny_host("h"),
        "denied: h is a local/private target (set MCP_HTTP_GET_ALLOW_LOCAL=true to permit in development)"
    );
}
