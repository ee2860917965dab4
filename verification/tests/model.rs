//! Tests of the report model, error taxonomy, URL handling,
//! configuration parsing, and argument handling.
use udoc::cli::{parse_args, shorten_url, usage};
use udoc::config::{parse_count, parse_duration_us, Config};
use udoc::error::{ErrorClass, UdocError};
use udoc::http::HttpSummary;
use udoc::report::Report;
use udoc::target::{IpAddress, IpFamily, ResolvedTarget};
use udoc::timing::{ms_fixed2, HopTiming, TimingBreakdown};
use udoc::url_parse::ParsedUrl;

#[test]
fn exit_codes_and_tags_are_fixed() {
    let cases = [
        (ErrorClass::Input, 2, "INPUT"),
        (ErrorClass::Dns, 3, "DNS"),
        (ErrorClass::Tcp, 4, "TCP"),
        (ErrorClass::Tls, 5, "TLS"),
        (ErrorClass::Http, 6, "HTTP"),
        (ErrorClass::Timeout, 7, "TIMEOUT"),
        (ErrorClass::Other, 1, "ERROR"),
    ];
    for (class, code, tag) in cases {
        assert_eq!(class.exit_code(), code);
        assert_eq!(class.tag(), tag);
    }
}

#[test]
fn stderr_lines_carry_the_tag() {
    let e = UdocError::dns("lookup failed".to_string());
    assert_eq!(e.format_stderr(), "error[DNS]: lookup failed");
    let e = UdocError::new(ErrorClass::Timeout, "too slow".to_string());
    assert_eq!(e.format_stderr(), "error[TIMEOUT]: too slow");
}

#[test]
fn urls_parse_with_defaults() {
    let p = ParsedUrl::parse("http://example.test").unwrap();
    assert_eq!(p.scheme, "http");
    assert_eq!(p.host, "example.test");
    assert_eq!(p.port, 80);
    assert_eq!(p.path_and_query, "/");
    assert_eq!(p.full, "http://example.test/");
    assert!(!p.is_https());

    let p = ParsedUrl::parse("https://h.test:8443/a/b?x=1").unwrap();
    assert_eq!(p.port, 8443);
    assert_eq!(p.path_and_query, "/a/b?x=1");
    assert!(p.is_https());
}

#[test]
fn relative_redirects_resolve_against_the_base() {
    let p = ParsedUrl::parse("http://example.test/dir/page").unwrap();
    let q = p.resolve_redirect("other").unwrap();
    assert_eq!(q.full, "http://example.test/dir/other");
    let q = p.resolve_redirect("/root").unwrap();
    assert_eq!(q.full, "http://example.test/root");
    let q = p.resolve_redirect("https://other.test/x").unwrap();
    assert_eq!(q.full, "https://other.test/x");
    assert!(q.is_https());
}

#[test]
fn hop_totals_sum_their_parts() {
    let h = HopTiming { dns_us: 10, tcp_us: 20, tls_us: Some(30), ttfb_us: 40 };
    assert_eq!(h.total(), 100);
    let h = HopTiming { dns_us: 10, tcp_us: 20, tls_us: None, ttfb_us: 40 };
    assert_eq!(h.total(), 70);
    let d = HopTiming::default();
    assert_eq!(d.total(), 0);
}

fn report_with(dns: u64, tcp: u64, tls: Option<u64>, ttfb: u64) -> Report {
    Report {
        input_url: "http://x.test/".to_string(),
        final_url: "http://x.test/".to_string(),
        host: "x.test".to_string(),
        resolved: ResolvedTarget::new(IpAddress::V4(0x7F000001), 80, vec![IpAddress::V4(0x7F000001)]),
        redirects: vec![],
        timings: TimingBreakdown::new(dns, tcp, tls, ttfb, dns + tcp + ttfb),
        http: HttpSummary::new(200, None, "http/1.1".to_string(), "HTTP".to_string()),
        tls: None,
        cert: None,
        was_downgrade: false,
    }
}

#[test]
fn bottleneck_follows_the_tie_break_order() {
    // Everything under 10 ms counts as fast.
    assert_eq!(report_with(9000, 9000, Some(9000), 9999).bottleneck(), "none (fast)");
    // TTFB wins ties.
    assert_eq!(report_with(20_000, 20_000, Some(20_000), 20_000).bottleneck(), "ttfb (server)");
    assert_eq!(report_with(5000, 5000, None, 60_000).bottleneck(), "ttfb (server)");
    // Then DNS, then TLS, then TCP.
    assert_eq!(report_with(60_000, 5000, Some(5000), 100).bottleneck(), "dns");
    assert_eq!(report_with(5000, 5000, Some(60_000), 100).bottleneck(), "tls");
    assert_eq!(report_with(5000, 60_000, None, 100).bottleneck(), "tcp");
}

#[test]
fn socket_strings_format_by_family() {
    let t = ResolvedTarget::new(IpAddress::V4(0xC0A80001), 8080, vec![IpAddress::V4(0xC0A80001)]);
    assert_eq!(t.family, IpFamily::IPv4);
    assert_eq!(t.family.label(), "ipv4");
    assert_eq!(t.as_socket_str(), "192.168.0.1:8080");
    assert_eq!(t.ips_short(), "192.168.0.1");

    let six = IpAddress::V6(0x20010db8000000000000000000000001);
    let t = ResolvedTarget::new(six, 443, vec![six, IpAddress::V4(1)]);
    assert_eq!(t.family, IpFamily::IPv6);
    assert_eq!(t.family.label(), "ipv6");
    assert_eq!(t.as_socket_str(), "[2001:db8:0:0:0:0:0:1]:443");
    assert_eq!(t.ips_short(), "2001:db8:0:0:0:0:0:1 (+1)");
}

#[test]
fn status_lines_join_status_and_reason() {
    let s = HttpSummary::new(200, Some("OK".to_string()), "http/1.1".to_string(), "HTTP".to_string());
    assert_eq!(s.status_line(), "200 OK");
    let s = HttpSummary::new(204, None, "h2".to_string(), "HTTPS".to_string());
    assert_eq!(s.status_line(), "204");
}

#[test]
fn milliseconds_render_with_two_decimals() {
    assert_eq!(ms_fixed2(0), "0.00");
    assert_eq!(ms_fixed2(1234), "1.23");
    assert_eq!(ms_fixed2(1235), "1.24");
    assert_eq!(ms_fixed2(999), "1.00");
    assert_eq!(ms_fixed2(12_345_678), "12345.68");
}

#[test]
fn durations_accept_the_three_forms() {
    assert_eq!(parse_duration_us("5s"), Some(5_000_000));
    assert_eq!(parse_duration_us("3000ms"), Some(3_000_000));
    assert_eq!(parse_duration_us("7"), Some(7_000_000));
    assert_eq!(parse_duration_us(" 100ms "), Some(100_000));
    assert_eq!(parse_duration_us("abc"), None);
    assert_eq!(parse_duration_us(""), None);
    assert_eq!(parse_count(" 12 "), Some(12));
    assert_eq!(parse_count("x"), None);
}

#[test]
fn config_defaults_match_the_documentation() {
    let c = Config::default();
    assert_eq!(c.timeout_us, 5_000_000);
    assert_eq!(c.max_redirects, 10);
    assert_eq!(c.body_limit, 32768);
    assert_eq!(c.repeat, 1);
    assert!(!c.json_output);
    let c = c.with_json(true);
    assert!(c.json_output);
    assert_eq!(c.max_redirects, 10);
}

fn args(list: &[&str]) -> Vec<String> {
    list.iter().map(|s| s.to_string()).collect()
}

#[test]
fn argument_parsing_accepts_url_and_flag() {
    let (url, json) = parse_args(&args(&["udoc", "http://x.test/"])).unwrap();
    assert_eq!(url, "http://x.test/");
    assert!(!json);
    let (url, json) = parse_args(&args(&["udoc", "--json", "http://x.test/"])).unwrap();
    assert_eq!(url, "http://x.test/");
    assert!(json);
    let (_, json) = parse_args(&args(&["udoc", "http://x.test/", "-j"])).unwrap();
    assert!(json);
}

#[test]
fn argument_parsing_rejects_bad_input() {
    assert_eq!(parse_args(&args(&["udoc"])).unwrap_err(), usage());
    assert_eq!(parse_args(&args(&["udoc", "--help"])).unwrap_err(), usage());
    let e = parse_args(&args(&["udoc", "--bogus"])).unwrap_err();
    assert!(e.starts_with("unknown option: --bogus"));
    let e = parse_args(&args(&["udoc", "http://a.test/", "http://b.test/"])).unwrap_err();
    assert!(e.starts_with("unexpected argument: http://b.test/"));
}

#[test]
fn urls_shorten_with_an_ellipsis() {
    assert_eq!(shorten_url("http://short.test/", 40), "http://short.test/");
    assert_eq!(
        shorten_url("http://example.test/a/very/long/path/indeed", 20),
        "http://example.te..."
    );
}
