//! Scenario tests of the redirect orchestrator, driven by scripted
//! events instead of sockets.
use udoc::config::Config;
use udoc::error::ErrorClass;
use udoc::http::{HttpResponse, HttpSummary, ResponseHeaders};
use udoc::pipeline::{HopAction, HopEvent, Pipeline};
use udoc::target::IpAddress;
use udoc::tls::TlsSummary;

fn test_config() -> Config {
    Config {
        timeout_us: 5_000_000,
        max_redirects: 10,
        body_limit: 32768,
        repeat: 1,
        json_output: false,
    }
}

fn response(status: u16, location: Option<&str>, body: &[u8], ttfb_us: u64) -> HttpResponse {
    HttpResponse {
        summary: HttpSummary::new(status, Some("X".to_string()), "http/1.1".to_string(), "HTTP".to_string()),
        headers: ResponseHeaders {
            location: location.map(|s| s.to_string()),
            server: None,
            content_type: None,
            content_length: None,
            transfer_encoding: None,
        },
        ttfb_us,
        body_preview: body.to_vec(),
    }
}

fn resolved(us: u64) -> HopEvent {
    HopEvent::Resolved { ips: vec![IpAddress::V4(0x0A000001)], elapsed_us: us }
}

#[test]
fn one_redirect_then_ok() {
    let (mut m, a) = Pipeline::start("http://example.test/a", test_config(), 1000).unwrap();
    match a {
        HopAction::Resolve { host } => assert_eq!(host, "example.test"),
        _ => panic!("expected a resolve action"),
    }
    let a = m.step(resolved(2000));
    match a {
        HopAction::Dial { ip, port } => {
            assert_eq!(ip, IpAddress::V4(0x0A000001));
            assert_eq!(port, 80);
        },
        _ => panic!("expected a dial action"),
    }
    let a = m.step(HopEvent::Dialed { elapsed_us: 3000 });
    match a {
        HopAction::RequestH1 { host, port, path, is_https, body_limit } => {
            assert_eq!(host, "example.test");
            assert_eq!(port, 80);
            assert_eq!(path, "/a");
            assert!(!is_https);
            assert_eq!(body_limit, 32768);
        },
        _ => panic!("expected an HTTP/1.1 request action"),
    }
    let a = m.step(HopEvent::Responded {
        response: response(302, Some("/b"), b"", 4000),
        now_us: 10_000,
    });
    match a {
        HopAction::Resolve { host } => assert_eq!(host, "example.test"),
        _ => panic!("expected a second resolve action"),
    }
    let _ = m.step(resolved(2500));
    let _ = m.step(HopEvent::Dialed { elapsed_us: 3500 });
    let a = m.step(HopEvent::Responded {
        response: response(200, None, b"hello", 4500),
        now_us: 25_000,
    });
    let report = match a {
        HopAction::Finish { report } => report,
        _ => panic!("expected the run to finish"),
    };
    assert_eq!(report.redirects.len(), 1);
    assert_eq!(report.redirects[0].status, 302);
    assert_eq!(report.redirects[0].from, "http://example.test/a");
    assert_eq!(report.redirects[0].to, "/b");
    assert_eq!(report.final_url, "http://example.test/b");
    assert_eq!(report.input_url, "http://example.test/a");
    assert_eq!(report.http.status, 200);
    assert!(report.tls.is_none());
    assert!(report.cert.is_none());
    assert!(!report.was_downgrade);
    // Summed timings are the arithmetic sums of the per-hop values.
    assert_eq!(report.timings.hops.len(), 2);
    assert_eq!(report.timings.dns_us, 2000 + 2500);
    assert_eq!(report.timings.tcp_us, 3000 + 3500);
    assert!(report.timings.tls_us.is_none());
    assert_eq!(report.timings.ttfb_us, 4500);
    assert_eq!(report.timings.total_us, 25_000 - 1000);
}

#[test]
fn dns_slower_than_the_timeout_aborts_before_tcp() {
    let mut config = test_config();
    config.timeout_us = 100_000;
    let (mut m, _) = Pipeline::start("http://slow.test/", config, 0).unwrap();
    let a = m.step(resolved(500_000));
    match a {
        HopAction::Fail { error } => {
            assert_eq!(error.class, ErrorClass::Timeout);
            assert_eq!(error.message, "operation timed out after 100ms");
        },
        _ => panic!("expected the run to fail before any dial"),
    }
}

#[test]
fn revisiting_a_url_is_a_loop() {
    let (mut m, _) = Pipeline::start("http://example.test/a", test_config(), 0).unwrap();
    let _ = m.step(resolved(1));
    let _ = m.step(HopEvent::Dialed { elapsed_us: 1 });
    // Redirect straight back to the same normalized URL.
    let a = m.step(HopEvent::Responded {
        response: response(301, Some("/a"), b"", 1),
        now_us: 10,
    });
    match a {
        HopAction::Fail { error } => {
            assert_eq!(error.class, ErrorClass::Http);
            assert_eq!(error.message, "redirect loop detected");
        },
        _ => panic!("expected loop detection"),
    }
}

#[test]
fn indirect_loop_is_detected_too() {
    let (mut m, _) = Pipeline::start("http://example.test/a", test_config(), 0).unwrap();
    let _ = m.step(resolved(1));
    let _ = m.step(HopEvent::Dialed { elapsed_us: 1 });
    let _ = m.step(HopEvent::Responded {
        response: response(302, Some("/b"), b"", 1),
        now_us: 10,
    });
    let _ = m.step(resolved(1));
    let _ = m.step(HopEvent::Dialed { elapsed_us: 1 });
    let a = m.step(HopEvent::Responded {
        response: response(302, Some("/a"), b"", 1),
        now_us: 20,
    });
    match a {
        HopAction::Fail { error } => {
            assert_eq!(error.class, ErrorClass::Http);
            assert_eq!(error.message, "redirect loop detected");
        },
        _ => panic!("expected loop detection on the second hop"),
    }
}

#[test]
fn redirect_budget_is_enforced() {
    let mut config = test_config();
    config.max_redirects = 1;
    let (mut m, _) = Pipeline::start("http://example.test/0", config, 0).unwrap();
    let _ = m.step(resolved(1));
    let _ = m.step(HopEvent::Dialed { elapsed_us: 1 });
    let _ = m.step(HopEvent::Responded {
        response: response(302, Some("/1"), b"", 1),
        now_us: 10,
    });
    let _ = m.step(resolved(1));
    let _ = m.step(HopEvent::Dialed { elapsed_us: 1 });
    let a = m.step(HopEvent::Responded {
        response: response(302, Some("/2"), b"", 1),
        now_us: 20,
    });
    match a {
        HopAction::Fail { error } => {
            assert_eq!(error.class, ErrorClass::Http);
            assert_eq!(error.message, "too many redirects (max 1)");
        },
        _ => panic!("expected the redirect budget to fail the run"),
    }
}

#[test]
fn missing_location_fails_the_redirect() {
    let (mut m, _) = Pipeline::start("http://example.test/", test_config(), 0).unwrap();
    let _ = m.step(resolved(1));
    let _ = m.step(HopEvent::Dialed { elapsed_us: 1 });
    let a = m.step(HopEvent::Responded {
        response: response(307, None, b"", 1),
        now_us: 10,
    });
    match a {
        HopAction::Fail { error } => {
            assert_eq!(error.class, ErrorClass::Http);
            assert_eq!(error.message, "redirect 307 without Location header");
        },
        _ => panic!("expected a failure for the missing Location"),
    }
}

#[test]
fn empty_address_list_is_a_dns_error() {
    let (mut m, _) = Pipeline::start("http://nohost.test/", test_config(), 0).unwrap();
    let a = m.step(HopEvent::Resolved { ips: vec![], elapsed_us: 1 });
    match a {
        HopAction::Fail { error } => {
            assert_eq!(error.class, ErrorClass::Dns);
            assert_eq!(error.message, "no IP addresses for nohost.test");
        },
        _ => panic!("expected a DNS failure"),
    }
}

#[test]
fn downgrade_is_sticky_across_a_reupgrade() {
    let tls = TlsSummary::new("TLS1.3".to_string(), None, "suite".to_string(), 1, true);
    let (mut m, _) = Pipeline::start("https://secure.test/", test_config(), 0).unwrap();
    let _ = m.step(resolved(1));
    let a = m.step(HopEvent::Dialed { elapsed_us: 1 });
    assert!(matches!(a, HopAction::Handshake { .. }));
    let a = m.step(HopEvent::Handshaken {
        elapsed_us: 7,
        summary: tls.clone(),
        first_cert_der: None,
        now_unix_ts: 0,
    });
    assert!(matches!(a, HopAction::RequestH1 { is_https: true, .. }));
    // Secure to insecure: the flag turns on.
    let _ = m.step(HopEvent::Responded {
        response: response(302, Some("http://plain.test/"), b"", 1),
        now_us: 10,
    });
    let _ = m.step(resolved(1));
    let _ = m.step(HopEvent::Dialed { elapsed_us: 1 });
    // Back to secure: the flag must stay on.
    let _ = m.step(HopEvent::Responded {
        response: response(302, Some("https://secure2.test/"), b"", 1),
        now_us: 20,
    });
    let _ = m.step(resolved(1));
    let _ = m.step(HopEvent::Dialed { elapsed_us: 1 });
    let _ = m.step(HopEvent::Handshaken {
        elapsed_us: 9,
        summary: tls,
        first_cert_der: None,
        now_unix_ts: 0,
    });
    let a = m.step(HopEvent::Responded {
        response: response(200, None, b"done", 1),
        now_us: 30,
    });
    let report = match a {
        HopAction::Finish { report } => report,
        _ => panic!("expected the run to finish"),
    };
    assert!(report.was_downgrade);
    // The TLS sum covers only the hops that performed a handshake.
    assert_eq!(report.timings.tls_us, Some(7 + 9));
    // The carried TLS summary is the most recent one.
    assert!(report.tls.is_some());
}

#[test]
fn h2_alpn_selects_the_h2_request() {
    let tls = TlsSummary::new(
        "TLS1.3".to_string(),
        Some("h2".to_string()),
        "suite".to_string(),
        2,
        true,
    );
    assert!(tls.is_h2());
    let (mut m, _) = Pipeline::start("https://secure.test/x", test_config(), 0).unwrap();
    let _ = m.step(resolved(1));
    let _ = m.step(HopEvent::Dialed { elapsed_us: 1 });
    let a = m.step(HopEvent::Handshaken {
        elapsed_us: 1,
        summary: tls,
        first_cert_der: None,
        now_unix_ts: 0,
    });
    match a {
        HopAction::RequestH2 { host, port, path, body_limit } => {
            assert_eq!(host, "secure.test");
            assert_eq!(port, 443);
            assert_eq!(path, "/x");
            assert_eq!(body_limit, 32768);
        },
        _ => panic!("expected an HTTP/2 request action"),
    }
}

#[test]
fn stage_failures_pass_through() {
    let (mut m, _) = Pipeline::start("http://example.test/", test_config(), 0).unwrap();
    let a = m.step(HopEvent::StageFailed {
        error: udoc::error::UdocError::tcp("connection refused: 10.0.0.1:80".to_string()),
    });
    match a {
        HopAction::Fail { error } => {
            assert_eq!(error.class, ErrorClass::Tcp);
            assert_eq!(error.message, "connection refused: 10.0.0.1:80");
        },
        _ => panic!("expected the stage failure to end the run"),
    }
}

#[test]
fn bad_input_urls_fail_before_any_step() {
    let e = Pipeline::start("not a url", test_config(), 0).unwrap_err();
    assert_eq!(e.class, ErrorClass::Input);
    assert_eq!(e.message, "invalid URL");

    let e = Pipeline::start("ftp://example.test/", test_config(), 0).unwrap_err();
    assert_eq!(e.class, ErrorClass::Input);
    assert_eq!(e.message, "unsupported scheme 'ftp', expected http or https");
}

#[test]
fn redirect_to_unsupported_scheme_fails() {
    let (mut m, _) = Pipeline::start("http://example.test/", test_config(), 0).unwrap();
    let _ = m.step(resolved(1));
    let _ = m.step(HopEvent::Dialed { elapsed_us: 1 });
    let a = m.step(HopEvent::Responded {
        response: response(302, Some("ftp://elsewhere.test/"), b"", 1),
        now_us: 10,
    });
    match a {
        HopAction::Fail { error } => {
            assert_eq!(error.class, ErrorClass::Http);
            assert_eq!(error.message, "unsupported scheme 'ftp', expected http or https");
        },
        _ => panic!("expected the unsupported scheme to fail the run"),
    }
}
