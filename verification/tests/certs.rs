//! Tests of certificate summarization against a fixed self-signed
//! certificate (subject CN cert.test, three DNS SANs, known validity
//! window and fingerprint).
use udoc::cert::CertSummary;
use udoc::cert_parse::{compute_days_left, compute_sha256_fingerprint, format_asn1_time, parse_certificate};
use udoc::error::ErrorClass;

const CERT_DER: &[u8] = &[
    48, 130, 1, 218, 48, 130, 1, 129, 160, 3, 2, 1, 2, 2, 20, 77,
    228, 39, 164, 146, 15, 63, 194, 139, 39, 205, 99, 249, 129, 201, 96, 14,
    54, 210, 72, 48, 10, 6, 8, 42, 134, 72, 206, 61, 4, 3, 2, 48,
    39, 49, 18, 48, 16, 6, 3, 85, 4, 3, 12, 9, 99, 101, 114, 116,
    46, 116, 101, 115, 116, 49, 17, 48, 15, 6, 3, 85, 4, 10, 12, 8,
    84, 101, 115, 116, 32, 79, 114, 103, 48, 30, 23, 13, 50, 54, 49, 48,
    49, 50, 48, 49, 48, 57, 52, 48, 90, 23, 13, 51, 54, 49, 48, 48,
    57, 48, 49, 48, 57, 52, 48, 90, 48, 39, 49, 18, 48, 16, 6, 3,
    85, 4, 3, 12, 9, 99, 101, 114, 116, 46, 116, 101, 115, 116, 49, 17,
    48, 15, 6, 3, 85, 4, 10, 12, 8, 84, 101, 115, 116, 32, 79, 114,
    103, 48, 89, 48, 19, 6, 7, 42, 134, 72, 206, 61, 2, 1, 6, 8,
    42, 134, 72, 206, 61, 3, 1, 7, 3, 66, 0, 4, 226, 56, 136, 114,
    49, 194, 93, 68, 114, 168, 63, 185, 87, 253, 155, 156, 255, 230, 126, 188,
    19, 112, 116, 137, 196, 99, 22, 30, 154, 236, 177, 62, 45, 14, 26, 143,
    97, 252, 124, 121, 241, 216, 44, 80, 36, 120, 160, 10, 6, 192, 212, 48,
    81, 38, 151, 69, 12, 18, 153, 133, 124, 54, 60, 18, 163, 129, 138, 48,
    129, 135, 48, 29, 6, 3, 85, 29, 14, 4, 22, 4, 20, 192, 56, 143,
    186, 134, 94, 12, 88, 98, 188, 29, 88, 237, 150, 39, 1, 11, 104, 231,
    128, 48, 31, 6, 3, 85, 29, 35, 4, 24, 48, 22, 128, 20, 192, 56,
    143, 186, 134, 94, 12, 88, 98, 188, 29, 88, 237, 150, 39, 1, 11, 104,
    231, 128, 48, 15, 6, 3, 85, 29, 19, 1, 1, 255, 4, 5, 48, 3,
    1, 1, 255, 48, 52, 6, 3, 85, 29, 17, 4, 45, 48, 43, 130, 9,
    99, 101, 114, 116, 46, 116, 101, 115, 116, 130, 14, 97, 108, 116, 49, 46,
    99, 101, 114, 116, 46, 116, 101, 115, 116, 130, 14, 97, 108, 116, 50, 46,
    99, 101, 114, 116, 46, 116, 101, 115, 116, 48, 10, 6, 8, 42, 134, 72,
    206, 61, 4, 3, 2, 3, 71, 0, 48, 68, 2, 32, 43, 144, 123, 99,
    203, 81, 136, 100, 188, 152, 153, 50, 108, 29, 209, 252, 178, 60, 117, 233,
    57, 191, 108, 194, 72, 151, 211, 163, 113, 5, 105, 229, 2, 32, 47, 251,
    161, 127, 250, 178, 149, 150, 121, 35, 152, 210, 134, 38, 2, 104, 146, 215,
    87, 17, 184, 252, 171, 186, 224, 238, 189, 242, 92, 135, 47, 59,
];

const FP: &str = "3d:20:9c:71:8d:60:38:1c:08:9e:f2:fb:8d:19:04:80:48:fc:ef:cb:d6:4d:bb:b8:9e:a0:13:98:11:6e:cf:2e";
const NOT_BEFORE_TS: i64 = 1791767380;
const NOT_AFTER_TS: i64 = 2107127380;

#[test]
fn certificate_fields_are_extracted() {
    let cs = parse_certificate(CERT_DER, NOT_BEFORE_TS).unwrap();
    assert_eq!(cs.subject_cn.as_deref(), Some("cert.test"));
    assert_eq!(cs.issuer, "cert.test");
    assert_eq!(cs.san_short, "cert.test (+2)");
    assert_eq!(cs.not_before, "2026-10-12");
    assert_eq!(cs.not_after, "2036-10-09");
    assert_eq!(cs.days_left, 3650);
    assert_eq!(cs.sha256_fp, FP);
}

#[test]
fn garbage_bytes_fail_with_the_tls_class() {
    let e = parse_certificate(&[1, 2, 3, 4], 0).unwrap_err();
    assert_eq!(e.class, ErrorClass::Tls);
    assert_eq!(e.message, "failed to parse certificate");
}

#[test]
fn fingerprints_are_colon_hex_of_the_digest() {
    assert_eq!(compute_sha256_fingerprint(CERT_DER), FP);
    // SHA-256 of the empty string is a published constant.
    assert_eq!(
        compute_sha256_fingerprint(b""),
        "e3:b0:c4:42:98:fc:1c:14:9a:fb:f4:c8:99:6f:b9:24:27:ae:41:e4:64:9b:93:4c:a4:95:99:1b:78:52:b8:55"
    );
}

#[test]
fn date_labels_and_expiry_days() {
    assert_eq!(format_asn1_time(0), "1970-01-01");
    assert_eq!(format_asn1_time(NOT_AFTER_TS), "2036-10-09");
    assert_eq!(compute_days_left(NOT_AFTER_TS, NOT_BEFORE_TS), 3650);
    assert_eq!(compute_days_left(0, 86400 * 3), -3);
    assert_eq!(compute_days_left(100, 0), 0);
}

#[test]
fn fingerprints_shorten_to_first_two_and_last() {
    let cs = CertSummary {
        subject_cn: None,
        issuer: "i".to_string(),
        san_short: String::new(),
        not_before: "2026-10-12T01:09:40".to_string(),
        not_after: "2036-10-09T01:09:40".to_string(),
        days_left: 7,
        sha256_fp: FP.to_string(),
    };
    assert_eq!(cs.short_fingerprint(), "3d:20:...:2e");
    assert_eq!(
        cs.validity_range(),
        "2026-10-12 \u{2192} 2036-10-09  (days_left: 7)"
    );

    let short = CertSummary { sha256_fp: "aa:bb:cc".to_string(), ..cs };
    assert_eq!(short.short_fingerprint(), "aa:bb:cc");
}

use udoc::config::Config;
use udoc::http::{HttpResponse, HttpSummary, ResponseHeaders};
use udoc::pipeline::{HopAction, HopEvent, Pipeline};
use udoc::target::IpAddress;
use udoc::tls::TlsSummary;

fn tls_summary(version: &str) -> TlsSummary {
    TlsSummary::new(version.to_string(), None, "suite".to_string(), 1, true)
}

fn config() -> Config {
    Config {
        timeout_us: 5_000_000,
        max_redirects: 10,
        body_limit: 32768,
        repeat: 1,
        json_output: false,
    }
}

fn redirect_to(loc: &str) -> HttpResponse {
    HttpResponse {
        summary: HttpSummary::new(302, None, "http/1.1".to_string(), "HTTPS".to_string()),
        headers: ResponseHeaders {
            location: Some(loc.to_string()),
            server: None,
            content_type: None,
            content_length: None,
            transfer_encoding: None,
        },
        ttfb_us: 1,
        body_preview: vec![],
    }
}

fn ok_response() -> HttpResponse {
    HttpResponse {
        summary: HttpSummary::new(200, None, "http/1.1".to_string(), "HTTPS".to_string()),
        headers: ResponseHeaders {
            location: None,
            server: None,
            content_type: None,
            content_length: None,
            transfer_encoding: None,
        },
        ttfb_us: 1,
        body_preview: vec![],
    }
}

#[test]
fn unparsable_peer_certificate_fails_the_run() {
    let (mut m, _) = Pipeline::start("https://secure.test/", config(), 0).unwrap();
    let _ = m.step(HopEvent::Resolved { ips: vec![IpAddress::V4(1)], elapsed_us: 1 });
    let _ = m.step(HopEvent::Dialed { elapsed_us: 1 });
    let a = m.step(HopEvent::Handshaken {
        elapsed_us: 1,
        summary: tls_summary("TLS1.3"),
        first_cert_der: Some(vec![0xde, 0xad]),
        now_unix_ts: 0,
    });
    match a {
        HopAction::Fail { error } => {
            assert_eq!(error.class, ErrorClass::Tls);
            assert_eq!(error.message, "failed to parse certificate");
        }
        _ => panic!("expected the bad certificate to fail the run"),
    }
}

#[test]
fn first_retrievable_certificate_is_kept() {
    let (mut m, _) = Pipeline::start("https://secure.test/", config(), 0).unwrap();
    let _ = m.step(HopEvent::Resolved { ips: vec![IpAddress::V4(1)], elapsed_us: 1 });
    let _ = m.step(HopEvent::Dialed { elapsed_us: 1 });
    let _ = m.step(HopEvent::Handshaken {
        elapsed_us: 1,
        summary: tls_summary("TLS1.2"),
        first_cert_der: Some(CERT_DER.to_vec()),
        now_unix_ts: NOT_BEFORE_TS,
    });
    let _ = m.step(HopEvent::Responded { response: redirect_to("https://other.test/"), now_us: 10 });
    let _ = m.step(HopEvent::Resolved { ips: vec![IpAddress::V4(2)], elapsed_us: 1 });
    let _ = m.step(HopEvent::Dialed { elapsed_us: 1 });
    // The second hop negotiates TLS but yields no certificate.
    let _ = m.step(HopEvent::Handshaken {
        elapsed_us: 1,
        summary: tls_summary("TLS1.3"),
        first_cert_der: None,
        now_unix_ts: NOT_BEFORE_TS,
    });
    let a = m.step(HopEvent::Responded { response: ok_response(), now_us: 20 });
    let report = match a {
        HopAction::Finish { report } => report,
        _ => panic!("expected the run to finish"),
    };
    // The certificate is the first hop's; the TLS summary is the latest.
    let cert = report.cert.expect("the first hop's certificate must be kept");
    assert_eq!(cert.subject_cn.as_deref(), Some("cert.test"));
    assert_eq!(cert.sha256_fp, FP);
    assert_eq!(report.tls.unwrap().version, "TLS1.3");
    // An all-secure chain never sets the downgrade flag.
    assert!(!report.was_downgrade);
}
