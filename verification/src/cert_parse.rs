//! Certificate summarization: X.509 field extraction and the SHA-256
//! digest are the x509-parser, chrono and ring crates' work behind
//! trusted wrappers; the issuer fallback, SAN shortening, date labels,
//! expiry arithmetic and fingerprint formatting are verified here.
use vstd::prelude::*;
use crate::cert::CertSummary;
use crate::error::{ErrorClass, UdocError};
use crate::http::opt_str_view;
use crate::strutil::{dec_str, hex_byte_chars, push_hex_byte, u64_to_dec};
use x509_parser::certificate::X509Certificate;
use x509_parser::extensions::GeneralName;
use x509_parser::prelude::FromDer;

verus! {

/// The names the pipeline reads from one DER certificate.
pub struct CertNames {
    pub subject_cn: Option<String>,
    pub issuer_cn: Option<String>,
    pub issuer_org: Option<String>,
}

/// The subject and issuer names the X.509 parser extracts from DER
/// bytes, as a function of the bytes alone; absent when they do not
/// parse as a certificate.
pub uninterp spec fn x509_names_of(der: Seq<u8>) -> Option<CertNames>;

/// Relies on x509-parser's `X509Certificate::from_der` and its subject
/// and issuer common-name and organization accessors: the parse of a
/// DER certificate is a function of the bytes alone.
#[verifier::external_body]
fn parse_cert_names(der: &[u8]) -> (r: Option<CertNames>)
    ensures
        r == x509_names_of(der@),
{
    let (_, c) = match X509Certificate::from_der(der) { Ok(v) => v, Err(_) => return None };
    let subject_cn = c.subject().iter_common_name().next().and_then(|v| v.as_str().ok()).map(|s| s.to_string());
    let issuer_cn = c.issuer().iter_common_name().next().and_then(|v| v.as_str().ok()).map(|s| s.to_string());
    let issuer_org = c.issuer().iter_organization().next().and_then(|v| v.as_str().ok()).map(|s| s.to_string());
    Some(CertNames { subject_cn, issuer_cn, issuer_org })
}

/// The DNS names of the subject-alternative-name extension, in order,
/// as a function of the DER bytes alone; empty when the certificate
/// does not parse or carries none.
pub uninterp spec fn x509_san_of(der: Seq<u8>) -> Seq<Seq<char>>;

/// Relies on x509-parser's `X509Certificate::from_der` and its
/// subject-alternative-name accessor: the extension's DNS names are a
/// function of the bytes alone.
#[verifier::external_body]
fn parse_cert_san(der: &[u8]) -> (r: Vec<String>)
    ensures
        r@.map_values(|s: String| s@) == x509_san_of(der@),
{
    let mut san_dns: Vec<String> = Vec::new();
    if let Ok((_, c)) = X509Certificate::from_der(der) {
        if let Ok(Some(san)) = c.subject_alternative_name() {
            for gn in san.value.general_names.iter() {
                if let GeneralName::DNSName(d) = gn { san_dns.push((*d).to_string()); }
            }
        }
    }
    san_dns
}

/// The validity window's Unix timestamps, start then end, as a function
/// of the DER bytes alone; absent when they do not parse.
pub uninterp spec fn x509_validity_of(der: Seq<u8>) -> Option<(i64, i64)>;

/// Relies on x509-parser's `X509Certificate::from_der` and the validity
/// timestamps of `ASN1Time`: a function of the bytes alone.
#[verifier::external_body]
fn parse_cert_validity(der: &[u8]) -> (r: Option<(i64, i64)>)
    ensures
        r == x509_validity_of(der@),
{
    let (_, c) = match X509Certificate::from_der(der) { Ok(v) => v, Err(_) => return None };
    Some((c.validity().not_before.timestamp(), c.validity().not_after.timestamp()))
}

/// The SHA-256 digest of a byte string, as ring computes it.
pub uninterp spec fn sha256_of(data: Seq<u8>) -> Seq<u8>;

/// Relies on `ring::digest::digest` with SHA-256: a 32-byte digest that
/// is a function of the input bytes alone.
#[verifier::external_body]
fn sha256(data: &[u8]) -> (r: Vec<u8>)
    ensures
        r@ == sha256_of(data@),
        r@.len() == 32,
{
    ring::digest::digest(&ring::digest::SHA256, data).as_ref().to_vec()
}

/// The `%Y-%m-%d` label of a Unix timestamp, as chrono renders it;
/// absent when the timestamp is out of chrono's range.
pub uninterp spec fn date_label(ts: i64) -> Option<Seq<char>>;

/// Relies on chrono's `DateTime::from_timestamp` and `%Y-%m-%d`
/// formatting: the calendar date of a Unix timestamp is a function of
/// the timestamp alone, absent when out of range.
#[verifier::external_body]
fn format_ts_date(ts: i64) -> (r: Option<String>)
    ensures
        opt_str_view(r) == date_label(ts),
{
    chrono::DateTime::<chrono::Utc>::from_timestamp(ts, 0).map(|dt| dt.format("%Y-%m-%d").to_string())
}

/// The calendar-date label of a validity bound, or `unknown` when the
/// timestamp is out of range.
pub open spec fn asn1_label(ts: i64) -> Seq<char> {
    match date_label(ts) {
        Some(m) => m,
        None => "unknown"@,
    }
}

/// Formats one validity bound.
pub fn format_asn1_time(ts: i64) -> (r: String)
    ensures
        r@ == asn1_label(ts),
{
    match format_ts_date(ts) {
        Some(s) => s,
        None => "unknown".to_owned(),
    }
}

/// Whole days from `now` until `not_after`, negative once expired,
/// truncated toward zero.
pub open spec fn days_left_spec(not_after_ts: int, now_ts: int) -> int {
    if not_after_ts >= now_ts {
        (not_after_ts - now_ts) / 86400
    } else {
        -((now_ts - not_after_ts) / 86400)
    }
}

/// Computes the days-until-expiry of a validity end against a clock
/// reading.
pub fn compute_days_left(not_after_ts: i64, now_ts: i64) -> (r: i64)
    ensures
        r == days_left_spec(not_after_ts as int, now_ts as int),
{
    if not_after_ts >= now_ts {
        let diff: u64 = ((not_after_ts as i128) - (now_ts as i128)) as u64;
        (diff / 86400) as i64
    } else {
        let diff: u64 = ((now_ts as i128) - (not_after_ts as i128)) as u64;
        -((diff / 86400) as i64)
    }
}

/// The colon-separated lowercase-hex form of a byte string.
pub open spec fn colon_hex(b: Seq<u8>) -> Seq<char>
    decreases b.len(),
{
    if b.len() == 0 {
        Seq::empty()
    } else if b.len() == 1 {
        hex_byte_chars(b[0])
    } else {
        colon_hex(b.drop_last()) + ":"@ + hex_byte_chars(b.last())
    }
}

/// Renders a digest as colon-separated lowercase hex pairs.
pub fn format_colon_hex(b: &[u8]) -> (r: String)
    ensures
        r@ == colon_hex(b@),
{
    let mut out = String::new();
    let mut i: usize = 0;
    while i < b.len()
        invariant
            0 <= i <= b@.len(),
            out@ == colon_hex(b@.take(i as int)),
        decreases b@.len() - i,
    {
        if i > 0 {
            out.append(":");
        }
        push_hex_byte(&mut out, b[i]);
        proof {
            assert(b@.take(i + 1).drop_last() =~= b@.take(i as int));
            assert(b@.take(i + 1).last() == b@[i as int]);
            if i == 0 {
                assert(colon_hex(b@.take(1)) =~= hex_byte_chars(b@[0]));
            }
            assert(out@ =~= colon_hex(b@.take(i + 1)));
        }
        i += 1;
    }
    proof {
        assert(b@.take(b@.len() as int) =~= b@);
    }
    out
}

/// The SHA-256 fingerprint of the DER bytes, colon-hex form.
pub open spec fn fingerprint_spec(der: Seq<u8>) -> Seq<char> {
    colon_hex(sha256_of(der))
}

/// Computes the colon-hex SHA-256 fingerprint of the DER encoding.
pub fn compute_sha256_fingerprint(der: &[u8]) -> (r: String)
    ensures
        r@ == fingerprint_spec(der@),
{
    let digest = sha256(der);
    format_colon_hex(digest.as_slice())
}

/// The issuer display string: the issuer common name, else its
/// organization, else `Unknown`.
pub open spec fn issuer_label(f: CertNames) -> Seq<char> {
    match f.issuer_cn {
        Some(cn) => cn@,
        None => match f.issuer_org {
            Some(o) => o@,
            None => "Unknown"@,
        },
    }
}

/// The shortened SAN summary: empty for none, the single name alone,
/// else the first name with a `(+N)` suffix.
pub open spec fn san_label(names: Seq<Seq<char>>) -> Seq<char> {
    if names.len() == 0 {
        Seq::empty()
    } else if names.len() == 1 {
        names[0]
    } else {
        names[0] + " (+"@ + dec_str(names.len() - 1) + ")"@
    }
}

/// The summary of one certificate, as a function of the DER bytes and
/// the clock reading: absent exactly when the bytes do not parse.
pub open spec fn cert_summary_model(der: Seq<u8>, now_ts: int) -> Option<CertModel> {
    match (x509_names_of(der), x509_validity_of(der)) {
        (Some(f), Some(v)) => Some(CertModel {
            subject_cn: opt_str_view(f.subject_cn),
            issuer: issuer_label(f),
            san_short: san_label(x509_san_of(der)),
            not_before: asn1_label(v.0),
            not_after: asn1_label(v.1),
            days_left: days_left_spec(v.1 as int, now_ts),
            sha256_fp: fingerprint_spec(der),
        }),
        _ => None,
    }
}

/// A certificate summary as character sequences and plain values.
pub struct CertModel {
    pub subject_cn: Option<Seq<char>>,
    pub issuer: Seq<char>,
    pub san_short: Seq<char>,
    pub not_before: Seq<char>,
    pub not_after: Seq<char>,
    pub days_left: int,
    pub sha256_fp: Seq<char>,
}

impl View for CertSummary {
    type V = CertModel;

    open spec fn view(&self) -> CertModel {
        CertModel {
            subject_cn: opt_str_view(self.subject_cn),
            issuer: self.issuer@,
            san_short: self.san_short@,
            not_before: self.not_before@,
            not_after: self.not_after@,
            days_left: self.days_left as int,
            sha256_fp: self.sha256_fp@,
        }
    }
}

/// Summarizes one DER certificate against a clock reading: subject and
/// issuer names, shortened SAN list, validity dates, days until expiry,
/// and the SHA-256 fingerprint; bytes that do not parse fail with the
/// TLS class.
pub fn parse_certificate(der: &[u8], now_ts: i64) -> (r: Result<CertSummary, UdocError>)
    ensures
        match r {
            Ok(cs) => cert_summary_model(der@, now_ts as int) == Some(cs@),
            Err(e) => {
                &&& cert_summary_model(der@, now_ts as int) is None
                &&& e.class == ErrorClass::Tls
                &&& e.message@ == "failed to parse certificate"@
            },
        },
{
    let f = match parse_cert_names(der) {
        None => {
            return Err(UdocError::tls("failed to parse certificate".to_owned()));
        },
        Some(f) => f,
    };
    let (not_before_ts, not_after_ts): (i64, i64) = match parse_cert_validity(der) {
        None => {
            return Err(UdocError::tls("failed to parse certificate".to_owned()));
        },
        Some(v) => v,
    };
    let san_dns = parse_cert_san(der);
    let CertNames { subject_cn, issuer_cn, issuer_org } = f;
    let issuer: String = match issuer_cn {
        Some(cn) => cn,
        None => match issuer_org {
            Some(o) => o,
            None => "Unknown".to_owned(),
        },
    };
    let ghost names = san_dns@.map_values(|s: String| s@);
    let san_short: String = if san_dns.len() == 0 {
        String::new()
    } else if san_dns.len() == 1 {
        let first = san_dns[0].clone();
        proof {
            assert(first@ == names[0]);
        }
        first
    } else {
        let mut out = san_dns[0].clone();
        out.append(" (+");
        let extra = u64_to_dec((san_dns.len() - 1) as u64);
        out.append(extra.as_str());
        out.append(")");
        proof {
            assert(out@ =~= san_label(names));
        }
        out
    };
    let not_before = format_asn1_time(not_before_ts);
    let not_after = format_asn1_time(not_after_ts);
    let days_left = compute_days_left(not_after_ts, now_ts);
    let sha256_fp = compute_sha256_fingerprint(der);
    let cs = CertSummary {
        subject_cn,
        issuer,
        san_short,
        not_before,
        not_after,
        days_left,
        sha256_fp,
    };
    proof {
        let m = cert_summary_model(der@, now_ts as int)->Some_0;
        assert(cs@.issuer == m.issuer);
        assert(cs@.san_short == m.san_short);
    }
    Ok(cs)
}

} // verus!
