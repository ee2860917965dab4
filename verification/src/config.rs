//! Run configuration, and the parsing of its textual forms. Reading the
//! environment is the embedding program's business; the value parsing
//! lives here.
use vstd::prelude::*;
use vstd::string::StringSliceAdditionalSpecFns;
use crate::strutil::{
    is_dec_number, dec_number_val, parse_u64_bytes, trim_bytes, trim_spec,
};

verus! {

/// Knobs of one run: the per-stage timeout, the redirect budget, the
/// body preview limit, how many times to repeat the run, and whether to
/// render JSON.
#[derive(Debug, Clone)]
pub struct Config {
    pub timeout_us: u64,
    pub max_redirects: usize,
    pub body_limit: usize,
    pub repeat: usize,
    pub json_output: bool,
}

impl Config {
    /// The same configuration with the JSON flag set as given.
    pub fn with_json(self, json: bool) -> (r: Self)
        ensures
            r.timeout_us == self.timeout_us,
            r.max_redirects == self.max_redirects,
            r.body_limit == self.body_limit,
            r.repeat == self.repeat,
            r.json_output == json,
    {
        Config { json_output: json, ..self }
    }
}

impl Default for Config {
    /// The documented defaults: a five-second timeout, ten redirects, a
    /// 32 KiB body preview, one run, human-readable output.
    fn default() -> (r: Self)
        ensures
            r.timeout_us == 5000000,
            r.max_redirects == 10,
            r.body_limit == 32768,
            r.repeat == 1,
            r.json_output == false,
    {
        Config {
            timeout_us: 5000000,
            max_redirects: 10,
            body_limit: 32 * 1024,
            repeat: 1,
            json_output: false,
        }
    }
}

/// A duration value in microseconds, read from text: after ASCII
/// trimming, a number with an `ms` suffix counts milliseconds, with an
/// `s` suffix or bare it counts seconds; absent when the number does not
/// parse or the microsecond value overflows.
pub open spec fn duration_us_of(b: Seq<u8>) -> Option<u64> {
    let t = trim_spec(b);
    if t.len() >= 2 && t[t.len() - 2] == 0x6d && t[t.len() - 1] == 0x73 {
        scaled_val(t.take(t.len() - 2), 1000)
    } else if t.len() >= 1 && t[t.len() - 1] == 0x73 {
        scaled_val(t.take(t.len() - 1), 1000000)
    } else {
        scaled_val(t, 1000000)
    }
}

/// The decimal value of `s` scaled by `f`, when it parses and fits.
pub open spec fn scaled_val(s: Seq<u8>, f: int) -> Option<u64> {
    if is_dec_number(s) && dec_number_val(s) <= u64::MAX && dec_number_val(s) * f <= u64::MAX {
        Some((dec_number_val(s) * f) as u64)
    } else {
        None
    }
}

fn parse_scaled(s: &[u8], f: u64) -> (r: Option<u64>)
    requires
        1 <= f,
    ensures
        r == scaled_val(s@, f as int),
{
    match parse_u64_bytes(s) {
        Some(v) => {
            if v <= u64::MAX / f {
                proof {
                    assert(v * f <= u64::MAX) by (nonlinear_arith)
                        requires v <= u64::MAX / f && f >= 1;
                }
                Some(v * f)
            } else {
                proof {
                    assert(v * f > u64::MAX) by (nonlinear_arith)
                        requires v > u64::MAX / f && f >= 1;
                }
                None
            }
        },
        None => None,
    }
}

/// Parses a timeout value such as `5s`, `3000ms`, or bare seconds, into
/// microseconds.
pub fn parse_duration_us(s: &str) -> (r: Option<u64>)
    ensures
        r == duration_us_of(s.spec_bytes()),
{
    let t = trim_bytes(s.as_bytes());
    let tlen = t.len();
    if tlen >= 2 && t[tlen - 2] == 0x6d && t[tlen - 1] == 0x73 {
        parse_scaled(&t[0..tlen - 2], 1000)
    } else if tlen >= 1 && t[tlen - 1] == 0x73 {
        parse_scaled(&t[0..tlen - 1], 1000000)
    } else {
        parse_scaled(t, 1000000)
    }
}

/// A count read from text: the number after ASCII trimming, as
/// `str::parse::<u64>` accepts it.
pub open spec fn count_of(b: Seq<u8>) -> Option<u64> {
    let t = trim_spec(b);
    if is_dec_number(t) && dec_number_val(t) <= u64::MAX {
        Some(dec_number_val(t) as u64)
    } else {
        None
    }
}

/// Parses a plain numeric setting.
pub fn parse_count(s: &str) -> (r: Option<u64>)
    ensures
        r == count_of(s.spec_bytes()),
{
    parse_u64_bytes(trim_bytes(s.as_bytes()))
}

} // verus!
