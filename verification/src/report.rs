//! The terminal aggregate of one run, and its bottleneck classification.
use vstd::prelude::*;
use crate::cert::CertSummary;
use crate::http::HttpSummary;
use crate::redirect::RedirectHop;
use crate::target::ResolvedTarget;
use crate::timing::TimingBreakdown;
use crate::tls::TlsSummary;

verus! {

/// Everything one successful run produced: input and final URL, the
/// final endpoint, the redirect chain, aggregate timings, the final
/// HTTP summary, the most recent TLS summary, the first retrievable
/// certificate summary, and whether the chain ever downgraded.
#[derive(Debug)]
pub struct Report {
    pub input_url: String,
    pub final_url: String,
    pub host: String,
    pub resolved: ResolvedTarget,
    pub redirects: Vec<RedirectHop>,
    pub timings: TimingBreakdown,
    pub http: HttpSummary,
    pub tls: Option<TlsSummary>,
    pub cert: Option<CertSummary>,
    pub was_downgrade: bool,
}

/// The threshold under which no stage counts as a bottleneck.
pub const FAST_THRESHOLD_US: u64 = 10 * 1000;

impl Report {
    /// The label `bottleneck` returns, by the declared tie-break order:
    /// fast runs first, then TTFB when it weakly dominates, then DNS,
    /// then TLS, then TCP.
    pub open spec fn bottleneck_spec(self) -> Seq<char> {
        let dns = self.timings.dns_us as int;
        let tcp = self.timings.tcp_us as int;
        let tls = (match self.timings.tls_us {
            Some(t) => t as int,
            None => 0,
        });
        let ttfb = self.timings.ttfb_us as int;
        if dns < FAST_THRESHOLD_US && tcp < FAST_THRESHOLD_US && tls < FAST_THRESHOLD_US
            && ttfb < FAST_THRESHOLD_US {
            "none (fast)"@
        } else if ttfb >= dns && ttfb >= tcp && ttfb >= tls {
            "ttfb (server)"@
        } else if dns >= tcp && dns >= tls {
            "dns"@
        } else if tls >= tcp {
            "tls"@
        } else {
            "tcp"@
        }
    }

    /// Attributes the dominant share of latency to one stage, or calls
    /// the run fast when every stage is under the threshold.
    pub fn bottleneck(&self) -> (r: &'static str)
        ensures
            r@ == self.bottleneck_spec(),
    {
        let dns = self.timings.dns_us;
        let tcp = self.timings.tcp_us;
        let tls: u64 = match self.timings.tls_us {
            Some(t) => t,
            None => 0,
        };
        let ttfb = self.timings.ttfb_us;
        if dns < FAST_THRESHOLD_US && tcp < FAST_THRESHOLD_US && tls < FAST_THRESHOLD_US
            && ttfb < FAST_THRESHOLD_US {
            "none (fast)"
        } else if ttfb >= dns && ttfb >= tcp && ttfb >= tls {
            "ttfb (server)"
        } else if dns >= tcp && dns >= tls {
            "dns"
        } else if tls >= tcp {
            "tls"
        } else {
            "tcp"
        }
    }
}

} // verus!
