//! Per-hop and aggregate timings, in integer microseconds.
use vstd::prelude::*;
use crate::strutil::{dec_str, digit_char, u64_to_dec, digit_str_of};

verus! {

/// A microsecond count as milliseconds with exactly two decimals,
/// rounded half up: the form timing fields take in rendered JSON.
pub open spec fn ms_fixed2_chars(us: u64) -> Seq<char> {
    let c = (us + 5) / 10;
    dec_str(c / 100) + "."@ + seq![digit_char(c / 10 % 10), digit_char(c % 10)]
}

/// Renders a microsecond count as milliseconds with two decimals.
pub fn ms_fixed2(us: u64) -> (r: String)
    ensures
        r@ == ms_fixed2_chars(us),
{
    let c: u64 = (us / 10) + (if us % 10 >= 5 { 1 } else { 0 });
    proof {
        assert(c == (us + 5) / 10);
    }
    let mut out = u64_to_dec(c / 100);
    out.append(".");
    out.append(digit_str_of(c / 10 % 10));
    out.append(digit_str_of(c % 10));
    proof {
        assert(out@ =~= ms_fixed2_chars(us));
    }
    out
}

/// Elapsed time of one hop, split by stage. The TLS component is absent
/// on hops that performed no handshake.
#[derive(Debug, Clone)]
pub struct HopTiming {
    pub dns_us: u64,
    pub tcp_us: u64,
    pub tls_us: Option<u64>,
    pub ttfb_us: u64,
}

impl HopTiming {
    pub open spec fn total_spec(self) -> int {
        self.dns_us + self.tcp_us + (match self.tls_us {
            Some(t) => t as int,
            None => 0,
        }) + self.ttfb_us
    }

    /// Sum of the components that are present.
    pub fn total(&self) -> (r: u64)
        requires
            self.total_spec() <= u64::MAX,
        ensures
            r == self.total_spec(),
    {
        let tls: u64 = match self.tls_us {
            Some(t) => t,
            None => 0,
        };
        self.dns_us + self.tcp_us + tls + self.ttfb_us
    }
}

impl Default for HopTiming {
    /// All components zero, no TLS component.
    fn default() -> (r: Self)
        ensures
            r.dns_us == 0 && r.tcp_us == 0 && r.tls_us is None && r.ttfb_us == 0,
    {
        HopTiming { dns_us: 0, tcp_us: 0, tls_us: None, ttfb_us: 0 }
    }
}

/// Sum of the DNS components of a hop sequence.
pub open spec fn sum_dns(hops: Seq<HopTiming>) -> int
    decreases hops.len(),
{
    if hops.len() == 0 {
        0
    } else {
        sum_dns(hops.drop_last()) + hops.last().dns_us
    }
}

/// Sum of the TCP components of a hop sequence.
pub open spec fn sum_tcp(hops: Seq<HopTiming>) -> int
    decreases hops.len(),
{
    if hops.len() == 0 {
        0
    } else {
        sum_tcp(hops.drop_last()) + hops.last().tcp_us
    }
}

/// Sum of the TLS components over the hops that performed a handshake.
pub open spec fn sum_tls(hops: Seq<HopTiming>) -> int
    decreases hops.len(),
{
    if hops.len() == 0 {
        0
    } else {
        sum_tls(hops.drop_last()) + (match hops.last().tls_us {
            Some(t) => t as int,
            None => 0,
        })
    }
}

/// Whether any hop performed a handshake.
pub open spec fn any_tls(hops: Seq<HopTiming>) -> bool {
    exists|i: int| 0 <= i < hops.len() && (#[trigger] hops[i].tls_us) is Some
}

/// Appending one hop extends each sum by that hop's component.
pub proof fn lemma_sum_push(hops: Seq<HopTiming>, h: HopTiming)
    ensures
        sum_dns(hops.push(h)) == sum_dns(hops) + h.dns_us,
        sum_tcp(hops.push(h)) == sum_tcp(hops) + h.tcp_us,
        sum_tls(hops.push(h)) == sum_tls(hops) + (match h.tls_us {
            Some(t) => t as int,
            None => 0,
        }),
        any_tls(hops.push(h)) == (any_tls(hops) || h.tls_us is Some),
{
    let p = hops.push(h);
    assert(p.drop_last() =~= hops);
    assert(p.last() == h);
    if any_tls(hops) {
        let i = choose|i: int| 0 <= i < hops.len() && (#[trigger] hops[i].tls_us) is Some;
        assert(p[i].tls_us is Some);
    }
    if h.tls_us is Some {
        assert(p[p.len() - 1].tls_us is Some);
    }
    if any_tls(p) {
        let i = choose|i: int| 0 <= i < p.len() && (#[trigger] p[i].tls_us) is Some;
        if i < hops.len() {
            assert(hops[i].tls_us is Some);
        }
    }
}

/// A chain with no handshake contributes no TLS time.
pub proof fn lemma_sum_tls_none(hops: Seq<HopTiming>)
    requires
        !any_tls(hops),
    ensures
        sum_tls(hops) == 0,
    decreases hops.len(),
{
    if hops.len() > 0 {
        assert(!any_tls(hops.drop_last())) by {
            if any_tls(hops.drop_last()) {
                let i = choose|i: int| 0 <= i < hops.drop_last().len()
                    && (#[trigger] hops.drop_last()[i].tls_us) is Some;
                assert(hops[i].tls_us is Some);
            }
        }
        assert(hops[hops.len() - 1].tls_us is None);
        lemma_sum_tls_none(hops.drop_last());
    }
}

/// Aggregate timing across the whole redirect chain. DNS and TCP times
/// are summed over all hops; TLS time is summed over the hops that
/// performed a handshake and absent when none did; the TTFB is the final
/// hop's; the total is measured end to end by the driver's clock and is
/// not reconciled with the per-stage sums.
#[derive(Debug, Clone)]
pub struct TimingBreakdown {
    pub dns_us: u64,
    pub tcp_us: u64,
    pub tls_us: Option<u64>,
    pub ttfb_us: u64,
    pub total_us: u64,
    pub hops: Vec<HopTiming>,
}

impl TimingBreakdown {
    pub fn new(dns_us: u64, tcp_us: u64, tls_us: Option<u64>, ttfb_us: u64, total_us: u64) -> (r: Self)
        ensures
            r.dns_us == dns_us,
            r.tcp_us == tcp_us,
            r.tls_us == tls_us,
            r.ttfb_us == ttfb_us,
            r.total_us == total_us,
            r.hops@ =~= Seq::<HopTiming>::empty(),
    {
        TimingBreakdown { dns_us, tcp_us, tls_us, ttfb_us, total_us, hops: Vec::new() }
    }

    pub fn with_hops(self, hops: Vec<HopTiming>) -> (r: Self)
        ensures
            r.dns_us == self.dns_us,
            r.tcp_us == self.tcp_us,
            r.tls_us == self.tls_us,
            r.ttfb_us == self.ttfb_us,
            r.total_us == self.total_us,
            r.hops == hops,
    {
        TimingBreakdown {
            dns_us: self.dns_us,
            tcp_us: self.tcp_us,
            tls_us: self.tls_us,
            ttfb_us: self.ttfb_us,
            total_us: self.total_us,
            hops,
        }
    }

    /// The aggregate agrees with its own per-hop sequence: each summed
    /// field equals the arithmetic sum of the per-hop components, the
    /// TLS sum is present exactly when some hop performed a handshake,
    /// and the TTFB is the last hop's.
    pub open spec fn consistent_with_hops(self) -> bool {
        &&& self.dns_us == sum_dns(self.hops@)
        &&& self.tcp_us == sum_tcp(self.hops@)
        &&& (match self.tls_us {
            Some(t) => any_tls(self.hops@) && t == sum_tls(self.hops@),
            None => !any_tls(self.hops@),
        })
        &&& self.hops@.len() > 0 ==> self.ttfb_us == self.hops@.last().ttfb_us
    }
}

} // verus!
