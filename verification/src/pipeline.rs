//! The redirect orchestrator, as an explicit state machine. One run is
//! a sequence of hops; each hop resolves the host, dials the first
//! address, optionally performs a TLS handshake, and issues one
//! request. The machine holds every decision: stage order, the per-hop
//! timeout, loop detection, the redirect budget, downgrade tracking,
//! and the aggregation of timings into the final report. A driver
//! performs the outside work each action asks for and hands the outcome
//! back as the next event; scripted events exercise the machine without
//! sockets.
use vstd::prelude::*;
use crate::cert::CertSummary;
use crate::cert_parse::{cert_summary_model, parse_certificate};
use crate::config::Config;
use crate::error::{ErrorClass, UdocError};
use crate::http::{HttpResponse, HttpSummary, is_redirect, is_redirect_spec, opt_str_view};
use crate::redirect::RedirectHop;
use crate::report::Report;
use crate::strutil::{dec_str, str_eq, u64_to_dec, usize_to_dec};
use crate::target::{IpAddress, ResolvedTarget, family_of};
use crate::timing::{HopTiming, TimingBreakdown, sum_dns, sum_tcp, sum_tls, any_tls, lemma_sum_push};
use crate::tls::TlsSummary;
use crate::url_parse::{ParsedUrl, ParsedUrlModel, parse_url_model};

verus! {

/// Where the machine stands inside the current hop, or how it ended.
#[derive(Debug, Clone, Copy, PartialEq, Eq, Structural)]
pub enum Stage {
    Resolving,
    Connecting,
    Handshaking,
    Requesting,
    Done,
    Failed,
}

/// The outcome of one outside step, handed back by the driver. Elapsed
/// times are what the adapter measured for the step; the handshake also
/// carries the negotiated summary, the first peer certificate if any,
/// and a wall-clock reading for expiry arithmetic; the response carries
/// a monotonic reading for the end-to-end total.
#[derive(Debug)]
pub enum HopEvent {
    Resolved { ips: Vec<IpAddress>, elapsed_us: u64 },
    Dialed { elapsed_us: u64 },
    Handshaken {
        elapsed_us: u64,
        summary: TlsSummary,
        first_cert_der: Option<Vec<u8>>,
        now_unix_ts: i64,
    },
    Responded { response: HttpResponse, now_us: u64 },
    StageFailed { error: UdocError },
}

/// What the driver must do next. Every variant but the last two asks
/// for one outside step; `Finish` and `Fail` end the run.
#[derive(Debug)]
pub enum HopAction {
    Resolve { host: String },
    Dial { ip: IpAddress, port: u16 },
    Handshake { host: String },
    RequestH1 { host: String, port: u16, path: String, is_https: bool, body_limit: usize },
    RequestH2 { host: String, port: u16, path: String, body_limit: usize },
    Finish { report: Report },
    Fail { error: UdocError },
}

/// The redirect orchestrator's state: the configuration, the URL of the
/// current hop, every URL visited so far, the redirect and timing
/// records, running stage totals, the partial timing of the current
/// hop, the summaries carried forward, and the sticky downgrade flag.
#[derive(Debug)]
pub struct Pipeline {
    pub config: Config,
    pub input_url: String,
    pub current: ParsedUrl,
    pub stage: Stage,
    pub hop_idx: usize,
    pub visited: Vec<String>,
    pub redirects: Vec<RedirectHop>,
    pub hop_timings: Vec<HopTiming>,
    pub total_dns_us: u64,
    pub total_tcp_us: u64,
    pub total_tls_us: Option<u64>,
    pub final_ttfb_us: u64,
    pub cur_dns_us: u64,
    pub cur_tcp_us: u64,
    pub cur_tls_us: Option<u64>,
    pub resolved: Option<ResolvedTarget>,
    pub final_tls: Option<TlsSummary>,
    pub final_cert: Option<CertSummary>,
    pub pending_tls: Option<TlsSummary>,
    pub pending_cert: Option<CertSummary>,
    pub was_downgrade: bool,
    pub started_us: u64,
}

/// The visited URLs as character sequences, in hop order.
pub open spec fn visited_views(p: Pipeline) -> Seq<Seq<char>> {
    p.visited@.map_values(|s: String| s@)
}

/// The TLS total agrees with the recorded hops: present with their sum
/// exactly when some recorded hop performed a handshake.
pub open spec fn tls_base(total: Option<u64>, hops: Seq<HopTiming>) -> bool {
    match total {
        Some(t) => any_tls(hops) && t == sum_tls(hops),
        None => !any_tls(hops),
    }
}

impl Pipeline {
    /// The machine still expects an event.
    pub open spec fn active(self) -> bool {
        self.stage == Stage::Resolving || self.stage == Stage::Connecting
            || self.stage == Stage::Handshaking || self.stage == Stage::Requesting
    }

    /// The machine's well-formedness between steps. The hop budget
    /// holds; the visited list has one entry per hop entered, all
    /// distinct, the current hop's URL last; each recorded redirect
    /// left the URL of its hop; the stage totals equal the recorded
    /// sums plus exactly the parts of the current hop that its stage
    /// has passed.
    pub open spec fn inv(self) -> bool {
        self.active() ==> {
            &&& self.hop_idx <= self.config.max_redirects
            &&& self.current@.scheme_supported()
            &&& visited_views(self).len() == self.hop_idx + 1
            &&& visited_views(self)[self.hop_idx as int] == self.current@.full
            &&& (forall|i: int, j: int| 0 <= i < j < visited_views(self).len()
                ==> visited_views(self)[i] != visited_views(self)[j])
            &&& self.redirects@.len() == self.hop_idx
            &&& (forall|i: int| 0 <= i < self.redirects@.len()
                ==> (#[trigger] self.redirects@[i]).from@ == visited_views(self)[i])
            &&& self.hop_timings@.len() == self.hop_idx
            &&& (match self.stage {
                Stage::Resolving => {
                    &&& self.total_dns_us == sum_dns(self.hop_timings@)
                    &&& self.total_tcp_us == sum_tcp(self.hop_timings@)
                    &&& tls_base(self.total_tls_us, self.hop_timings@)
                    &&& self.pending_tls is None && self.pending_cert is None
                },
                Stage::Connecting => {
                    &&& self.total_dns_us == sum_dns(self.hop_timings@) + self.cur_dns_us
                    &&& self.total_tcp_us == sum_tcp(self.hop_timings@)
                    &&& tls_base(self.total_tls_us, self.hop_timings@)
                    &&& self.pending_tls is None && self.pending_cert is None
                    &&& self.resolved is Some
                },
                Stage::Handshaking => {
                    &&& self.total_dns_us == sum_dns(self.hop_timings@) + self.cur_dns_us
                    &&& self.total_tcp_us == sum_tcp(self.hop_timings@) + self.cur_tcp_us
                    &&& tls_base(self.total_tls_us, self.hop_timings@)
                    &&& self.pending_tls is None && self.pending_cert is None
                    &&& self.resolved is Some
                    &&& self.current@.is_https_spec()
                },
                Stage::Requesting => {
                    &&& self.total_dns_us == sum_dns(self.hop_timings@) + self.cur_dns_us
                    &&& self.total_tcp_us == sum_tcp(self.hop_timings@) + self.cur_tcp_us
                    &&& (match self.cur_tls_us {
                        None => tls_base(self.total_tls_us, self.hop_timings@),
                        Some(ct) => self.total_tls_us matches Some(t)
                            && t == sum_tls(self.hop_timings@) + ct,
                    })
                    &&& self.resolved is Some
                },
                _ => true,
            })
        }
    }

    /// The event kinds each stage accepts; a stage failure is accepted
    /// in any active stage.
    pub open spec fn expects(self, ev: HopEvent) -> bool {
        match ev {
            HopEvent::Resolved { .. } => self.stage == Stage::Resolving,
            HopEvent::Dialed { .. } => self.stage == Stage::Connecting,
            HopEvent::Handshaken { .. } => self.stage == Stage::Handshaking,
            HopEvent::Responded { .. } => self.stage == Stage::Requesting,
            HopEvent::StageFailed { .. } => self.active(),
        }
    }

    /// Machine limits alone: the running stage totals must not overflow
    /// when the event's elapsed time is added.
    pub open spec fn event_fits(self, ev: HopEvent) -> bool {
        match ev {
            HopEvent::Resolved { elapsed_us, .. } =>
                self.total_dns_us + elapsed_us <= u64::MAX,
            HopEvent::Dialed { elapsed_us } =>
                self.total_tcp_us + elapsed_us <= u64::MAX,
            HopEvent::Handshaken { elapsed_us, .. } =>
                (match self.total_tls_us {
                    Some(t) => t as int,
                    None => 0,
                }) + elapsed_us <= u64::MAX,
            _ => true,
        }
    }
}

/// The message a timed-out stage fails with.
pub open spec fn timeout_msg(timeout_us: u64) -> Seq<char> {
    "operation timed out after "@ + dur_chars(timeout_us)
}

/// A duration rendered with its largest exact unit.
pub open spec fn dur_chars(us: u64) -> Seq<char> {
    if us % 1000000 == 0 {
        dec_str(us as int / 1000000) + "s"@
    } else if us % 1000 == 0 {
        dec_str(us as int / 1000) + "ms"@
    } else {
        dec_str(us as int) + "us"@
    }
}

fn render_timeout_msg(timeout_us: u64) -> (r: String)
    ensures
        r@ == timeout_msg(timeout_us),
{
    let mut out = "operation timed out after ".to_owned();
    if timeout_us % 1000000 == 0 {
        let n = u64_to_dec(timeout_us / 1000000);
        out.append(n.as_str());
        out.append("s");
    } else if timeout_us % 1000 == 0 {
        let n = u64_to_dec(timeout_us / 1000);
        out.append(n.as_str());
        out.append("ms");
    } else {
        let n = u64_to_dec(timeout_us);
        out.append(n.as_str());
        out.append("us");
    }
    proof {
        assert(out@ =~= timeout_msg(timeout_us));
    }
    out
}

/// The post-state and action of a run that failed: the machine is in
/// its failed stage and the action carries the given class and message.
pub open spec fn failed_with(post: Pipeline, a: HopAction, class: ErrorClass, msg: Seq<char>) -> bool {
    &&& post.stage == Stage::Failed
    &&& (a matches HopAction::Fail { error } && error.class == class && error.message@ == msg)
}

/// Fields no step ever changes.
pub open spec fn frame_fixed(pre: Pipeline, post: Pipeline) -> bool {
    &&& post.config == pre.config
    &&& post.input_url == pre.input_url
    &&& post.started_us == pre.started_us
}

/// True when `s` is one of the visited URLs.
pub open spec fn in_visited(p: Pipeline, s: Seq<char>) -> bool {
    exists|i: int| 0 <= i < visited_views(p).len() && visited_views(p)[i] == s
}

fn contains_string(v: &Vec<String>, s: &str) -> (r: bool)
    ensures
        r == exists|i: int| 0 <= i < v@.len() && (#[trigger] v@[i])@ == s@,
{
    let mut i: usize = 0;
    while i < v.len()
        invariant
            0 <= i <= v@.len(),
            forall|j: int| 0 <= j < i ==> (#[trigger] v@[j])@ != s@,
        decreases v@.len() - i,
    {
        if str_eq(v[i].as_str(), s) {
            return true;
        }
        i += 1;
    }
    false
}

impl Pipeline {
    /// Starts one run: the input URL is parsed and becomes the first
    /// hop, already marked visited, and the driver is asked to resolve
    /// its host. An input that is not an absolute http or https URL
    /// with a host fails with the Input class before any network step.
    pub fn start(input_url: &str, config: Config, now_us: u64) -> (r: Result<(Pipeline, HopAction), UdocError>)
        ensures
            match r {
                Ok(p) => {
                    &&& parse_url_model(input_url@) matches Ok(pu)
                    &&& p.0.inv()
                    &&& p.0.stage == Stage::Resolving
                    &&& p.0.current@ == pu
                    &&& p.0.input_url@ == input_url@
                    &&& p.0.config == config
                    &&& p.0.hop_idx == 0
                    &&& visited_views(p.0) =~= seq![pu.full]
                    &&& p.0.redirects@.len() == 0
                    &&& p.0.hop_timings@.len() == 0
                    &&& p.0.total_dns_us == 0 && p.0.total_tcp_us == 0
                    &&& p.0.total_tls_us is None && p.0.final_ttfb_us == 0
                    &&& p.0.final_tls is None && p.0.final_cert is None
                    &&& !p.0.was_downgrade
                    &&& p.0.started_us == now_us
                    &&& (p.1 matches HopAction::Resolve { host } && host@ == pu.host)
                },
                Err(e) => {
                    &&& parse_url_model(input_url@) matches Err(m)
                    &&& e.class == ErrorClass::Input
                    &&& e.message@ == m
                },
            },
    {
        let current = match ParsedUrl::parse(input_url) {
            Ok(p) => p,
            Err(e) => {
                return Err(e);
            },
        };
        let host = current.host.clone();
        let full = current.full.clone();
        let mut visited: Vec<String> = Vec::new();
        visited.push(full);
        let machine = Pipeline {
            config,
            input_url: input_url.to_owned(),
            current,
            stage: Stage::Resolving,
            hop_idx: 0,
            visited,
            redirects: Vec::new(),
            hop_timings: Vec::new(),
            total_dns_us: 0,
            total_tcp_us: 0,
            total_tls_us: None,
            final_ttfb_us: 0,
            cur_dns_us: 0,
            cur_tcp_us: 0,
            cur_tls_us: None,
            resolved: None,
            final_tls: None,
            final_cert: None,
            pending_tls: None,
            pending_cert: None,
            was_downgrade: false,
            started_us: now_us,
        };
        proof {
            assert(visited_views(machine) =~= seq![machine.current@.full]);
            match parse_url_model(input_url@) {
                Ok(pu) => {
                    assert(machine.current@.scheme_supported()) by {
                        match crate::url_parse::url_parse(input_url@) {
                            Some(parts) => {},
                            None => {},
                        }
                    }
                },
                Err(_) => {
                    assert(false);
                },
            }
        }
        Ok((machine, HopAction::Resolve { host }))
    }
}

// ---------------------------------------------------------------------------
// The transition relation, case by case
// ---------------------------------------------------------------------------

/// Fields a mid-hop transition leaves alone: the hop records, the
/// carried summaries, the downgrade flag, and the final TTFB.
pub open spec fn records_unchanged(pre: Pipeline, post: Pipeline) -> bool {
    &&& post.current == pre.current
    &&& post.visited == pre.visited
    &&& post.redirects == pre.redirects
    &&& post.hop_timings == pre.hop_timings
    &&& post.hop_idx == pre.hop_idx
    &&& post.final_tls == pre.final_tls
    &&& post.final_cert == pre.final_cert
    &&& post.was_downgrade == pre.was_downgrade
    &&& post.final_ttfb_us == pre.final_ttfb_us
}

/// After a resolution: a stage slower than the timeout aborts the run;
/// an empty address list is a DNS failure naming the host; otherwise
/// the first address is chosen, the DNS total grows by the elapsed
/// time, and the driver dials that address on the hop's port.
pub open spec fn resolved_case(pre: Pipeline, ips: Vec<IpAddress>, elapsed_us: u64, post: Pipeline, a: HopAction) -> bool {
    if elapsed_us > pre.config.timeout_us {
        failed_with(post, a, ErrorClass::Timeout, timeout_msg(pre.config.timeout_us))
            && post.was_downgrade == pre.was_downgrade
    } else if ips@.len() == 0 {
        failed_with(post, a, ErrorClass::Dns, "no IP addresses for "@ + pre.current@.host)
            && post.was_downgrade == pre.was_downgrade
    } else {
        &&& post.stage == Stage::Connecting
        &&& post.cur_dns_us == elapsed_us
        &&& post.total_dns_us == pre.total_dns_us + elapsed_us
        &&& post.total_tcp_us == pre.total_tcp_us
        &&& post.total_tls_us == pre.total_tls_us
        &&& (post.resolved matches Some(t)
            && t.ip == ips@[0] && t.port == pre.current@.port
            && t.family == family_of(ips@[0]) && t.all_ips@ == ips@)
        &&& post.pending_tls is None && post.pending_cert is None
        &&& records_unchanged(pre, post)
        &&& (a matches HopAction::Dial { ip, port } && ip == ips@[0] && port == pre.current@.port)
    }
}

/// After a dial: past the timeout the run aborts; otherwise the TCP
/// total grows, and a secure hop goes on to the handshake while a plain
/// hop issues its HTTP/1.1 request at once.
pub open spec fn dialed_case(pre: Pipeline, elapsed_us: u64, post: Pipeline, a: HopAction) -> bool {
    if elapsed_us > pre.config.timeout_us {
        failed_with(post, a, ErrorClass::Timeout, timeout_msg(pre.config.timeout_us))
            && post.was_downgrade == pre.was_downgrade
    } else {
        &&& post.cur_tcp_us == elapsed_us
        &&& post.cur_dns_us == pre.cur_dns_us
        &&& post.total_tcp_us == pre.total_tcp_us + elapsed_us
        &&& post.total_dns_us == pre.total_dns_us
        &&& post.total_tls_us == pre.total_tls_us
        &&& post.resolved == pre.resolved
        &&& post.pending_tls is None && post.pending_cert is None
        &&& records_unchanged(pre, post)
        &&& (if pre.current@.is_https_spec() {
            &&& post.stage == Stage::Handshaking
            &&& (a matches HopAction::Handshake { host } && host@ == pre.current@.host)
        } else {
            &&& post.stage == Stage::Requesting
            &&& post.cur_tls_us is None
            &&& (a matches HopAction::RequestH1 { host, port, path, is_https, body_limit }
                && host@ == pre.current@.host && port == pre.current@.port
                && path@ == pre.current@.path_and_query && is_https == false
                && body_limit == pre.config.body_limit)
        })
    }
}

/// After a handshake: past the timeout the run aborts; a first peer
/// certificate that does not parse aborts with the TLS class; otherwise
/// its summary is staged, the TLS total grows, and the negotiated ALPN
/// decides between the HTTP/2 and HTTP/1.1 request.
pub open spec fn handshaken_case(
    pre: Pipeline,
    elapsed_us: u64,
    summary: TlsSummary,
    first_cert_der: Option<Vec<u8>>,
    now_unix_ts: i64,
    post: Pipeline,
    a: HopAction,
) -> bool {
    if elapsed_us > pre.config.timeout_us {
        failed_with(post, a, ErrorClass::Timeout, timeout_msg(pre.config.timeout_us))
            && post.was_downgrade == pre.was_downgrade
    } else if (match first_cert_der {
        Some(der) => cert_summary_model(der@, now_unix_ts as int) is None,
        None => false,
    }) {
        failed_with(post, a, ErrorClass::Tls, "failed to parse certificate"@)
            && post.was_downgrade == pre.was_downgrade
    } else {
        &&& post.stage == Stage::Requesting
        &&& (match first_cert_der {
            Some(der) => post.pending_cert matches Some(c)
                && cert_summary_model(der@, now_unix_ts as int) == Some(c@),
            None => post.pending_cert is None,
        })
        &&& post.pending_tls == Some(summary)
        &&& post.cur_tls_us == Some(elapsed_us)
        &&& post.cur_dns_us == pre.cur_dns_us
        &&& post.cur_tcp_us == pre.cur_tcp_us
        &&& (post.total_tls_us matches Some(t) && t == (match pre.total_tls_us {
            Some(pt) => pt as int,
            None => 0,
        }) + elapsed_us)
        &&& post.total_dns_us == pre.total_dns_us
        &&& post.total_tcp_us == pre.total_tcp_us
        &&& post.resolved == pre.resolved
        &&& records_unchanged(pre, post)
        &&& (if summary.is_h2_spec() {
            a matches HopAction::RequestH2 { host, port, path, body_limit }
                && host@ == pre.current@.host && port == pre.current@.port
                && path@ == pre.current@.path_and_query
                && body_limit == pre.config.body_limit
        } else {
            a matches HopAction::RequestH1 { host, port, path, is_https, body_limit }
                && host@ == pre.current@.host && port == pre.current@.port
                && path@ == pre.current@.path_and_query && is_https == true
                && body_limit == pre.config.body_limit
        })
    }
}

/// The hop record one response closes.
pub open spec fn closed_hop(pre: Pipeline, ttfb_us: u64) -> HopTiming {
    HopTiming {
        dns_us: pre.cur_dns_us,
        tcp_us: pre.cur_tcp_us,
        tls_us: pre.cur_tls_us,
        ttfb_us: ttfb_us,
    }
}

/// The TLS summary carried forward: the current hop's when it had one,
/// else whatever an earlier hop left.
pub open spec fn merged_tls(pre: Pipeline) -> Option<TlsSummary> {
    match pre.pending_tls {
        Some(t) => Some(t),
        None => pre.final_tls,
    }
}

/// The certificate summary carried forward: the first hop's retrievable
/// certificate wins; later hops never replace it.
pub open spec fn merged_cert(pre: Pipeline) -> Option<CertSummary> {
    match pre.final_cert {
        Some(c) => Some(c),
        None => pre.pending_cert,
    }
}

/// The report a finishing response produces: the final hop's URL, host
/// and endpoint, the recorded redirects, the aggregate timings in
/// agreement with the recorded hops, the final summary, the carried
/// TLS and certificate summaries, and the sticky downgrade flag.
pub open spec fn finish_report(pre: Pipeline, summary: HttpSummary, ttfb_us: u64, now_us: u64, report: Report) -> bool {
    &&& report.input_url == pre.input_url
    &&& report.final_url@ == pre.current@.full
    &&& report.host@ == pre.current@.host
    &&& report.resolved == pre.resolved->Some_0
    &&& report.redirects == pre.redirects
    &&& report.timings.hops@ == pre.hop_timings@.push(closed_hop(pre, ttfb_us))
    &&& report.timings.consistent_with_hops()
    &&& report.timings.ttfb_us == ttfb_us
    &&& report.timings.total_us == (if now_us >= pre.started_us {
        now_us - pre.started_us
    } else {
        0
    })
    &&& report.http == summary
    &&& report.tls == merged_tls(pre)
    &&& report.cert == merged_cert(pre)
    &&& report.was_downgrade == pre.was_downgrade
}

/// After a response: the hop's timing is recorded either way. A
/// non-redirect status finishes the run with the report. One of the
/// five redirect statuses requires a Location header; its target is
/// resolved against the current URL; a secure-to-insecure transition
/// sets the sticky downgrade flag; a hop past the budget fails as too
/// many redirects; a target already visited in this run fails as a
/// redirect loop; otherwise the machine moves to the next hop and asks
/// the driver to resolve its host.
pub open spec fn responded_case(pre: Pipeline, response: HttpResponse, now_us: u64, post: Pipeline, a: HopAction) -> bool {
    let st = response.summary.status;
    if !is_redirect_spec(st) {
        &&& post.stage == Stage::Done
        &&& post.was_downgrade == pre.was_downgrade
        &&& (a matches HopAction::Finish { report }
            && finish_report(pre, response.summary, response.ttfb_us, now_us, report))
    } else {
        match opt_str_view(response.headers.location) {
            None => failed_with(post, a, ErrorClass::Http,
                    "redirect "@ + dec_str(st as int) + " without Location header"@)
                && post.was_downgrade == pre.was_downgrade,
            Some(loc) => match pre.current.resolve_model(loc) {
                Err(m) => failed_with(post, a, ErrorClass::Http, m)
                    && post.was_downgrade == pre.was_downgrade,
                Ok(newm) => {
                    let dg = pre.was_downgrade
                        || (pre.current@.is_https_spec() && !newm.is_https_spec());
                    if pre.hop_idx == pre.config.max_redirects {
                        failed_with(post, a, ErrorClass::Http,
                            "too many redirects (max "@ + dec_str(pre.config.max_redirects as int) + ")"@)
                            && post.was_downgrade == dg
                    } else if in_visited(pre, newm.full) {
                        failed_with(post, a, ErrorClass::Http, "redirect loop detected"@)
                            && post.was_downgrade == dg
                    } else {
                        &&& post.stage == Stage::Resolving
                        &&& post.hop_idx == pre.hop_idx + 1
                        &&& post.current@ == newm
                        &&& visited_views(post) == visited_views(pre).push(newm.full)
                        &&& post.redirects@.len() == pre.redirects@.len() + 1
                        &&& post.redirects@.drop_last() == pre.redirects@
                        &&& post.redirects@.last().status == st
                        &&& post.redirects@.last().from@ == pre.current@.full
                        &&& post.redirects@.last().to@ == loc
                        &&& post.hop_timings@ == pre.hop_timings@.push(closed_hop(pre, response.ttfb_us))
                        &&& post.total_dns_us == pre.total_dns_us
                        &&& post.total_tcp_us == pre.total_tcp_us
                        &&& post.total_tls_us == pre.total_tls_us
                        &&& post.final_ttfb_us == response.ttfb_us
                        &&& post.cur_tls_us is None
                        &&& post.pending_tls is None && post.pending_cert is None
                        &&& post.final_tls == merged_tls(pre)
                        &&& post.final_cert == merged_cert(pre)
                        &&& post.was_downgrade == dg
                        &&& (a matches HopAction::Resolve { host } && host@ == newm.host)
                    }
                },
            },
        }
    }
}

/// The whole transition relation of one step.
pub open spec fn step_case(pre: Pipeline, ev: HopEvent, post: Pipeline, a: HopAction) -> bool {
    match ev {
        HopEvent::StageFailed { error } =>
            failed_with(post, a, error.class, error.message@)
                && post.was_downgrade == pre.was_downgrade,
        HopEvent::Resolved { ips, elapsed_us } => resolved_case(pre, ips, elapsed_us, post, a),
        HopEvent::Dialed { elapsed_us } => dialed_case(pre, elapsed_us, post, a),
        HopEvent::Handshaken { elapsed_us, summary, first_cert_der, now_unix_ts } =>
            handshaken_case(pre, elapsed_us, summary, first_cert_der, now_unix_ts, post, a),
        HopEvent::Responded { response, now_us } => responded_case(pre, response, now_us, post, a),
    }
}

// ---------------------------------------------------------------------------
// Laws of the transition relation
// ---------------------------------------------------------------------------

/// The downgrade flag is sticky: once true, it stays true across every
/// step, whatever the event, for the remainder of the run.
pub proof fn lemma_downgrade_sticky(pre: Pipeline, ev: HopEvent, post: Pipeline, a: HopAction)
    requires
        pre.was_downgrade,
        step_case(pre, ev, post, a),
    ensures
        post.was_downgrade,
{
}

/// The downgrade flag is never set without a secure-to-insecure
/// transition: a step whose event carries no redirect that resolves
/// from a secure URL to an insecure one leaves a clear flag clear. In
/// particular, an all-secure or all-insecure chain never sets it.
pub proof fn lemma_no_downgrade_without_transition(pre: Pipeline, ev: HopEvent, post: Pipeline, a: HopAction)
    requires
        !pre.was_downgrade,
        step_case(pre, ev, post, a),
        (match ev {
            HopEvent::Responded { response, .. } => match opt_str_view(response.headers.location) {
                Some(loc) => match pre.current.resolve_model(loc) {
                    Ok(newm) => pre.current@.is_https_spec() ==> newm.is_https_spec(),
                    Err(_) => true,
                },
                None => true,
            },
            _ => true,
        }),
    ensures
        !post.was_downgrade,
{
}

/// The redirect budget is enforced: a redirect response on the last
/// permitted hop fails the run as too many redirects, whatever the
/// target.
pub proof fn lemma_budget_exhausted(pre: Pipeline, response: HttpResponse, now_us: u64, post: Pipeline, a: HopAction)
    requires
        responded_case(pre, response, now_us, post, a),
        is_redirect_spec(response.summary.status),
        opt_str_view(response.headers.location) matches Some(loc)
            && pre.current.resolve_model(loc) is Ok,
        pre.hop_idx == pre.config.max_redirects,
    ensures
        failed_with(post, a, ErrorClass::Http,
            "too many redirects (max "@ + dec_str(pre.config.max_redirects as int) + ")"@),
{
}

/// Loop detection: within the budget, a redirect whose resolved target
/// was already visited in this run fails as a redirect loop, at any hop
/// position.
pub proof fn lemma_loop_detected(pre: Pipeline, response: HttpResponse, now_us: u64, post: Pipeline, a: HopAction)
    requires
        responded_case(pre, response, now_us, post, a),
        is_redirect_spec(response.summary.status),
        (match opt_str_view(response.headers.location) {
            Some(loc) => match pre.current.resolve_model(loc) {
                Ok(newm) => pre.hop_idx < pre.config.max_redirects && in_visited(pre, newm.full),
                Err(_) => false,
            },
            None => false,
        }),
    ensures
        failed_with(post, a, ErrorClass::Http, "redirect loop detected"@),
{
}

/// Within the budget, a redirect to an unvisited, supported target
/// advances the run by exactly one hop: the transition is recorded, the
/// target becomes the current URL and joins the visited set, and the
/// driver is asked to resolve its host.
pub proof fn lemma_redirect_advances(pre: Pipeline, response: HttpResponse, now_us: u64, post: Pipeline, a: HopAction)
    requires
        responded_case(pre, response, now_us, post, a),
        is_redirect_spec(response.summary.status),
        (match opt_str_view(response.headers.location) {
            Some(loc) => match pre.current.resolve_model(loc) {
                Ok(newm) => pre.hop_idx < pre.config.max_redirects && !in_visited(pre, newm.full),
                Err(_) => false,
            },
            None => false,
        }),
    ensures
        post.stage == Stage::Resolving,
        post.hop_idx == pre.hop_idx + 1,
        post.redirects@.len() == pre.redirects@.len() + 1,
        post.redirects@.drop_last() == pre.redirects@,
        post.redirects@.last().from@ == pre.current@.full,
        visited_views(post) == visited_views(pre).push(post.current@.full),
        a is Resolve,
{
}

/// A run terminates on the first non-redirect status, and its report
/// holds exactly the recorded hops: the redirect chain as recorded, the
/// per-stage sums equal to the arithmetic sums over the per-hop
/// timings, the TLS sum only over hops that performed a handshake, and
/// the final hop's TTFB.
pub proof fn lemma_finish_is_faithful(pre: Pipeline, response: HttpResponse, now_us: u64, post: Pipeline, a: HopAction)
    requires
        responded_case(pre, response, now_us, post, a),
        !is_redirect_spec(response.summary.status),
    ensures
        post.stage == Stage::Done,
        a matches HopAction::Finish { report } && {
            &&& report.redirects == pre.redirects
            &&& report.timings.consistent_with_hops()
            &&& report.timings.ttfb_us == response.ttfb_us
            &&& report.was_downgrade == pre.was_downgrade
        },
{
}

impl Pipeline {
    fn fail_run(&mut self, error: UdocError) -> (r: HopAction)
        ensures
            *final(self) == (Pipeline { stage: Stage::Failed, ..*old(self) }),
            (r matches HopAction::Fail { error: e }
                && e.class == error.class && e.message@ == error.message@),
    {
        self.stage = Stage::Failed;
        HopAction::Fail { error }
    }

    /// Feeds one outside outcome to the machine and returns what the
    /// driver must do next. Once set, the downgrade flag never resets;
    /// the stage order is the protocol's; and the final report's
    /// aggregates agree with the recorded hops.
    pub fn step(&mut self, event: HopEvent) -> (r: HopAction)
        requires
            old(self).inv(),
            old(self).expects(event),
            old(self).event_fits(event),
        ensures
            final(self).inv(),
            frame_fixed(*old(self), *final(self)),
            old(self).was_downgrade ==> final(self).was_downgrade,
            step_case(*old(self), event, *final(self), r),
    {
        match event {
            HopEvent::StageFailed { error } => self.fail_run(error),
            HopEvent::Resolved { ips, elapsed_us } => {
                if elapsed_us > self.config.timeout_us {
                    let m = render_timeout_msg(self.config.timeout_us);
                    return self.fail_run(UdocError::timeout(m));
                }
                if ips.len() == 0 {
                    let mut m = "no IP addresses for ".to_owned();
                    m.append(self.current.host.as_str());
                    return self.fail_run(UdocError::dns(m));
                }
                let ip = ips[0];
                let port = self.current.port;
                self.cur_dns_us = elapsed_us;
                self.total_dns_us = self.total_dns_us + elapsed_us;
                self.resolved = Some(ResolvedTarget::new(ip, port, ips));
                self.stage = Stage::Connecting;
                HopAction::Dial { ip, port }
            },
            HopEvent::Dialed { elapsed_us } => {
                if elapsed_us > self.config.timeout_us {
                    let m = render_timeout_msg(self.config.timeout_us);
                    return self.fail_run(UdocError::timeout(m));
                }
                self.cur_tcp_us = elapsed_us;
                self.total_tcp_us = self.total_tcp_us + elapsed_us;
                if self.current.is_https() {
                    self.stage = Stage::Handshaking;
                    HopAction::Handshake { host: self.current.host.clone() }
                } else {
                    self.cur_tls_us = None;
                    self.stage = Stage::Requesting;
                    HopAction::RequestH1 {
                        host: self.current.host.clone(),
                        port: self.current.port,
                        path: self.current.path_and_query.clone(),
                        is_https: false,
                        body_limit: self.config.body_limit,
                    }
                }
            },
            HopEvent::Handshaken { elapsed_us, summary, first_cert_der, now_unix_ts } => {
                if elapsed_us > self.config.timeout_us {
                    let m = render_timeout_msg(self.config.timeout_us);
                    return self.fail_run(UdocError::timeout(m));
                }
                let cert: Option<CertSummary> = match first_cert_der {
                    Some(der) => match parse_certificate(der.as_slice(), now_unix_ts) {
                        Ok(cs) => Some(cs),
                        Err(e) => {
                            return self.fail_run(e);
                        },
                    },
                    None => None,
                };
                self.pending_cert = cert;
                self.cur_tls_us = Some(elapsed_us);
                proof {
                    if old(self).total_tls_us is None {
                        crate::timing::lemma_sum_tls_none(self.hop_timings@);
                    }
                }
                self.total_tls_us = Some(match self.total_tls_us {
                    Some(t) => t + elapsed_us,
                    None => elapsed_us,
                });
                let go_h2 = summary.is_h2();
                self.pending_tls = Some(summary);
                self.stage = Stage::Requesting;
                if go_h2 {
                    HopAction::RequestH2 {
                        host: self.current.host.clone(),
                        port: self.current.port,
                        path: self.current.path_and_query.clone(),
                        body_limit: self.config.body_limit,
                    }
                } else {
                    HopAction::RequestH1 {
                        host: self.current.host.clone(),
                        port: self.current.port,
                        path: self.current.path_and_query.clone(),
                        is_https: true,
                        body_limit: self.config.body_limit,
                    }
                }
            },
            HopEvent::Responded { response, now_us } => self.respond(response, now_us),
        }
    }

    fn respond(&mut self, response: HttpResponse, now_us: u64) -> (r: HopAction)
        requires
            old(self).inv(),
            old(self).stage == Stage::Requesting,
        ensures
            final(self).inv(),
            frame_fixed(*old(self), *final(self)),
            old(self).was_downgrade ==> final(self).was_downgrade,
            responded_case(*old(self), response, now_us, *final(self), r),
    {
        let ghost pre = *self;
        let hop = HopTiming {
            dns_us: self.cur_dns_us,
            tcp_us: self.cur_tcp_us,
            tls_us: self.cur_tls_us,
            ttfb_us: response.ttfb_us,
        };
        self.hop_timings.push(hop);
        self.final_ttfb_us = response.ttfb_us;
        proof {
            lemma_sum_push(pre.hop_timings@, hop);
        }
        let st = response.summary.status;
        if !is_redirect(st) {
            let tls2 = match self.pending_tls.take() {
                Some(t) => Some(t),
                None => self.final_tls.take(),
            };
            let cert2 = match self.final_cert.take() {
                Some(c) => Some(c),
                None => self.pending_cert.take(),
            };
            let total_us: u64 = if now_us >= self.started_us {
                now_us - self.started_us
            } else {
                0
            };
            let timings = TimingBreakdown {
                dns_us: self.total_dns_us,
                tcp_us: self.total_tcp_us,
                tls_us: self.total_tls_us,
                ttfb_us: response.ttfb_us,
                total_us,
                hops: take_vec(&mut self.hop_timings),
            };
            let resolved = match self.resolved.take() {
                Some(t) => t,
                // The requesting stage always holds a resolved target.
                None => {
                    proof {
                        assert(false);
                    }
                    ResolvedTarget::new(IpAddress::V4(0), 0, Vec::new())
                },
            };
            let report = Report {
                input_url: self.input_url.clone(),
                final_url: self.current.full.clone(),
                host: self.current.host.clone(),
                resolved,
                redirects: take_vec(&mut self.redirects),
                timings,
                http: response.summary,
                tls: tls2,
                cert: cert2,
                was_downgrade: self.was_downgrade,
            };
            self.stage = Stage::Done;
            proof {
                assert(report.timings.hops@ == pre.hop_timings@.push(closed_hop(pre, response.ttfb_us)));
                assert(report.timings.consistent_with_hops());
            }
            return HopAction::Finish { report };
        }
        let loc: String = match self.pending_location(&response) {
            Some(l) => l,
            None => {
                let mut m = "redirect ".to_owned();
                let n = u64_to_dec(st as u64);
                m.append(n.as_str());
                m.append(" without Location header");
                proof {
                    assert(m@ =~= "redirect "@ + dec_str(st as int) + " without Location header"@);
                }
                return self.fail_run(UdocError::http(m));
            },
        };
        let newp = match self.current.resolve_redirect(loc.as_str()) {
            Ok(p) => p,
            Err(e) => {
                return self.fail_run(e);
            },
        };
        proof {
            let s = crate::url_parse::url_join(pre.current@.full, loc@)->Some_0;
            assert(parse_url_model(s) == Ok::<ParsedUrlModel, Seq<char>>(newp@));
            match crate::url_parse::url_parse(s) {
                Some(parts) => {
                    assert(newp@.scheme_supported());
                },
                None => {
                    assert(false);
                },
            }
        }
        let prev_https = self.current.is_https();
        if prev_https && !newp.is_https() {
            self.was_downgrade = true;
        }
        if self.hop_idx == self.config.max_redirects {
            let mut m = "too many redirects (max ".to_owned();
            let n = usize_to_dec(self.config.max_redirects);
            m.append(n.as_str());
            m.append(")");
            proof {
                assert(m@ =~= "too many redirects (max "@
                    + dec_str(pre.config.max_redirects as int) + ")"@);
            }
            return self.fail_run(UdocError::http(m));
        }
        let seen = contains_string(&self.visited, newp.full.as_str());
        proof {
            if seen {
                let i = choose|i: int| 0 <= i < self.visited@.len()
                    && (#[trigger] self.visited@[i])@ == newp@.full;
                assert(visited_views(pre)[i] == newp@.full);
            }
            if in_visited(pre, newp@.full) {
                let i = choose|i: int| 0 <= i < visited_views(pre).len()
                    && (#[trigger] visited_views(pre)[i]) == newp@.full;
                assert(self.visited@[i]@ == newp@.full);
            }
        }
        if seen {
            return self.fail_run(UdocError::http("redirect loop detected".to_owned()));
        }
        let hop_rec = RedirectHop {
            status: st,
            from: self.current.full.clone(),
            to: loc,
        };
        self.redirects.push(hop_rec);
        let pt = self.pending_tls.take();
        let ft = self.final_tls.take();
        let pc = self.pending_cert.take();
        let fc = self.final_cert.take();
        let tls2 = match pt {
            Some(t) => Some(t),
            None => ft,
        };
        let cert2 = match fc {
            Some(c) => Some(c),
            None => pc,
        };
        self.final_tls = tls2;
        self.final_cert = cert2;
        self.cur_dns_us = 0;
        self.cur_tcp_us = 0;
        self.cur_tls_us = None;
        self.hop_idx = self.hop_idx + 1;
        self.visited.push(newp.full.clone());
        let host = newp.host.clone();
        self.current = newp;
        self.stage = Stage::Resolving;
        proof {
            assert(visited_views(*self) =~= visited_views(pre).push(self.current@.full));
            assert(self.redirects@.drop_last() =~= pre.redirects@);
            assert forall|i: int| 0 <= i < self.redirects@.len()
                implies (#[trigger] self.redirects@[i]).from@ == visited_views(*self)[i] by {
                if i < pre.redirects@.len() {
                    assert(self.redirects@[i] == pre.redirects@[i]);
                    assert(visited_views(*self)[i] == visited_views(pre)[i]);
                }
            }
            assert forall|i: int, j: int| 0 <= i < j < visited_views(*self).len()
                implies visited_views(*self)[i] != visited_views(*self)[j] by {
                if j < visited_views(pre).len() {
                    assert(visited_views(pre)[i] != visited_views(pre)[j]);
                } else {
                    assert(visited_views(*self)[j] == self.current@.full);
                    assert(!in_visited(pre, self.current@.full));
                    assert(visited_views(*self)[i] == visited_views(pre)[i]);
                }
            }
        }
        HopAction::Resolve { host }
    }

    /// The Location header of a redirect response, if one was sent.
    fn pending_location(&self, response: &HttpResponse) -> (r: Option<String>)
        ensures
            (match r {
                Some(l) => opt_str_view(response.headers.location) == Some(l@),
                None => response.headers.location is None,
            }),
    {
        match &response.headers.location {
            Some(l) => Some(l.clone()),
            None => None,
        }
    }
}

/// Moves a vector out of a mutable place, leaving it empty.
fn take_vec<T>(v: &mut Vec<T>) -> (r: Vec<T>)
    ensures
        r == *old(v),
        final(v)@ =~= Seq::<T>::empty(),
{
    let mut out: Vec<T> = Vec::new();
    core::mem::swap(&mut out, v);
    out
}

} // verus!

