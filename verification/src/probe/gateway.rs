//! L3 gateway probe: can we reach the default router, and cleanly?
//!
//! ICMP is the first choice — it needs no open port and measures the router
//! itself rather than a service on it. But plenty of routers (hotel, campus,
//! enterprise, some ISP-supplied gear) are configured to drop echo requests,
//! and grading those as dead is a serious false positive: the gateway is the
//! first hop in the chain, so a wrong verdict here owns the whole report and
//! sends you to reboot a router that was working the entire time. So silence
//! on ICMP is not a conclusion, it is a reason to ask again over TCP.

use crate::addr;
use crate::addr::IpAddr;
use crate::model::path;
use crate::model::{Fault, Hop, HopId, Layer, Metric, Status};
use crate::number;
use crate::platform;
use crate::platform::RouteInfo;
use crate::probe::net;
use crate::probe::net::{apply_quality, warned, Probe, Quality};
use crate::text;
use vstd::prelude::*;

verus! {

broadcast use vstd::string::group_string_axioms;

/// Echoes per sweep. Enough that two drops (the degradation threshold) means
/// something, few enough to finish well inside the dashboard's re-probe tick.
pub const SAMPLES: u32 = 5;

/// Spacing between echoes, in milliseconds: wide enough that the burst samples
/// a slice of time rather than one instant, short enough to finish in under a
/// second.
pub const INTERVAL_MS: u32 = 200;

/// Hard ceiling on the whole burst, in seconds, so a silent router costs a
/// bounded wait.
pub const BUDGET_SECS: u32 = 3;

/// A round trip inside your own house should be steady, but Wi-Fi power save
/// routinely parks one packet. Mean IPDV over `n` samples turns a single spike
/// of `S` into roughly `2S/(n-1)` — `S/2` at five samples — so this sits above
/// what one 100 ms stall can produce and only trips on sustained wobble.
pub const JITTER_WARN_MS: u32 = 60;

/// Above this the router itself is the bottleneck, loss or no loss.
pub const SLOW_MS: u32 = 50;

/// Ports to try when ICMP draws a blank, in the order a home gateway is most
/// likely to have them open: its admin UI, then its DNS forwarder.
pub const TCP_PORTS: [u16; 3] = [443, 80, 53];

/// Per-handshake ceiling for the TCP fallback, in milliseconds. Short, because
/// a router on your own LAN answers in single-digit milliseconds or not at all,
/// and the whole fallback has to fit in what is left of the probe deadline
/// after ICMP has already spent its budget.
pub const TCP_WAIT_MS: u64 = 800;

/// Handshakes in the TCP fallback burst, counting the one that found the port.
pub const TCP_SAMPLES: usize = 3;

/// Spacing for the fallback burst, in milliseconds.
pub const TCP_INTERVAL_MS: u64 = 150;

/// What the TCP fallback did.
#[derive(Debug, Clone)]
pub enum TcpFallback {
    /// A port answered, and here is a burst measured against it.
    Answered(u16, Quality),
    /// Every port was tried and none answered.
    Silent,
    /// Nothing was sent: a link-local IPv6 gateway can't be reached without
    /// the scope id that a socket address cannot carry.
    Declined,
}

/// What the probe does next.
#[derive(Debug)]
pub enum Action {
    /// Nothing is left to ask.
    Report(Hop),
    /// Send an ICMP burst.
    Ping(IpAddr),
    /// Ask over TCP.
    Connect(IpAddr),
}

/// What an action comes to.
pub enum ActionView {
    Report(path::HopView),
    Ping(IpAddr),
    Connect(IpAddr),
}

impl View for Action {
    type V = ActionView;

    open spec fn view(&self) -> ActionView {
        match self {
            Action::Report(h) => ActionView::Report(h@),
            Action::Ping(ip) => ActionView::Ping(*ip),
            Action::Connect(ip) => ActionView::Connect(*ip),
        }
    }
}

/// The hop before anything was asked.
pub open spec fn opening(route: platform::RouteView) -> path::HopView {
    let hop = path::HopView {
        subtitle: match route.gateway {
            Some(gw) => Some(addr::ip_text(gw)),
            None => None,
        },
        ..path::blank(HopId::Gateway, Layer::Network, "Gateway"@)
    };
    match route.mtu {
        Some(mtu) => {
            let value = number::decimal(mtu as nat);
            hop.with_metric(
                if mtu < 1500 {
                    path::graded("MTU"@, value, Status::Warn)
                } else {
                    path::plain("MTU"@, value)
                },
            )
        },
        None => hop,
    }
}

/// The ports of the fallback, `443/:80/:53`.
pub open spec fn ports_text() -> Seq<char> {
    number::decimal(443) + "/:"@ + number::decimal(80) + "/:"@ + number::decimal(53)
}

/// What a silent router's summary says.
pub open spec fn silence(pings: nat, tcp_attempted: bool) -> Seq<char> {
    if tcp_attempted {
        "Router isn't answering — "@ + number::decimal(pings) + " pings and TCP :"@ + ports_text()
            + " all went unanswered"@
    } else {
        "Router isn't answering — "@ + number::decimal(pings)
            + " pings went unanswered, and a link-local gateway can't be reached over TCP to cross-check"@
    }
}

/// `5 ICMP echoes to 192.168.0.1`.
pub open spec fn echoes(burst: Quality, gw: IpAddr) -> Seq<char> {
    number::decimal(burst.sent as nat) + " ICMP echoes to "@ + addr::ip_text(gw)
}

/// What a router that answers is summed up as.
pub open spec fn answer_summary(q: Quality) -> Seq<char> {
    let avg = q.mean_or_zero();
    match q.grievance(JITTER_WARN_MS) {
        Some(c) => "Router answers ("@ + avg.whole() + " ms) but the local path is unhealthy — "@
            + c + " over "@ + number::decimal(q.sent as nat) + " probes"@,
        None => if avg.exceeds(SLOW_MS as nat) {
            "Router is sluggish — "@ + avg.whole() + " ms round trip"@
        } else {
            "Router reachable in "@ + avg.whole() + " ms"@
        },
    }
}

/// The hop of a router that answered a burst.
pub open spec fn measured(hop: path::HopView, q: Quality) -> path::HopView {
    let avg = q.mean_or_zero();
    let latency = net::warn_if(avg.exceeds(SLOW_MS as nat));
    let timed = (path::HopView { latency_ms: Some(avg), ..hop }).with_metric(
        path::graded("RTT"@, avg.tenths() + " ms avg"@, latency),
    );
    path::HopView {
        status: q.standing(JITTER_WARN_MS).worse(latency),
        summary: Some(answer_summary(q)),
        ..net::with_quality(timed, q, JITTER_WARN_MS)
    }
}

/// The hop of a router that answered over TCP alone. *Why* ICMP said nothing
/// depends on whether any echo left the machine: "filtered" asserts the router
/// saw one and dropped it, which a `ping` that never ran tells us nothing
/// about.
pub open spec fn answered_over_tcp(
    hop: path::HopView,
    gw: IpAddr,
    burst: Quality,
    port: u16,
    tcp: Quality,
) -> path::HopView {
    let note = if burst.sent == 0 {
        "no reply (the ping tool didn't run)"@
    } else {
        "filtered (echoes sent, none answered)"@
    };
    let noted = hop.with_metric(path::graded("ICMP"@, note, Status::Warn)).with_metric(
        path::plain("Probed"@, "TCP :"@ + number::decimal(port as nat)),
    );
    measured(
        path::HopView {
            evidence: Some(
                echoes(burst, gw) + " (all unanswered), then "@ + number::decimal(tcp.sent as nat)
                    + " TCP handshakes to :"@ + number::decimal(port as nat),
            ),
            ..noted
        },
        tcp,
    )
}

/// The hop of a router that nothing was measured of.
pub open spec fn unobserved(hop: path::HopView, gw: IpAddr, tcp_attempted: bool) -> path::HopView {
    path::HopView {
        evidence: Some(
            "ICMP to "@ + addr::ip_text(gw) + (if tcp_attempted {
                " never ran, and no TCP handshake completed either"@
            } else {
                " never ran; a link-local gateway can't be tried over TCP"@
            }),
        ),
        ..hop.reporting(
            Status::Warn,
            Some(Fault::Unobserved),
            if tcp_attempted {
                "Couldn't probe the gateway over ICMP or TCP — its state is unknown"@
            } else {
                "Couldn't probe the gateway over ICMP, and a link-local gateway can't be cross-checked over TCP — its state is unknown"@
            },
        )
    }
}

/// The hop of a router that was asked and stayed silent.
pub open spec fn silent(
    hop: path::HopView,
    gw: IpAddr,
    burst: Quality,
    tcp_attempted: bool,
) -> path::HopView {
    let tried = path::HopView {
        evidence: Some(
            echoes(burst, gw) + (if tcp_attempted {
                ", then TCP :"@ + ports_text()
            } else {
                "; no TCP cross-check is possible on a link-local gateway"@
            }),
        ),
        ..hop
    };
    net::with_quality(
        tried.failed(Fault::GatewaySilent, silence(burst.sent as nat, tcp_attempted)),
        burst,
        JITTER_WARN_MS,
    )
}

/// The hop after ICMP drew a blank and the fallback was tried.
pub open spec fn after_fallback(
    hop: path::HopView,
    gw: IpAddr,
    burst: Quality,
    fallback: TcpFallback,
) -> path::HopView {
    match fallback {
        TcpFallback::Answered(port, tcp) => answered_over_tcp(hop, gw, burst, port, tcp),
        _ => if burst.sent == 0 {
            unobserved(hop, gw, !(fallback is Declined))
        } else {
            silent(hop, gw, burst, !(fallback is Declined))
        },
    }
}

/// What follows from what has been asked so far.
pub open spec fn next_action(
    route: platform::RouteView,
    burst: Option<Quality>,
    tcp: Option<TcpFallback>,
) -> ActionView {
    let hop = opening(route);
    match (route.gateway, burst) {
        (None, _) => ActionView::Report(
            hop.failed(
                Fault::NoGateway,
                "No default gateway — you have no route off this machine"@,
            ),
        ),
        (Some(gw), None) => ActionView::Ping(gw),
        (Some(gw), Some(q)) => if q.mean() is Some {
            ActionView::Report(
                measured(
                    path::HopView {
                        evidence: Some(
                            echoes(q, gw) + ", "@ + number::decimal(INTERVAL_MS as nat)
                                + "ms apart"@,
                        ),
                        ..hop
                    },
                    q,
                ),
            )
        } else if route.gateway_zone is Some {
            ActionView::Report(after_fallback(hop, gw, q, TcpFallback::Declined))
        } else {
            match tcp {
                Some(f) => ActionView::Report(after_fallback(hop, gw, q, f)),
                None => ActionView::Connect(gw),
            }
        },
    }
}

fn begin(route: &RouteInfo) -> (r: Hop)
    ensures
        r@ == opening(route@),
{
    let mut hop = Hop::new(HopId::Gateway, Layer::Network, "Gateway");
    hop.subtitle = match route.gateway {
        Some(gw) => Some(addr::ip_to_string(gw)),
        None => None,
    };
    if let Some(mtu) = route.mtu {
        let m = Metric::new("MTU", number::decimal_of(mtu as u128).as_str());
        hop.push_metric(
            if mtu < 1500 {
                m.with_status(Status::Warn)
            } else {
                m
            },
        );
    }
    hop
}

fn ports_of() -> (r: String)
    ensures
        r@ == ports_text(),
{
    text::cat5(
        number::decimal_of(TCP_PORTS[0] as u128).as_str(),
        "/:",
        number::decimal_of(TCP_PORTS[1] as u128).as_str(),
        "/:",
        number::decimal_of(TCP_PORTS[2] as u128).as_str(),
    )
}

/// What a silent router's summary may claim, given what was actually tried.
///
/// The bug this guards is a summary asserting three TCP handshakes on a
/// link-local gateway where the fallback declined to send any.
pub fn silent_summary(pings: u32, tcp_attempted: bool) -> (r: String)
    ensures
        r@ == silence(pings as nat, tcp_attempted),
{
    let n = number::decimal_of(pings as u128);
    if tcp_attempted {
        text::cat5(
            "Router isn't answering — ",
            n.as_str(),
            " pings and TCP :",
            ports_of().as_str(),
            " all went unanswered",
        )
    } else {
        text::cat3(
            "Router isn't answering — ",
            n.as_str(),
            " pings went unanswered, and a link-local gateway can't be reached over TCP to cross-check",
        )
    }
}

fn echoes_of(burst: &Quality, gw: IpAddr) -> (r: String)
    ensures
        r@ == echoes(*burst, gw),
{
    text::cat3(
        number::decimal_of(burst.sent as u128).as_str(),
        " ICMP echoes to ",
        addr::ip_to_string(gw).as_str(),
    )
}

fn conclude(hop: Hop, q: &Quality) -> (r: Hop)
    ensures
        r@ == measured(hop@, *q),
{
    let mut hop = hop;
    let avg = q.avg_or_zero();
    let latency = warned(avg.more_than(SLOW_MS));
    hop.latency_ms = Some(avg);
    hop.push_metric(
        Metric::new("RTT", text::cat2(avg.tenths_text().as_str(), " ms avg").as_str()).with_status(
            latency,
        ),
    );
    // A hop can be slow, lossy, or both; take whichever reads worse.
    let quality = apply_quality(&mut hop, q, JITTER_WARN_MS);
    hop.status = quality.max(latency);
    let whole = avg.whole_text();
    let summary = match q.complaint(JITTER_WARN_MS) {
        Some(c) => text::cat5(
            "Router answers (",
            whole.as_str(),
            " ms) but the local path is unhealthy — ",
            c.as_str(),
            text::cat3(" over ", number::decimal_of(q.sent as u128).as_str(), " probes").as_str(),
        ),
        None => if avg.more_than(SLOW_MS) {
            text::cat3("Router is sluggish — ", whole.as_str(), " ms round trip")
        } else {
            text::cat3("Router reachable in ", whole.as_str(), " ms")
        },
    };
    assert(summary@ =~= answer_summary(*q));
    hop.summary = Some(summary);
    hop
}

fn conclude_over_tcp(hop: Hop, gw: IpAddr, burst: &Quality, port: u16, tcp: &Quality) -> (r: Hop)
    ensures
        r@ == answered_over_tcp(hop@, gw, *burst, port, *tcp),
{
    let mut hop = hop;
    let note = if burst.is_empty() {
        "no reply (the ping tool didn't run)"
    } else {
        "filtered (echoes sent, none answered)"
    };
    let number = number::decimal_of(port as u128);
    hop.push_metric(Metric::new("ICMP", note).with_status(Status::Warn));
    hop.push_metric(Metric::new("Probed", text::cat2("TCP :", number.as_str()).as_str()));
    hop.evidence = Some(
        text::cat5(
            echoes_of(burst, gw).as_str(),
            " (all unanswered), then ",
            number::decimal_of(tcp.sent as u128).as_str(),
            " TCP handshakes to :",
            number.as_str(),
        ),
    );
    conclude(hop, tcp)
}

fn conclude_unobserved(hop: Hop, gw: IpAddr, tcp_attempted: bool) -> (r: Hop)
    ensures
        r@ == unobserved(hop@, gw, tcp_attempted),
{
    let mut hop = hop;
    let name = addr::ip_to_string(gw);
    hop.evidence = Some(
        text::cat3(
            "ICMP to ",
            name.as_str(),
            if tcp_attempted {
                " never ran, and no TCP handshake completed either"
            } else {
                " never ran; a link-local gateway can't be tried over TCP"
            },
        ),
    );
    hop.set_report(
        Status::Warn,
        Some(Fault::Unobserved),
        if tcp_attempted {
            "Couldn't probe the gateway over ICMP or TCP — its state is unknown"
        } else {
            "Couldn't probe the gateway over ICMP, and a link-local gateway can't be cross-checked over TCP — its state is unknown"
        },
    );
    hop
}

fn conclude_silent(hop: Hop, gw: IpAddr, burst: &Quality, tcp_attempted: bool) -> (r: Hop)
    ensures
        r@ == silent(hop@, gw, *burst, tcp_attempted),
{
    let mut hop = hop;
    let sent = echoes_of(burst, gw);
    let tried = if tcp_attempted {
        text::cat2(", then TCP :", ports_of().as_str())
    } else {
        "; no TCP cross-check is possible on a link-local gateway".to_string()
    };
    hop.evidence = Some(text::cat2(sent.as_str(), tried.as_str()));
    hop.fail(Fault::GatewaySilent, silent_summary(burst.sent, tcp_attempted).as_str());
    apply_quality(&mut hop, burst, JITTER_WARN_MS);
    hop
}

fn conclude_fallback(hop: Hop, gw: IpAddr, burst: &Quality, fallback: &TcpFallback) -> (r: Hop)
    ensures
        r@ == after_fallback(hop@, gw, *burst, *fallback),
{
    // Asked of the fallback rather than recomputed, so the summary can't drift
    // from what was actually attempted.
    let attempted = !matches!(fallback, TcpFallback::Declined);
    match fallback {
        TcpFallback::Answered(port, tcp) => conclude_over_tcp(hop, gw, burst, *port, tcp),
        _ => if burst.is_empty() {
            // No echoes went out *and* no handshake completed. We never
            // measured anything, so we cannot claim the router is down.
            conclude_unobserved(hop, gw, attempted)
        } else {
            conclude_silent(hop, gw, burst, attempted)
        },
    }
}

/// What the probe does next, given what it has asked so far.
///
/// ICMP comes first. When it says nothing — either every echo was dropped, or
/// `ping` never ran — the router is asked again over TCP before anything is
/// concluded from the silence. A link-local IPv6 gateway is not: reaching
/// `fe80::1` over TCP needs the scope id that a socket address cannot carry,
/// and a handshake sent without it fails for a reason that has nothing to do
/// with the router.
pub fn probe(route: &RouteInfo, burst: Option<&Quality>, tcp: Option<&TcpFallback>) -> (r: Action)
    ensures
        r@ == next_action(
            route@,
            match burst {
                Some(q) => Some(*q),
                None => None,
            },
            match tcp {
                Some(f) => Some(*f),
                None => None,
            },
        ),
{
    let mut hop = begin(route);
    let gw = match route.gateway {
        Some(gw) => gw,
        None => {
            hop.fail(
                Fault::NoGateway,
                "No default gateway — you have no route off this machine",
            );
            return Action::Report(hop);
        },
    };
    let q = match burst {
        Some(q) => q,
        None => return Action::Ping(gw),
    };
    if q.avg_ms().is_some() {
        hop.evidence = Some(
            text::cat4(
                echoes_of(q, gw).as_str(),
                ", ",
                number::decimal_of(INTERVAL_MS as u128).as_str(),
                "ms apart",
            ),
        );
        return Action::Report(conclude(hop, q));
    }
    if route.gateway_zone.is_some() {
        return Action::Report(conclude_fallback(hop, gw, q, &TcpFallback::Declined));
    }
    match tcp {
        Some(f) => Action::Report(conclude_fallback(hop, gw, q, f)),
        None => Action::Connect(gw),
    }
}

/// The first target among the results that answered.
pub open spec fn first_up(results: Seq<(u16, Probe)>) -> Option<(u16, Probe)>
    decreases results.len(),
{
    if results.len() == 0 {
        None
    } else if results[0].1 is Up {
        Some(results[0])
    } else {
        first_up(results.skip(1))
    }
}

/// The port to measure: the first in order that answered.
pub fn first_answer(results: &Vec<(u16, Probe)>) -> (r: Option<(u16, Probe)>)
    ensures
        r == first_up(results@),
{
    let mut i: usize = 0;
    assert(results@.skip(0) == results@);
    while i < results.len()
        invariant
            i <= results@.len(),
            first_up(results@) == first_up(results@.skip(i as int)),
        decreases results@.len() - i,
    {
        assert(results@.skip(i as int).skip(1) == results@.skip(i + 1));
        if results[i].1.is_up() {
            return Some(results[i]);
        }
        i += 1;
    }
    None
}

/// The port to sample once more, if any: the one that answered, until it has
/// been sampled [`TCP_SAMPLES`] times. The handshake that found it counts as
/// the first — it already happened, under the same deadline as the rest.
pub fn next_sample(found: Option<(u16, Probe)>, more: &Vec<Probe>) -> (r: Option<u16>)
    ensures
        r == (match found {
            Some((port, _)) if more@.len() + 1 < TCP_SAMPLES => Some(port),
            _ => None,
        }),
{
    match found {
        Some((port, _)) => if more.len() < TCP_SAMPLES - 1 {
            Some(port)
        } else {
            None
        },
        None => None,
    }
}

/// What the fallback comes to: a burst on the port that answered, led by the
/// handshake that found it, or silence.
pub fn fallback_result(found: Option<(u16, Probe)>, more: &Vec<Probe>) -> (r: TcpFallback)
    ensures
        match found {
            Some((port, first)) => r matches TcpFallback::Answered(p, q) && p == port && q.sent == (
            more@.len() + 1) as u32 && q.rtts_ns@ == net::replies(seq![first] + more@),
            None => r is Silent,
        },
{
    match found {
        Some((port, first)) => {
            let mut samples: Vec<Probe> = Vec::new();
            samples.push(first);
            let mut i: usize = 0;
            while i < more.len()
                invariant
                    i <= more@.len(),
                    samples@ == seq![first] + more@.take(i as int),
                decreases more@.len() - i,
            {
                samples.push(more[i]);
                i += 1;
            }
            assert(more@.take(i as int) == more@);
            TcpFallback::Answered(port, Quality::from_samples(samples.as_slice()))
        },
        None => TcpFallback::Silent,
    }
}

// ---- laws ----

/// A gateway is called broken only when there is none, or when echoes went out
/// and neither they nor a handshake were answered. One that nothing was
/// measured of never is.
pub proof fn a_gateway_breaks_only_on_silence(
    route: platform::RouteView,
    burst: Option<Quality>,
    tcp: Option<TcpFallback>,
)
    ensures
        next_action(route, burst, tcp) matches ActionView::Report(h) ==> h.status == Status::Fail
            ==> route.gateway is None || (burst matches Some(q) && q.sent > 0 && q.mean() is None
            && (route.gateway_zone is Some || !(tcp matches Some(TcpFallback::Answered(_, _))))),
{
}

/// A link-local gateway is never asked over TCP.
pub proof fn a_link_local_gateway_is_not_asked_over_tcp(
    route: platform::RouteView,
    burst: Option<Quality>,
    tcp: Option<TcpFallback>,
)
    requires
        route.gateway_zone is Some,
    ensures
        !(next_action(route, burst, tcp) is Connect),
{
}

/// A burst says the local path is bad: a quarter of it was lost, or its round
/// trips vary by sixty milliseconds or take more than fifty.
pub open spec fn bad_burst(q: Quality) -> bool {
    net::loses_a_quarter(q) || net::varies_by(q, 60) || net::takes_more_than(q, 50)
}

/// The lines of this label on a hop are worth a warning exactly when `bad`.
pub open spec fn lines_read(hop: path::HopView, label: Seq<char>, bad: bool) -> bool {
    forall|i: int|
        0 <= i < hop.metrics.len() && (#[trigger] hop.metrics[i]).label == label
            ==> hop.metrics[i].status == Some(
            if bad {
                Status::Warn
            } else {
                Status::Healthy
            },
        )
}

/// Some line of a hop has this label.
pub open spec fn has_line(hop: path::HopView, label: Seq<char>) -> bool {
    exists|i: int| 0 <= i < hop.metrics.len() && (#[trigger] hop.metrics[i]).label == label
}

/// The hop of a router that answered is as bad as what was measured of it.
pub open spec fn graded_by(hop: path::HopView, q: Quality) -> bool {
    &&& hop.id == HopId::Gateway
    &&& hop.fault is None
    &&& hop.status == (if bad_burst(q) {
        Status::Warn
    } else {
        Status::Healthy
    })
    &&& lines_read(hop, "Loss"@, net::loses_a_quarter(q))
    &&& lines_read(hop, "Jitter"@, net::varies_by(q, 60))
    &&& lines_read(hop, "RTT"@, net::takes_more_than(q, 50))
    &&& has_line(hop, "Loss"@) && has_line(hop, "RTT"@)
    &&& has_line(hop, "Jitter"@) <==> q.rtts_ns@.len() >= 2
    &&& hop.latency_ms == Some(q.mean_or_zero())
    &&& hop.summary is Some
    &&& text::starts_with(hop.summary->0, "Router reachable in "@) <==> !bad_burst(q)
    &&& text::contains(hop.summary->0, q.mean_or_zero().whole())
}

proof fn lemma_summary_follows(q: Quality)
    requires
        0 < q.sent,
        q.rtts_ns@.len() <= q.sent,
    ensures
        text::starts_with(answer_summary(q), "Router reachable in "@) <==> !bad_burst(q),
        text::contains(answer_summary(q), q.mean_or_zero().whole()),
{
    reveal_strlit("Router reachable in ");
    reveal_strlit("Router is sluggish — ");
    reveal_strlit("Router answers (");
    net::a_mean_is_slow_when_its_sum_is(q, SLOW_MS);
    net::a_burst_is_degraded_by_loss_or_jitter(q, JITTER_WARN_MS);
    let s = answer_summary(q);
    let avg = q.mean_or_zero();
    let good = "Router reachable in "@;
    match q.grievance(JITTER_WARN_MS) {
        Some(c) => {
            let tail = " ms) but the local path is unhealthy — "@ + c + " over "@ + number::decimal(
                q.sent as nat,
            ) + " probes"@;
            assert(s =~= "Router answers ("@ + avg.whole() + tail);
            text::lemma_contains_middle("Router answers ("@, avg.whole(), tail);
            assert(s[7] == 'a');
            assert(text::starts_with(s, good) ==> s.take(20)[7] == 'r');
        },
        None => if avg.exceeds(SLOW_MS as nat) {
            let head = "Router is sluggish — "@;
            assert(s =~= head + avg.whole() + " ms round trip"@);
            text::lemma_contains_middle(head, avg.whole(), " ms round trip"@);
            assert(s[7] == 'i');
            assert(text::starts_with(s, good) ==> s.take(20)[7] == 'r');
        } else {
            assert(s =~= good + avg.whole() + " ms"@);
            text::lemma_contains_middle(good, avg.whole(), " ms"@);
            assert(s.take(20) =~= good);
        },
    }
}

proof fn lemma_measured(hop: path::HopView, q: Quality)
    requires
        hop.id == HopId::Gateway,
        hop.fault is None,
        forall|i: int|
            0 <= i < hop.metrics.len() ==> (#[trigger] hop.metrics[i]).label == "MTU"@
                || hop.metrics[i].label == "ICMP"@ || hop.metrics[i].label == "Probed"@,
        0 < q.sent,
        q.rtts_ns@.len() <= q.sent,
    ensures
        graded_by(measured(hop, q), q),
{
    reveal_strlit("MTU");
    reveal_strlit("ICMP");
    reveal_strlit("Probed");
    reveal_strlit("Loss");
    reveal_strlit("Jitter");
    reveal_strlit("RTT");
    net::a_mean_is_slow_when_its_sum_is(q, SLOW_MS);
    net::a_burst_is_degraded_by_loss_or_jitter(q, JITTER_WARN_MS);
    let avg = q.mean_or_zero();
    let latency = net::warn_if(avg.exceeds(SLOW_MS as nat));
    let timed = (path::HopView { latency_ms: Some(avg), ..hop }).with_metric(
        path::graded("RTT"@, avg.tenths() + " ms avg"@, latency),
    );
    net::a_burst_is_shown_as_it_is_graded(timed, q, JITTER_WARN_MS);
    let shown = measured(hop, q);
    let had = hop.metrics.len() as int;
    assert forall|i: int| 0 <= i < shown.metrics.len() implies {
        let m = #[trigger] shown.metrics[i];
        &&& i < had ==> m == hop.metrics[i]
        &&& i == had ==> m == timed.metrics[had]
    } by {
        if i <= had {
            assert(shown.metrics.take(had + 1)[i] == timed.metrics[i]);
        }
    }
    assert(shown.metrics[had].label == "RTT"@);
    assert(shown.metrics[had + 1].label == "Loss"@);
    if q.rtts_ns@.len() >= 2 {
        assert(shown.metrics[had + 2].label == "Jitter"@);
    }
    lemma_summary_follows(q);
    assert("MTU"@[0] == 'M' && "ICMP"@[0] == 'I' && "Probed"@[0] == 'P');
    assert("Loss"@[0] == 'L' && "Jitter"@[0] == 'J' && "RTT"@[0] == 'R');
}

/// A router that answered its pings is healthy exactly when a quarter of them
/// was not lost, their round trips vary by less than sixty milliseconds and
/// take no more than fifty; otherwise it is degraded, and it is never better
/// than its own lines on loss, jitter and time.
pub proof fn a_router_that_answers_is_as_bad_as_its_burst(
    route: platform::RouteView,
    q: Quality,
    tcp: Option<TcpFallback>,
)
    requires
        route.gateway is Some,
        0 < q.rtts_ns@.len() <= q.sent,
    ensures
        next_action(route, Some(q), tcp) matches ActionView::Report(hop) && graded_by(hop, q),
{
    let hop = opening(route);
    let told = path::HopView {
        evidence: Some(
            echoes(q, route.gateway->0) + ", "@ + number::decimal(INTERVAL_MS as nat) + "ms apart"@,
        ),
        ..hop
    };
    lemma_measured(told, q);
}

/// A router that left its pings unanswered and completed handshakes is graded
/// on those, as one that answers is, and is never broken. It says that it was
/// asked over TCP, and that echoes were dropped only where some were sent.
pub proof fn a_router_that_answers_over_tcp_is_graded_on_that(
    route: platform::RouteView,
    burst: Quality,
    port: u16,
    tcp: Quality,
)
    requires
        route.gateway is Some,
        route.gateway_zone is None,
        burst.rtts_ns@.len() == 0,
        0 < tcp.sent,
        tcp.rtts_ns@.len() <= tcp.sent,
    ensures
        next_action(
            route,
            Some(burst),
            Some(TcpFallback::Answered(port, tcp)),
        ) matches ActionView::Report(hop) && graded_by(hop, tcp) && exists|i: int|
            0 <= i < hop.metrics.len() && (#[trigger] hop.metrics[i]).label == "ICMP"@
                && hop.metrics[i].status == Some(Status::Warn) && hop.metrics[i].value == (
            if burst.sent == 0 {
                "no reply (the ping tool didn't run)"@
            } else {
                "filtered (echoes sent, none answered)"@
            }),
{
    let gw = route.gateway->0;
    let hop = opening(route);
    let note = if burst.sent == 0 {
        "no reply (the ping tool didn't run)"@
    } else {
        "filtered (echoes sent, none answered)"@
    };
    let noted = hop.with_metric(path::graded("ICMP"@, note, Status::Warn)).with_metric(
        path::plain("Probed"@, "TCP :"@ + number::decimal(port as nat)),
    );
    let told = path::HopView {
        evidence: Some(
            echoes(burst, gw) + " (all unanswered), then "@ + number::decimal(tcp.sent as nat)
                + " TCP handshakes to :"@ + number::decimal(port as nat),
        ),
        ..noted
    };
    lemma_measured(told, tcp);
    let shown = measured(told, tcp);
    let at = hop.metrics.len() as int;
    assert(shown.metrics[at] == told.metrics[at]);
}

/// A gateway is called missing exactly when the route has none, silent exactly
/// when pings went out and nothing came back from it, and unobserved exactly
/// when nothing went out that could have: each as broken or unknown as that is.
pub proof fn a_gateway_that_never_answers_is_told_apart(
    route: platform::RouteView,
    burst: Quality,
    tcp: Option<TcpFallback>,
)
    requires
        burst.rtts_ns@.len() <= burst.sent,
        tcp matches Some(TcpFallback::Answered(_, t)) ==> 0 < t.sent && t.rtts_ns@.len() <= t.sent,
    ensures
        next_action(route, Some(burst), tcp) matches ActionView::Report(hop) ==> {
            &&& hop.fault == Some(Fault::NoGateway) <==> route.gateway is None
            &&& hop.fault == Some(Fault::GatewaySilent) <==> route.gateway is Some
                && burst.rtts_ns@.len() == 0 && burst.sent > 0 && (route.gateway_zone is Some || !(
            tcp matches Some(TcpFallback::Answered(_, _))))
            &&& hop.fault == Some(Fault::Unobserved) <==> route.gateway is Some && burst.sent == 0
                && (route.gateway_zone is Some || !(tcp matches Some(TcpFallback::Answered(_, _))))
            &&& hop.status == Status::Fail <==> hop.fault == Some(Fault::NoGateway) || hop.fault
                == Some(Fault::GatewaySilent)
            &&& hop.fault == Some(Fault::Unobserved) ==> hop.status == Status::Warn
            &&& hop.id == HopId::Gateway
        },
        next_action(route, Some(burst), tcp) is Connect <==> route.gateway is Some
            && burst.rtts_ns@.len() == 0 && route.gateway_zone is None && tcp is None,
        next_action(route, None, tcp) is Ping <==> route.gateway is Some,
{
    if let Some(gw) = route.gateway {
        if burst.rtts_ns@.len() > 0 {
            a_router_that_answers_is_as_bad_as_its_burst(route, burst, tcp);
        } else if let Some(TcpFallback::Answered(port, t)) = tcp {
            if route.gateway_zone is None {
                a_router_that_answers_over_tcp_is_graded_on_that(route, burst, port, t);
            }
        }
    }
}

/// The router that is asked is the one of the route.
pub proof fn the_gateway_of_the_route_is_asked(
    route: platform::RouteView,
    burst: Option<Quality>,
    tcp: Option<TcpFallback>,
)
    ensures
        next_action(route, burst, tcp) matches ActionView::Ping(gw) ==> route.gateway == Some(gw),
        next_action(route, burst, tcp) matches ActionView::Connect(gw) ==> route.gateway == Some(
            gw,
        ),
        next_action(route, burst, tcp) matches ActionView::Report(hop) ==> (match route.gateway {
            Some(gw) => hop.subtitle == Some(addr::ip_text(gw)),
            None => hop.subtitle is None,
        }),
{
}

/// The port that is measured is one that answered, and none before it did.
pub proof fn the_first_open_port_is_measured(results: Seq<(u16, Probe)>)
    ensures
        match first_up(results) {
            Some(found) => exists|i: int|
                0 <= i < results.len() && #[trigger] results[i] == found && found.1 is Up && (
                forall|j: int| 0 <= j < i ==> (#[trigger] results[j]).1 == Probe::Timeout),
            None => forall|j: int|
                0 <= j < results.len() ==> (#[trigger] results[j]).1 == Probe::Timeout,
        },
    decreases results.len(),
{
    if results.len() > 0 && !(results[0].1 is Up) {
        let rest = results.skip(1);
        the_first_open_port_is_measured(rest);
        match first_up(rest) {
            Some(found) => {
                let k = choose|i: int|
                    0 <= i < rest.len() && #[trigger] rest[i] == found && found.1 is Up && (
                    forall|j: int| 0 <= j < i ==> (#[trigger] rest[j]).1 == Probe::Timeout);
                assert(results[k + 1] == found);
                assert forall|j: int| 0 <= j < k + 1 implies (#[trigger] results[j]).1
                    == Probe::Timeout by {
                    if j > 0 {
                        assert(rest[j - 1] == results[j]);
                    }
                }
            },
            None => {
                assert forall|j: int| 0 <= j < results.len() implies (#[trigger] results[j]).1
                    == Probe::Timeout by {
                    if j > 0 {
                        assert(rest[j - 1] == results[j]);
                    }
                }
            },
        }
    }
}

/// The hop is that of the gateway and goes by its address; a packet size below
/// the usual one is worth a warning on its line, and any other is not.
pub proof fn a_small_packet_size_is_marked(route: platform::RouteView)
    ensures
        ({
            let hop = opening(route);
            &&& hop.id == HopId::Gateway && hop.layer == Layer::Network
            &&& hop.subtitle is Some <==> route.gateway is Some
            &&& route.gateway matches Some(gw) ==> hop.subtitle == Some(addr::ip_text(gw))
            &&& match route.mtu {
                Some(mtu) => hop.metrics.len() == 1 && hop.metrics[0].label == "MTU"@
                    && hop.metrics[0].value == number::decimal(mtu as nat) && hop.metrics[0].status
                    == (if mtu < 1500 {
                    Some(Status::Warn)
                } else {
                    None
                }),
                None => hop.metrics.len() == 0,
            }
        }),
{
}

/// A silent router's summary opens with how many echoes went unanswered, and
/// claims handshakes only where any were tried.
pub proof fn silence_claims_only_what_was_tried(pings: nat, tcp_attempted: bool)
    ensures
        text::starts_with(
            silence(pings, tcp_attempted),
            "Router isn't answering — "@ + number::decimal(pings) + " pings "@,
        ),
        text::ends_with(silence(pings, tcp_attempted), " all went unanswered"@) <==> tcp_attempted,
        tcp_attempted ==> text::contains(
            silence(pings, tcp_attempted),
            "TCP :"@ + number::decimal(443) + "/:"@ + number::decimal(80) + "/:"@ + number::decimal(
                53,
            ),
        ),
{
    let open = "Router isn't answering — "@ + number::decimal(pings);
    let said = silence(pings, tcp_attempted);
    let last = " all went unanswered"@;
    reveal_strlit(" pings ");
    reveal_strlit(" pings and TCP :");
    reveal_strlit("and TCP :");
    reveal_strlit("and ");
    reveal_strlit("TCP :");
    reveal_strlit(" all went unanswered");
    reveal_strlit(
        " pings went unanswered, and a link-local gateway can't be reached over TCP to cross-check",
    );
    assert(said.take((open + " pings "@).len() as int) =~= open + " pings "@);
    if tcp_attempted {
        assert(said.skip(said.len() - last.len()) =~= last);
        let shown = "TCP :"@ + number::decimal(443) + "/:"@ + number::decimal(80) + "/:"@
            + number::decimal(53);
        let head = open + " pings and "@;
        assert(" pings and TCP :"@ =~= " pings and "@ + "TCP :"@) by {
            reveal_strlit(" pings and ");
        }
        assert(said =~= head + shown + last);
        text::lemma_contains_middle(head, shown, last);
    } else {
        assert(said.last() == 'k');
        if text::ends_with(said, last) {
            assert(said.skip(said.len() - last.len()).last() == 'd');
        }
    }
}

/// A router that answered over TCP alone says why its echoes drew a blank: they
/// went unanswered where any were sent, and otherwise the tool did not run. The
/// port that answered has its line.
pub proof fn a_blank_is_explained_by_what_was_sent(
    hop: path::HopView,
    gw: IpAddr,
    burst: Quality,
    port: u16,
    tcp: Quality,
)
    ensures
        ({
            let lines = answered_over_tcp(hop, gw, burst, port, tcp).metrics;
            let at = hop.metrics.len() as int;
            &&& lines.len() >= at + 2
            &&& lines[at].label == "ICMP"@ && lines[at].status == Some(Status::Warn)
            &&& lines[at].value == (if burst.sent == 0 {
                "no reply (the ping tool didn't run)"@
            } else {
                "filtered (echoes sent, none answered)"@
            })
            &&& lines[at + 1] == path::plain("Probed"@, "TCP :"@ + number::decimal(port as nat))
        }),
{
}

/// A router that nothing was measured of is told by what was tried of it.
pub proof fn blindness_is_told_by_what_was_tried(hop: path::HopView, gw: IpAddr, tcp_attempted: bool)
    ensures
        ({
            let found = unobserved(hop, gw, tcp_attempted);
            let how = found.evidence->Some_0;
            &&& found.evidence is Some && found.summary is Some
            &&& text::starts_with(how, "ICMP to "@ + addr::ip_text(gw))
            &&& text::ends_with(how, " either"@) <==> tcp_attempted
            &&& found.summary
                == Some("Couldn't probe the gateway over ICMP or TCP — its state is unknown"@)
                <==> tcp_attempted
        }),
{
    let found = unobserved(hop, gw, tcp_attempted);
    let how = found.evidence->Some_0;
    let open = "ICMP to "@ + addr::ip_text(gw);
    reveal_strlit(" either");
    reveal_strlit(" never ran, and no TCP handshake completed either");
    reveal_strlit(" never ran; a link-local gateway can't be tried over TCP");
    assert(how.take(open.len() as int) =~= open);
    if tcp_attempted {
        assert(how.skip(how.len() - 7) =~= " either"@);
    } else {
        assert(how.last() == 'P');
        if text::ends_with(how, " either"@) {
            assert(how.skip(how.len() - 7).last() == 'r');
        }
        reveal_strlit("Couldn't probe the gateway over ICMP or TCP — its state is unknown");
        reveal_strlit(
            "Couldn't probe the gateway over ICMP, and a link-local gateway can't be cross-checked over TCP — its state is unknown",
        );
        assert(found.summary->Some_0.len()
            != "Couldn't probe the gateway over ICMP or TCP — its state is unknown"@.len());
    }
}

/// The evidence of a silent router opens with the echoes that were sent, and
/// claims handshakes only where any were tried.
pub proof fn silence_rests_on_what_was_tried(
    hop: path::HopView,
    gw: IpAddr,
    burst: Quality,
    tcp_attempted: bool,
)
    ensures
        ({
            let how = silent(hop, gw, burst, tcp_attempted).evidence->Some_0;
            let sent = number::decimal(burst.sent as nat) + " ICMP echoes to "@ + addr::ip_text(gw);
            &&& silent(hop, gw, burst, tcp_attempted).evidence is Some
            &&& tcp_attempted ==> text::starts_with(how, sent + ", then TCP :"@)
            &&& !tcp_attempted ==> how == sent
                + "; no TCP cross-check is possible on a link-local gateway"@
        }),
{
    let how = silent(hop, gw, burst, tcp_attempted).evidence->Some_0;
    let open = number::decimal(burst.sent as nat) + " ICMP echoes to "@ + addr::ip_text(gw)
        + ", then TCP :"@;
    if tcp_attempted {
        assert(how =~= open + ports_text());
        assert(how.take(open.len() as int) =~= open);
    }
}

} // verus!
