//! The gateway hop.

use wtfi2::addr::{ip_from_str, IpAddr};
use wtfi2::model::{Fault, Hop, Millis, Status};
use wtfi2::platform::RouteInfo;
use wtfi2::probe::gateway::{
    fallback_result, first_answer, next_sample, probe, silent_summary, Action, TcpFallback, TCP_PORTS,
    TCP_SAMPLES,
};
use wtfi2::probe::net::{Probe, Quality};

#[test]
fn a_link_local_gateway_is_not_claimed_to_have_been_tried_over_tcp() {
    let summary = silent_summary(5, false);
    assert!(!summary.contains("443"), "got: {summary}");
    assert!(summary.contains("link-local"), "got: {summary}");
    assert!(summary.contains("5 pings"), "got: {summary}");
}

#[test]
fn a_routable_gateway_reports_both_transports() {
    let summary = silent_summary(5, true);
    assert!(summary.contains("443"), "got: {summary}");
    assert!(summary.contains("5 pings"), "got: {summary}");
}

#[test]
fn tcp_ports_are_tried_admin_ui_first() {
    assert_eq!(TCP_PORTS, [443, 80, 53]);
}

fn ip(s: &str) -> IpAddr {
    ip_from_str(s).unwrap()
}

fn routed(gateway: Option<&str>, zone: Option<&str>) -> RouteInfo {
    RouteInfo {
        interface: "en0".to_string(),
        gateway: gateway.map(ip),
        gateway_zone: zone.map(str::to_string),
        ..Default::default()
    }
}

fn reported(action: Action) -> Hop {
    match action {
        Action::Report(h) => h,
        other => panic!("expected a report, got {other:?}"),
    }
}

const UNANSWERED: Quality = Quality {
    sent: 5,
    rtts_ns: vec![],
};

/// A router that drops ICMP echo is asked again over TCP before its silence is
/// read as its absence.
#[test]
fn a_router_that_only_answers_tcp_is_reachable_not_dead() {
    let ms = 1_000_000;
    let results = vec![(443, Probe::Timeout), (80, Probe::Up(3 * ms))];
    let more = vec![Probe::Up(3 * ms), Probe::Up(3 * ms)];
    let fallback = fallback_result(first_answer(&results), &more);
    let TcpFallback::Answered(found, q) = &fallback else {
        panic!("an open port must be found");
    };
    assert_eq!(*found, 80);
    assert_eq!(q.sent, TCP_SAMPLES as u32);
    assert_eq!(q.loss_pct().unwrap().lost(), 0, "nothing was dropped");
    assert!(q.avg_ms().is_some(), "the burst must yield a round trip");

    let route = routed(Some("192.168.0.1"), None);
    let h = reported(probe(&route, Some(&UNANSWERED), Some(&fallback)));
    assert_eq!(h.status, Status::Healthy);
    assert_eq!(h.summary.as_deref(), Some("Router reachable in 3 ms"));
}

#[test]
fn a_genuinely_silent_router_still_reports_nothing() {
    let fallback = fallback_result(first_answer(&vec![(1, Probe::Timeout)]), &vec![]);
    assert!(matches!(fallback, TcpFallback::Silent));
    let route = routed(Some("192.168.0.1"), None);
    let h = reported(probe(&route, Some(&UNANSWERED), Some(&fallback)));
    assert_eq!(h.status, Status::Fail);
    assert_eq!(h.fault, Some(Fault::GatewaySilent));
    assert_eq!(h.loss_pct.unwrap().percent_text(), "100");
}

/// A handshake to `fe80::1` without its scope id fails for a reason that has
/// nothing to do with the router, so none is asked for.
#[test]
fn a_link_local_gateway_declines_the_tcp_fallback() {
    let route = routed(Some("fe80::1"), Some("en0"));
    let h = reported(probe(&route, Some(&UNANSWERED), None));
    assert_eq!(h.fault, Some(Fault::GatewaySilent));
    assert_eq!(h.summary.as_deref(), Some(silent_summary(5, false).as_str()));
}

#[test]
fn the_router_is_pinged_before_anything_else() {
    let route = routed(Some("192.168.0.1"), None);
    assert!(matches!(
        probe(&route, None, None),
        Action::Ping(gw) if gw == ip("192.168.0.1")
    ));
    assert!(matches!(
        probe(&route, Some(&UNANSWERED), None),
        Action::Connect(gw) if gw == ip("192.168.0.1")
    ));
    let none = reported(probe(&routed(None, None), None, None));
    assert_eq!(none.fault, Some(Fault::NoGateway));
    assert_eq!(none.status, Status::Fail);
}

#[test]
fn a_slow_router_is_sluggish() {
    let route = routed(Some("192.168.0.1"), None);
    let burst = Quality {
        sent: 2,
        rtts_ns: vec![60_000_000, 62_000_000],
    };
    let h = reported(probe(&route, Some(&burst), None));
    assert_eq!(h.status, Status::Warn);
    assert_eq!(
        h.summary.as_deref(),
        Some("Router is sluggish — 61 ms round trip")
    );
    assert_eq!(h.latency_ms.map(|m: Millis| m.tenths_text()).as_deref(), Some("61.0"));
}

/// No echo went out, and nothing else could be asked: the router's state is
/// unknown.
#[test]
fn a_ping_that_never_ran_breaks_nothing() {
    let route = routed(Some("192.168.0.1"), None);
    let unsent = Quality::default();
    let h = reported(probe(&route, Some(&unsent), Some(&TcpFallback::Silent)));
    assert_eq!(h.status, Status::Warn);
    assert_eq!(h.fault, Some(Fault::Unobserved));
}

#[test]
fn the_port_that_answered_is_sampled_to_the_end() {
    let found = Some((80, Probe::Up(1)));
    assert_eq!(next_sample(found, &vec![]), Some(80));
    assert_eq!(next_sample(found, &vec![Probe::Timeout]), Some(80));
    assert_eq!(next_sample(found, &vec![Probe::Timeout; 2]), None);
    assert_eq!(next_sample(None, &vec![]), None);
}
