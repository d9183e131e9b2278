//! Sweeps: how one opens, what it runs, and how it ends.

use wtfi2::addr::{ip_from_str, IpAddr};
use wtfi2::diagnose::diagnose;
use wtfi2::engine::{
    complete, fallback, finished, host_hop, needs_uplink_sweep, open_sweep, probe_host, seeds,
    settle, skeleton, tasks, unmeasured, Lookup, Opening, Task, CHAIN, PROBE_DEADLINE,
    SWEEP_DEADLINE,
};
use wtfi2::model::{Fault, Hop, HopId, Layer, Path, Status};
use wtfi2::platform::unsupported::Unsupported;
use wtfi2::platform::{
    AddrInfo, LinkInfo, Platform, PlatformError, ResolverInfo, RouteInfo, VpnInfo,
};

fn ip(s: &str) -> IpAddr {
    ip_from_str(s).unwrap()
}

fn ids(hops: &[Hop]) -> Vec<HopId> {
    hops.iter().map(|h| h.id).collect()
}

/// The uplink sweep is spawned *after* the WAN probe reports, so the two
/// budgets stack on one sweep clock — each capped at `PROBE_DEADLINE`, but
/// in series.
#[test]
fn a_wan_failure_and_its_uplink_sweep_both_fit_one_sweep() {
    let stacked = PROBE_DEADLINE + PROBE_DEADLINE;
    assert!(
        stacked < SWEEP_DEADLINE,
        "WAN then Uplink is {stacked:?}, which must fit in {SWEEP_DEADLINE:?}"
    );
}

/// A sweep that gets cut short must still hand back a path whose every hop
/// has settled. A leftover `Pending` renders as "Scanning your
/// connection…" in a report that has already stopped scanning, and leaves
/// the live dashboard waiting on a hop that is never coming.
#[test]
fn a_truncated_sweep_still_settles_every_hop() {
    let path = complete(vec![]);
    let unsettled: Vec<_> = path
        .hops
        .iter()
        .filter(|h| !h.status.is_terminal())
        .map(|h| h.id)
        .collect();
    assert!(unsettled.is_empty(), "left pending: {unsettled:?}");
}

/// And what it hands back must say the hops were *unmeasured*, not graded.
#[test]
fn a_truncated_sweep_reports_the_gap_rather_than_a_verdict() {
    let path = complete(vec![]);
    assert!(
        path.hops.iter().any(|h| h.fault == Some(Fault::Unobserved)),
        "a sweep this short cannot have measured anything"
    );
    assert!(
        !path.hops.iter().any(|h| h.status == Status::Fail),
        "nothing was observed, so nothing may be called broken"
    );
}

#[test]
fn the_skeleton_waits_for_the_chain_only() {
    let path = skeleton();
    assert_eq!(
        ids(&path.hops),
        vec![
            HopId::Host,
            HopId::Link,
            HopId::Gateway,
            HopId::Wan,
            HopId::Dns,
            HopId::Captive
        ]
    );
    assert_eq!(CHAIN.to_vec(), ids(&path.hops));
    assert!(path.hops.iter().all(|h| h.status == Status::Pending));
    assert!(!path.is_complete());
}

#[test]
fn an_unmeasured_hop_is_a_gap_and_not_a_break() {
    let h = unmeasured(HopId::Dns, Layer::Application, "DNS", "no time");
    assert_eq!(h.status, Status::Warn);
    assert_eq!(h.fault, Some(Fault::Unobserved));
    assert_eq!(h.summary.as_deref(), Some("no time"));
    assert_eq!(h.title, "DNS");
}

#[test]
fn an_unsupported_platform_stalls_the_sweep() {
    match open_sweep(Lookup::Unsupported("linux".to_string())) {
        Opening::Stalled(hops) => {
            assert_eq!(ids(&hops), CHAIN.to_vec());
            assert!(hops.iter().all(|h| h.status == Status::Skipped));
            let mut path = Path::default();
            for h in hops {
                path.upsert(h);
            }
            assert!(path.is_complete());
            assert!(path.first_break().is_none());
        }
        other => panic!("expected a stall, got {other:?}"),
    }
}

/// No route at all is a fact about the network, and the host still has an
/// address to ask about.
#[test]
fn no_network_breaks_the_link_and_asks_the_host() {
    match open_sweep(Lookup::Refused(PlatformError::NoNetwork)) {
        Opening::HostOnly(hops) => {
            let link = hops.iter().find(|h| h.id == HopId::Link).unwrap();
            assert_eq!(link.status, Status::Fail);
            assert!(hops
                .iter()
                .filter(|h| h.id != HopId::Link)
                .all(|h| h.status == Status::Skipped));
        }
        other => panic!("expected the host alone, got {other:?}"),
    }
}

/// A tool that would not run says nothing about the network.
#[test]
fn a_tool_that_would_not_run_breaks_nothing() {
    let refused = PlatformError::Command("route: denied".to_string());
    let hops = match open_sweep(Lookup::Refused(refused)) {
        Opening::Stalled(hops) | Opening::HostOnly(hops) => hops,
        other => panic!("nothing can be probed without a route, got {other:?}"),
    };
    assert!(hops.iter().all(|h| h.status != Status::Fail));
    assert!(hops.iter().all(|h| h.fault != Some(Fault::NotAssociated)));
}

#[test]
fn a_lookup_that_ran_out_of_time_breaks_nothing() {
    let hops = match open_sweep(Lookup::Unfinished("timed out".to_string())) {
        Opening::Stalled(hops) | Opening::HostOnly(hops) => hops,
        other => panic!("nothing can be probed without a route, got {other:?}"),
    };
    assert!(hops.iter().all(|h| h.status == Status::Skipped));
}

#[test]
fn a_route_opens_the_probes() {
    let route = RouteInfo {
        interface: "en0".to_string(),
        gateway: Some(ip("192.168.0.1")),
        ..Default::default()
    };
    match open_sweep(Lookup::Found(route.clone())) {
        Opening::Probe(r) => assert_eq!(r.interface, "en0"),
        other => panic!("expected the probes, got {other:?}"),
    }
    let plain = tasks(&route);
    assert!(plain.contains(&Task::Host));
    assert!(plain.contains(&Task::Wan));
    assert!(!plain.contains(&Task::Uplink), "the uplink waits for the WAN");
}

/// The uplink hop is asked about only where the WAN could not be reached.
#[test]
fn a_wan_that_failed_asks_for_the_uplink() {
    let mut wan = Hop::new(HopId::Wan, Layer::Internet, "Internet");
    wan.status = Status::Healthy;
    assert!(!needs_uplink_sweep(&wan));
    let done = finished(Task::Wan, Some(wan));
    assert!(!done.sweep);
    assert_eq!(ids(&done.send), vec![HopId::Wan]);

    let mut wan = Hop::new(HopId::Wan, Layer::Internet, "Internet");
    wan.status = Status::Fail;
    wan.fault = Some(Fault::NoInternet);
    assert!(needs_uplink_sweep(&wan));
    let done = finished(Task::Wan, Some(wan));
    assert!(done.sweep);
    assert_eq!(
        ids(&done.send),
        vec![HopId::Uplink, HopId::Wan],
        "the sweep is announced before the result that asks for it"
    );
    assert_eq!(done.send[0].status, Status::Pending);
}

#[test]
fn a_probe_that_never_finished_leaves_a_gap() {
    let gap = fallback(Task::Dns);
    assert_eq!(gap.id, HopId::Dns);
    assert_eq!(gap.status, Status::Warn);
    assert_eq!(gap.fault, Some(Fault::Unobserved));
    let done = finished(Task::Dns, None);
    assert_eq!(ids(&done.send), vec![HopId::Dns]);
    assert_eq!(done.send[0].summary, gap.summary);
    assert!(!done.sweep);
}

#[test]
fn settling_touches_pending_hops_only() {
    let mut path = skeleton();
    let mut gw = Hop::new(HopId::Gateway, Layer::Network, "Gateway");
    gw.fail(Fault::GatewaySilent, "no reply");
    path.upsert(gw);
    settle(&mut path);
    assert!(path.is_complete());
    assert_eq!(
        path.get(HopId::Gateway).unwrap().summary.as_deref(),
        Some("no reply")
    );
    assert_eq!(path.first_break().unwrap().id, HopId::Gateway);
    assert_eq!(path.get(HopId::Dns).unwrap().fault, Some(Fault::Unobserved));
}

#[test]
fn a_completed_sweep_holds_the_last_report_of_each_hop() {
    let mut first = Hop::new(HopId::Dns, Layer::Application, "DNS");
    first.status = Status::Warn;
    let mut second = Hop::new(HopId::Dns, Layer::Application, "DNS");
    second.status = Status::Healthy;
    let path = complete(vec![first, second]);
    assert_eq!(path.hops.len(), CHAIN.len());
    assert_eq!(path.get(HopId::Dns).unwrap().status, Status::Healthy);
    assert!(path.is_complete());
}

#[test]
fn seeds_are_hops_the_route_knows_of() {
    let plain = RouteInfo {
        interface: "en0".to_string(),
        ..Default::default()
    };
    let tunnelled = RouteInfo {
        interface: "en0".to_string(),
        tunnel_active: true,
        tunnel_iface: Some("utun4".to_string()),
        ..Default::default()
    };
    let unreadable = RouteInfo {
        interface: "en0".to_string(),
        tunnel_unreadable: true,
        ..Default::default()
    };
    assert!(seeds(&plain).is_empty());
    assert!(!tasks(&plain).contains(&Task::Vpn));
    let seeded = seeds(&tunnelled);
    assert_eq!(ids(&seeded), vec![HopId::Vpn]);
    assert_eq!(seeded[0].status, Status::Pending);
    assert_eq!(seeded[0].subtitle.as_deref(), Some("utun4"));
    assert!(tasks(&tunnelled).contains(&Task::Vpn));
    let unsure = seeds(&unreadable);
    assert_eq!(ids(&unsure), vec![HopId::Vpn]);
    assert_eq!(unsure[0].status, Status::Warn);
    assert_eq!(unsure[0].fault, Some(Fault::Unobserved));
    assert!(!tasks(&unreadable).contains(&Task::Vpn));
}

/// Gives one address, on one interface.
struct OneAddress;

impl Platform for OneAddress {
    fn route(&self) -> Result<RouteInfo, PlatformError> {
        Err(PlatformError::NoNetwork)
    }
    fn link(&self, _: &str) -> Result<LinkInfo, PlatformError> {
        Ok(LinkInfo::default())
    }
    fn addrs(&self, interface: &str) -> Result<AddrInfo, PlatformError> {
        if interface != "en7" {
            return Err(PlatformError::NoNetwork);
        }
        let v4 = match ip("10.0.0.5") {
            IpAddr::V4(a) => a,
            IpAddr::V6(_) => return Err(PlatformError::NoNetwork),
        };
        Ok(AddrInfo {
            v4: Some((v4, 24)),
            v6: vec![],
        })
    }
    fn primary_interface(&self) -> Result<String, PlatformError> {
        Ok("en7".to_string())
    }
    fn resolvers(&self) -> Result<ResolverInfo, PlatformError> {
        Ok(ResolverInfo::default())
    }
    fn vpn(&self) -> Result<VpnInfo, PlatformError> {
        Ok(VpnInfo::default())
    }
}

/// With no route there is no interface to name, so the primary one is asked.
#[test]
fn the_host_is_asked_on_the_primary_interface() {
    let named = probe_host(&OneAddress, Some("en7".to_string()), Some(ip("10.0.0.1")));
    let found = probe_host(&OneAddress, None, Some(ip("10.0.0.1")));
    assert_eq!(named.status, Status::Healthy);
    assert_eq!(found.status, Status::Healthy);
    assert_eq!(found.summary, named.summary);
    let unknown = probe_host(&Unsupported, None, None);
    assert_eq!(unknown.id, host_hop().id);
    assert_eq!(unknown.status, Status::Warn);
    assert_eq!(unknown.fault, Some(Fault::Unobserved));
}

#[test]
fn a_sweep_that_measured_nothing_is_not_healthy() {
    let v = diagnose(&complete(vec![]));
    assert_eq!(v.status, Status::Warn);
}
