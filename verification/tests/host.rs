//! The host hop.

use wtfi2::addr::{ip_from_str, IpAddr, Ipv4Addr, Ipv6Addr};
use wtfi2::model::{Fault, Hop, HopId, Layer, Status};
use wtfi2::platform::unsupported::Unsupported;
use wtfi2::platform::AddrInfo;
use wtfi2::probe::host::{grade, probe};

fn v4_addr(s: &str) -> Ipv4Addr {
    match ip_from_str(s) {
        Some(IpAddr::V4(a)) => a,
        other => panic!("not IPv4: {other:?}"),
    }
}

fn v6_addr(s: &str) -> Ipv6Addr {
    match ip_from_str(s) {
        Some(IpAddr::V6(a)) => a,
        other => panic!("not IPv6: {other:?}"),
    }
}

fn addrs(v4: Option<(&str, u8)>, v6: &[&str]) -> AddrInfo {
    AddrInfo {
        v4: v4.map(|(ip, p)| (v4_addr(ip), p)),
        v6: v6.iter().map(|s| v6_addr(s)).collect(),
    }
}

fn graded(a: &AddrInfo, gateway: Option<&str>) -> Hop {
    let mut hop = Hop::new(HopId::Host, Layer::Link, "You");
    grade(&mut hop, "en0", a, gateway.map(|g| ip_from_str(g).unwrap()));
    hop
}

/// The outage class this hop was added for. DHCP never answered, so the
/// machine autoconfigured — and because `Host` is the earliest hop in the
/// chain, this now owns the verdict instead of the router downstream
/// getting blamed for not answering a machine that can't address it.
#[test]
fn a_self_assigned_address_is_a_break_at_the_host() {
    let hop = graded(&addrs(Some(("169.254.13.7", 16)), &[]), None);
    assert_eq!(hop.status, Status::Fail);
    assert_eq!(hop.fault, Some(Fault::SelfAssignedAddr));
    assert!(hop.summary.unwrap().contains("DHCP"));
}

/// …but only when there is no other way out. DHCPv4 glitching while IPv6
/// RA/SLAAC keeps working is a real and ordinary state, and failing the
/// earliest hop in the chain would hand the whole verdict to a fault that
/// isn't stopping anything.
#[test]
fn a_self_assigned_v4_with_working_v6_degrades_rather_than_breaks() {
    let hop = graded(&addrs(Some(("169.254.13.7", 16)), &["2001:db8::5"]), None);
    assert_eq!(hop.status, Status::Warn);
    assert_eq!(hop.fault, Some(Fault::SelfAssignedAddr));
    let summary = hop.summary.unwrap();
    assert!(summary.contains("IPv6 is configured"), "got: {summary}");
    assert!(summary.contains("IPv4-only will fail"), "got: {summary}");
}

#[test]
fn a_normal_dhcp_lease_is_healthy_and_says_what_it_got() {
    let hop = graded(&addrs(Some(("192.168.0.15", 24)), &[]), Some("192.168.0.1"));
    assert_eq!(hop.status, Status::Healthy);
    assert_eq!(hop.subtitle.as_deref(), Some("192.168.0.15/24"));
    assert!(hop.summary.unwrap().contains("IPv4 only"));
}

/// Both ends can be individually healthy and still unable to talk — and
/// on IPv4 alone that is total unreachability, so it has to be a `Fail`.
/// Left at `Warn` the verdict went to the gateway's collateral failure
/// ("reboot the router") while this hop already held the certain cause.
#[test]
fn a_gateway_outside_the_subnet_is_a_break() {
    let hop = graded(&addrs(Some(("192.168.0.15", 24)), &[]), Some("10.0.0.1"));
    assert_eq!(hop.status, Status::Fail);
    assert_eq!(hop.fault, Some(Fault::GatewayOffSubnet));
    assert!(hop.summary.unwrap().contains("different subnets"));
}

/// With IPv6 configured there is still a path out, so it degrades rather
/// than breaking — the same test the self-assigned branch applies.
#[test]
fn a_gateway_outside_the_subnet_only_warns_when_ipv6_works() {
    let hop = graded(
        &addrs(Some(("192.168.0.15", 24)), &["2001:db8::5"]),
        Some("10.0.0.1"),
    );
    assert_eq!(hop.status, Status::Warn);
    assert_eq!(hop.fault, Some(Fault::GatewayOffSubnet));
    assert!(hop.summary.unwrap().contains("IPv6 still has a path"));
}

#[test]
fn a_gateway_inside_a_wider_subnet_is_fine() {
    // /16 puts 192.168.1.1 in range where /24 would not.
    let hop = graded(&addrs(Some(("192.168.0.15", 16)), &[]), Some("192.168.1.1"));
    assert_eq!(hop.status, Status::Healthy);
}

#[test]
fn an_unaddressed_interface_is_a_break() {
    let hop = graded(&addrs(None, &[]), None);
    assert_eq!(hop.status, Status::Fail);
    assert_eq!(hop.fault, Some(Fault::NoAddress));
}

#[test]
fn an_ipv6_only_host_is_healthy() {
    let hop = graded(&addrs(None, &["2001:db8::5"]), None);
    assert_eq!(hop.status, Status::Healthy);
    assert_eq!(hop.subtitle.as_deref(), Some("IPv6 only"));
}

/// Carrier-grade NAT explains a whole class of "my port forwarding does
/// nothing" that no amount of router fiddling will fix.
#[test]
fn a_cgnat_lease_is_called_out() {
    let hop = graded(&addrs(Some(("100.80.4.9", 10)), &[]), None);
    assert!(
        hop.metrics
            .iter()
            .any(|m| m.label == "NAT" && m.value.contains("carrier-grade")),
        "got: {:?}",
        hop.metrics
    );
}

#[test]
fn a_host_that_could_not_be_read_is_unknown() {
    let h = probe(&Unsupported, "en0", None);
    assert_eq!(h.status, Status::Warn);
    assert_eq!(h.fault, Some(Fault::Unobserved));
    assert_eq!(h.id, HopId::Host);
}
