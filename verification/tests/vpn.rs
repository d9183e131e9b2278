//! The tunnel hop.

use wtfi2::addr::ip_from_str;
use wtfi2::model::{Hop, Status};
use wtfi2::platform::unsupported::Unsupported;
use wtfi2::platform::{
    AddrInfo, LinkInfo, Platform, PlatformError, ResolverInfo, RouteInfo, VpnInfo,
};
use wtfi2::probe::vpn::probe;

struct MockPlatform(VpnInfo);
impl Platform for MockPlatform {
    fn route(&self) -> Result<RouteInfo, PlatformError> {
        Ok(RouteInfo::default())
    }
    fn link(&self, _: &str) -> Result<LinkInfo, PlatformError> {
        Ok(LinkInfo::default())
    }
    fn addrs(&self, _: &str) -> Result<AddrInfo, PlatformError> {
        Ok(AddrInfo::default())
    }
    fn primary_interface(&self) -> Result<String, PlatformError> {
        Ok("en0".into())
    }
    fn resolvers(&self) -> Result<ResolverInfo, PlatformError> {
        Ok(ResolverInfo::default())
    }
    fn vpn(&self) -> Result<VpnInfo, PlatformError> {
        Ok(self.0.clone())
    }
}

fn route_on(iface: &str) -> RouteInfo {
    RouteInfo {
        interface: iface.to_string(),
        ..Default::default()
    }
}

fn mode(hop: &Hop) -> &str {
    hop.metrics
        .iter()
        .find(|m| m.label == "Mode")
        .map(|m| m.value.as_str())
        .unwrap_or("")
}

#[test]
fn full_tunnel_when_vpn_owns_default_route() {
    let vpn = VpnInfo {
        active: true,
        interface: Some("utun4".into()),
        local_ip: Some(ip_from_str("100.86.1.2").unwrap()),
        vendor: Some("Tailscale".into()),
    };
    // The default route is on the tunnel → full-tunnel.
    let hop = probe(&MockPlatform(vpn), &route_on("utun4"));
    assert_eq!(hop.status, Status::Healthy);
    assert_eq!(mode(&hop), "full-tunnel");
    assert!(hop.summary.unwrap().contains("full-tunnel"));
}

#[test]
fn split_tunnel_when_default_route_stays_off_the_tunnel() {
    let vpn = VpnInfo {
        active: true,
        interface: Some("utun4".into()),
        local_ip: Some(ip_from_str("10.8.0.2").unwrap()),
        vendor: None,
    };
    let hop = probe(&MockPlatform(vpn), &route_on("en0"));
    assert_eq!(hop.status, Status::Healthy);
    assert_eq!(mode(&hop), "split-tunnel");
}

#[test]
fn active_but_unaddressed_tunnel_warns() {
    // Interface is up in the network state but hasn't been assigned an
    // address — it isn't actually carrying traffic, so don't claim Ok.
    let vpn = VpnInfo {
        active: true,
        interface: Some("utun4".into()),
        local_ip: None,
        vendor: None,
    };
    let hop = probe(&MockPlatform(vpn), &route_on("en0"));
    assert_eq!(hop.status, Status::Warn);
    assert!(hop.summary.unwrap().contains("no address"));
}

#[test]
fn a_tunnel_that_could_not_be_read_is_not_down() {
    let h: Hop = probe(&Unsupported, &RouteInfo::default());
    assert_ne!(h.status, Status::Fail);
}
