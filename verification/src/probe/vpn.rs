//! VPN / overlay-tunnel hop.
//!
//! Only added to the path when a tunnel is active (the engine gates on
//! [`RouteInfo::tunnel_active`]). It reports what the tunnel is and whether it
//! carries *all* traffic (full-tunnel) or only some routes (split-tunnel) —
//! full-tunnel is what makes a VPN outage masquerade as an ISP outage, so the
//! diagnosis engine keys off the `Mode` metric this hop records.

use crate::addr;
use crate::model::path;
use crate::model::{Hop, HopId, Layer, Metric, Status};
use crate::platform;
use crate::platform::{Platform, PlatformError, RouteInfo, VpnInfo};
use crate::text;
use vstd::prelude::*;

verus! {

broadcast use vstd::string::group_string_axioms;

/// The tunnel interface: the enriched one, or what the route probe saw in case
/// the tunnel changed between the two reads.
pub open spec fn tunnel(info: platform::VpnView, route: platform::RouteView) -> Option<Seq<char>> {
    if info.interface is Some {
        info.interface
    } else {
        route.tunnel_iface
    }
}

/// The tunnel owns the default route, so everything egresses through it.
pub open spec fn owns_default(info: platform::VpnView, route: platform::RouteView) -> bool {
    tunnel(info, route) == Some(route.interface)
}

/// The lines on the tunnel.
pub open spec fn vpn_metrics(info: platform::VpnView, route: platform::RouteView) -> Seq<
    path::MetricView,
> {
    let none = Seq::<path::MetricView>::empty();
    (match tunnel(info, route) {
        Some(i) => seq![path::plain("Interface"@, i)],
        None => none,
    }) + (match info.local_ip {
        Some(ip) => seq![path::plain("Tunnel IP"@, addr::ip_text(ip))],
        None => none,
    }) + seq![
        path::plain(
            "Mode"@,
            if owns_default(info, route) {
                "full-tunnel"@
            } else {
                "split-tunnel"@
            },
        ),
    ] + (match info.vendor {
        Some(v) => seq![path::plain("Vendor"@, v)],
        None => none,
    })
}

/// The tunnel in one line.
pub open spec fn vpn_summary(info: platform::VpnView, route: platform::RouteView) -> Seq<char> {
    let place = match tunnel(info, route) {
        Some(i) => i,
        None => "the tunnel"@,
    };
    let vendor = match info.vendor {
        Some(v) => v + " "@,
        None => seq![],
    };
    if owns_default(info, route) {
        vendor + "full-tunnel VPN on "@ + place + " — all traffic is routed through it"@
    } else {
        vendor + "split-tunnel VPN on "@ + place + " — only some routes use it"@
    }
}

/// The hop of a tunnel. Present and addressed is healthy; present but
/// unaddressed means the interface is up but not actually carrying traffic yet.
pub open spec fn vpn_hop(info: platform::VpnView, route: platform::RouteView) -> path::HopView {
    let hop = path::HopView {
        subtitle: if info.vendor is Some {
            info.vendor
        } else {
            tunnel(info, route)
        },
        metrics: vpn_metrics(info, route),
        ..path::blank(HopId::Vpn, Layer::Network, "VPN"@)
    };
    if info.active && info.local_ip is Some {
        path::HopView {
            status: Status::Healthy,
            summary: Some(vpn_summary(info, route)),
            ..hop
        }
    } else {
        path::HopView {
            status: Status::Warn,
            summary: Some("Tunnel interface is up but has no address — not carrying traffic"@),
            ..hop
        }
    }
}

/// What a lookup of the tunnel came to; one that failed found none.
pub open spec fn found(vpn: Result<VpnInfo, PlatformError>) -> platform::VpnView {
    match vpn {
        Ok(info) => info@,
        Err(_) => platform::no_vpn(),
    }
}

/// Assess the tunnel using the platform layer.
pub fn probe<P: Platform>(platform: &P, route: &RouteInfo) -> (r: Hop)
    ensures
        exists|res: Result<VpnInfo, PlatformError>|
            #[trigger] call_ensures(P::vpn, (platform,), res) && r@ == vpn_hop(found(res), route@),
{
    let res = platform.vpn();
    let info = match res {
        Ok(info) => info,
        Err(_) => VpnInfo::default(),
    };
    describe(&info, route)
}

/// The hop of a tunnel.
pub fn describe(info: &VpnInfo, route: &RouteInfo) -> (r: Hop)
    ensures
        r@ == vpn_hop(info@, route@),
{
    let mut hop = Hop::new(HopId::Vpn, Layer::Network, "VPN");
    let iface = if info.interface.is_some() {
        path::copy_text(&info.interface)
    } else {
        path::copy_text(&route.tunnel_iface)
    };
    let full_tunnel = match &iface {
        Some(i) => text::str_eq(i.as_str(), route.interface.as_str()),
        None => false,
    };
    hop.subtitle = if info.vendor.is_some() {
        path::copy_text(&info.vendor)
    } else {
        path::copy_text(&iface)
    };
    if let Some(i) = &iface {
        hop.push_metric(Metric::new("Interface", i.as_str()));
    }
    if let Some(ip) = info.local_ip {
        hop.push_metric(Metric::new("Tunnel IP", addr::ip_to_string(ip).as_str()));
    }
    hop.push_metric(
        Metric::new(
            "Mode",
            if full_tunnel {
                "full-tunnel"
            } else {
                "split-tunnel"
            },
        ),
    );
    if let Some(v) = &info.vendor {
        hop.push_metric(Metric::new("Vendor", v.as_str()));
    }
    assert(hop@.metrics =~= vpn_metrics(info@, route@));
    if info.active && info.local_ip.is_some() {
        hop.status = Status::Healthy;
        let place = match &iface {
            Some(i) => i.as_str(),
            None => "the tunnel",
        };
        let vendor = match &info.vendor {
            Some(v) => text::cat2(v.as_str(), " "),
            None => String::new(),
        };
        hop.summary = Some(
            if full_tunnel {
                text::cat4(
                    vendor.as_str(),
                    "full-tunnel VPN on ",
                    place,
                    " — all traffic is routed through it",
                )
            } else {
                text::cat4(
                    vendor.as_str(),
                    "split-tunnel VPN on ",
                    place,
                    " — only some routes use it",
                )
            },
        );
    } else {
        hop.status = Status::Warn;
        hop.summary = Some(
            "Tunnel interface is up but has no address — not carrying traffic".to_string(),
        );
    }
    hop
}

// ---- laws ----

/// A tunnel is healthy exactly when it is active and has an address, and
/// otherwise degraded; it is never a break.
pub proof fn a_tunnel_is_healthy_when_it_carries_traffic(
    info: platform::VpnView,
    route: platform::RouteView,
)
    ensures
        vpn_hop(info, route).id == HopId::Vpn,
        vpn_hop(info, route).fault is None,
        vpn_hop(info, route).status == (if info.active && info.local_ip is Some {
            Status::Healthy
        } else {
            Status::Warn
        }),
{
}

/// A tunnel carries everything exactly when the default route goes over its
/// interface: the one it was found on, or else the one that the route named.
/// Its line on the mode says so, and there is one.
pub proof fn a_full_tunnel_owns_the_default_route(
    info: platform::VpnView,
    route: platform::RouteView,
)
    ensures
        ({
            let lines = vpn_hop(info, route).metrics;
            let over = info.interface == Some(route.interface) || (info.interface is None
                && route.tunnel_iface == Some(route.interface));
            &&& over <==> exists|i: int|
                0 <= i < lines.len() && (#[trigger] lines[i]).label == "Mode"@ && lines[i].value
                    == "full-tunnel"@
            &&& !over <==> exists|i: int|
                0 <= i < lines.len() && (#[trigger] lines[i]).label == "Mode"@ && lines[i].value
                    == "split-tunnel"@
        }),
{
    reveal_strlit("Mode");
    reveal_strlit("Interface");
    reveal_strlit("Tunnel IP");
    reveal_strlit("Vendor");
    reveal_strlit("full-tunnel");
    reveal_strlit("split-tunnel");
    let lines = vpn_hop(info, route).metrics;
    let first: int = if tunnel(info, route) is Some {
        1
    } else {
        0
    };
    let at: int = first + (if info.local_ip is Some {
        1int
    } else {
        0
    });
    assert("Mode"@.len() == 4 && "Interface"@.len() == 9 && "Tunnel IP"@.len() == 9
        && "Vendor"@.len() == 6);
    assert("full-tunnel"@.len() == 11 && "split-tunnel"@.len() == 12);
    assert(lines[at].label == "Mode"@);
    assert forall|i: int| 0 <= i < lines.len() && i != at implies (#[trigger] lines[i]).label
        != "Mode"@ by {
        if i < first {
            assert(lines[i].label == "Interface"@);
        } else if i < at {
            assert(lines[i].label == "Tunnel IP"@);
        } else {
            assert(lines[i].label == "Vendor"@);
        }
    }
}

/// A tunnel that carries traffic says how much of it, after its vendor where one
/// is known; one that does not says so. It goes by its vendor, else by its
/// interface.
pub proof fn a_tunnel_says_what_it_carries(info: platform::VpnView, route: platform::RouteView)
    ensures
        ({
            let hop = vpn_hop(info, route);
            let said = hop.summary->Some_0;
            let over = info.interface == Some(route.interface) || (info.interface is None
                && route.tunnel_iface == Some(route.interface));
            let carries = info.active && info.local_ip is Some;
            &&& hop.summary is Some
            &&& carries && over ==> text::contains(said, "full-tunnel VPN on "@) && text::contains(
                said,
                "all traffic is routed through it"@,
            )
            &&& carries && !over ==> text::contains(said, "split-tunnel VPN on "@)
                && text::contains(said, "only some routes use it"@)
            &&& carries ==> (info.vendor matches Some(v) ==> text::starts_with(said, v))
            &&& !carries ==> said
                == "Tunnel interface is up but has no address — not carrying traffic"@
            &&& hop.subtitle == (if info.vendor is Some {
                info.vendor
            } else if info.interface is Some {
                info.interface
            } else {
                route.tunnel_iface
            })
        }),
{
    let place = match tunnel(info, route) {
        Some(i) => i,
        None => "the tunnel"@,
    };
    let vendor = match info.vendor {
        Some(v) => v + " "@,
        None => seq![],
    };
    let full = "full-tunnel VPN on "@;
    let split = "split-tunnel VPN on "@;
    let all = " — all traffic is routed through it"@;
    let some = " — only some routes use it"@;
    assert(vendor + full + place + all =~= vendor + full + (place + all));
    assert(vendor + split + place + some =~= vendor + split + (place + some));
    text::lemma_contains_middle(vendor, full, place + all);
    text::lemma_contains_middle(vendor, split, place + some);
    assert(" — all traffic is routed through it"@ =~= " — "@
        + "all traffic is routed through it"@) by {
        reveal_strlit(" — all traffic is routed through it");
        reveal_strlit(" — ");
        reveal_strlit("all traffic is routed through it");
    }
    assert(" — only some routes use it"@ =~= " — "@ + "only some routes use it"@) by {
        reveal_strlit(" — only some routes use it");
        reveal_strlit(" — ");
        reveal_strlit("only some routes use it");
    }
    let none = Seq::<char>::empty();
    let head = vendor + full + place + " — "@;
    let head2 = vendor + split + place + " — "@;
    assert(vendor + full + place + all =~= head + "all traffic is routed through it"@ + none);
    assert(vendor + split + place + some =~= head2 + "only some routes use it"@ + none);
    text::lemma_contains_middle(head, "all traffic is routed through it"@, none);
    text::lemma_contains_middle(head2, "only some routes use it"@, none);
    if let Some(v) = info.vendor {
        let a = vendor + full + place + all;
        let b = vendor + split + place + some;
        assert(a.take(v.len() as int) =~= v);
        assert(b.take(v.len() as int) =~= v);
    }
}

/// Whatever is known of a tunnel has a line: its interface, its address and its
/// vendor.
pub proof fn a_tunnel_shows_what_is_known(info: platform::VpnView, route: platform::RouteView)
    ensures
        ({
            let lines = vpn_hop(info, route).metrics;
            let iface = if info.interface is Some {
                info.interface
            } else {
                route.tunnel_iface
            };
            &&& iface matches Some(i) ==> lines.contains(path::plain("Interface"@, i))
            &&& info.local_ip matches Some(ip) ==> lines.contains(
                path::plain("Tunnel IP"@, addr::ip_text(ip)),
            )
            &&& info.vendor matches Some(v) ==> lines.contains(path::plain("Vendor"@, v))
        }),
{
    let lines = vpn_hop(info, route).metrics;
    let first: int = if tunnel(info, route) is Some {
        1
    } else {
        0
    };
    let at: int = first + (if info.local_ip is Some {
        1int
    } else {
        0
    });
    if let Some(i) = tunnel(info, route) {
        assert(lines[0] == path::plain("Interface"@, i));
    }
    if let Some(ip) = info.local_ip {
        assert(lines[first] == path::plain("Tunnel IP"@, addr::ip_text(ip)));
    }
    if let Some(v) = info.vendor {
        assert(lines[at + 1] == path::plain("Vendor"@, v));
    }
}

} // verus!
