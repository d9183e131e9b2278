//! The `You` hop: what address this machine was actually given.
//!
//! A link can associate, a gateway can appear in the routing table, and the
//! machine can still have been handed nothing usable. That is a break *before*
//! the gateway, and diagnosing it as "your router isn't responding" sends you
//! to reboot the wrong box.

use crate::addr;
use crate::addr::{IpAddr, Ipv4Addr, Ipv6Addr};
use crate::model::path;
use crate::model::{Fault, Hop, HopId, Layer, Metric, Status};
use crate::number;
use crate::platform::{AddrInfo, Platform, PlatformError};
use crate::probe::net::is_cgnat;
use crate::text;
use vstd::prelude::*;

verus! {

broadcast use vstd::string::group_string_axioms;

/// `192.168.0.15/24`.
pub open spec fn lease(ip: Ipv4Addr, prefix: u8) -> Seq<char> {
    addr::v4_text(ip) + "/"@ + number::decimal(prefix as nat)
}

/// The lines on the IPv6 addresses.
pub open spec fn v6_metrics(v6: Seq<Ipv6Addr>) -> Seq<path::MetricView> {
    v6.map_values(|a: Ipv6Addr| path::plain("IPv6"@, addr::v6_text(a@)))
}

/// The hop with the addresses on it.
pub open spec fn addressed(hop: path::HopView, interface: Seq<char>, addrs: AddrInfo) -> path::HopView {
    let named = hop.with_metric(path::plain("Interface"@, interface));
    let v4 = match addrs.v4 {
        Some((ip, prefix)) => {
            let shown = (path::HopView { subtitle: Some(lease(ip, prefix)), ..named }).with_metric(
                path::plain("IPv4"@, lease(ip, prefix)),
            );
            if ip.shared_space() {
                shown.with_metric(
                    path::graded("NAT"@, "carrier-grade (100.64.0.0/10)"@, Status::Warn),
                )
            } else {
                shown
            }
        },
        None => named,
    };
    path::HopView { metrics: v4.metrics + v6_metrics(addrs.v6@), ..v4 }
}

/// The gateway is known to lie outside the configured subnet.
pub open spec fn off_subnet(addrs: AddrInfo, gateway: Option<IpAddr>) -> bool {
    gateway matches Some(gw) && addrs.holds(gw) == Some(false)
}

/// How an address and a gateway that share no subnet are reported.
pub open spec fn off_subnet_note(gw: IpAddr) -> Seq<char> {
    "Your address and your gateway ("@ + addr::ip_text(gw)
        + ") are on different subnets — they can't reach each other"@
}

/// The grade of the addressing.
pub open spec fn graded(
    hop: path::HopView,
    interface: Seq<char>,
    addrs: AddrInfo,
    gateway: Option<IpAddr>,
) -> path::HopView {
    let shown = addressed(hop, interface, addrs);
    let v6 = addrs.v6@.len() > 0;
    if addrs.self_assigned() {
        if v6 {
            shown.reporting(
                Status::Warn,
                Some(Fault::SelfAssignedAddr),
                "DHCPv4 never answered (self-assigned address), but IPv6 is configured — anything IPv4-only will fail"@,
            )
        } else {
            shown.failed(
                Fault::SelfAssignedAddr,
                "Self-assigned address — DHCP never answered, so nothing can be reached"@,
            )
        }
    } else if addrs.v4 is None && !v6 {
        (path::HopView { subtitle: Some(interface), ..shown }).failed(
            Fault::NoAddress,
            "No address on this interface — the link is up but unconfigured"@,
        )
    } else if off_subnet(addrs, gateway) {
        let gw = gateway->0;
        let noted = shown.with_metric(
            path::graded(
                "Gateway"@,
                addr::ip_text(gw) + " (outside your subnet)"@,
                Status::Warn,
            ),
        );
        if v6 {
            noted.reporting(
                Status::Warn,
                Some(Fault::GatewayOffSubnet),
                off_subnet_note(gw) + ", though IPv6 still has a path out"@,
            )
        } else {
            noted.failed(Fault::GatewayOffSubnet, off_subnet_note(gw))
        }
    } else {
        match addrs.v4 {
            Some((ip, prefix)) => path::HopView {
                status: Status::Healthy,
                summary: Some(
                    lease(ip, prefix) + (if v6 {
                        " · dual stack"@
                    } else {
                        " · IPv4 only"@
                    }),
                ),
                ..shown
            },
            None => path::HopView {
                status: Status::Healthy,
                subtitle: Some("IPv6 only"@),
                summary: Some("IPv6 only"@),
                ..shown
            },
        }
    }
}

/// The hop that reading the addresses came to.
pub open spec fn host_hop(
    interface: Seq<char>,
    addrs: Result<AddrInfo, PlatformError>,
    gateway: Option<IpAddr>,
) -> path::HopView {
    let hop = path::blank(HopId::Host, Layer::Link, "You"@);
    match addrs {
        Ok(a) => graded(hop, interface, a, gateway),
        Err(e) => (path::HopView { subtitle: Some(interface), ..hop }).reporting(
            Status::Warn,
            Some(Fault::Unobserved),
            "Couldn't read this machine's addresses — "@ + e@.words(),
        ),
    }
}

/// Grade the local addressing on `interface`, cross-checked against `gateway`
/// when the routing table named one.
pub fn probe<P: Platform>(platform: &P, interface: &str, gateway: Option<IpAddr>) -> (r: Hop)
    ensures
        exists|res: Result<AddrInfo, PlatformError>|
            #[trigger] call_ensures(P::addrs, (platform, interface), res) && r@ == host_hop(
                interface@,
                res,
                gateway,
            ),
{
    let res = platform.addrs(interface);
    report(interface, &res, gateway)
}

/// The hop that reading the addresses on `interface` came to.
pub fn report(
    interface: &str,
    addrs: &Result<AddrInfo, PlatformError>,
    gateway: Option<IpAddr>,
) -> (r: Hop)
    ensures
        r@ == host_hop(interface@, *addrs, gateway),
{
    let mut hop = Hop::new(HopId::Host, Layer::Link, "You");
    match addrs {
        Ok(a) => grade(&mut hop, interface, a, gateway),
        Err(e) => {
            // Unknown, not broken: the machine's addressing is whatever it is,
            // we just couldn't read it.
            hop.subtitle = Some(interface.to_string());
            hop.set_report(
                Status::Warn,
                Some(Fault::Unobserved),
                text::cat2(
                    "Couldn't read this machine's addresses — ",
                    e.message().as_str(),
                ).as_str(),
            );
        },
    }
    hop
}

fn lease_of(ip: Ipv4Addr, prefix: u8) -> (r: String)
    ensures
        r@ == lease(ip, prefix),
{
    text::cat3(
        addr::v4_to_string(ip).as_str(),
        "/",
        number::decimal_of(prefix as u128).as_str(),
    )
}

fn show_addresses(hop: &mut Hop, interface: &str, addrs: &AddrInfo)
    ensures
        final(hop)@ == addressed(old(hop)@, interface@, *addrs),
{
    hop.push_metric(Metric::new("Interface", interface));
    if let Some((ip, prefix)) = addrs.v4 {
        hop.subtitle = Some(lease_of(ip, prefix));
        hop.push_metric(Metric::new("IPv4", lease_of(ip, prefix).as_str()));
        // A CGNAT address on your own LAN means the ISP is sharing one public
        // address between subscribers: inbound connections and port forwarding
        // will not work, and no amount of router fiddling changes that.
        if is_cgnat(IpAddr::V4(ip)) {
            hop.push_metric(
                Metric::new("NAT", "carrier-grade (100.64.0.0/10)").with_status(Status::Warn),
            );
        }
    }
    let ghost start = hop@;
    let ghost all = v6_metrics(addrs.v6@);
    let mut i: usize = 0;
    assert(start.metrics + all.take(0) =~= start.metrics);
    while i < addrs.v6.len()
        invariant
            i <= addrs.v6@.len(),
            all == v6_metrics(addrs.v6@),
            hop@ == (path::HopView { metrics: start.metrics + all.take(i as int), ..start }),
        decreases addrs.v6@.len() - i,
    {
        hop.push_metric(Metric::new("IPv6", addr::v6_to_string(addrs.v6[i]).as_str()));
        i += 1;
        assert(start.metrics + all.take(i as int) =~= (start.metrics + all.take(i - 1)).push(
            all[i - 1],
        ));
    }
    assert(all.take(i as int) == all);
}

/// Grade the addressing on `interface`.
pub fn grade(hop: &mut Hop, interface: &str, addrs: &AddrInfo, gateway: Option<IpAddr>)
    ensures
        final(hop)@ == graded(old(hop)@, interface@, *addrs, gateway),
{
    show_addresses(hop, interface, addrs);
    let v6 = addrs.v6.len() > 0;
    // DHCPv4 never answered, so macOS autoconfigured. Whether that is a break
    // depends on IPv6: a routable v6 address means traffic still has a way
    // out, and failing the earliest hop in the chain would hand the whole
    // verdict to a fault that isn't stopping anything.
    if addrs.is_self_assigned() {
        if v6 {
            hop.set_report(
                Status::Warn,
                Some(Fault::SelfAssignedAddr),
                "DHCPv4 never answered (self-assigned address), but IPv6 is configured — anything IPv4-only will fail",
            );
        } else {
            hop.fail(
                Fault::SelfAssignedAddr,
                "Self-assigned address — DHCP never answered, so nothing can be reached",
            );
        }
        return;
    }
    if addrs.v4.is_none() && !v6 {
        hop.subtitle = Some(interface.to_string());
        hop.fail(
            Fault::NoAddress,
            "No address on this interface — the link is up but unconfigured",
        );
        return;
    }
    // An address and a gateway that share no subnet cannot talk to each other,
    // however healthy each is on its own.
    //
    // Graded like the self-assigned case, and for the same reason: it is a
    // break only when there is no other way out. As a mere warning it would
    // lose the verdict to the gateway's own collateral failure downstream,
    // while this hop already holds the certain, specific cause.
    if let Some(gw) = gateway {
        if let Some(false) = addrs.v4_contains(gw) {
            let name = addr::ip_to_string(gw);
            hop.push_metric(
                Metric::new(
                    "Gateway",
                    text::cat2(name.as_str(), " (outside your subnet)").as_str(),
                ).with_status(Status::Warn),
            );
            let note = text::cat3(
                "Your address and your gateway (",
                name.as_str(),
                ") are on different subnets — they can't reach each other",
            );
            if v6 {
                hop.set_report(
                    Status::Warn,
                    Some(Fault::GatewayOffSubnet),
                    text::cat2(note.as_str(), ", though IPv6 still has a path out").as_str(),
                );
            } else {
                hop.fail(Fault::GatewayOffSubnet, note.as_str());
            }
            return;
        }
    }
    hop.status = Status::Healthy;
    match addrs.v4 {
        Some((ip, prefix)) => {
            let own = lease_of(ip, prefix);
            hop.summary = Some(
                text::cat2(
                    own.as_str(),
                    if v6 {
                        " · dual stack"
                    } else {
                        " · IPv4 only"
                    },
                ),
            );
        },
        None => {
            hop.summary = Some("IPv6 only".to_string());
            hop.subtitle = Some("IPv6 only".to_string());
        },
    }
}

// ---- laws ----

/// The host is a break only where there is no way out: a routable IPv6 address
/// always leaves one.
pub proof fn a_way_out_over_ipv6_is_no_break(
    hop: path::HopView,
    interface: Seq<char>,
    addrs: AddrInfo,
    gateway: Option<IpAddr>,
)
    requires
        addrs.v6@.len() > 0,
    ensures
        graded(hop, interface, addrs, gateway).status != Status::Fail,
{
}

/// Without IPv6, the host is a break exactly when it has no address, one that
/// it gave itself, or a gateway outside its subnet.
pub proof fn an_ipv4_host_breaks_on_its_addressing(
    hop: path::HopView,
    interface: Seq<char>,
    addrs: AddrInfo,
    gateway: Option<IpAddr>,
)
    requires
        addrs.v6@.len() == 0,
    ensures
        graded(hop, interface, addrs, gateway).status == Status::Fail <==> addrs.v4 is None
            || addrs.self_assigned() || off_subnet(addrs, gateway),
{
}

/// The address is one that a machine gives itself, in `169.254.0.0/16`.
pub open spec fn gave_itself(addrs: AddrInfo) -> bool {
    addrs.v4 matches Some((ip, _)) && ip.a == 169 && ip.b == 254
}

/// A host is healthy exactly when it has an address that it did not give itself
/// and its gateway is not known to be outside its subnet. Otherwise it is
/// degraded where it has a routable IPv6 address, and broken where it has none;
/// the reason is the first of these that holds.
pub proof fn a_host_is_graded_on_its_addressing(
    hop: path::HopView,
    interface: Seq<char>,
    addrs: AddrInfo,
    gateway: Option<IpAddr>,
)
    requires
        hop.fault is None,
    ensures
        ({
            let found = graded(hop, interface, addrs, gateway);
            let v6 = addrs.v6@.len() > 0;
            let bare = addrs.v4 is None && !v6;
            let apart = gateway matches Some(gw) && addrs.holds(gw) == Some(false);
            let wrong = gave_itself(addrs) || bare || apart;
            &&& found.status == (if !wrong {
                Status::Healthy
            } else if v6 {
                Status::Warn
            } else {
                Status::Fail
            })
            &&& found.fault == (if gave_itself(addrs) {
                Some(Fault::SelfAssignedAddr)
            } else if bare {
                Some(Fault::NoAddress)
            } else if apart {
                Some(Fault::GatewayOffSubnet)
            } else {
                None
            })
            &&& found.id == hop.id
            &&& found.summary is Some
        }),
{
}

/// Addresses that could not be read are unknown, not broken, and say why.
pub proof fn unread_addresses_are_unknown(
    interface: Seq<char>,
    why: PlatformError,
    gateway: Option<IpAddr>,
)
    ensures
        host_hop(interface, Err(why), gateway).id == HopId::Host,
        host_hop(interface, Err(why), gateway).status == Status::Warn,
        host_hop(interface, Err(why), gateway).fault == Some(Fault::Unobserved),
        host_hop(interface, Err(why), gateway).summary matches Some(s) && text::ends_with(
            s,
            why@.words(),
        ),
{
    let s = "Couldn't read this machine's addresses — "@ + why@.words();
    assert(s.skip(s.len() - why@.words().len()) =~= why@.words());
}

/// A host shows its interface, its IPv4 address with its prefix, whether that is
/// shared behind the provider's NAT, and every IPv6 address.
pub proof fn a_host_shows_its_addresses(
    hop: path::HopView,
    interface: Seq<char>,
    addrs: AddrInfo,
    i: int,
)
    ensures
        ({
            let found = addressed(hop, interface, addrs);
            let had = hop.metrics.len() as int;
            let n = addrs.v6@.len() as int;
            &&& found.metrics[had] == path::plain("Interface"@, interface)
            &&& addrs.v4 matches Some((ip, prefix)) ==> {
                &&& found.metrics[had + 1] == path::plain(
                    "IPv4"@,
                    addr::v4_text(ip) + "/"@ + number::decimal(prefix as nat),
                )
                &&& ip.a == 100 && 64 <= ip.b <= 127 ==> found.metrics[had + 2].label == "NAT"@
                    && found.metrics[had + 2].status == Some(Status::Warn) && found.metrics.len()
                    == had + 3 + n
                &&& !(ip.a == 100 && 64 <= ip.b <= 127) ==> found.metrics.len() == had + 2 + n
            }
            &&& 0 <= i < n ==> found.metrics[found.metrics.len() - n + i] == path::plain(
                "IPv6"@,
                addr::v6_text(addrs.v6@[i]@),
            )
        }),
{
    let found = addressed(hop, interface, addrs);
    let lines = v6_metrics(addrs.v6@);
    assert(lines.len() == addrs.v6@.len());
    if 0 <= i < lines.len() {
        assert(found.metrics[found.metrics.len() - lines.len() + i] == lines[i]);
    }
}

} // verus!
