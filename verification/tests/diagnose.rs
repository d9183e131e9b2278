//! Verdicts on whole paths.

use wtfi2::diagnose::{diagnose, Confidence};
use wtfi2::model::{Fault, Hop, HopId, Layer, Loss, Metric, Path, Status};
use wtfi2::probe::net::LOSS_WARN_PCT;

/// A share in percent.
fn percent(p: f64) -> Loss {
    Loss::new((p * 100.0).round() as u32, 10_000)
}

fn hop(id: HopId, layer: Layer, s: Status) -> Hop {
    let mut h = Hop::new(id, layer, "x");
    h.status = s;
    h
}

/// A chain where nothing ran has no break and no warning, so without the
/// guard it reaches the clean bill of health and calls a connection that
/// was never measured "fully online".
#[test]
fn a_chain_that_never_ran_is_not_called_healthy() {
    let mut link = hop(HopId::Link, Layer::Link, Status::Skipped);
    link.summary = Some("no platform module for this OS".into());
    let p = Path {
        hops: vec![
            hop(HopId::Host, Layer::Link, Status::Healthy),
            link,
            hop(HopId::Gateway, Layer::Network, Status::Skipped),
            hop(HopId::Wan, Layer::Internet, Status::Skipped),
            hop(HopId::Dns, Layer::Application, Status::Skipped),
            hop(HopId::Captive, Layer::Application, Status::Skipped),
        ],
    };
    let v = diagnose(&p);
    assert_eq!(v.status, Status::Skipped);
    assert_ne!(v.headline, "You're fully online");
    // The reason travels from the hop that recorded it, not from a second
    // copy of the platform check living in here.
    assert!(v.cause.contains("no platform module"));
}

#[test]
fn a_missing_route_is_not_reported_as_a_dead_wifi_link() {
    let mut link = hop(HopId::Link, Layer::Link, Status::Fail);
    link.fault = Some(Fault::NoRoute);
    let p = Path {
        hops: vec![link, hop(HopId::Gateway, Layer::Network, Status::Skipped)],
    };
    let v = diagnose(&p);
    assert!(
        !v.headline.contains("link is down"),
        "a routing fault must not be announced as a link fault, got: {}",
        v.headline
    );
    assert!(v.cause.contains("DHCP"), "got: {}", v.cause);
    assert!(v.fix.as_deref().unwrap().contains("DHCP"));
}

/// The other side of the same coin: a genuinely disassociated link keeps
/// the link verdict.
#[test]
fn a_disassociated_link_still_reads_as_a_dead_link() {
    let mut link = hop(HopId::Link, Layer::Link, Status::Fail);
    link.fault = Some(Fault::NotAssociated);
    let p = Path { hops: vec![link] };
    let v = diagnose(&p);
    assert!(v.headline.contains("Wi-Fi link is down"), "{}", v.headline);
}

/// "The table has no gateway" and "the gateway won't answer" are different
/// faults: one has nothing to ping, the other pinged and got silence.
#[test]
fn a_missing_gateway_is_not_reported_as_a_silent_router() {
    let mut gw = hop(HopId::Gateway, Layer::Network, Status::Fail);
    gw.fault = Some(Fault::NoGateway);
    let p = Path {
        hops: vec![hop(HopId::Link, Layer::Link, Status::Healthy), gw],
    };
    let v = diagnose(&p);
    assert!(v.headline.contains("no default gateway"), "{}", v.headline);
    assert!(
        !v.cause.contains("answering pings"),
        "nothing was pinged, so don't claim it: {}",
        v.cause
    );
}

#[test]
fn an_unreadable_tunnel_stops_the_isp_being_blamed_outright() {
    let mut vpn = hop(HopId::Vpn, Layer::Network, Status::Warn);
    vpn.fault = Some(Fault::Unobserved);
    let p = Path {
        hops: vec![
            hop(HopId::Link, Layer::Link, Status::Healthy),
            hop(HopId::Gateway, Layer::Network, Status::Healthy),
            vpn,
            hop(HopId::Wan, Layer::Internet, Status::Fail),
        ],
    };
    let v = diagnose(&p);
    assert!(
        !v.headline.contains("ISP"),
        "the ISP can't be named while the tunnel is unreadable: {}",
        v.headline
    );
    assert_eq!(v.confidence, Confidence::Guess);
    assert!(v.fix.as_deref().unwrap().contains("VPN"));
}

/// …but a readable, absent VPN still lets the ISP verdict stand.
#[test]
fn a_readable_absence_of_vpn_leaves_the_isp_verdict_intact() {
    let p = Path {
        hops: vec![
            hop(HopId::Gateway, Layer::Network, Status::Healthy),
            hop(HopId::Wan, Layer::Internet, Status::Fail),
        ],
    };
    assert!(diagnose(&p).headline.contains("ISP"));
}

/// A probe that overran its deadline observed nothing. Reporting that as
/// "DNS is slow" would be a diagnosis invented out of a missing
/// measurement — the exact failure mode `Fault` exists to prevent.
#[test]
fn an_unmeasured_hop_is_not_reported_as_a_degraded_one() {
    let mut dns = hop(HopId::Dns, Layer::Application, Status::Warn);
    dns.fault = Some(Fault::Unobserved);
    dns.summary = Some("The DNS probe didn't finish".into());
    let p = Path {
        hops: vec![
            hop(HopId::Link, Layer::Link, Status::Healthy),
            hop(HopId::Gateway, Layer::Network, Status::Healthy),
            hop(HopId::Wan, Layer::Internet, Status::Healthy),
            dns,
        ],
    };
    let v = diagnose(&p);
    assert_eq!(v.status, Status::Warn);
    assert!(
        !v.headline.contains("slow"),
        "an unmeasured resolver was never timed, so don't call it slow: {}",
        v.headline
    );
    assert!(v.cause.contains("unknown rather than unhealthy"));
}

/// A sweep-level deadline takes several hops down at once, but only the
/// earliest reaches `explain_warn`. Claiming "the rest reported" would put
/// a false statement in the headline, contradicting the detail panel
/// printed right underneath it.
#[test]
fn several_unmeasured_hops_are_counted_not_waved_away() {
    let mut hops = Vec::new();
    for id in [HopId::Link, HopId::Gateway, HopId::Wan] {
        let mut h = hop(id, Layer::Internet, Status::Warn);
        h.fault = Some(Fault::Unobserved);
        h.summary = Some("The sweep ended before this hop reported".into());
        hops.push(h);
    }
    let v = diagnose(&Path { hops });
    assert!(
        v.cause.contains("3 hops went unmeasured"),
        "got: {}",
        v.cause
    );
    assert!(
        !v.cause.contains("rest of the path reported"),
        "must not claim hops reported when they did not: {}",
        v.cause
    );
}

#[test]
fn a_lone_unmeasured_hop_still_says_the_rest_reported() {
    let mut dns = hop(HopId::Dns, Layer::Application, Status::Warn);
    dns.fault = Some(Fault::Unobserved);
    dns.summary = Some("The DNS probe didn't finish".into());
    let p = Path {
        hops: vec![
            hop(HopId::Link, Layer::Link, Status::Healthy),
            hop(HopId::Gateway, Layer::Network, Status::Healthy),
            dns,
        ],
    };
    assert!(diagnose(&p).cause.contains("rest of the path reported"));
}

#[test]
fn a_degraded_hop_still_reports_a_gap_further_along() {
    let mut link = hop(HopId::Link, Layer::Link, Status::Warn);
    link.summary = Some("Weak · -82 dBm".into());
    let mut dns = hop(HopId::Dns, Layer::Application, Status::Warn);
    dns.fault = Some(Fault::Unobserved);
    let p = Path {
        hops: vec![link, hop(HopId::Gateway, Layer::Network, Status::Healthy), dns],
    };
    let v = diagnose(&p);
    assert!(v.headline.contains("Weak Wi-Fi"), "got: {}", v.headline);
    assert!(v.cause.contains("went unmeasured"), "got: {}", v.cause);
}

/// With nothing unmeasured the cause stays clean — no trailing clause.
#[test]
fn a_fully_measured_path_adds_no_gap_note() {
    let mut link = hop(HopId::Link, Layer::Link, Status::Warn);
    link.summary = Some("Weak · -82 dBm".into());
    let p = Path {
        hops: vec![link, hop(HopId::Gateway, Layer::Network, Status::Healthy)],
    };
    assert!(!diagnose(&p).cause.contains("went unmeasured"));
}

/// A lease that never arrived is a break at the *host*, earlier in the
/// chain than anything downstream. Before the host hop measured anything,
/// this network read as "your router isn't responding" — sending you to
/// reboot a router that was answering everyone else just fine.
#[test]
fn a_self_assigned_address_owns_the_verdict_over_the_router() {
    let mut host = hop(HopId::Host, Layer::Link, Status::Fail);
    host.fault = Some(Fault::SelfAssignedAddr);
    let p = Path {
        hops: vec![
            host,
            hop(HopId::Link, Layer::Link, Status::Healthy),
            hop(HopId::Gateway, Layer::Network, Status::Fail),
            hop(HopId::Wan, Layer::Internet, Status::Fail),
        ],
    };
    let v = diagnose(&p);
    assert!(v.headline.contains("DHCP"), "got: {}", v.headline);
    assert!(!v.headline.contains("router"), "got: {}", v.headline);
    assert_eq!(v.confidence, Confidence::Certain);
}

#[test]
fn a_failed_host_hop_is_not_read_as_an_absence_of_evidence() {
    let mut host = hop(HopId::Host, Layer::Link, Status::Fail);
    host.fault = Some(Fault::NoAddress);
    let p = Path {
        hops: vec![
            host,
            hop(HopId::Link, Layer::Link, Status::Skipped),
            hop(HopId::Gateway, Layer::Network, Status::Skipped),
        ],
    };
    let v = diagnose(&p);
    assert_eq!(v.status, Status::Fail);
    assert_ne!(v.headline, "Nothing was measured");
}

/// …while a healthy host hop still lets that guard do its job.
#[test]
fn a_healthy_host_hop_does_not_block_the_nothing_measured_verdict() {
    let p = Path {
        hops: vec![
            hop(HopId::Host, Layer::Link, Status::Healthy),
            hop(HopId::Link, Layer::Link, Status::Skipped),
            hop(HopId::Gateway, Layer::Network, Status::Skipped),
        ],
    };
    assert_eq!(diagnose(&p).headline, "Nothing was measured");
}

/// The gateway's own probe fails as collateral here, and its arm says
/// "reboot the router" at `Likely` — while the host hop already holds the
/// certain, specific cause. `Host` sorts before `Gateway`, so grading this
/// as a break is what lets the right evidence win.
#[test]
fn a_gateway_off_subnet_beats_the_routers_collateral_failure() {
    let mut host = hop(HopId::Host, Layer::Link, Status::Fail);
    host.fault = Some(Fault::GatewayOffSubnet);
    let mut gw = hop(HopId::Gateway, Layer::Network, Status::Fail);
    gw.fault = Some(Fault::GatewaySilent);
    let p = Path {
        hops: vec![host, hop(HopId::Link, Layer::Link, Status::Healthy), gw],
    };
    let v = diagnose(&p);
    assert!(v.headline.contains("don't match"), "got: {}", v.headline);
    assert!(
        !v.fix.as_deref().unwrap().contains("Reboot"),
        "the router is fine; it just can't be reached"
    );
    assert_eq!(v.confidence, Confidence::Certain);
}

/// A hijacked resolver *answers* — it just lies. Reporting that as "name
/// resolution is failing … a classic DNS-only outage" describes the
/// opposite symptom and never mentions the interception the hop detected.
#[test]
fn a_hijacked_resolver_is_not_reported_as_an_outage() {
    let mut dns = hop(HopId::Dns, Layer::Application, Status::Fail);
    dns.fault = Some(Fault::ResolverHijacked);
    let p = Path {
        hops: vec![
            hop(HopId::Gateway, Layer::Network, Status::Healthy),
            hop(HopId::Wan, Layer::Internet, Status::Healthy),
            dns,
        ],
    };
    let v = diagnose(&p);
    assert!(v.headline.contains("substituted"), "got: {}", v.headline);
    assert!(!v.cause.contains("resolution fails"), "got: {}", v.cause);
}

/// And the Warn side: synthesised NXDOMAIN is dishonesty, not slowness.
#[test]
fn nxdomain_hijacking_is_not_reported_as_slowness() {
    let mut dns = hop(HopId::Dns, Layer::Application, Status::Warn);
    dns.fault = Some(Fault::ResolverHijacked);
    dns.summary = Some("Your resolver invents answers for names that don't exist".into());
    let p = Path {
        hops: vec![
            hop(HopId::Gateway, Layer::Network, Status::Healthy),
            hop(HopId::Wan, Layer::Internet, Status::Healthy),
            dns,
        ],
    };
    let v = diagnose(&p);
    assert!(
        v.headline.contains("invents answers"),
        "got: {}",
        v.headline
    );
    assert!(!v.headline.contains("slow"), "got: {}", v.headline);
}

/// The headline feature of the multi-operator probe has to reach the
/// verdict. Without its own arm it fell through to "Internet is up but
/// degraded … check for background traffic" — the wrong complaint, with a
/// remedy that does nothing about filtered egress.
#[test]
fn a_filtered_target_gets_its_own_verdict() {
    let mut wan = hop(HopId::Wan, Layer::Internet, Status::Warn);
    wan.fault = Some(Fault::TargetBlocked);
    wan.summary =
        Some("Reachable via Google (12 ms), but this network blocks Cloudflare".into());
    let p = Path {
        hops: vec![
            hop(HopId::Gateway, Layer::Network, Status::Healthy),
            wan,
            hop(HopId::Dns, Layer::Application, Status::Healthy),
        ],
    };
    let v = diagnose(&p);
    assert!(v.headline.contains("filters"), "got: {}", v.headline);
    assert!(v.cause.contains("Cloudflare"), "got: {}", v.cause);
    assert!(
        !v.fix.as_deref().unwrap().contains("background traffic"),
        "filtered egress is not a congestion problem"
    );
}

/// Every hop green and nothing working is the one failure the topology
/// diagram cannot show, so the verdict has to say it in words — and it has
/// to outrank the lossy-uplink arm, because a path that carries nothing is
/// worse news than a path that carries most things.
#[test]
fn a_path_that_only_answers_handshakes_is_named_as_such() {
    let mut wan = hop(HopId::Wan, Layer::Internet, Status::Warn);
    wan.fault = Some(Fault::HandshakeOnly);
    wan.loss_pct = Some(percent(40.0));
    let p = Path {
        hops: vec![
            hop(HopId::Host, Layer::Link, Status::Healthy),
            hop(HopId::Link, Layer::Link, Status::Healthy),
            hop(HopId::Gateway, Layer::Network, Status::Healthy),
            wan,
        ],
    };
    let v = diagnose(&p);
    assert!(
        v.headline.contains("answering for the internet"),
        "{}",
        v.headline
    );
    assert!(!v.headline.contains("dropping packets"), "{}", v.headline);
    assert!(v.fix.as_deref().unwrap().contains("sign-in page"));
}

/// The verdict this whole hop exists to replace. "Your ISP / uplink is
/// down — check the modem lights" is the part the reader already knew;
/// once the sweep has located the break, the verdict has to use it.
#[test]
fn a_located_break_replaces_the_vague_isp_verdict() {
    let mut uplink = hop(HopId::Uplink, Layer::Internet, Status::Fail);
    uplink.fault = Some(Fault::UplinkDiesInIsp);
    uplink.summary = Some(
        "Dies past hop 2 — the last reply came from 203.0.113.1, then 4 hops of silence".into(),
    );
    let p = Path {
        hops: vec![
            hop(HopId::Host, Layer::Link, Status::Healthy),
            hop(HopId::Link, Layer::Link, Status::Healthy),
            hop(HopId::Gateway, Layer::Network, Status::Healthy),
            uplink,
            hop(HopId::Wan, Layer::Internet, Status::Fail),
        ],
    };
    let v = diagnose(&p);
    assert!(
        v.headline.contains("inside your ISP"),
        "got: {}",
        v.headline
    );
    assert!(
        !v.headline.contains("uplink is down"),
        "got: {}",
        v.headline
    );
    // The claim has to carry its evidence, not ask to be trusted.
    assert!(v.cause.contains("203.0.113.1"), "got: {}", v.cause);
}

/// Dying at the first step outside the house is a different call to make
/// than dying inside the provider's network — one is your modem, the
/// other is theirs.
#[test]
fn a_break_at_the_modem_gets_its_own_verdict() {
    let mut uplink = hop(HopId::Uplink, Layer::Internet, Status::Fail);
    uplink.fault = Some(Fault::UplinkDiesAtModem);
    uplink.summary = Some("Dies immediately past your router".into());
    let p = Path {
        hops: vec![
            hop(HopId::Gateway, Layer::Network, Status::Healthy),
            uplink,
            hop(HopId::Wan, Layer::Internet, Status::Fail),
        ],
    };
    let v = diagnose(&p);
    assert!(v.headline.contains("on your line"), "got: {}", v.headline);
    assert!(v.fix.as_deref().unwrap().contains("modem"));
}

/// The sweep sits before the WAN hop in the chain, so `first_break` must
/// reach it first — that ordering is what makes the located verdict win.
#[test]
fn the_uplink_hop_precedes_the_wan_hop_in_the_chain() {
    assert!((HopId::Uplink as usize) < (HopId::Wan as usize));
    assert!((HopId::Gateway as usize) < (HopId::Uplink as usize));
}

/// The Wan arm has checked `vpn_is_full_tunnel` since the VPN hop landed,
/// but Uplink sits *before* Wan in the chain, so `first_break` reaches it
/// first and that reframe never runs. The sweep traces over whatever owns
/// the default route — the tunnel — so "hop 1 is your own router" is
/// simply untrue, and the verdict would send you to your modem or your
/// ISP for a VPN fault.
#[test]
fn a_full_tunnel_vpn_reframes_the_uplink_verdict_too() {
    let mut vpn = hop(HopId::Vpn, Layer::Network, Status::Healthy);
    vpn.metrics
        .push(Metric::new("Mode", "full-tunnel"));
    let mut uplink = hop(HopId::Uplink, Layer::Internet, Status::Fail);
    uplink.fault = Some(Fault::UplinkDiesInIsp);
    uplink.summary = Some("Dies past hop 2 — the last reply came from 100.64.0.1".into());
    let p = Path {
        hops: vec![
            hop(HopId::Gateway, Layer::Network, Status::Healthy),
            vpn,
            uplink,
            hop(HopId::Wan, Layer::Internet, Status::Fail),
        ],
    };
    let v = diagnose(&p);
    assert!(v.headline.contains("VPN"), "got: {}", v.headline);
    assert!(
        !v.fix.as_deref().unwrap().contains("modem"),
        "a VPN fault must not send the reader to their modem"
    );
    assert!(v.cause.contains("through the tunnel"), "got: {}", v.cause);
}

/// A split-tunnel VPN does not own the default route, so the sweep really
/// did trace your own line and the located verdict stands.
#[test]
fn a_split_tunnel_vpn_leaves_the_uplink_verdict_alone() {
    let mut vpn = hop(HopId::Vpn, Layer::Network, Status::Healthy);
    vpn.metrics
        .push(Metric::new("Mode", "split-tunnel"));
    let mut uplink = hop(HopId::Uplink, Layer::Internet, Status::Fail);
    uplink.fault = Some(Fault::UplinkDiesInIsp);
    uplink.summary = Some("Dies past hop 2".into());
    let p = Path {
        hops: vec![hop(HopId::Gateway, Layer::Network, Status::Healthy), vpn, uplink],
    };
    assert!(diagnose(&p).headline.contains("inside your ISP"));
}

/// The VPN probe and the WAN failure are independent events, so both can
/// time out in one run. `vpn_is_full_tunnel` needs a `Mode` metric an
/// unmeasured VPN hop doesn't have, so without a hedge the verdict says
/// "report the outage to your ISP" at `Likely` for a trace that may have
/// gone through a dead tunnel — and `Uplink` preceding `Wan` means that
/// arm's own hedge never gets to run.
#[test]
fn an_unknown_vpn_state_hedges_the_uplink_verdict_too() {
    let mut vpn = hop(HopId::Vpn, Layer::Network, Status::Warn);
    vpn.fault = Some(Fault::Unobserved);
    let mut uplink = hop(HopId::Uplink, Layer::Internet, Status::Fail);
    uplink.fault = Some(Fault::UplinkDiesInIsp);
    uplink.summary = Some("Dies past hop 2.".into());
    let p = Path {
        hops: vec![
            hop(HopId::Gateway, Layer::Network, Status::Healthy),
            vpn,
            uplink,
            hop(HopId::Wan, Layer::Internet, Status::Fail),
        ],
    };
    let v = diagnose(&p);
    assert_eq!(v.confidence, Confidence::Guess);
    assert!(
        !v.fix.as_deref().unwrap().contains("Report the outage"),
        "don't send the reader to their ISP on an unread tunnel: {:?}",
        v.fix
    );
    assert!(v.cause.contains("may not be your ISP"), "got: {}", v.cause);
}

#[test]
fn dns_only_outage_is_pinpointed() {
    let p = Path {
        hops: vec![
            hop(HopId::Link, Layer::Link, Status::Healthy),
            hop(HopId::Gateway, Layer::Network, Status::Healthy),
            hop(HopId::Wan, Layer::Internet, Status::Healthy),
            hop(HopId::Dns, Layer::Application, Status::Fail),
        ],
    };
    let v = diagnose(&p);
    assert_eq!(v.status, Status::Fail);
    assert!(v.headline.contains("DNS"));
    assert!(v.cause.contains("Raw internet works"));
}

#[test]
fn earliest_break_wins_over_downstream() {
    let p = Path {
        hops: vec![
            hop(HopId::Link, Layer::Link, Status::Healthy),
            hop(HopId::Gateway, Layer::Network, Status::Fail),
            hop(HopId::Wan, Layer::Internet, Status::Fail),
            hop(HopId::Dns, Layer::Application, Status::Fail),
        ],
    };
    let v = diagnose(&p);
    assert!(v.headline.contains("router"));
}

#[test]
fn captive_portal_overrides_upstream_wan_fail() {
    // Portals blackhole TCP to 1.1.1.1, so WAN fails first in the chain —
    // but the portal is the real, actionable cause.
    let p = Path {
        hops: vec![
            hop(HopId::Link, Layer::Link, Status::Healthy),
            hop(HopId::Gateway, Layer::Network, Status::Healthy),
            hop(HopId::Wan, Layer::Internet, Status::Fail),
            hop(HopId::Dns, Layer::Application, Status::Skipped),
            hop(HopId::Captive, Layer::Application, Status::Fail),
        ],
    };
    let v = diagnose(&p);
    assert!(
        v.headline.to_lowercase().contains("portal"),
        "expected portal verdict, got: {}",
        v.headline
    );
}

#[test]
fn full_tunnel_vpn_reframes_wan_outage() {
    let mut vpn = hop(HopId::Vpn, Layer::Network, Status::Healthy);
    vpn.metrics.push(Metric::new("Mode", "full-tunnel"));
    let p = Path {
        hops: vec![
            hop(HopId::Link, Layer::Link, Status::Healthy),
            hop(HopId::Gateway, Layer::Network, Status::Healthy),
            vpn,
            hop(HopId::Wan, Layer::Internet, Status::Fail),
        ],
    };
    let v = diagnose(&p);
    assert!(
        v.headline.contains("VPN"),
        "full-tunnel VPN should own a WAN outage, got: {}",
        v.headline
    );
    assert!(v.fix.as_deref().unwrap().contains("Disconnect the VPN"));
}

#[test]
fn split_tunnel_vpn_leaves_wan_outage_as_isp() {
    let mut vpn = hop(HopId::Vpn, Layer::Network, Status::Healthy);
    vpn.metrics.push(Metric::new("Mode", "split-tunnel"));
    let p = Path {
        hops: vec![
            hop(HopId::Gateway, Layer::Network, Status::Healthy),
            vpn,
            hop(HopId::Wan, Layer::Internet, Status::Fail),
        ],
    };
    // Split-tunnel doesn't carry the default route, so a WAN outage is
    // still the ISP's, not the tunnel's.
    assert!(diagnose(&p).headline.contains("ISP"));
}

fn lossy(id: HopId, layer: Layer, loss_pct: f64) -> Hop {
    let mut h = hop(id, layer, Status::Warn);
    h.loss_pct = Some(percent(loss_pct));
    h
}

#[test]
fn lossy_lan_is_diagnosed_even_though_every_hop_is_up() {
    // The whole point of measuring loss: nothing is broken, a checklist
    // would say "all good", but the network is unusable.
    let p = Path {
        hops: vec![
            hop(HopId::Link, Layer::Link, Status::Healthy),
            lossy(HopId::Gateway, Layer::Network, 40.0),
            hop(HopId::Wan, Layer::Internet, Status::Healthy),
            hop(HopId::Dns, Layer::Application, Status::Healthy),
        ],
    };
    let v = diagnose(&p);
    assert_eq!(v.status, Status::Warn);
    assert!(
        v.headline.contains("dropping packets"),
        "expected a loss verdict, got: {}",
        v.headline
    );
    assert!(v.cause.contains("40%"), "cause must quote the loss");
}

#[test]
fn strong_signal_with_lossy_lan_rules_out_distance() {
    // Full bars but unusable — the verdict must say the signal is fine so
    // the user stops walking towards the router.
    let mut link = hop(HopId::Link, Layer::Link, Status::Healthy);
    link.summary = Some("Excellent · -45 dBm".into());
    let p = Path {
        hops: vec![link, lossy(HopId::Gateway, Layer::Network, 40.0)],
    };
    let v = diagnose(&p);
    assert!(v.cause.contains("-45 dBm"));
    assert!(v.cause.contains("isn't distance"));
}

#[test]
fn weak_link_owns_the_verdict_but_quotes_the_loss_it_causes() {
    // Both hops warn; the link is earlier in the chain and is the cause,
    // while the gateway loss is the evidence of what it costs.
    let mut link = hop(HopId::Link, Layer::Link, Status::Warn);
    link.summary = Some("Weak · -82 dBm".into());
    let p = Path {
        hops: vec![link, lossy(HopId::Gateway, Layer::Network, 60.0)],
    };
    let v = diagnose(&p);
    assert!(v.headline.contains("Weak Wi-Fi"));
    assert!(
        v.cause.contains("60% packet loss"),
        "link verdict should quote the damage, got: {}",
        v.cause
    );
}

#[test]
fn clean_lan_with_lossy_wan_blames_the_uplink() {
    let p = Path {
        hops: vec![
            hop(HopId::Link, Layer::Link, Status::Healthy),
            hop(HopId::Gateway, Layer::Network, Status::Healthy),
            lossy(HopId::Wan, Layer::Internet, 40.0),
            hop(HopId::Dns, Layer::Application, Status::Healthy),
        ],
    };
    let v = diagnose(&p);
    assert!(
        v.headline.contains("uplink"),
        "expected an uplink verdict, got: {}",
        v.headline
    );
    assert!(v.cause.contains("LAN is clean"));
    assert!(v.fix.as_deref().unwrap().contains("ISP"));
}

#[test]
fn loss_below_the_threshold_is_not_the_story() {
    // A single dropped echo is Wi-Fi noise. If a probe still grades the hop
    // as degraded, the verdict must fall back to the generic explanation
    // rather than claiming packet loss.
    let mut gw = hop(HopId::Gateway, Layer::Network, Status::Warn);
    gw.loss_pct = Some(percent(f64::from(LOSS_WARN_PCT) - 5.0));
    gw.summary = Some("Router is sluggish — 120 ms round trip".into());
    let p = Path {
        hops: vec![hop(HopId::Link, Layer::Link, Status::Healthy), gw],
    };
    let v = diagnose(&p);
    assert!(
        !v.headline.contains("dropping packets"),
        "sub-threshold loss must not be reported as loss, got: {}",
        v.headline
    );
    // The verdict defers to the hop's own summary rather than guessing.
    assert!(v.cause.contains("sluggish"));
}

#[test]
fn all_ok_is_clean() {
    let p = Path {
        hops: vec![
            hop(HopId::Link, Layer::Link, Status::Healthy),
            hop(HopId::Gateway, Layer::Network, Status::Healthy),
            hop(HopId::Wan, Layer::Internet, Status::Healthy),
            hop(HopId::Dns, Layer::Application, Status::Healthy),
        ],
    };
    assert_eq!(diagnose(&p).status, Status::Healthy);
}

/// Everything past the first break is collateral, whatever it says.
#[test]
fn what_lies_past_the_break_does_not_change_the_verdict() {
    let verdict = |dns: Status| {
        let mut wan = Hop::new(HopId::Wan, Layer::Internet, "Internet");
        wan.fail(Fault::NoInternet, "gone");
        let mut dns_hop = Hop::new(HopId::Dns, Layer::Application, "DNS");
        dns_hop.status = dns;
        dns_hop.summary = Some(format!("{dns:?}"));
        let v = diagnose(&Path {
            // Out of chain order on purpose.
            hops: vec![dns_hop, wan],
        });
        (v.status, v.headline, v.cause, v.fix, v.source)
    };
    let first = verdict(Status::Fail);
    assert_eq!(first.4, Some(HopId::Wan));
    for dns in [Status::Healthy, Status::Warn, Status::Skipped] {
        assert_eq!(verdict(dns), first);
    }
}
