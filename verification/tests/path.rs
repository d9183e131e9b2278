//! The path: its hops, their order and their faults.

use wtfi2::model::{Fault, Hop, HopId, Layer, Path, Status};

#[test]
fn first_break_returns_earliest_fail() {
    let mut p = Path::default();
    let mut g = Hop::new(HopId::Gateway, Layer::Network, "Gateway");
    g.status = Status::Healthy;
    let mut d = Hop::new(HopId::Dns, Layer::Application, "DNS");
    d.status = Status::Fail;
    let mut w = Hop::new(HopId::Wan, Layer::Internet, "WAN");
    w.status = Status::Fail;
    p.hops = vec![g, w, d];
    // WAN comes before DNS in the vec, so it is the first break.
    assert_eq!(p.first_break().unwrap().id, HopId::Wan);
}

#[test]
fn first_break_uses_chain_order_not_vec_order() {
    // Fails inserted out of chain order: Dns before Gateway in the vec.
    let mut d = Hop::new(HopId::Dns, Layer::Application, "DNS");
    d.status = Status::Fail;
    let mut g = Hop::new(HopId::Gateway, Layer::Network, "Gateway");
    g.status = Status::Fail;
    let p = Path { hops: vec![d, g] };
    // Gateway is earlier in the chain, so it wins regardless of vec order.
    assert_eq!(p.first_break().unwrap().id, HopId::Gateway);
}

#[test]
fn upsert_inserts_conditional_hop_in_chain_order() {
    let mut p = Path {
        hops: vec![
            Hop::new(HopId::Gateway, Layer::Network, "Gateway"),
            Hop::new(HopId::Wan, Layer::Internet, "Internet"),
        ],
    };
    // A VPN hop isn't in the seed; it must land between Gateway and Wan.
    p.upsert(Hop::new(HopId::Vpn, Layer::Network, "VPN"));
    let ids: Vec<_> = p.hops.iter().map(|h| h.id).collect();
    assert_eq!(ids, vec![HopId::Gateway, HopId::Vpn, HopId::Wan]);
}

#[test]
fn upsert_replaces_existing_hop_in_place() {
    let mut p = Path {
        hops: vec![Hop::new(HopId::Vpn, Layer::Network, "VPN")],
    };
    let mut updated = Hop::new(HopId::Vpn, Layer::Network, "VPN");
    updated.status = Status::Healthy;
    p.upsert(updated);
    assert_eq!(p.hops.len(), 1);
    assert_eq!(p.hops[0].status, Status::Healthy);
}

/// `fail` is the only way a probe should break a hop, so the code and the
/// prose can never be set independently and drift apart.
#[test]
fn fail_records_the_code_alongside_the_prose() {
    let mut h = Hop::new(HopId::Gateway, Layer::Network, "Gateway");
    h.fail(Fault::GatewaySilent, "Router isn't answering");
    assert_eq!(h.status, Status::Fail);
    assert_eq!(h.fault, Some(Fault::GatewaySilent));
    assert_eq!(h.summary.as_deref(), Some("Router isn't answering"));
}

#[test]
fn fault_codes_are_stable_and_distinct() {
    // `--json` consumers branch on these strings.
    let all = [
        Fault::Unobserved,
        Fault::NotAssociated,
        Fault::SelfAssignedAddr,
        Fault::NoAddress,
        Fault::GatewayOffSubnet,
        Fault::NoRoute,
        Fault::NoGateway,
        Fault::GatewaySilent,
        Fault::UplinkDiesAtModem,
        Fault::UplinkDiesInIsp,
        Fault::NoInternet,
        Fault::TargetBlocked,
        Fault::HandshakeOnly,
        Fault::ResolverDead,
        Fault::ResolverHijacked,
        Fault::PortalIntercept,
        Fault::TunnelDown,
    ];
    let mut codes: Vec<_> = all.iter().map(|f| f.code()).collect();
    codes.sort_unstable();
    let len = codes.len();
    codes.dedup();
    assert_eq!(codes.len(), len, "fault codes must be distinct");
}

#[test]
fn fault_codes_are_lower_case_words() {
    for code in [Fault::Unobserved.code(), Fault::UplinkDiesAtModem.code(), Fault::TunnelDown.code()] {
        assert!(!code.is_empty());
        assert!(code.chars().all(|c| c.is_ascii_lowercase() || c == '_'), "{code}");
    }
}

#[test]
fn skipped_hops_count_as_complete() {
    // A real outage skips downstream hops; the path must still be
    // "complete" so the dashboard renders a verdict instead of spinning.
    let mut link = Hop::new(HopId::Link, Layer::Link, "Wi-Fi");
    link.status = Status::Fail;
    let mut gw = Hop::new(HopId::Gateway, Layer::Network, "Gateway");
    gw.status = Status::Skipped;
    let p = Path {
        hops: vec![link, gw],
    };
    assert!(p.is_complete());
}

#[test]
fn a_path_holds_one_report_of_each_hop() {
    let mut path = Path::default();
    for id in [HopId::Dns, HopId::Host, HopId::Wan, HopId::Dns] {
        path.upsert(Hop::new(id, Layer::Network, "Hop"));
    }
    let ids: Vec<HopId> = path.hops.iter().map(|h| h.id).collect();
    assert_eq!(ids, vec![HopId::Host, HopId::Wan, HopId::Dns]);
    path.get_mut(HopId::Wan).unwrap().fail(Fault::NoInternet, "gone");
    assert_eq!(path.first_break().unwrap().id, HopId::Wan);
    assert_eq!(path.first_with(Status::Pending).unwrap().id, HopId::Host);
    assert!(path.get_mut(HopId::Vpn).is_none());
    assert!(!path.is_complete());
}

#[test]
fn statuses_are_ordered_by_severity() {
    assert!(Status::Healthy < Status::Warn);
    assert!(Status::Warn < Status::Fail);
    assert_eq!(Status::Skipped.max(Status::Healthy), Status::Healthy);
    assert_eq!(Status::Fail.max(Status::Warn), Status::Fail);
    assert_eq!(Status::Warn.severity(), 2);
    assert_eq!(Status::Fail.glyph(), "✗");
    assert!(!Status::Pending.is_terminal());
}
