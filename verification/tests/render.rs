//! The text report.

use wtfi2::diagnose::{diagnose, Confidence, Verdict};
use wtfi2::model::{Fault, Hop, HopId, Layer, Loss, Metric, Path, Status};
use wtfi2::render::{pad, report, Palette};

fn ok(id: HopId, layer: Layer, title: &str) -> Hop {
    let mut h = Hop::new(id, layer, title);
    h.status = Status::Healthy;
    h
}

#[test]
fn lossy_path_reports_degraded_even_with_no_broken_hop() {
    // End-to-end through the real diagnosis and renderer: no hop is down,
    // so the topology stays unbroken, yet the report must not say "all
    // good" — it has to name the loss and where it is.
    let mut gw = ok(HopId::Gateway, Layer::Network, "Gateway");
    gw.status = Status::Warn;
    gw.loss_pct = Some(Loss::new(40, 100));
    gw.summary = Some("Router answers (4 ms) but the local path is unhealthy".into());
    gw.metrics
        .push(Metric::new("Loss", "40% (2/5 lost)").with_status(Status::Warn));
    let path = Path {
        hops: vec![
            ok(HopId::Link, Layer::Link, "Wi-Fi"),
            gw,
            ok(HopId::Wan, Layer::Internet, "Internet"),
            ok(HopId::Dns, Layer::Application, "DNS"),
        ],
    };
    let out = report(&path, &diagnose(&path), true, false);
    assert!(
        out.contains("DEGRADED"),
        "must not read as all-good:\n{out}"
    );
    assert!(out.contains("dropping packets"));
    assert!(out.contains("40%"));
    assert!(!out.contains("─✗─"), "nothing is broken, so no break glyph");
}

/// A verdict the reader can't check is one they have to take on trust,
/// and "your ISP is down" is far too strong a claim to hand over without
/// the method behind it.
#[test]
fn the_verdict_shows_what_the_owning_hop_measured() {
    let mut wan = ok(HopId::Wan, Layer::Internet, "Internet");
    wan.status = Status::Fail;
    wan.fault = Some(Fault::NoInternet);
    wan.summary = Some("No TCP path to the internet".into());
    wan.evidence = Some("5 handshakes to :443 across 3 independent operators".into());
    let path = Path {
        hops: vec![
            ok(HopId::Link, Layer::Link, "Wi-Fi"),
            ok(HopId::Gateway, Layer::Network, "Gateway"),
            wan,
        ],
    };
    let out = report(&path, &diagnose(&path), false, false);
    assert!(out.contains("evidence:"), "no evidence line:\n{out}");
    assert!(
        out.contains("3 independent operators"),
        "the method must be quoted:\n{out}"
    );
}

/// A hop with nothing to say about its method must not print an empty
/// label — a bare "evidence:" is worse than none.
#[test]
fn a_hop_without_evidence_prints_no_evidence_line() {
    let mut gw = ok(HopId::Gateway, Layer::Network, "Gateway");
    gw.status = Status::Fail;
    gw.fault = Some(Fault::GatewaySilent);
    let path = Path {
        hops: vec![ok(HopId::Link, Layer::Link, "Wi-Fi"), gw],
    };
    let out = report(&path, &diagnose(&path), false, false);
    assert!(!out.contains("evidence:"), "got:\n{out}");
}

/// In verbose mode the reader is checking the working, so every hop's
/// method is shown — not just the one that owns the verdict.
#[test]
fn verbose_shows_the_method_for_every_hop() {
    let mut gw = ok(HopId::Gateway, Layer::Network, "Gateway");
    gw.evidence = Some("5 ICMP echoes to 192.168.0.1".into());
    let mut dns = ok(HopId::Dns, Layer::Application, "DNS");
    dns.evidence = Some("3 resolvers queried".into());
    let path = Path {
        hops: vec![ok(HopId::Link, Layer::Link, "Wi-Fi"), gw, dns],
    };
    let out = report(&path, &diagnose(&path), true, false);
    assert!(out.contains("5 ICMP echoes"), "got:\n{out}");
    assert!(out.contains("3 resolvers queried"), "got:\n{out}");
    // …and stays out of the way when it isn't asked for.
    let terse = report(&path, &diagnose(&path), false, false);
    assert!(!terse.contains("5 ICMP echoes"), "got:\n{terse}");
}

#[test]
fn vpn_hop_renders_in_topology_and_detail() {
    // A conditional VPN hop sits between Gateway and Internet and must show
    // up in both the topology chain and the per-hop detail block.
    let mut vpn = ok(HopId::Vpn, Layer::Network, "VPN");
    vpn.subtitle = Some("Tailscale".into());
    vpn.summary = Some("Tailscale full-tunnel VPN on utun4".into());
    vpn.metrics.push(Metric::new("Mode", "full-tunnel"));
    let path = Path {
        hops: vec![
            ok(HopId::Link, Layer::Link, "Wi-Fi"),
            ok(HopId::Gateway, Layer::Network, "Gateway"),
            vpn,
            ok(HopId::Wan, Layer::Internet, "Internet"),
            ok(HopId::Dns, Layer::Application, "DNS"),
        ],
    };
    let out = report(&path, &diagnose(&path), true, false);
    assert!(out.contains("VPN"), "topology/detail must name the VPN hop");
    assert!(out.contains("Tailscale full-tunnel VPN on utun4"));
    // Chain order: VPN between Gateway and Internet.
    let g = out.find("Gateway").unwrap();
    let v = out.find("VPN").unwrap();
    let i = out.find("Internet").unwrap();
    assert!(
        g < v && v < i,
        "VPN must render between Gateway and Internet"
    );
}

#[test]
fn colors_are_escapes_and_nothing_else() {
    let plain = Palette { on: false };
    assert_eq!(plain.bold("a"), "a");
    assert_eq!(plain.status(Status::Fail, "a"), "a");
    let colored = Palette { on: true };
    assert_eq!(colored.paint("31", "a"), "\u{1b}[31ma\u{1b}[0m");
    assert_eq!(pad("DNS", 5), "DNS  ");
    assert_eq!(pad("Gateway", 5), "Gateway");
}

#[test]
fn a_verdict_shows_its_fix() {
    let verdict = Verdict {
        status: Status::Warn,
        headline: "Slow".to_string(),
        cause: "Far away".to_string(),
        fix: Some("Move closer".to_string()),
        confidence: Confidence::Guess,
        source: None,
    };
    let text = report(&Path::default(), &verdict, false, false);
    assert!(text.contains("Slow"));
    assert!(text.contains("Far away"));
    assert!(text.contains("Move closer"));
}

fn chain(statuses: &[Status]) -> Path {
    let names = [
        (HopId::Host, "You"),
        (HopId::Link, "Wi-Fi"),
        (HopId::Gateway, "Gateway"),
        (HopId::Wan, "Internet"),
    ];
    let hops = names.iter().zip(statuses).map(|((id, title), st)| {
        let mut h = Hop::new(*id, Layer::Network, title);
        h.status = *st;
        h
    });
    Path {
        hops: hops.collect(),
    }
}

#[test]
fn the_break_is_marked_before_the_first_broken_hop() {
    let path = chain(&[
        Status::Healthy,
        Status::Healthy,
        Status::Fail,
        Status::Fail,
    ]);
    let text = report(&path, &diagnose(&path), false, false);
    assert!(
        text.contains("  ✓ You ─── ✓ Wi-Fi ─✗─ ✗ Gateway ─── ✗ Internet\n"),
        "got: {text}"
    );
}

/// The first hop is the break here, and nothing leads to it; the gateway's
/// failure is collateral.
#[test]
fn a_broken_first_hop_leaves_nothing_to_mark() {
    let path = chain(&[Status::Fail, Status::Healthy, Status::Fail]);
    let text = report(&path, &diagnose(&path), false, false);
    assert!(
        text.contains("  ✗ You ─── ✓ Wi-Fi ─── ✗ Gateway\n"),
        "got: {text}"
    );
}

/// Deletes every color escape.
fn without_escapes(s: &str) -> String {
    let mut out = String::new();
    let mut rest = s;
    while let Some((before, after)) = rest.split_once("\u{1b}[") {
        out.push_str(before);
        rest = after.trim_start_matches(|c: char| c.is_ascii_digit());
        rest = rest.strip_prefix('m').unwrap();
    }
    out.push_str(rest);
    out
}

#[test]
fn colors_change_no_text() {
    let mut path = chain(&[Status::Healthy, Status::Warn, Status::Fail, Status::Skipped]);
    path.hops[1].summary = Some("Weak".to_string());
    path.hops[2].evidence = Some("five pings".to_string());
    path.hops[2]
        .metrics
        .push(Metric::new("Loss", "100%").with_status(Status::Fail));
    let verdict = diagnose(&path);
    for verbose in [false, true] {
        let colored = report(&path, &verdict, verbose, true);
        let plain = report(&path, &verdict, verbose, false);
        assert_ne!(colored, plain);
        assert_eq!(without_escapes(&colored), plain);
    }
}
