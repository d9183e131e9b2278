//! The portal hop.

use wtfi2::model::{Fault, Hop, HopId, Layer, Status};
use wtfi2::probe::captive::{check_hotspot, grade, probe, unasked, Hotspot, EXPECTED};

fn graded(hotspot: Hotspot, intercepted: Option<u16>) -> Hop {
    let mut hop = Hop::new(HopId::Captive, Layer::Application, "Portal");
    grade(&mut hop, hotspot, intercepted);
    hop
}

#[test]
fn a_portal_that_took_dns_with_it_is_still_caught() {
    let hop = graded(Hotspot::Unreachable, Some(302));
    assert_eq!(hop.status, Status::Fail);
    assert_eq!(hop.fault, Some(Fault::PortalIntercept));
}

/// An address that cannot exist answered, so the reply is an interceptor
/// and the evidence has to say which address made that provable.
#[test]
fn the_interception_evidence_names_the_impossible_address() {
    let hop = graded(Hotspot::Clean, Some(200));
    assert!(
        hop.metrics.iter().any(|m| m.value.contains("192.0.2.1")),
        "got: {:?}",
        hop.metrics
    );
}

#[test]
fn a_clean_network_stays_clean() {
    let hop = graded(Hotspot::Clean, None);
    assert_eq!(hop.status, Status::Healthy);
    assert_eq!(hop.fault, None);
}

#[test]
fn a_hijacked_hotspot_response_is_a_portal() {
    let hop = graded(Hotspot::Portal(None), None);
    assert_eq!(hop.status, Status::Fail);
    assert_eq!(hop.fault, Some(Fault::PortalIntercept));
}

#[test]
fn total_silence_rules_a_portal_out_rather_than_giving_up() {
    let hop = graded(Hotspot::Unreachable, None);
    assert_eq!(hop.status, Status::Skipped);
    assert_eq!(hop.fault, None, "ruling a portal out is not a fault");
    let summary = hop.summary.unwrap();
    assert!(summary.contains("No portal"), "got: {summary}");
}

#[test]
fn a_redirect_is_a_portal() {
    let r = check_hotspot(302, Some("http://login.example/".to_string()), None);
    match &r {
        Hotspot::Portal(Some(m)) => {
            assert_eq!(m.label, "Portal");
            assert_eq!(m.value, "http://login.example/");
            assert_eq!(m.status, Some(Status::Fail));
        }
        other => panic!("expected a portal, got {other:?}"),
    }
    let h = probe(r, None);
    assert_eq!(h.fault, Some(Fault::PortalIntercept));
    assert!(matches!(
        check_hotspot(302, None, None),
        Hotspot::Portal(None)
    ));
}

#[test]
fn the_expected_body_is_no_portal() {
    let body = format!("  {EXPECTED}\n");
    assert!(matches!(
        check_hotspot(200, None, Some(body)),
        Hotspot::Clean
    ));
    match check_hotspot(200, None, Some("Sign in".to_string())) {
        Hotspot::Portal(Some(m)) => {
            assert_eq!(m.label, "HTTP");
            assert_eq!(m.value, "200");
        }
        other => panic!("expected a portal, got {other:?}"),
    }
    // A body that broke off is not one that said the wrong thing.
    assert!(matches!(
        check_hotspot(200, None, None),
        Hotspot::Unreachable
    ));
}

#[test]
fn a_reply_from_nowhere_is_told_with_its_status() {
    let h = probe(Hotspot::Clean, Some(200));
    assert_eq!(h.status, Status::Fail);
    assert_eq!(h.metrics[0].value, "HTTP 200 from 192.0.2.1");
    assert!(h.evidence.unwrap().contains("http://192.0.2.1/"));
    let h = unasked();
    assert_eq!(h.status, Status::Warn);
    assert_eq!(h.fault, Some(Fault::Unobserved));
}
