//! The DNS hop.

use wtfi2::addr::{ip_from_str, IpAddr};
use wtfi2::model::{Fault, Hop, HopId, Layer, Millis, Status};
use wtfi2::probe::dns::{
    describe, detect_hijack, failed, grade, is_private, latency_status, nonexistent_name, probe,
    random_label, time_lookup, Bench, Hijack,
};

/// A time in milliseconds.
fn ms(v: f64) -> Millis {
    Millis::from_nanos((v * 1e6).round() as i64)
}

fn ip(s: &str) -> IpAddr {
    ip_from_str(s).unwrap()
}

fn bench(label: &'static str, ok: bool, addrs: &[&str]) -> Bench {
    Bench {
        label,
        latency: ok.then_some(ms(12.0)),
        ok,
        addrs: addrs.iter().map(|s| ip(s)).collect(),
    }
}

fn graded(system: Bench, cf: Bench, google: Bench, hijacked: Option<Hijack>) -> Hop {
    let mut hop = Hop::new(HopId::Dns, Layer::Application, "DNS");
    grade(&mut hop, &system, &cf, &google, hijacked);
    hop
}

/// The gap this closes: a hijacked resolver is the *fastest* one on the
/// network, because it answers from a table instead of doing the work.
/// Grading on the clock alone marked the one resolver you must not trust
/// as the healthiest thing in the report.
#[test]
fn a_fast_liar_is_not_graded_as_healthy() {
    let hop = graded(
        bench("System", true, &["192.168.0.1"]),
        bench("Cloudflare", true, &["104.16.132.229"]),
        bench("Google", true, &["104.16.132.229"]),
        Some(Hijack::PrivateAnswer),
    );
    assert_eq!(hop.status, Status::Fail);
    assert_eq!(hop.fault, Some(Fault::ResolverHijacked));
    assert!(hop.summary.unwrap().contains("lying"));
}

/// Synthesised NXDOMAIN is dishonest and breaks software that relies on
/// NXDOMAIN, but the network still works — so it warns rather than
/// claiming a break that isn't there.
#[test]
fn nxdomain_hijacking_warns_rather_than_breaking() {
    let hop = graded(
        bench("System", true, &["104.16.132.229"]),
        bench("Cloudflare", true, &["104.16.132.229"]),
        bench("Google", true, &["104.16.132.229"]),
        Some(Hijack::Nxdomain),
    );
    assert_eq!(hop.status, Status::Warn);
    assert_eq!(hop.fault, Some(Fault::ResolverHijacked));
}

#[test]
fn a_private_answer_against_a_public_baseline_is_a_hijack() {
    let system = bench("System", true, &["10.0.0.1"]);
    let cf = bench("Cloudflare", true, &["104.16.132.229"]);
    let google = bench("Google", true, &["104.16.132.229"]);
    assert_eq!(
        detect_hijack(&system, &[&cf, &google], false),
        Some(Hijack::PrivateAnswer)
    );
}

/// Without a public resolver to compare against there is no baseline, and
/// "your resolver is lying" is much too strong a claim to make on a guess
/// — a network where every resolver is unreachable is not a hijacked one.
#[test]
fn no_public_baseline_means_no_hijack_claim() {
    let system = bench("System", true, &["10.0.0.1"]);
    let dead_cf = bench("Cloudflare", false, &[]);
    let dead_google = bench("Google", false, &[]);
    assert_eq!(
        detect_hijack(&system, &[&dead_cf, &dead_google], false),
        None
    );
}

#[test]
fn matching_public_answers_are_not_a_hijack() {
    let system = bench("System", true, &["104.16.132.229"]);
    let cf = bench("Cloudflare", true, &["104.16.132.229"]);
    let google = bench("Google", true, &["104.16.133.229"]);
    // Different CDN edges are normal; only a *private* answer is damning.
    assert_eq!(detect_hijack(&system, &[&cf, &google], false), None);
}

/// The NXDOMAIN check is a separate query from the bench, so with one
/// attempt and no retry the bench can time out while the bogus-name query
/// still gets a synthesised reply. Reporting that as "sluggish but
/// dishonest" hides a resolver that is wholly dead — and "it answers
/// wrongly" is not a finding you can make about one that didn't answer.
#[test]
fn a_dead_resolver_outranks_a_hijack_finding_on_another_query() {
    let hop = graded(
        failed("System"),
        bench("Cloudflare", true, &["104.16.132.229"]),
        bench("Google", true, &["104.16.132.229"]),
        Some(Hijack::Nxdomain),
    );
    assert_eq!(hop.status, Status::Fail);
    assert_eq!(hop.fault, Some(Fault::ResolverDead));
}

#[test]
fn a_dead_system_resolver_still_reports_dead() {
    let hop = graded(
        failed("System"),
        bench("Cloudflare", true, &["104.16.132.229"]),
        bench("Google", true, &["104.16.132.229"]),
        None,
    );
    assert_eq!(hop.status, Status::Fail);
    assert_eq!(hop.fault, Some(Fault::ResolverDead));
    assert!(hop.summary.unwrap().contains("public DNS works"));
}

#[test]
fn a_healthy_resolver_stays_healthy() {
    let hop = graded(
        bench("System", true, &["104.16.132.229"]),
        bench("Cloudflare", true, &["104.16.132.229"]),
        bench("Google", true, &["104.16.132.229"]),
        None,
    );
    assert_eq!(hop.status, Status::Healthy);
    assert_eq!(hop.fault, None);
}

/// "System: failed" is not much use when you can't tell whether that is
/// your router, a stale corporate resolver, or a VPN's.
#[test]
fn the_subtitle_names_the_resolvers_actually_in_use() {
    assert_eq!(describe(&[]), "system resolver");
    assert_eq!(describe(&[ip("192.168.0.1")]), "192.168.0.1");
    let two = [ip("192.168.0.1"), ip("8.8.8.8")];
    assert!(describe(&two).contains("192.168.0.1"));
}

#[test]
fn private_ranges_are_recognised() {
    for ip in [
        "10.0.0.1",
        "192.168.1.1",
        "172.16.0.1",
        "127.0.0.1",
        "169.254.1.1",
        "fd00::1",
        // The v6 analogue of 169.254: an AAAA substitution reaches here
        // through the same path as an A record, so both must be caught.
        "fe80::1",
    ] {
        assert!(is_private(ip_from_str(ip).unwrap()), "{ip} should be private");
    }
    for ip in ["1.1.1.1", "104.16.132.229", "2606:4700::1111"] {
        assert!(!is_private(ip_from_str(ip).unwrap()), "{ip} should be public");
    }
}

#[test]
fn a_name_that_cannot_exist_is_padded() {
    assert_eq!(nonexistent_name(0), "wtfi-0000000000000000.com.");
    assert_eq!(nonexistent_name(0xabc), "wtfi-0000000000000abc.com.");
    assert_eq!(nonexistent_name(u64::MAX), "wtfi-ffffffffffffffff.com.");
    assert_eq!(random_label(0), 0);
    assert_eq!(random_label(1), 0x9e37_79b9_7f4a_7c15);
    assert_eq!(random_label(2), 0x3c6e_f372_fe94_f82a);
}

#[test]
fn a_lookup_is_timed() {
    let b = time_lookup("System", 12_500_000, vec![ip("1.1.1.1")]);
    assert!(b.ok);
    assert_eq!(b.latency.unwrap().tenths_text(), "12.5");
    let f = failed("System");
    assert!(!f.ok);
    assert!(f.latency.is_none());
    assert!(f.addrs.is_empty());
}

#[test]
fn latency_grades_a_resolver() {
    assert_eq!(latency_status(ms(12.0)), Status::Healthy);
    assert_eq!(latency_status(ms(79.9)), Status::Healthy);
    assert_eq!(latency_status(ms(81.0)), Status::Warn);
}

#[test]
fn the_resolvers_in_use_are_named() {
    assert_eq!(describe(&[ip("192.168.0.1")]), "192.168.0.1");
    assert!(describe(&[ip("192.168.0.1"), ip("1.1.1.1")]).contains("192.168.0.1"));
    assert_ne!(describe(&[]), "");
}

#[test]
fn the_probe_carries_every_bench() {
    let system = time_lookup("System", 12_000_000, vec![ip("104.16.132.229")]);
    let cf = time_lookup("Cloudflare", 9_000_000, vec![ip("104.16.132.229")]);
    let google = failed("Google");
    let h = probe(&[ip("192.168.0.1")], &system, &cf, &google, false);
    assert_eq!(h.id, HopId::Dns);
    assert_eq!(h.status, Status::Healthy);
    for label in ["System", "Cloudflare", "Google"] {
        assert!(h.metrics.iter().any(|m| m.label.contains(label)), "{label}");
    }
    let lying = probe(&[ip("192.168.0.1")], &system, &cf, &google, true);
    assert_eq!(lying.fault, Some(Fault::ResolverHijacked));
    let dead = probe(&[], &failed("System"), &cf, &google, true);
    assert_eq!(dead.fault, Some(Fault::ResolverDead));
    assert_eq!(dead.status, Status::Fail);
}
