//! The WAN hop.

use wtfi2::addr::{ip_from_str, ip_to_string};
use wtfi2::engine::PROBE_DEADLINE;
use wtfi2::model::{Fault, Millis, Status};
use wtfi2::probe::net::{is_cgnat, Probe, Quality};
use wtfi2::probe::wan::{
    addr_of, block_status, blocked_targets, egress_from_trace, evidence, handshake_only,
    may_sample, next_trace, operator_count, operators, parse_trace, probe, sample_target, summarise,
    target_status, trace_allowance, v4_targets, v6_targets, Egress, Family, TraceStep, MIN_TRACE_MS,
    SAMPLE_BUDGET_MS, SAMPLE_WAIT_MS, TRACE_BUDGET_MS, TRACE_BY_IP, TRACE_BY_NAME,
};

/// A time in milliseconds.
fn ms(v: f64) -> Millis {
    Millis::from_nanos((v * 1e6).round() as i64)
}

/// A burst, with its round trips in milliseconds.
fn quality(sent: u32, rtts: &[f64]) -> Quality {
    Quality {
        sent,
        rtts_ns: rtts.iter().map(|v| (v * 1e6).round() as i64).collect(),
    }
}

fn family(entries: &[(&'static str, Option<i64>)]) -> Family {
    Family {
        reached: entries
            .iter()
            .map(|(label, ms)| {
                (
                    *label,
                    match ms {
                        Some(ms) => Probe::Up(*ms * 1_000_000),
                        None => Probe::Timeout,
                    },
                )
            })
            .collect(),
    }
}

#[test]
fn independent_targets_are_what_makes_the_outage_claim_honest() {
    assert!(
        v4_targets().len() >= 3,
        "a single operator cannot distinguish an outage from a block"
    );
    let networks: std::collections::HashSet<_> = v4_targets()
        .iter()
        .map(|t| t.label)
        .chain(v6_targets().iter().map(|t| t.label))
        .collect();
    assert_eq!(
        networks.len(),
        v4_targets().len() + v6_targets().len(),
        "targets must be distinct operators, not one operator twice"
    );
}

#[test]
fn the_fastest_reachable_target_is_the_one_sampled() {
    // Sampling a slow target would spend the budget without measuring the
    // path the rest of your traffic actually takes.
    let f = family(&[
        ("Cloudflare", Some(90)),
        ("Google", Some(12)),
        ("Quad9", None),
    ]);
    let (label, _, _) = f.best().unwrap();
    assert_eq!(label, "Google");
}

#[test]
fn a_blocked_target_on_a_working_uplink_warns_and_names_it() {
    let q = quality(5, &[10.0, 11.0, 10.5, 11.2, 10.8]);
    let (summary, _) = summarise("Google", ms(10.7), false, &q, &["Cloudflare"]);
    assert!(summary.contains("blocks Cloudflare"), "got: {summary}");
    assert!(
        summary.contains("not an outage"),
        "the uplink demonstrably works: {summary}"
    );
    assert_eq!(block_status(&["Cloudflare"]), Status::Warn);
    assert_eq!(block_status(&[]), Status::Healthy);
}

#[test]
fn a_clean_uplink_says_which_target_it_measured() {
    let q = quality(5, &[10.0, 11.0, 10.5, 11.2, 10.8]);
    let (summary, _) = summarise("Quad9", ms(10.7), true, &q, &[]);
    assert!(summary.contains("Quad9"), "got: {summary}");
    assert!(summary.contains("IPv4 + IPv6"));
}

/// Quality trumps a block in the summary: a lossy uplink is the more
/// urgent thing to say, and it is about the connection rather than about
/// one operator being filtered.
#[test]
fn an_unhealthy_uplink_owns_the_summary_over_a_block() {
    let lossy = quality(5, &[10.0]);
    let (summary, _) = summarise("Google", ms(10.0), false, &lossy, &["Cloudflare"]);
    assert!(summary.contains("unhealthy"), "got: {summary}");
}

/// The outage message's weight is "N independent networks went quiet", so
/// it must count networks, not addresses. Counting both families of the
/// same operator inflates exactly the number that makes the claim
/// credible — the inflation the operator-dedup test already guards.
#[test]
fn the_outage_count_matches_the_operators_it_lists() {
    assert_eq!(operator_count(), operators().split(", ").count());
    assert_eq!(operator_count(), 3);
    assert!(
        operator_count() < v4_targets().len() + v6_targets().len(),
        "two families of one operator are one network"
    );
}

/// The fault code must follow the branch `summarise` took, not the words
/// it produced. Gated on `summary.contains("blocks")`, rewording the
/// sentence would silently stop setting `TargetBlocked`, the dedicated
/// verdict arm would never fire, and the filtered operator would go
/// unmentioned in both the verdict and `--json`.
#[test]
fn the_block_flag_follows_the_branch_not_the_wording() {
    let clean = quality(5, &[10.0, 11.0, 10.5, 11.2, 10.8]);
    let lossy = quality(5, &[10.0]);
    assert!(summarise("Google", ms(10.7), false, &clean, &["Cloudflare"]).1);
    // A quality complaint owns the prose, so the block goes unmentioned —
    // and the code must not claim it either.
    assert!(!summarise("Google", ms(10.0), false, &lossy, &["Cloudflare"]).1);
    assert!(!summarise("Google", ms(10.7), false, &clean, &[]).1);
}

/// A per-target metric has to agree with the headline above it, in both
/// directions — `-v` and `--json` render each one's own status.
#[test]
fn a_target_reads_as_what_its_silence_means_for_the_hop() {
    // Nothing reachable anywhere: the hop fails, so five yellow "Warn"
    // lines under a red headline would be evidence contradicting it.
    assert_eq!(target_status(false, false, false), Some(Status::Fail));
    // A working family missing one operator: the filtering this exists to
    // surface.
    assert_eq!(target_status(false, true, true), Some(Status::Warn));
    // A family this network doesn't carry while another works — an
    // IPv4-only home LAN, the most common config there is. Marking its
    // IPv6 lines red under a green `Ok` hop is the same contradiction
    // reversed, so it gets no status at all.
    assert_eq!(target_status(false, false, true), None);
    assert_eq!(target_status(true, true, true), Some(Status::Healthy));
}

fn egress(verified: bool) -> Egress {
    Egress {
        public_ip: None,
        verified,
    }
}

fn all_up() -> Family {
    family(&[
        ("Cloudflare", Some(12)),
        ("Google", Some(14)),
        ("Quad9", Some(13)),
    ])
}

/// The failure a topology diagram is least able to show: every node green,
/// nothing works. A handshake proves only that *something* answered a SYN,
/// and interception appliances answer everything.
#[test]
fn handshakes_without_a_real_request_are_caught() {
    let v6 = family(&[("Cloudflare v6", None), ("Google v6", None)]);
    assert!(handshake_only(&all_up(), &v6, &egress(false)));
}

#[test]
fn a_verified_request_clears_the_suspicion() {
    let v6 = family(&[("Cloudflare v6", None), ("Google v6", None)]);
    assert!(!handshake_only(&all_up(), &v6, &egress(true)));
}

/// One request can fail on its own for reasons that say nothing about the
/// path, so the claim needs every target to have answered. A partial
/// failure already has a simpler explanation — filtering — and reporting
/// both would be two verdicts for one observation.
#[test]
fn a_partial_block_is_filtering_not_a_fake_uplink() {
    let v4 = family(&[
        ("Cloudflare", None),
        ("Google", Some(14)),
        ("Quad9", Some(13)),
    ]);
    let v6 = family(&[("Cloudflare v6", None), ("Google v6", None)]);
    assert!(!handshake_only(&v4, &v6, &egress(false)));
}

#[test]
fn nothing_reachable_is_an_outage_not_a_fake_uplink() {
    let dead = family(&[("Cloudflare", None), ("Google", None), ("Quad9", None)]);
    let v6 = family(&[("Cloudflare v6", None), ("Google v6", None)]);
    assert!(!handshake_only(&dead, &v6, &egress(false)));
}

/// The check runs inside the same join as the reachability probes, and
/// `sample_quality` runs after it. If the whole probe can outlast the
/// engine's per-probe deadline, `send_bounded` replaces the hop with a
/// generic "reachability is unknown" — discarding the `HandshakeOnly`
/// finding in exactly the middlebox case where a stalled HTTPS exchange is
/// the expected shape, and which this check exists to catch.
#[test]
fn the_whole_probe_fits_the_engine_deadline_in_the_worst_case() {
    // The join is bounded by its slowest arm; sampling follows it.
    let worst = TRACE_BUDGET_MS.max(SAMPLE_WAIT_MS) + SAMPLE_BUDGET_MS;
    assert!(
        worst < PROBE_DEADLINE * 1000,
        "worst case {worst:?} must fit in {:?}",
        PROBE_DEADLINE * 1000
    );
}

/// And the budget covers *both* URLs, not one each — otherwise a stalled
/// by-IP attempt and a stalled by-name retry would double it.
#[test]
fn a_spent_trace_budget_leaves_no_room_for_the_retry() {
    assert!(
        TRACE_BUDGET_MS - MIN_TRACE_MS < MIN_TRACE_MS + MIN_TRACE_MS,
        "the retry must not be able to double the budget"
    );
    assert!(
        MIN_TRACE_MS < TRACE_BUDGET_MS,
        "the first attempt must get a turn"
    );
}

/// `handshake_only` is *defined* by `!egress.verified`, so an evidence
/// line claiming "one verified HTTPS request" was guaranteed to contradict
/// the cause printed beside it whenever `HandshakeOnly` fired — in exactly
/// the case the evidence matters most.
#[test]
fn the_evidence_cannot_claim_a_request_that_did_not_complete() {
    // The state that fires HandshakeOnly is exactly the state below.
    let v6 = family(&[("Cloudflare v6", None), ("Google v6", None)]);
    assert!(handshake_only(&all_up(), &v6, &egress(false)));

    let unverified = evidence(5, false);
    assert!(unverified.contains("did not complete"), "got: {unverified}");
    assert!(
        !unverified.contains("verified"),
        "must not read as a completed request: {unverified}"
    );
    assert!(evidence(5, true).contains("completed"));
}

#[test]
fn the_trace_response_yields_the_public_address() {
    let body =
        "fl=123abc\nh=one.one.one.one\nip=203.0.113.7\nts=1700000000\nvisit_scheme=https\n";
    assert_eq!(
        parse_trace(body).map(ip_to_string),
        Some("203.0.113.7".to_string())
    );
}

/// A portal can return 200 to anything; it cannot return this. Anything
/// that isn't the expected shape must leave `verified` false rather than
/// being taken as proof the uplink carries traffic.
#[test]
fn a_body_that_is_not_a_trace_response_yields_nothing() {
    assert_eq!(parse_trace("<html>Sign in to continue</html>"), None);
    assert_eq!(parse_trace(""), None);
    assert_eq!(parse_trace("ip=not-an-address"), None);
}

#[test]
fn a_cgnat_public_address_is_recognised() {
    assert!(is_cgnat(ip_from_str("100.80.4.9").unwrap()));
    assert!(!is_cgnat(ip_from_str("203.0.113.7").unwrap()));
}

#[test]
fn family_reports_which_targets_went_quiet() {
    let f = family(&[("Cloudflare", None), ("Google", Some(12)), ("Quad9", None)]);
    assert!(f.any_up());
    let down = f.down();
    assert_eq!(down, vec!["Cloudflare", "Quad9"]);
}

#[test]
fn a_family_with_nothing_up_reports_nothing_up() {
    let f = family(&[("Cloudflare", None), ("Google", None)]);
    assert!(!f.any_up());
    assert!(f.best().is_none());
}

/// The outage message's whole weight is "N independent networks went
/// quiet", so counting one operator twice for its two address families
/// would inflate the number that makes the claim credible.
#[test]
fn operators_are_listed_once_each_without_family_suffixes() {
    let names = operators();
    assert!(!names.contains("v6"), "got: {names}");
    let listed: Vec<&str> = names.split(", ").collect();
    let mut unique = listed.clone();
    unique.sort_unstable();
    unique.dedup();
    assert_eq!(unique.len(), listed.len(), "duplicated operator in {names}");
    assert_eq!(listed, vec!["Cloudflare", "Google", "Quad9"]);
}

/// Having no IPv6 at all is the ordinary case on a home LAN. Counting it
/// as filtered egress would put a warning on most healthy networks — and
/// the summary already says "no IPv6 on this network".
#[test]
fn an_absent_ipv6_family_is_not_reported_as_filtering() {
    let v4 = family(&[
        ("Cloudflare", Some(12)),
        ("Google", Some(14)),
        ("Quad9", Some(13)),
    ]);
    let v6 = family(&[("Cloudflare v6", None), ("Google v6", None)]);
    assert!(blocked_targets(&v4, &v6).is_empty());
    assert_eq!(block_status(&blocked_targets(&v4, &v6)), Status::Healthy);
}

/// A *partial* v6 failure is different: the family works, so one operator
/// missing from it is evidence something is picking destinations.
#[test]
fn a_partial_ipv6_failure_is_reported_as_filtering() {
    let v4 = family(&[
        ("Cloudflare", Some(12)),
        ("Google", Some(14)),
        ("Quad9", Some(13)),
    ]);
    let v6 = family(&[("Cloudflare v6", Some(15)), ("Google v6", None)]);
    assert_eq!(blocked_targets(&v4, &v6), vec!["Google v6"]);
}

#[test]
fn a_blocked_ipv4_operator_is_reported_whatever_ipv6_does() {
    let v4 = family(&[
        ("Cloudflare", None),
        ("Google", Some(14)),
        ("Quad9", Some(13)),
    ]);
    let v6 = family(&[("Cloudflare v6", None), ("Google v6", None)]);
    assert_eq!(blocked_targets(&v4, &v6), vec!["Cloudflare"]);
}

#[test]
fn a_target_is_found_by_its_label() {
    for t in v4_targets().iter().chain(v6_targets().iter()) {
        assert_eq!(addr_of(t.label), Some(t.addr));
    }
    assert_eq!(addr_of("Nobody"), None);
}

#[test]
fn sampling_stays_inside_its_budget() {
    assert!(may_sample(0, 0));
    assert!(may_sample(4, 0));
    assert!(!may_sample(5, 0));
    assert!(!may_sample(1, SAMPLE_BUDGET_MS * 1_000_000));
    assert_eq!(trace_allowance(0), Some(TRACE_BUDGET_MS * 1_000_000));
    assert_eq!(
        trace_allowance((TRACE_BUDGET_MS - MIN_TRACE_MS + 1) * 1_000_000),
        None
    );
    assert_eq!(trace_allowance(u64::MAX), None);
}

#[test]
fn a_trace_tells_the_public_address() {
    let e = egress_from_trace("fl=1\nip=203.0.113.7\nts=1\n").unwrap();
    assert!(e.verified);
    assert_eq!(e.public_ip.map(ip_to_string).as_deref(), Some("203.0.113.7"));
    assert!(egress_from_trace("<html>Sign in</html>").is_none());
}

#[test]
fn silence_everywhere_is_an_outage() {
    let v4 = family(&[("Cloudflare", None), ("Google", None), ("Quad9", None)]);
    let v6 = family(&[("Cloudflare v6", None), ("Google v6", None)]);
    let q = Quality::default();
    let none = Egress {
        public_ip: None,
        verified: false,
    };
    let h = probe(&v4, &v6, &none, &q);
    assert_eq!(h.status, Status::Fail);
    assert_eq!(h.fault, Some(Fault::NoInternet));
    assert_eq!(h.metrics.len(), 5);
    assert!(sample_target(&v4).is_none());

    let up = probe(&all_up(), &v6, &egress(true), &quality(5, &[12.0, 12.0]));
    assert_ne!(up.status, Status::Fail);
    assert_eq!(
        sample_target(&all_up()).map(|(a, _)| ip_to_string(a)),
        addr_of("Cloudflare").map(ip_to_string)
    );
    assert!(evidence(5, true).contains('5'));
}

#[test]
fn a_request_goes_by_address_and_then_by_name() {
    let budget = TRACE_BUDGET_MS * 1_000_000;
    assert!(matches!(
        next_trace(0, 0, None),
        TraceStep::Ask { url, within_ns } if url == TRACE_BY_IP && within_ns == budget
    ));
    assert!(matches!(
        next_trace(1, 1_000, None),
        TraceStep::Ask { url, within_ns } if url == TRACE_BY_NAME && within_ns == budget - 1_000
    ));
    assert!(matches!(
        next_trace(2, 0, None),
        TraceStep::Done(e) if !e.verified && e.public_ip.is_none()
    ));
    assert!(matches!(
        next_trace(1, budget, None),
        TraceStep::Done(e) if !e.verified
    ));
}

#[test]
fn only_a_proper_reply_ends_the_check() {
    let good = || Some("ip=203.0.113.7\n".to_string());
    assert!(matches!(
        next_trace(1, u64::MAX, Some((200, good()))),
        TraceStep::Done(e) if e.verified && e.public_ip == ip_from_str("203.0.113.7")
    ));
    for reply in [
        Some((302, good())),
        Some((199, good())),
        Some((300, good())),
        Some((200, None)),
        Some((200, Some("<html>Sign in</html>".to_string()))),
    ] {
        assert!(matches!(
            next_trace(1, 0, reply),
            TraceStep::Ask { url, .. } if url == TRACE_BY_NAME
        ));
    }
}

/// An unknown label is no obstacle unless it is the quickest that answered.
#[test]
fn a_target_that_stayed_quiet_may_be_unknown() {
    let v4 = family(&[("Cloudflare", Some(12)), ("Elsewhere", None)]);
    let v6 = family(&[]);
    let h = probe(&v4, &v6, &egress(true), &quality(5, &[12.0, 12.0]));
    assert_eq!(h.fault, None, "{:?}", h.summary);
}
