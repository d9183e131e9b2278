//! The uplink hop.

use wtfi2::addr::{ip_from_str, ip_to_string, IpAddr};
use wtfi2::engine::PROBE_DEADLINE;
use wtfi2::model::{Fault, Hop, HopId, Layer, Millis, Status};
use wtfi2::probe::uplink::{
    grade, next_sweep, parse, probe, retry_allowance, sweep_args, TtlHop, BUDGET_SECS, MAX_TTL, MIN_SWEEP_SECS,
    TARGET, WAIT_SECS,
};

/// A time in milliseconds.
fn ms(v: f64) -> Millis {
    Millis::from_nanos((v * 1e6).round() as i64)
}

fn millis(m: Option<Millis>) -> Option<f64> {
    m.map(|m| m.nanos() as f64 / m.over() as f64 / 1e6)
}

fn ip(s: &str) -> IpAddr {
    ip_from_str(s).unwrap()
}

fn hops(spec: &[(u8, Option<&str>)]) -> Vec<TtlHop> {
    spec.iter()
        .map(|(ttl, addr)| TtlHop {
            ttl: *ttl,
            addr: addr.map(ip),
            rtt_ms: addr.map(|_| ms(12.0)),
        })
        .collect()
}

fn graded(spec: &[(u8, Option<&str>)]) -> Hop {
    let mut hop = Hop::new(HopId::Uplink, Layer::Internet, "Uplink");
    grade(&mut hop, &hops(spec), ip("1.1.1.1"));
    hop
}

/// The whole point. "The break is past your router" is the part the reader
/// already knew; naming the hop it stops at, and the address that last
/// answered, is something they can act on — and quote to their ISP.
#[test]
fn a_break_inside_the_isp_names_the_hop_it_dies_at() {
    let hop = graded(&[
        (1, Some("192.168.0.1")),
        (2, Some("203.0.113.1")),
        (3, None),
        (4, None),
        (5, None),
        (6, None),
    ]);
    assert_eq!(hop.status, Status::Fail);
    assert_eq!(hop.fault, Some(Fault::UplinkDiesInIsp));
    let summary = hop.summary.unwrap();
    assert!(summary.contains("hop 2"), "got: {summary}");
    assert!(summary.contains("203.0.113.1"), "got: {summary}");
}

/// Only your own router answered: the break is on the link between it and
/// your provider, which is your modem, your WAN cable or the line — a
/// different call to make than "something inside the ISP is down".
#[test]
fn a_break_at_the_modem_is_distinguished_from_one_inside_the_isp() {
    let hop = graded(&[(1, Some("192.168.0.1")), (2, None), (3, None), (4, None)]);
    assert_eq!(hop.fault, Some(Fault::UplinkDiesAtModem));
    assert!(
        hop.summary
            .unwrap()
            .contains("immediately past your router")
    );
}

/// If the route reaches the target, the WAN failure was never about the
/// route — and saying so stops the reader chasing their ISP.
#[test]
fn an_intact_path_clears_the_route_of_blame() {
    let hop = graded(&[
        (1, Some("192.168.0.1")),
        (2, Some("203.0.113.1")),
        (3, Some("1.1.1.1")),
    ]);
    assert_eq!(hop.status, Status::Healthy);
    assert_eq!(hop.fault, None);
    assert!(hop.summary.unwrap().contains("specific to what was tested"));
}

/// Silence at every hop includes your own router, which the gateway probe
/// already owns. Claiming a location from it would be inventing one.
#[test]
fn total_silence_locates_nothing_rather_than_guessing() {
    let hop = graded(&[(1, None), (2, None), (3, None)]);
    assert_eq!(hop.status, Status::Warn);
    assert_eq!(hop.fault, Some(Fault::Unobserved));
}

#[test]
fn a_sweep_that_never_ran_is_unobserved_not_a_break() {
    let mut hop = Hop::new(HopId::Uplink, Layer::Internet, "Uplink");
    grade(&mut hop, &[], ip("1.1.1.1"));
    assert_eq!(hop.status, Status::Warn);
    assert_eq!(hop.fault, Some(Fault::Unobserved));
    assert_ne!(
        hop.status,
        Status::Fail,
        "nothing was seen, so nothing broke"
    );
}

#[test]
fn every_ttl_step_is_recorded_for_the_reader() {
    let hop = graded(&[(1, Some("192.168.0.1")), (2, None)]);
    assert_eq!(hop.metrics.len(), 2);
    assert_eq!(hop.metrics[0].label, "hop 1");
    assert!(hop.metrics[0].value.contains("192.168.0.1"));
    assert_eq!(hop.metrics[1].value, "*");
}

const TRACE: &str = "traceroute to 1.1.1.1 (1.1.1.1), 6 hops max, 52 byte packets
 1  192.168.0.1  3.456 ms
 2  203.0.113.1  12.345 ms
 3  *
 4  *
 5  198.51.100.9  41.2 ms
 6  *";

#[test]
fn traceroute_output_parses_into_ttl_steps() {
    let parsed = parse(TRACE);
    assert_eq!(parsed.len(), 6, "the header line must not become a hop");
    assert_eq!(parsed[0].ttl, 1);
    assert_eq!(ip_to_string(parsed[0].addr.unwrap()), "192.168.0.1");
    assert_eq!(millis(parsed[0].rtt_ms), Some(3.456));
    assert_eq!(parsed[2].addr, None);
    assert_eq!(ip_to_string(parsed[4].addr.unwrap()), "198.51.100.9");
}

/// A hop that replies with an unreachable still replied. The annotation
/// qualifies *how*, and for locating where the path stops that doesn't
/// change the answer.
#[test]
fn annotated_replies_still_count_as_replies() {
    let parsed = parse(" 3  203.0.113.5  19.1 ms !H");
    assert_eq!(ip_to_string(parsed[0].addr.unwrap()), "203.0.113.5");
    assert_eq!(millis(parsed[0].rtt_ms), Some(19.1));
}

#[test]
fn a_multi_query_line_takes_the_first_round_trip() {
    let parsed = parse(" 2  203.0.113.1  12.3 ms  14.9 ms  13.1 ms");
    assert_eq!(millis(parsed[0].rtt_ms), Some(12.3));
}

#[test]
fn noise_and_empty_output_yield_no_hops() {
    assert!(parse("").is_empty());
    assert!(parse("traceroute: unknown host\n").is_empty());
    assert!(parse("some unrelated line\n").is_empty());
}

/// The sweep has to fit inside the engine's per-probe deadline even when
/// every single hop stays silent, or the thing that locates the break gets
/// cut off precisely when the break exists. This covers *both* sweeps,
/// since the retry shares the same budget rather than getting its own.
#[test]
fn the_worst_case_sweep_fits_the_probe_deadline() {
    assert!(
        BUDGET_SECS < PROBE_DEADLINE,
        "total budget {BUDGET_SECS:?} must fit in {:?}",
        PROBE_DEADLINE
    );
}

/// An all-silent sweep must be able to run to its full depth inside the
/// budget — otherwise the timeout truncates the very evidence that locates
/// the break, and every outage would read as "couldn't trace the path".
#[test]
fn a_fully_silent_sweep_fits_the_budget() {
    let worst = (MAX_TTL * WAIT_SECS) as u64;
    assert!(
        worst < BUDGET_SECS,
        "an all-silent sweep takes {worst:?}, budget is {BUDGET_SECS:?}"
    );
}

/// And when that happens there must be no room left for a retry: running
/// the second sweep would overrun the deadline only to re-learn the same
/// silence.
#[test]
fn a_spent_budget_leaves_no_room_for_a_retry() {
    let worst = (MAX_TTL * WAIT_SECS) as u64;
    assert!(
        BUDGET_SECS - worst < MIN_SWEEP_SECS,
        "a sweep that ran to full depth must not trigger a retry"
    );
}

#[test]
fn a_sweep_asks_over_icmp_first() {
    assert_eq!(
        sweep_args(true),
        vec!["-n", "-m", "6", "-q", "1", "-w", "1", "-P", "icmp", "1.1.1.1"]
    );
    assert_eq!(
        sweep_args(false),
        vec!["-n", "-m", "6", "-q", "1", "-w", "1", "1.1.1.1"]
    );
    assert!(ip_from_str(TARGET).is_some());
}

#[test]
fn a_retry_needs_room_for_a_sweep() {
    let second: u64 = 1_000_000_000;
    assert_eq!(retry_allowance(0), Some(7 * second));
    assert_eq!(retry_allowance(5 * second), Some(2 * second));
    assert_eq!(retry_allowance(5 * second + 1), None);
    assert_eq!(retry_allowance(u64::MAX), None);
}

#[test]
fn the_probe_grades_against_its_target() {
    let h = probe(&[TtlHop {
        ttl: 1,
        addr: Some(ip("192.168.0.1")),
        rtt_ms: Some(ms(2.0)),
    }]);
    assert_eq!(h.id, HopId::Uplink);
    assert_eq!(h.status, Status::Fail);
    assert_eq!(h.fault, Some(Fault::UplinkDiesAtModem));
    let h = probe(&[]);
    assert_ne!(h.status, Status::Fail);
}

#[test]
fn a_silent_sweep_is_retried_over_udp_once() {
    let second: u64 = 1_000_000_000;
    let found = [TtlHop {
        ttl: 1,
        addr: None,
        rtt_ms: None,
    }];
    assert_eq!(next_sweep(0, &[], 0), Some((true, 7 * second)));
    assert_eq!(next_sweep(0, &[], 9 * second), Some((true, 0)));
    assert_eq!(next_sweep(1, &[], second), Some((false, 6 * second)));
    assert_eq!(next_sweep(1, &[], 6 * second), None);
    assert_eq!(next_sweep(1, &found, second), None);
    assert_eq!(next_sweep(2, &[], 0), None);
}
