//! Bursts of samples and what they say of a path.

use wtfi2::addr::{ip_from_str, IpAddr};
use wtfi2::model::{Hop, HopId, Layer, Loss, Millis, Status};
use wtfi2::probe::net::{
    apply_quality, burst_from_output, is_cgnat, parse_ping_sent, parse_ping_times, ping_command,
    Probe, Quality, LOSS_WARN_PCT,
};

/// A time in milliseconds.
fn millis(m: Option<Millis>) -> Option<f64> {
    m.map(|m| m.nanos() as f64 / m.over() as f64 / 1e6)
}

/// A share in percent.
fn pct(l: Option<Loss>) -> Option<f64> {
    l.map(|l| f64::from(l.lost()) / f64::from(l.sent()) * 100.0)
}

/// The round trips in ping output, in milliseconds.
fn times(output: &str) -> Vec<f64> {
    parse_ping_times(output).iter().map(|ns| *ns as f64 / 1e6).collect()
}

/// A realistic macOS `ping -c 5` transcript with two packets dropped.
const LOSSY: &str = "\
PING 192.168.0.1 (192.168.0.1): 56 data bytes
64 bytes from 192.168.0.1: icmp_seq=0 ttl=64 time=3.456 ms
Request timeout for icmp_seq 1
64 bytes from 192.168.0.1: icmp_seq=2 ttl=64 time=9.456 ms
Request timeout for icmp_seq 3
64 bytes from 192.168.0.1: icmp_seq=4 ttl=64 time=5.456 ms

--- 192.168.0.1 ping statistics ---
5 packets transmitted, 3 packets received, 40.0% packet loss
round-trip min/avg/max/stddev = 3.456/6.123/9.456/2.483 ms";

#[test]
fn parses_every_ping_time_in_order() {
    assert_eq!(times(LOSSY), vec![3.456, 9.456, 5.456]);
}

#[test]
fn no_time_field_yields_no_samples() {
    assert!(parse_ping_times("Request timeout for icmp_seq 0").is_empty());
}

#[test]
fn duplicate_replies_do_not_manufacture_a_clean_bill_of_health() {
    // A duplicating switch or bridge loop makes ping print more replies
    // than it sent. Counting those as samples would report 0% loss on a
    // LAN that is in fact dropping most of the originals.
    let dup = "\
PING 192.168.0.1 (192.168.0.1): 56 data bytes
64 bytes from 192.168.0.1: icmp_seq=0 ttl=64 time=3.4 ms
64 bytes from 192.168.0.1: icmp_seq=0 ttl=64 time=3.9 ms (DUP!)
64 bytes from 192.168.0.1: icmp_seq=0 ttl=64 time=4.1 ms (DUP!)
Request timeout for icmp_seq 1
Request timeout for icmp_seq 2

--- 192.168.0.1 ping statistics ---
3 packets transmitted, 3 packets received, +2 duplicates, -0.0% packet loss";
    assert_eq!(times(dup), vec![3.4], "DUPs are not samples");
    let q = Quality {
        sent: parse_ping_sent(dup).unwrap(),
        rtts_ns: parse_ping_times(dup),
    };
    assert!(
        pct(q.loss_pct()).unwrap() > f64::from(LOSS_WARN_PCT),
        "two of three originals were lost, got {:?}",
        q.loss_pct()
    );
}

#[test]
fn parses_transmitted_count() {
    assert_eq!(parse_ping_sent(LOSSY), Some(5));
    assert_eq!(parse_ping_sent("no summary here"), None);
}

#[test]
fn quality_reports_loss_and_jitter() {
    let q = Quality {
        sent: parse_ping_sent(LOSSY).unwrap(),
        rtts_ns: parse_ping_times(LOSSY),
    };
    assert_eq!(q.received(), 3);
    assert_eq!(pct(q.loss_pct()), Some(40.0));
    // |9.456-3.456| + |5.456-9.456| = 6 + 4, over 2 gaps.
    assert_eq!(millis(q.jitter_ms()), Some(5.0));
    assert!((millis(q.avg_ms()).unwrap() - 6.122_666).abs() < 1e-3);
}

#[test]
fn total_loss_is_100_percent_not_missing() {
    // The whole point: a black-holed path must report 100% loss rather
    // than looking like "we never measured".
    let q = Quality {
        sent: 5,
        rtts_ns: vec![],
    };
    assert_eq!(pct(q.loss_pct()), Some(100.0));
    assert_eq!(millis(q.avg_ms()), None);
    assert_eq!(millis(q.jitter_ms()), None);
    assert!(!q.is_empty());
}

#[test]
fn a_run_that_never_transmitted_is_unmeasured_not_total_loss() {
    // `ping` reports pre-transmit failures (no route, interface gone,
    // interval refused) on stderr and leaves stdout empty. Falling back to
    // the requested count there would invent "100% packet loss" for a probe
    // that never left the machine.
    assert!(parse_ping_times("").is_empty());
    assert_eq!(parse_ping_sent(""), None);
}

#[test]
fn unmeasured_burst_reports_nothing_rather_than_perfect() {
    // A `ping` binary that never ran must not read as 0% loss.
    let q = Quality::default();
    assert!(q.is_empty());
    assert_eq!(pct(q.loss_pct()), None);
}

#[test]
fn single_reply_has_no_jitter() {
    let q = Quality {
        sent: 1,
        rtts_ns: vec![4_200_000],
    };
    assert_eq!(millis(q.jitter_ms()), None);
    assert_eq!(pct(q.loss_pct()), Some(0.0));
}

#[test]
fn quality_from_samples_counts_timeouts_as_loss() {
    let q = Quality::from_samples(&[
        Probe::Up(10_000_000),
        Probe::Timeout,
        Probe::Up(30_000_000),
        Probe::Timeout,
    ]);
    assert_eq!(q.sent, 4);
    assert_eq!(pct(q.loss_pct()), Some(50.0));
    assert_eq!(millis(q.jitter_ms()), Some(20.0));
}

fn ip(s: &str) -> IpAddr {
    ip_from_str(s).unwrap()
}

#[test]
fn a_burst_is_sent_with_the_tool_for_its_family() {
    let c = ping_command(ip("192.168.0.1"), None, 5, 200, 3);
    assert_eq!(c.program, "ping");
    assert_eq!(
        c.args,
        vec!["-c", "5", "-t", "3", "-i", "0.200", "192.168.0.1"]
    );
    assert_eq!(c.budget_ms, 5000);
    let c = ping_command(ip("fe80::1"), Some("en0"), 1, 1050, 0);
    assert_eq!(c.program, "ping6");
    assert_eq!(c.args, vec!["-c", "1", "fe80::1%en0"]);
    assert_eq!(c.budget_ms, 2050);
    let c = ping_command(ip("10.0.0.1"), Some("en0"), 2, 1005, 0);
    assert_eq!(c.args, vec!["-c", "2", "-t", "1", "-i", "1.005", "10.0.0.1"]);
}

/// A run cut short by its ceiling leaves no tally, and what it printed still
/// counts against what it was asked to send.
#[test]
fn a_burst_is_what_its_output_says() {
    let q = burst_from_output(LOSSY, 5);
    assert_eq!(q.sent, 5);
    assert_eq!(q.rtts_ns, vec![3_456_000, 9_456_000, 5_456_000]);
    assert!(burst_from_output("", 5).is_empty());
}

/// A clock that was set back between an echo and its reply leaves a negative
/// time, which counts like any other.
#[test]
fn a_time_may_be_negative() {
    let q = burst_from_output(
        "64 bytes from 10.0.0.1: icmp_seq=0 ttl=64 time=-2.5 ms
64 bytes from 10.0.0.1: icmp_seq=1 ttl=64 time=1.5 ms
",
        2,
    );
    assert_eq!(q.rtts_ns, vec![-2_500_000, 1_500_000]);
    assert_eq!(q.avg_or_zero().tenths_text(), "-0.5");
    assert_eq!(q.jitter_ms().map(|m| m.tenths_text()).as_deref(), Some("4.0"));
    let far = Quality {
        sent: 2,
        rtts_ns: vec![i64::MIN, i64::MAX],
    };
    assert_eq!(far.jitter_ms().map(|m| m.nanos()), Some(u128::from(u64::MAX)));
}

#[test]
fn a_burst_warns_and_never_breaks() {
    let lossy = burst_from_output(LOSSY, 5);
    assert_eq!(lossy.grade(120), Status::Warn);
    let complaint = lossy.complaint(120).unwrap();
    assert!(complaint.contains("40%"), "got: {complaint}");
    let clean = Quality {
        sent: 2,
        rtts_ns: vec![10_000_000, 11_000_000],
    };
    assert_eq!(clean.grade(120), Status::Healthy);
    assert_eq!(clean.complaint(120), None);
    let shaky = Quality {
        sent: 2,
        rtts_ns: vec![10_000_000, 200_000_000],
    };
    assert_eq!(shaky.grade(120), Status::Warn);
    let dead = Quality {
        sent: 3,
        rtts_ns: vec![],
    };
    assert_eq!(dead.grade(120), Status::Warn);
    assert_eq!(dead.lost_count(), 3);
    assert_eq!(dead.avg_or_zero().nanos(), 0);
}

#[test]
fn a_hop_carries_the_burst_it_was_measured_with() {
    let mut hop = Hop::new(HopId::Gateway, Layer::Network, "Gateway");
    let status = apply_quality(&mut hop, &burst_from_output(LOSSY, 5), 60);
    assert_eq!(status, Status::Warn);
    assert_eq!(pct(hop.loss_pct), Some(40.0));
    assert_eq!(millis(hop.jitter_ms), Some(5.0));
}

#[test]
fn carrier_space_is_shared_space() {
    assert!(is_cgnat(ip("100.64.0.1")));
    assert!(!is_cgnat(ip("100.63.255.255")));
    assert!(!is_cgnat(ip("fe80::1")));
    assert_eq!(Probe::Up(1_500_000).ms().map(|m| m.tenths_text()).as_deref(), Some("1.5"));
    assert!(Probe::Timeout.ms().is_none());
    assert!(!Probe::Timeout.is_up());
}
