//! The dashboard's state, and what it shows.

use std::collections::VecDeque;
use wtfi2::model::{Hop, HopId, Layer, Metric, Millis, Path, Status};
use wtfi2::platform::LinkInfo;
use wtfi2::probe::link::grade;
use wtfi2::ui::dashboard::{
    activity, arrow, card_glyph, connectors, detail, gauge, gauge_label, gauge_status,
    hop_stat_line, latest, rssi, sparkline, spinner, verdict_tag, Event, Key, Reaction, HISTORY,
};
use wtfi2::ui::App;

fn hop(id: HopId, title: &str, status: Status) -> Hop {
    let mut h = Hop::new(id, Layer::Network, title);
    h.status = status;
    h
}

fn ms(v: i64) -> Millis {
    Millis::from_nanos(v * 1_000_000)
}

fn history(values: &[i64]) -> VecDeque<Millis> {
    values.iter().map(|v| ms(*v)).collect()
}

/// Every hop of the chain reports in.
fn settle(app: &mut App) {
    for id in [
        HopId::Host,
        HopId::Link,
        HopId::Gateway,
        HopId::Wan,
        HopId::Dns,
        HopId::Captive,
    ] {
        app.apply(hop(id, "Hop", Status::Healthy));
    }
}

#[test]
fn a_verdict_waits_for_every_hop() {
    let mut app = App::new();
    assert!(app.scanning);
    assert_eq!(app.verdict.status, Status::Pending);
    app.apply(hop(HopId::Gateway, "Gateway", Status::Fail));
    assert!(app.scanning);
    assert_eq!(app.verdict.status, Status::Pending);
    settle(&mut app);
    assert!(!app.scanning);
    assert_eq!(app.verdict.status, Status::Healthy);
}

#[test]
fn a_restart_drops_what_may_not_come_back() {
    let mut app = App::new();
    app.apply(hop(HopId::Vpn, "VPN", Status::Healthy));
    app.apply(hop(HopId::Uplink, "Uplink", Status::Fail));
    settle(&mut app);
    let before = app.path.hops.len();
    app.restart();
    assert!(app.scanning);
    assert_eq!(app.path.hops.len(), before - 2);
    assert!(app.path.get(HopId::Vpn).is_none());
    assert!(app.path.get(HopId::Uplink).is_none());
    assert_eq!(app.path.get(HopId::Host).unwrap().status, Status::Healthy);
    assert_eq!(app.path.get(HopId::Dns).unwrap().status, Status::Pending);
}

#[test]
fn round_trips_are_remembered_up_to_a_bound() {
    let mut app = App::new();
    for i in 0..(HISTORY as i64 + 5) {
        let mut gw = hop(HopId::Gateway, "Gateway", Status::Healthy);
        gw.latency_ms = Some(ms(i));
        app.apply(gw);
    }
    app.apply(hop(HopId::Gateway, "Gateway", Status::Fail));
    assert_eq!(app.gw_hist.len(), HISTORY);
    assert_eq!(app.gw_hist[0].nanos(), 5_000_000);
    assert_eq!(app.gw_hist[HISTORY - 1].nanos(), 44_000_000);
    assert!(app.wan_hist.is_empty());
}

#[test]
fn keys_quit_and_sweep() {
    let mut app = App::new();
    assert_eq!(app.handle(Event::Pressed(Key::Char('q'))), Reaction::Quit);
    assert_eq!(app.handle(Event::Pressed(Key::Escape)), Reaction::Quit);
    assert_eq!(app.handle(Event::Pressed(Key::Char('x'))), Reaction::Draw);
    assert_eq!(app.handle(Event::Pressed(Key::Other)), Reaction::Draw);
    assert_eq!(app.handle(Event::Pressed(Key::Char('r'))), Reaction::Sweep);
}

/// A sweep that is still running is not cut short by the clock.
#[test]
fn the_clock_waits_for_the_sweep_before() {
    let mut app = App::new();
    assert_eq!(app.handle(Event::Reprobe), Reaction::Draw);
    settle(&mut app);
    assert_eq!(app.handle(Event::Reprobe), Reaction::Sweep);
    assert!(app.scanning);
    assert_eq!(app.handle(Event::Tick), Reaction::Draw);
    assert_eq!(app.tick, 1);
    let landed = Event::Landed(hop(HopId::Dns, "DNS", Status::Warn));
    assert_eq!(app.handle(landed), Reaction::Draw);
    assert_eq!(app.path.get(HopId::Dns).unwrap().status, Status::Warn);
}

#[test]
fn a_running_sweep_spins() {
    let mut app = App::new();
    assert_eq!(activity(&app), " ⠋ scanning");
    app.tick = 9;
    assert_eq!(activity(&app), " ⠙ scanning");
    assert_eq!(spinner(7), "⠧");
    settle(&mut app);
    assert_eq!(activity(&app), " ✓ live");
    assert_eq!(card_glyph(&hop(HopId::Dns, "DNS", Status::Pending), 2), "⠹");
    assert_eq!(card_glyph(&hop(HopId::Dns, "DNS", Status::Fail), 2), "✗");
}

#[test]
fn a_card_shows_the_number_that_matters() {
    let mut h = hop(HopId::Dns, "DNS", Status::Fail);
    assert_eq!(hop_stat_line(&h), "down");
    h.status = Status::Skipped;
    assert_eq!(hop_stat_line(&h), "skipped");
    h.latency_ms = Some(Millis::from_nanos(12_400_000));
    assert_eq!(hop_stat_line(&h), "12 ms");
}

#[test]
fn only_the_first_break_is_crossed_out() {
    let path = Path {
        hops: vec![
            hop(HopId::Host, "You", Status::Healthy),
            hop(HopId::Link, "Wi-Fi", Status::Warn),
            hop(HopId::Gateway, "Gateway", Status::Fail),
            hop(HopId::Wan, "Internet", Status::Fail),
        ],
    };
    let joined = connectors(&path);
    assert_eq!(joined.len(), 3);
    assert_eq!(joined[0].status, Status::Warn);
    assert_eq!(joined[1].status, Status::Fail);
    assert_eq!(
        joined.iter().map(|c| c.is_break).collect::<Vec<_>>(),
        vec![false, true, false]
    );
    assert_eq!(arrow(true), "─╳─▶");
    assert_eq!(arrow(false), "───▶");
    assert!(connectors(&Path::default()).is_empty());
}

/// What breaks behind a broken first hop is collateral, and no connector leads
/// to the first hop.
#[test]
fn nothing_is_crossed_out_behind_a_broken_first_hop() {
    let path = Path {
        hops: vec![
            hop(HopId::Host, "You", Status::Fail),
            hop(HopId::Link, "Wi-Fi", Status::Healthy),
            hop(HopId::Gateway, "Gateway", Status::Fail),
        ],
    };
    assert!(connectors(&path).iter().all(|c| !c.is_break));
}

#[test]
fn the_detail_leaves_the_host_out() {
    let path = Path {
        hops: vec![
            hop(HopId::Host, "You", Status::Healthy),
            hop(HopId::Dns, "DNS", Status::Warn),
        ],
    };
    let rows = detail(&path);
    assert_eq!(rows.len(), 1);
    assert_eq!(rows[0].title, "DNS      ");
    assert_eq!(rows[0].status, Status::Warn);
    assert!(rows[0].summary.is_none());
}

#[test]
fn a_verdict_is_tagged() {
    assert_eq!(verdict_tag(Status::Healthy), " ALL GOOD ");
    assert_eq!(verdict_tag(Status::Warn), " DEGRADED ");
    assert_eq!(verdict_tag(Status::Pending), " SCANNING ");
    assert_eq!(verdict_tag(Status::Fail), " BROKEN ");
    assert_eq!(verdict_tag(Status::Skipped), " UNKNOWN ");
}

#[test]
fn the_gauge_reads_the_link() {
    let mut link = hop(HopId::Link, "Wi-Fi", Status::Healthy);
    link.metrics.push(Metric::new("Noise", "-92 dBm"));
    link.metrics.push(Metric::new("RSSI", "-60 dBm"));
    let path = Path { hops: vec![link] };
    assert_eq!(rssi(&path), Some(-60_000_000));
    assert_eq!(gauge(Some(-60_000_000)), 30_000_000);
    assert_eq!(gauge(Some(-120_000_000)), 0);
    assert_eq!(gauge(Some(-10_000_000)), 60_000_000);
    assert_eq!(gauge(None), 0);
    assert_eq!(gauge_status(36_000_001), Status::Healthy);
    assert_eq!(gauge_status(36_000_000), Status::Warn);
    assert_eq!(gauge_status(21_000_001), Status::Warn);
    assert_eq!(gauge_status(21_000_000), Status::Fail);
    assert_eq!(gauge_label(Some(-60_000_000)), "signal -60 dBm");
    assert_eq!(gauge_label(None), "signal —");
    assert_eq!(rssi(&Path::default()), None);
}

#[test]
fn the_gauge_reads_a_fraction() {
    for (value, shown, label) in [
        ("1.5 dBm", 1_500_000, "signal 2 dBm"),
        ("-67.25 dBm", -67_250_000, "signal -67 dBm"),
        ("-0.25", -250_000, "signal -0 dBm"),
        ("+6e1", 60_000_000, "signal 60 dBm"),
    ] {
        let mut link = hop(HopId::Link, "Wi-Fi", Status::Healthy);
        link.metrics.push(Metric::new("RSSI", value));
        let strength = rssi(&Path { hops: vec![link] });
        assert_eq!(strength, Some(shown));
        assert_eq!(gauge_label(strength), label);
    }
    assert_eq!(gauge(Some(-67_250_000)), 22_750_000);
    let mut link = hop(HopId::Link, "Wi-Fi", Status::Healthy);
    link.metrics.push(Metric::new("RSSI", "weak"));
    assert_eq!(rssi(&Path { hops: vec![link] }), None);
}

#[test]
fn bars_stand_between_the_least_and_the_greatest() {
    assert_eq!(sparkline(&history(&[0, 70, 10, 35]), 40), "▁█▂▅");
    assert_eq!(sparkline(&history(&[0, 70, 10, 35]), 2), "▂▅");
    assert_eq!(sparkline(&history(&[5, 5]), 40), "▅▅");
    assert_eq!(sparkline(&history(&[]), 40), "");
    // Apart by less than a nanosecond, and apart all the same.
    let close = VecDeque::from([
        Millis::mean(10, 3),
        Millis::mean(7, 2),
        Millis::mean(u128::MAX - 1, u64::MAX),
        Millis::mean(u128::MAX, u64::MAX),
    ]);
    assert_eq!(sparkline(&close, 40), "▁▁██");
    let thirds = VecDeque::from([
        Millis::mean(10, 3),
        Millis::mean(7, 2),
        Millis::mean(11, 3),
    ]);
    assert_eq!(sparkline(&thirds, 40), "▁▅█");
    assert_eq!(sparkline(&history(&[-35, 35, -25, 0]), 40), "▁█▂▅");
    assert_eq!(latest(&history(&[-5])), " -5ms");
    assert_eq!(latest(&history(&[5, 12])), " 12ms");
    assert_eq!(latest(&history(&[])), "");
}

/// The gauge shows the strength that the link probe wrote down.
#[test]
fn the_gauge_reads_a_graded_link() {
    for strength in [Some(-60), Some(0), Some(7), Some(i32::MIN), None] {
        let mut link = Hop::new(HopId::Link, Layer::Link, "Wi-Fi");
        let info = LinkInfo {
            interface: "en0".to_string(),
            rssi_dbm: strength,
            noise_dbm: Some(-92),
            channel: Some(40),
            is_wifi: true,
            ..Default::default()
        };
        grade(&mut link, &info);
        let shown = rssi(&Path { hops: vec![link] });
        assert_eq!(shown, strength.map(|s| i64::from(s) * 1_000_000));
    }
}
