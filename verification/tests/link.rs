//! The link hop.

use wtfi2::model::{Fault, Hop, HopId, Layer, Status};
use wtfi2::platform::unsupported::Unsupported;
use wtfi2::platform::{LinkInfo, PlatformError};
use wtfi2::probe::link::{grade, probe, report};

fn wifi(rssi: Option<i32>, noise: Option<i32>) -> LinkInfo {
    LinkInfo {
        interface: "en0".to_string(),
        ssid: Some("home".to_string()),
        rssi_dbm: rssi,
        noise_dbm: noise,
        is_wifi: true,
        ..Default::default()
    }
}

fn graded(info: &LinkInfo) -> Hop {
    let mut hop = Hop::new(HopId::Link, Layer::Link, "Wi-Fi");
    grade(&mut hop, info);
    hop
}

fn value<'a>(hop: &'a Hop, label: &str) -> Option<&'a str> {
    hop.metrics
        .iter()
        .find(|m| m.label == label)
        .map(|m| m.value.as_str())
}

#[test]
fn signal_strength_is_what_grades_a_link() {
    assert_eq!(graded(&wifi(Some(-50), None)).status, Status::Healthy);
    assert_eq!(graded(&wifi(Some(-67), None)).status, Status::Healthy);
    assert_eq!(graded(&wifi(Some(-68), None)).status, Status::Warn);
    assert_eq!(graded(&wifi(Some(-80), Some(-95))).status, Status::Warn);
    assert_eq!(graded(&wifi(None, None)).status, Status::Healthy);
}

/// A fair signal over a quiet channel is good enough.
#[test]
fn a_quiet_channel_redeems_a_fair_signal() {
    assert_eq!(graded(&wifi(Some(-70), Some(-90))).status, Status::Healthy);
    assert_eq!(graded(&wifi(Some(-70), Some(-89))).status, Status::Warn);
    assert_eq!(graded(&wifi(Some(-76), Some(-99))).status, Status::Warn);
}

#[test]
fn the_summary_names_the_signal() {
    let summary = |r, n| graded(&wifi(r, n)).summary.unwrap();
    assert_eq!(summary(Some(-55), None), "Excellent · -55 dBm");
    assert_eq!(summary(Some(-60), Some(-92)), "Good · -60 dBm (SNR 32 dB)");
    assert_eq!(summary(Some(-75), None), "Fair · -75 dBm");
    assert_eq!(summary(Some(-76), None), "Weak · -76 dBm");
    assert_eq!(summary(None, Some(-92)), "Link up");
}

#[test]
fn a_link_lists_what_the_radio_told() {
    let mut info = wifi(Some(-60), Some(-92));
    info.channel = Some(40);
    info.band = Some("5GHz".to_string());
    info.width_mhz = Some(80);
    info.phy_mode = Some("802.11ax".to_string());
    info.security = Some("WPA2 Personal".to_string());
    info.tx_rate_mbps = Some(866);
    let hop = graded(&info);
    assert_eq!(hop.subtitle.as_deref(), Some("home"));
    assert_eq!(value(&hop, "RSSI"), Some("-60 dBm"));
    assert_eq!(value(&hop, "Noise"), Some("-92 dBm"));
    assert_eq!(value(&hop, "SNR"), Some("32 dB"));
    assert_eq!(value(&hop, "Channel"), Some("40 (5GHz) / 80MHz"));
    assert_eq!(value(&hop, "PHY"), Some("802.11ax"));
    assert_eq!(value(&hop, "Security"), Some("WPA2 Personal"));
    assert_eq!(value(&hop, "Tx Rate"), Some("866 Mbps"));
    assert_eq!(value(&hop, "SSID"), None);
}

#[test]
fn weak_security_is_worth_a_warning() {
    for (name, weak) in [
        ("WEP", true),
        ("WPA", true),
        ("WPA Personal", true),
        ("WPA2 Personal", false),
        ("WPA3", false),
        ("Open", false),
    ] {
        let mut info = wifi(Some(-50), None);
        info.security = Some(name.to_string());
        let hop = graded(&info);
        let m = hop.metrics.iter().find(|m| m.label == "Security").unwrap();
        assert_eq!(m.status == Some(Status::Warn), weak, "{name}");
    }
}

#[test]
fn a_hidden_network_name_is_said_to_be_hidden() {
    let mut info = wifi(Some(-50), None);
    info.ssid = None;
    let hop = graded(&info);
    assert_eq!(hop.subtitle.as_deref(), Some("en0"));
    assert_eq!(value(&hop, "SSID"), Some("hidden (grant Location access)"));
}

#[test]
fn a_link_breaks_only_for_want_of_an_access_point() {
    let gone = report("en0", &Err(PlatformError::NoNetwork));
    assert_eq!(gone.status, Status::Fail);
    assert_eq!(gone.fault, Some(Fault::NotAssociated));
    let unread = report("en0", &Err(PlatformError::Parse("no output".to_string())));
    assert_eq!(unread.status, Status::Warn);
    let wired = report(
        "en5",
        &Ok(LinkInfo {
            interface: "en5".to_string(),
            ..Default::default()
        }),
    );
    assert_eq!(wired.status, Status::Healthy);
    assert_eq!(wired.title, "Link");
    assert_eq!(wired.subtitle.as_deref(), Some("en5"));
    assert_eq!(report("en0", &Ok(wifi(Some(-99), None))).status, Status::Warn);
}

#[test]
fn a_platform_without_a_module_leaves_the_link_unread() {
    let hop = probe(&Unsupported, "en0");
    assert_eq!(hop.status, Status::Warn);
    assert!(hop
        .summary
        .unwrap()
        .starts_with("Couldn't read link telemetry: "));
}
