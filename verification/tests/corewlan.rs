//! What CoreWLAN's codes stand for.

use wtfi2::platform::corewlan::{
    band_str, phy_mode_str, read_link, security_str, width_mhz, ChannelReading, Reading,
};

#[test]
fn phy_modes_map() {
    assert_eq!(phy_mode_str(5).as_deref(), Some("802.11ac"));
    assert_eq!(phy_mode_str(6).as_deref(), Some("802.11ax"));
    assert_eq!(phy_mode_str(0), None);
}

#[test]
fn security_maps_align_with_system_profiler_labels() {
    assert_eq!(
        security_str(4).as_deref(),
        Some("WPA2 Personal")
    );
    assert_eq!(
        security_str(11).as_deref(),
        Some("WPA3 Personal")
    );
    // WEP must be detectable as weak by the link grader.
    assert!(security_str(1).unwrap().contains("WEP"));
}

#[test]
fn channel_band_and_width_map() {
    assert_eq!(band_str(2).as_deref(), Some("5GHz"));
    assert_eq!(width_mhz(3), Some(80));
    assert_eq!(width_mhz(0), None);
}

fn reading() -> Reading {
    Reading {
        rssi: -60,
        noise: -92,
        ssid: Some("home".to_string()),
        bssid: None,
        phy_mode: 5,
        security: 4,
        tx_rate_mbps: Some(866),
        channel: Some(ChannelReading {
            number: 40,
            band: 2,
            width: 3,
        }),
    }
}

#[test]
fn a_reading_becomes_a_link() {
    let link = read_link("en0", &reading()).unwrap();
    assert!(link.is_wifi);
    assert_eq!(link.interface, "en0");
    assert_eq!(link.rssi_dbm, Some(-60));
    assert_eq!(link.noise_dbm, Some(-92));
    assert_eq!(link.channel, Some(40));
    assert_eq!(link.width_mhz, Some(80));
    assert_eq!(link.band.as_deref(), Some("5GHz"));
    assert_eq!(link.tx_rate_mbps, Some(866));
    assert_eq!(link.ssid.as_deref(), Some("home"));
}

/// Neither a signal nor a name: the card is not associated.
#[test]
fn no_signal_and_no_name_is_no_link() {
    let mut r = reading();
    r.rssi = 0;
    assert!(read_link("en0", &r).is_some());
    r.ssid = None;
    assert!(read_link("en0", &r).is_none());
    r.rssi = -60;
    assert!(read_link("en0", &r).is_some());
}
