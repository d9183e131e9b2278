//! Platforms, and the facts they give.

use wtfi2::addr::{ip_from_str, IpAddr, Ipv4Addr};
use wtfi2::platform::unsupported::Unsupported;
use wtfi2::platform::{unsupported_os, AddrInfo, LinkInfo, Platform, PlatformError};

#[test]
fn every_query_refuses_rather_than_inventing_data() {
    let p = Unsupported;
    assert!(matches!(p.route(), Err(PlatformError::Unsupported)));
    assert!(matches!(p.link("en0"), Err(PlatformError::Unsupported)));
    assert!(matches!(p.resolvers(), Err(PlatformError::Unsupported)));
    assert!(matches!(p.vpn(), Err(PlatformError::Unsupported)));
    assert!(matches!(p.addrs("en0"), Err(PlatformError::Unsupported)));
    assert!(matches!(p.primary_interface(), Err(PlatformError::Unsupported)));
}

/// Only macOS has a platform module.
#[test]
fn the_os_is_reported_as_unsupported() {
    assert!(unsupported_os("linux").is_some());
}

fn v4(s: &str) -> Ipv4Addr {
    match ip_from_str(s) {
        Some(IpAddr::V4(a)) => a,
        other => panic!("not IPv4: {other:?}"),
    }
}

#[test]
fn only_macos_is_supported() {
    assert_eq!(unsupported_os("macos"), None);
    assert!(unsupported_os("linux").is_some());
    assert!(unsupported_os("windows").is_some());
}

#[test]
fn a_subnet_holds_what_shares_its_prefix() {
    let holds = |addr: &str, prefix: u8, other: &str| {
        let info = AddrInfo {
            v4: Some((v4(addr), prefix)),
            v6: vec![],
        };
        info.v4_contains(ip_from_str(other).unwrap())
    };
    assert_eq!(holds("192.168.1.7", 24, "192.168.1.254"), Some(true));
    assert_eq!(holds("192.168.1.7", 24, "192.168.2.1"), Some(false));
    assert_eq!(holds("192.168.1.7", 0, "8.8.8.8"), Some(true));
    assert_eq!(holds("192.168.1.7", 32, "192.168.1.7"), Some(true));
    assert_eq!(holds("192.168.1.7", 32, "192.168.1.6"), Some(false));
    assert_eq!(holds("192.168.1.7", 24, "fe80::1"), None);
    assert_eq!(
        AddrInfo::default().v4_contains(ip_from_str("1.1.1.1").unwrap()),
        None
    );
}

#[test]
fn an_autoconfigured_address_is_told_by_its_range() {
    let info = |s: &str| AddrInfo {
        v4: Some((v4(s), 16)),
        v6: vec![],
    };
    assert!(info("169.254.10.20").is_self_assigned());
    assert!(!info("192.168.0.2").is_self_assigned());
    assert!(!AddrInfo::default().is_self_assigned());
}

#[test]
fn a_signal_stands_above_its_noise() {
    let mut info = LinkInfo::default();
    assert_eq!(info.snr_db(), None);
    info.rssi_dbm = Some(-60);
    assert_eq!(info.snr_db(), None);
    info.noise_dbm = Some(-92);
    assert_eq!(info.snr_db(), Some(32));
    info.rssi_dbm = Some(i32::MAX);
    info.noise_dbm = Some(i32::MIN);
    assert_eq!(info.snr_db(), Some(4_294_967_295));
}

#[test]
fn each_error_says_what_it_is() {
    let messages = [
        PlatformError::Command("route: denied".to_string()).message(),
        PlatformError::Parse("route: no interface".to_string()).message(),
        PlatformError::NoNetwork.message(),
        PlatformError::Unsupported.message(),
    ];
    assert!(messages[0].contains("route: denied"));
    assert!(messages[1].contains("route: no interface"));
    for (i, a) in messages.iter().enumerate() {
        for b in &messages[i + 1..] {
            assert_ne!(a, b);
        }
    }
}
