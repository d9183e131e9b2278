//! CoreWLAN link source (macOS).
//!
//! What the associated Wi-Fi state means, once it has been read from
//! `CWWiFiClient` / `CWInterface`. Reading it is effectively instant, unlike
//! the multi-second `system_profiler SPAirPortDataType` spawn, so the live
//! dashboard fills the Wi-Fi node immediately.
//!
//! RSSI / noise / channel / PHY / security / tx-rate are available without
//! sudo or Location permission. SSID / BSSID stay unset on an unsigned binary
//! (macOS gates them behind Location authorization), which we handle the same
//! way as a redacted `system_profiler` reading.

use crate::model::path;
use crate::platform;
use crate::platform::LinkInfo;
use vstd::prelude::*;

verus! {

/// The channel of a reading, in CoreWLAN's own codes.
#[derive(Debug, Clone, Copy)]
pub struct ChannelReading {
    pub number: i64,
    pub band: i64,
    pub width: i64,
}

/// What CoreWLAN reports of an interface, in its own codes.
#[derive(Debug, Clone)]
pub struct Reading {
    pub rssi: i64,
    pub noise: i64,
    pub ssid: Option<String>,
    pub bssid: Option<String>,
    pub phy_mode: i64,
    pub security: i64,
    /// The transmit rate in whole Mbps; `None` when none is reported.
    pub tx_rate_mbps: Option<u32>,
    pub channel: Option<ChannelReading>,
}

/// The label of a PHY mode.
pub open spec fn phy_name(m: i64) -> Option<Seq<char>> {
    if m == 1 {
        Some("802.11a"@)
    } else if m == 2 {
        Some("802.11b"@)
    } else if m == 3 {
        Some("802.11g"@)
    } else if m == 4 {
        Some("802.11n"@)
    } else if m == 5 {
        Some("802.11ac"@)
    } else if m == 6 {
        Some("802.11ax"@)
    } else {
        None
    }
}

/// The label of a security type.
pub open spec fn security_name(s: i64) -> Option<Seq<char>> {
    if s == 0 {
        Some("None"@)
    } else if s == 1 {
        Some("WEP"@)
    } else if s == 2 {
        Some("WPA Personal"@)
    } else if s == 3 {
        Some("WPA/WPA2 Personal"@)
    } else if s == 4 {
        Some("WPA2 Personal"@)
    } else if s == 5 {
        Some("Personal"@)
    } else if s == 7 {
        Some("WPA Enterprise"@)
    } else if s == 8 {
        Some("WPA/WPA2 Enterprise"@)
    } else if s == 9 {
        Some("WPA2 Enterprise"@)
    } else if s == 10 {
        Some("Enterprise"@)
    } else if s == 11 {
        Some("WPA3 Personal"@)
    } else if s == 12 {
        Some("WPA3 Enterprise"@)
    } else if s == 13 {
        Some("WPA3 Transition"@)
    } else {
        None
    }
}

/// The label of a band.
pub open spec fn band_name(b: i64) -> Option<Seq<char>> {
    if b == 1 {
        Some("2GHz"@)
    } else if b == 2 {
        Some("5GHz"@)
    } else if b == 3 {
        Some("6GHz"@)
    } else {
        None
    }
}

/// The width that a code stands for.
pub open spec fn width_value(w: i64) -> Option<u32> {
    if w == 1 {
        Some(20u32)
    } else if w == 2 {
        Some(40u32)
    } else if w == 3 {
        Some(80u32)
    } else if w == 4 {
        Some(160u32)
    } else {
        None
    }
}

/// The label of a PHY mode.
pub fn phy_mode_str(m: i64) -> (r: Option<String>)
    ensures
        path::opt_text(r) == phy_name(m),
{
    let s = match m {
        1 => "802.11a",
        2 => "802.11b",
        3 => "802.11g",
        4 => "802.11n",
        5 => "802.11ac",
        6 => "802.11ax",
        _ => return None,
    };
    Some(s.to_string())
}

/// Human labels aligned with `system_profiler` so link grading (weak-security
/// detection) behaves identically across both sources.
pub fn security_str(s: i64) -> (r: Option<String>)
    ensures
        path::opt_text(r) == security_name(s),
{
    let label = match s {
        0 => "None",
        1 => "WEP",
        2 => "WPA Personal",
        3 => "WPA/WPA2 Personal",
        4 => "WPA2 Personal",
        5 => "Personal",
        7 => "WPA Enterprise",
        8 => "WPA/WPA2 Enterprise",
        9 => "WPA2 Enterprise",
        10 => "Enterprise",
        11 => "WPA3 Personal",
        12 => "WPA3 Enterprise",
        13 => "WPA3 Transition",
        _ => return None,
    };
    Some(label.to_string())
}

/// The label of a band.
pub fn band_str(b: i64) -> (r: Option<String>)
    ensures
        path::opt_text(r) == band_name(b),
{
    let s = match b {
        1 => "2GHz",
        2 => "5GHz",
        3 => "6GHz",
        _ => return None,
    };
    Some(s.to_string())
}

/// The width that a code stands for.
pub fn width_mhz(w: i64) -> (r: Option<u32>)
    ensures
        r == width_value(w),
{
    match w {
        1 => Some(20),
        2 => Some(40),
        3 => Some(80),
        4 => Some(160),
        _ => None,
    }
}

/// The facts in a reading of an associated interface.
pub open spec fn link_of(interface: Seq<char>, r: Reading) -> platform::LinkView {
    platform::LinkView {
        interface,
        ssid: path::opt_text(r.ssid),
        bssid: path::opt_text(r.bssid),
        rssi_dbm: Some(r.rssi as i32),
        noise_dbm: Some(r.noise as i32),
        channel: match r.channel {
            Some(ch) if ch.number > 0 => Some(ch.number as u32),
            _ => None,
        },
        band: match r.channel {
            Some(ch) => band_name(ch.band),
            None => None,
        },
        width_mhz: match r.channel {
            Some(ch) => width_value(ch.width),
            None => None,
        },
        phy_mode: phy_name(r.phy_mode),
        security: security_name(r.security),
        tx_rate_mbps: r.tx_rate_mbps,
        is_wifi: true,
    }
}

/// Interpret the current Wi-Fi link as CoreWLAN reports it, or `None` if it is
/// not associated (the caller then falls back to `system_profiler`).
pub fn read_link(interface: &str, reading: &Reading) -> (r: Option<LinkInfo>)
    ensures
        match r {
            Some(info) => !(reading.rssi == 0 && reading.ssid is None) && info@ == link_of(
                interface@,
                *reading,
            ),
            None => reading.rssi == 0 && reading.ssid is None,
        },
{
    // rssi == 0 with no SSID means "not associated" — let the fallback speak.
    if reading.rssi == 0 && reading.ssid.is_none() {
        return None;
    }
    let (channel, band, width) = match &reading.channel {
        Some(ch) => (
            if ch.number > 0 {
                Some(ch.number as u32)
            } else {
                None
            },
            band_str(ch.band),
            width_mhz(ch.width),
        ),
        None => (None, None, None),
    };
    Some(
        LinkInfo {
            interface: interface.to_string(),
            ssid: path::copy_text(&reading.ssid),
            bssid: path::copy_text(&reading.bssid),
            rssi_dbm: Some(reading.rssi as i32),
            noise_dbm: Some(reading.noise as i32),
            channel,
            band,
            width_mhz: width,
            phy_mode: phy_mode_str(reading.phy_mode),
            security: security_str(reading.security),
            tx_rate_mbps: reading.tx_rate_mbps,
            is_wifi: true,
        },
    )
}

/// Each code of a PHY mode, a band or a width stands for something of its own.
pub proof fn codes_are_told_apart(m: i64, n: i64)
    requires
        m != n,
    ensures
        phy_name(m) is Some ==> phy_name(m) != phy_name(n),
        band_name(m) is Some ==> band_name(m) != band_name(n),
        width_value(m) is Some ==> width_value(m) != width_value(n),
        security_name(m) is Some ==> security_name(m) != security_name(n),
{
    lemma_phy_names(m, n);
    lemma_band_names(m, n);
    lemma_security_names(m, n);
}

proof fn lemma_phy_names(m: i64, n: i64)
    requires
        m != n,
    ensures
        phy_name(m) is Some ==> phy_name(m) != phy_name(n),
{
    reveal_strlit("802.11a");
    reveal_strlit("802.11b");
    reveal_strlit("802.11g");
    reveal_strlit("802.11n");
    reveal_strlit("802.11ac");
    reveal_strlit("802.11ax");
    assert("802.11a"@[6] == 'a' && "802.11b"@[6] == 'b' && "802.11g"@[6] == 'g' && "802.11n"@[6]
        == 'n');
    assert("802.11ac"@[7] == 'c' && "802.11ax"@[7] == 'x');
    assert("802.11a"@.len() == 7 && "802.11b"@.len() == 7 && "802.11g"@.len() == 7 && "802.11n"@.len()
        == 7);
    assert("802.11ac"@.len() == 8 && "802.11ax"@.len() == 8);
}

proof fn lemma_band_names(m: i64, n: i64)
    requires
        m != n,
    ensures
        band_name(m) is Some ==> band_name(m) != band_name(n),
{
    reveal_strlit("2GHz");
    reveal_strlit("5GHz");
    reveal_strlit("6GHz");
    assert("2GHz"@[0] == '2' && "5GHz"@[0] == '5' && "6GHz"@[0] == '6');
}

proof fn lemma_security_names(m: i64, n: i64)
    requires
        m != n,
    ensures
        security_name(m) is Some ==> security_name(m) != security_name(n),
{
    reveal_strlit("None");
    reveal_strlit("WEP");
    reveal_strlit("WPA Personal");
    reveal_strlit("WPA/WPA2 Personal");
    reveal_strlit("WPA2 Personal");
    reveal_strlit("Personal");
    reveal_strlit("WPA Enterprise");
    reveal_strlit("WPA/WPA2 Enterprise");
    reveal_strlit("WPA2 Enterprise");
    reveal_strlit("Enterprise");
    reveal_strlit("WPA3 Personal");
    reveal_strlit("WPA3 Enterprise");
    reveal_strlit("WPA3 Transition");
    assert("None"@.len() == 4 && "WEP"@.len() == 3 && "WPA Personal"@.len() == 12);
    assert("WPA/WPA2 Personal"@.len() == 17 && "WPA2 Personal"@.len() == 13);
    assert("Personal"@.len() == 8 && "WPA Enterprise"@.len() == 14);
    assert("WPA/WPA2 Enterprise"@.len() == 19 && "WPA2 Enterprise"@.len() == 15);
    assert("Enterprise"@.len() == 10 && "WPA3 Personal"@.len() == 13);
    assert("WPA3 Enterprise"@.len() == 15 && "WPA3 Transition"@.len() == 15);
    assert("WPA2 Personal"@[3] == '2' && "WPA3 Personal"@[3] == '3');
    assert("WPA2 Enterprise"@[3] == '2' && "WPA3 Enterprise"@[3] == '3');
    assert("WPA3 Enterprise"@[5] == 'E' && "WPA3 Transition"@[5] == 'T');
    assert("WPA3 Transition"@[3] == '3');
}

/// The narrowest width is twenty megahertz, and each further code doubles it.
pub proof fn widths_double(w: i64)
    ensures
        width_value(w) is Some <==> 1 <= w <= 4,
        width_value(1) == Some(20u32),
        1 <= w < 4 ==> width_value((w + 1) as i64)->Some_0 == 2 * width_value(w)->Some_0,
{
}

/// A reading in range is passed on number by number: signal as signal, noise as
/// noise, and a channel only where its number is one.
pub proof fn a_reading_is_passed_on(interface: Seq<char>, r: Reading)
    requires
        i32::MIN <= r.rssi <= i32::MAX,
        i32::MIN <= r.noise <= i32::MAX,
        r.channel matches Some(ch) ==> ch.number <= u32::MAX,
    ensures
        ({
            let link = link_of(interface, r);
            &&& link.is_wifi && link.interface == interface
            &&& link.rssi_dbm is Some && link.rssi_dbm->Some_0 == r.rssi
            &&& link.noise_dbm is Some && link.noise_dbm->Some_0 == r.noise
            &&& link.ssid == path::opt_text(r.ssid) && link.bssid == path::opt_text(r.bssid)
            &&& link.tx_rate_mbps == r.tx_rate_mbps
            &&& link.phy_mode == phy_name(r.phy_mode) && link.security == security_name(r.security)
            &&& match r.channel {
                Some(ch) => (link.channel is Some <==> ch.number > 0) && (link.channel is Some
                    ==> link.channel->Some_0 == ch.number) && link.band == band_name(ch.band)
                    && link.width_mhz == width_value(ch.width),
                None => link.channel is None && link.band is None && link.width_mhz is None,
            }
        }),
{
}

} // verus!
