//! L2 link probe: turn raw [`LinkInfo`] into a graded hop.

use crate::model::path;
use crate::model::{Fault, Hop, HopId, Layer, Metric, Status};
use crate::number;
use crate::platform;
use crate::platform::{LinkInfo, Platform, PlatformError};
use crate::text;
use vstd::prelude::*;

verus! {

broadcast use vstd::string::group_string_axioms;

/// The word for a signal strength.
pub open spec fn word_for(rssi: i32) -> Seq<char> {
    if rssi >= -55 {
        "Excellent"@
    } else if rssi >= -67 {
        "Good"@
    } else if rssi >= -75 {
        "Fair"@
    } else {
        "Weak"@
    }
}

/// Graded primarily on RSSI, cross-checked by SNR. Without signal data (e.g.
/// wired) there is nothing to punish.
pub open spec fn standing(info: platform::LinkView) -> Status {
    match (info.rssi_dbm, info.snr()) {
        (Some(r), s) => if r >= -67 || (r >= -75 && s is Some && s->0 >= 20) {
            Status::Healthy
        } else {
            Status::Warn
        },
        (None, _) => Status::Healthy,
    }
}

/// `-45 dBm`.
pub open spec fn dbm(n: i32) -> Seq<char> {
    number::signed_decimal(n as int) + " dBm"@
}

/// The signal in one line.
pub open spec fn signal_text(info: platform::LinkView) -> Seq<char> {
    match (info.rssi_dbm, info.snr()) {
        (Some(r), Some(s)) => word_for(r) + " · "@ + dbm(r) + " (SNR "@ + number::signed_decimal(
            s as int,
        ) + " dB)"@,
        (Some(r), None) => word_for(r) + " · "@ + dbm(r),
        (None, _) => "Link up"@,
    }
}

/// `40 (5GHz) / 80MHz`.
pub open spec fn channel_text(channel: u32, band: Option<Seq<char>>, width: Option<u32>) -> Seq<char> {
    number::decimal(channel as nat) + (match band {
        Some(b) => " ("@ + b + ")"@,
        None => seq![],
    }) + (match width {
        Some(w) => " / "@ + number::decimal(w as nat) + "MHz"@,
        None => seq![],
    })
}

/// A security type that is no longer one.
pub open spec fn is_weak(security: Seq<char>) -> bool {
    text::contains(security, "WEP"@) || text::contains(security, "WPA "@) || security == "WPA"@
}

/// The lines on the signal.
pub open spec fn signal_metrics(info: platform::LinkView) -> Seq<path::MetricView> {
    let none = Seq::<path::MetricView>::empty();
    (match info.rssi_dbm {
        Some(r) => seq![path::graded("RSSI"@, dbm(r), standing(info))],
        None => none,
    }) + (match info.noise_dbm {
        Some(n) => seq![path::plain("Noise"@, dbm(n))],
        None => none,
    }) + (match info.snr() {
        Some(s) => seq![path::plain("SNR"@, number::signed_decimal(s as int) + " dB"@)],
        None => none,
    })
}

/// The lines on the radio.
pub open spec fn radio_metrics(info: platform::LinkView) -> Seq<path::MetricView> {
    let none = Seq::<path::MetricView>::empty();
    (match info.channel {
        Some(ch) => seq![path::plain("Channel"@, channel_text(ch, info.band, info.width_mhz))],
        None => none,
    }) + (match info.phy_mode {
        Some(p) => seq![path::plain("PHY"@, p)],
        None => none,
    }) + (match info.security {
        Some(s) => seq![
            if is_weak(s) {
                path::graded("Security"@, s, Status::Warn)
            } else {
                path::plain("Security"@, s)
            },
        ],
        None => none,
    })
}

/// The lines on the network.
pub open spec fn network_metrics(info: platform::LinkView) -> Seq<path::MetricView> {
    let none = Seq::<path::MetricView>::empty();
    (match info.tx_rate_mbps {
        Some(tx) => seq![path::plain("Tx Rate"@, number::decimal(tx as nat) + " Mbps"@)],
        None => none,
    }) + (match info.ssid {
        Some(_) => none,
        None => seq![path::graded("SSID"@, "hidden (grant Location access)"@, Status::Warn)],
    })
}

/// The grade of a Wi-Fi link.
pub open spec fn graded(hop: path::HopView, info: platform::LinkView) -> path::HopView {
    path::HopView {
        subtitle: Some(
            match info.ssid {
                Some(s) => s,
                None => info.interface,
            },
        ),
        status: standing(info),
        summary: Some(signal_text(info)),
        metrics: hop.metrics + signal_metrics(info) + radio_metrics(info) + network_metrics(info),
        ..hop
    }
}

/// The hop that reading the link came to.
pub open spec fn link_hop(interface: Seq<char>, link: Result<LinkInfo, PlatformError>) -> path::HopView {
    let hop = path::blank(HopId::Link, Layer::Link, "Wi-Fi"@);
    match link {
        Ok(info) => if info.is_wifi {
            graded(hop, info@)
        } else {
            path::HopView {
                title: "Link"@,
                subtitle: Some(interface),
                status: Status::Healthy,
                summary: Some("Wired or non-Wi-Fi link is up"@),
                ..hop
            }
        },
        Err(PlatformError::NoNetwork) => hop.failed(
            Fault::NotAssociated,
            "Not associated with any access point"@,
        ),
        Err(e) => hop.reporting(Status::Warn, None, "Couldn't read link telemetry: "@ + e@.words()),
    }
}

/// Assess the Wi-Fi link for `interface` using the platform layer.
pub fn probe<P: Platform>(platform: &P, interface: &str) -> (r: Hop)
    ensures
        exists|res: Result<LinkInfo, PlatformError>|
            #[trigger] call_ensures(P::link, (platform, interface), res) && r@ == link_hop(
                interface@,
                res,
            ),
{
    let res = platform.link(interface);
    report(interface, &res)
}

/// The hop that reading the link on `interface` came to.
pub fn report(interface: &str, link: &Result<LinkInfo, PlatformError>) -> (r: Hop)
    ensures
        r@ == link_hop(interface@, *link),
{
    let mut hop = Hop::new(HopId::Link, Layer::Link, "Wi-Fi");
    match link {
        Ok(info) => {
            if info.is_wifi {
                grade(&mut hop, info);
            } else {
                // Associated interface but not Wi-Fi (wired / unknown).
                hop.status = Status::Healthy;
                hop.title = "Link".to_string();
                hop.subtitle = Some(interface.to_string());
                hop.summary = Some("Wired or non-Wi-Fi link is up".to_string());
            }
        },
        Err(PlatformError::NoNetwork) => {
            hop.fail(Fault::NotAssociated, "Not associated with any access point");
        },
        Err(e) => {
            hop.set_report(
                Status::Warn,
                None,
                text::cat2("Couldn't read link telemetry: ", e.message().as_str()).as_str(),
            );
        },
    }
    hop
}

fn signal_word(rssi: i32) -> (r: &'static str)
    ensures
        r@ == word_for(rssi),
{
    if rssi >= -55 {
        "Excellent"
    } else if rssi >= -67 {
        "Good"
    } else if rssi >= -75 {
        "Fair"
    } else {
        "Weak"
    }
}

fn standing_of(info: &LinkInfo) -> (r: Status)
    ensures
        r == standing(info@),
{
    match (info.rssi_dbm, info.snr_db()) {
        (Some(r), snr) => {
            let clear = match snr {
                Some(s) => s >= 20,
                None => false,
            };
            if r >= -67 || (r >= -75 && clear) {
                Status::Healthy
            } else {
                Status::Warn
            }
        },
        (None, _) => Status::Healthy,
    }
}

fn dbm_of(n: i32) -> (r: String)
    ensures
        r@ == dbm(n),
{
    text::cat2(number::signed_of(n as i64).as_str(), " dBm")
}

fn signal_of(info: &LinkInfo) -> (r: String)
    ensures
        r@ == signal_text(info@),
{
    match (info.rssi_dbm, info.snr_db()) {
        (Some(r), Some(s)) => text::cat3(
            text::cat3(signal_word(r), " · ", dbm_of(r).as_str()).as_str(),
            " (SNR ",
            text::cat2(number::signed_of(s).as_str(), " dB)").as_str(),
        ),
        (Some(r), None) => text::cat3(signal_word(r), " · ", dbm_of(r).as_str()),
        (None, _) => "Link up".to_string(),
    }
}

fn channel_of(info: &LinkInfo, channel: u32) -> (r: String)
    ensures
        r@ == channel_text(channel, info@.band, info.width_mhz),
{
    let band = match &info.band {
        Some(b) => text::cat3(" (", b.as_str(), ")"),
        None => String::new(),
    };
    let width = match info.width_mhz {
        Some(w) => text::cat3(" / ", number::decimal_of(w as u128).as_str(), "MHz"),
        None => String::new(),
    };
    text::cat3(number::decimal_of(channel as u128).as_str(), band.as_str(), width.as_str())
}

fn security_metric(security: &String) -> (r: Metric)
    ensures
        r@ == (if is_weak(security@) {
            path::graded("Security"@, security@, Status::Warn)
        } else {
            path::plain("Security"@, security@)
        }),
{
    let chars = text::chars_of(security.as_str());
    let s = chars.as_slice();
    let weak = text::has(s, "WEP") || text::has(s, "WPA ") || text::text_is(s, "WPA");
    let m = Metric::new("Security", security.as_str());
    if weak {
        m.with_status(Status::Warn)
    } else {
        m
    }
}

fn show_signal(hop: &mut Hop, info: &LinkInfo)
    ensures
        final(hop)@ == (path::HopView {
            metrics: old(hop)@.metrics + signal_metrics(info@),
            ..old(hop)@
        }),
{
    if let Some(r) = info.rssi_dbm {
        hop.push_metric(Metric::new("RSSI", dbm_of(r).as_str()).with_status(standing_of(info)));
    }
    if let Some(n) = info.noise_dbm {
        hop.push_metric(Metric::new("Noise", dbm_of(n).as_str()));
    }
    if let Some(s) = info.snr_db() {
        hop.push_metric(
            Metric::new("SNR", text::cat2(number::signed_of(s).as_str(), " dB").as_str()),
        );
    }
    assert(hop@.metrics =~= old(hop)@.metrics + signal_metrics(info@));
}

fn show_radio(hop: &mut Hop, info: &LinkInfo)
    ensures
        final(hop)@ == (path::HopView {
            metrics: old(hop)@.metrics + radio_metrics(info@),
            ..old(hop)@
        }),
{
    if let Some(ch) = info.channel {
        hop.push_metric(Metric::new("Channel", channel_of(info, ch).as_str()));
    }
    if let Some(p) = &info.phy_mode {
        hop.push_metric(Metric::new("PHY", p.as_str()));
    }
    if let Some(sec) = &info.security {
        hop.push_metric(security_metric(sec));
    }
    assert(hop@.metrics =~= old(hop)@.metrics + radio_metrics(info@));
}

fn show_network(hop: &mut Hop, info: &LinkInfo)
    ensures
        final(hop)@ == (path::HopView {
            metrics: old(hop)@.metrics + network_metrics(info@),
            ..old(hop)@
        }),
{
    if let Some(tx) = info.tx_rate_mbps {
        hop.push_metric(
            Metric::new(
                "Tx Rate",
                text::cat2(number::decimal_of(tx as u128).as_str(), " Mbps").as_str(),
            ),
        );
    }
    if info.ssid.is_none() {
        hop.push_metric(
            Metric::new("SSID", "hidden (grant Location access)").with_status(Status::Warn),
        );
    }
    assert(hop@.metrics =~= old(hop)@.metrics + network_metrics(info@));
}

/// Grade a Wi-Fi link on its signal.
pub fn grade(hop: &mut Hop, info: &LinkInfo)
    ensures
        final(hop)@ == graded(old(hop)@, info@),
{
    hop.subtitle = Some(
        match &info.ssid {
            Some(s) => s.clone(),
            None => info.interface.clone(),
        },
    );
    hop.status = standing_of(info);
    hop.summary = Some(signal_of(info));
    show_signal(hop, info);
    show_radio(hop, info);
    show_network(hop, info);
}

// ---- laws ----

/// A link is called broken only when it is not associated at all.
pub proof fn a_link_breaks_only_when_not_associated(
    interface: Seq<char>,
    link: Result<LinkInfo, PlatformError>,
)
    ensures
        link_hop(interface, link).status == Status::Fail <==> (link matches Err(
            PlatformError::NoNetwork,
        )),
{
}

/// A signal is weak below -75 dBm, and below -67 dBm unless it stands twenty
/// decibels above the noise.
pub open spec fn weak(info: platform::LinkView) -> bool {
    info.rssi_dbm matches Some(r) && (r < -75 || (r < -67 && !(info.noise_dbm matches Some(n) && r - n
        >= 20)))
}

/// A Wi-Fi link is degraded exactly when its signal is weak, and otherwise
/// healthy; a stronger signal over the same noise is never worse.
pub proof fn a_link_is_graded_on_its_signal(
    hop: path::HopView,
    info: platform::LinkView,
    better: i32,
)
    ensures
        graded(hop, info).status == (if weak(info) {
            Status::Warn
        } else {
            Status::Healthy
        }),
        graded(hop, info).id == hop.id,
        graded(hop, info).fault == hop.fault,
        info.rssi_dbm matches Some(r) ==> r <= better ==> graded(
            hop,
            platform::LinkView { rssi_dbm: Some(better), ..info },
        ).status.weight() <= graded(hop, info).status.weight(),
{
}

/// What reading a link came to: one that is not associated is broken, for that
/// reason; one that could not be read is unknown; one that is no Wi-Fi link is
/// healthy; and a Wi-Fi link is as good as its signal.
pub proof fn a_link_is_what_reading_it_came_to(
    interface: Seq<char>,
    link: Result<LinkInfo, PlatformError>,
)
    ensures
        ({
            let hop = link_hop(interface, link);
            &&& hop.id == HopId::Link
            &&& hop.summary is Some
            &&& hop.fault == (match link {
                Err(PlatformError::NoNetwork) => Some(Fault::NotAssociated),
                _ => None,
            })
            &&& hop.status == (match link {
                Err(PlatformError::NoNetwork) => Status::Fail,
                Err(_) => Status::Warn,
                Ok(info) => if info.is_wifi && weak(info@) {
                    Status::Warn
                } else {
                    Status::Healthy
                },
            })
        }),
{
}

/// The words for signals tell four ranges apart, and the summary opens with the
/// one for the signal.
pub proof fn the_summary_opens_with_the_word_for_the_signal(
    hop: path::HopView,
    info: platform::LinkView,
)
    ensures
        info.rssi_dbm matches Some(r) ==> (graded(hop, info).summary matches Some(s)
            && text::starts_with(
            s,
            if r >= -55 {
                "Excellent"@
            } else if r >= -67 {
                "Good"@
            } else if r >= -75 {
                "Fair"@
            } else {
                "Weak"@
            },
        )),
        info.rssi_dbm is None ==> graded(hop, info).summary == Some("Link up"@),
{
    if let Some(r) = info.rssi_dbm {
        let s = signal_text(info);
        let word = word_for(r);
        assert(s.take(word.len() as int) =~= word);
    }
}

/// An outdated security type is worth a warning on its line, and so is a name
/// that is withheld; neither makes the link itself worse.
pub proof fn an_outdated_security_type_is_marked(hop: path::HopView, info: platform::LinkView)
    ensures
        ({
            let lines = graded(hop, info).metrics;
            &&& info.ssid is None <==> lines.len() > 0 && lines.last() == path::graded(
                "SSID"@,
                "hidden (grant Location access)"@,
                Status::Warn,
            ) && info.ssid is None
            &&& info.security matches Some(kind) ==> radio_metrics(info).last().label == "Security"@
                && radio_metrics(info).last().value == kind && (radio_metrics(info).last().status
                == Some(Status::Warn) <==> text::contains(kind, "WEP"@) || text::contains(
                kind,
                "WPA "@,
            ) || kind == "WPA"@)
        }),
{
}

} // verus!
