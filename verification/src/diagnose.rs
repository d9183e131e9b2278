//! Root-cause reasoning.
//!
//! This engine walks the completed [`Path`], finds where connectivity actually
//! dies, and turns the surrounding evidence into a single plain verdict plus a
//! concrete fix — the thing you actually wanted to know.

use crate::model::path;
use crate::model::{Fault, Hop, HopId, Loss, Path, Status};
use crate::number;
use crate::probe::net::LOSS_WARN_PCT;
use crate::text;
use vstd::prelude::*;

verus! {

broadcast use vstd::string::group_string_axioms;

/// Confidence in a verdict, surfaced so the UI can hedge honestly.
#[derive(Debug, Clone, Copy, PartialEq, Eq, Structural)]
pub enum Confidence {
    Certain,
    Likely,
    Guess,
}

/// The engine's conclusion about the current network state.
#[derive(Debug, Clone)]
pub struct Verdict {
    /// Overall severity, mirroring the worst meaningful hop.
    pub status: Status,
    /// One-line headline, e.g. `DNS resolution is failing`.
    pub headline: String,
    /// Why it's happening, in plain language.
    pub cause: String,
    /// A concrete next action, when we have one.
    pub fix: Option<String>,
    pub confidence: Confidence,
    /// The hop the verdict explains, when it is about one hop.
    pub source: Option<HopId>,
}

/// What a verdict says.
#[verifier::ext_equal]
pub struct VerdictView {
    pub status: Status,
    pub headline: Seq<char>,
    pub cause: Seq<char>,
    pub fix: Option<Seq<char>>,
    pub confidence: Confidence,
    pub source: Option<HopId>,
}

impl View for Verdict {
    type V = VerdictView;

    open spec fn view(&self) -> VerdictView {
        VerdictView {
            status: self.status,
            headline: self.headline@,
            cause: self.cause@,
            fix: path::opt_text(self.fix),
            confidence: self.confidence,
            source: self.source,
        }
    }
}

// ---- what the path says ----

/// The status of a hop; one that is not there was skipped.
pub open spec fn status_of(hops: Seq<path::HopView>, id: HopId) -> Status {
    match path::lookup(hops, id) {
        Some(h) => h.status,
        None => Status::Skipped,
    }
}

/// The fault of a hop.
pub open spec fn fault_of(hops: Seq<path::HopView>, id: HopId) -> Option<Fault> {
    match path::lookup(hops, id) {
        Some(h) => h.fault,
        None => None,
    }
}

/// What a hop says of itself, if anything.
pub open spec fn summary_at(hops: Seq<path::HopView>, id: HopId) -> Option<Seq<char>> {
    match path::lookup(hops, id) {
        Some(h) => h.summary,
        None => None,
    }
}

/// What a hop says of itself, or nothing.
pub open spec fn summary_of(hops: Seq<path::HopView>, id: HopId) -> Seq<char> {
    match summary_at(hops, id) {
        Some(s) => s,
        None => seq![],
    }
}

/// These metrics have a `Mode` of `full-tunnel` among them.
pub open spec fn full_tunnel_mode(metrics: Seq<path::MetricView>) -> bool {
    exists|i: int|
        0 <= i < metrics.len() && (#[trigger] metrics[i]).label == "Mode"@ && metrics[i].value
            == "full-tunnel"@
}

/// An active full-tunnel VPN is present.
pub open spec fn full_tunnel(hops: Seq<path::HopView>) -> bool {
    path::lookup(hops, HopId::Vpn) matches Some(h) && full_tunnel_mode(h.metrics)
}

/// The tunnel lookup failed.
pub open spec fn tunnel_unread(hops: Seq<path::HopView>) -> bool {
    fault_of(hops, HopId::Vpn) == Some(Fault::Unobserved)
}

/// Packet loss at a hop, when it is high enough to be the story.
pub open spec fn loss_at(hops: Seq<path::HopView>, id: HopId) -> Option<Loss> {
    match path::lookup(hops, id) {
        Some(h) => match h.loss_pct {
            Some(l) if l.reaches(LOSS_WARN_PCT as nat) => Some(l),
            _ => None,
        },
        None => None,
    }
}

/// The titles of the hops that went unmeasured, but for those with the
/// identity `except`.
pub open spec fn unmeasured(hops: Seq<path::HopView>, except: Option<HopId>) -> Seq<Seq<char>>
    decreases hops.len(),
{
    if hops.len() == 0 {
        seq![]
    } else {
        let before = unmeasured(hops.drop_last(), except);
        let h = hops.last();
        if h.fault == Some(Fault::Unobserved) && Some(h.id) != except {
            before.push(h.title)
        } else {
            before
        }
    }
}

// ---- what the verdict says ----

/// The verdict on a break.
pub open spec fn broken(
    id: HopId,
    headline: Seq<char>,
    cause: Seq<char>,
    fix: Option<Seq<char>>,
    confidence: Confidence,
) -> VerdictView {
    VerdictView { status: Status::Fail, headline, cause, fix, confidence, source: Some(id) }
}

/// The verdict on a degradation, with a note on what was not measured.
pub open spec fn degraded(
    id: HopId,
    headline: Seq<char>,
    cause: Seq<char>,
    gap: Seq<char>,
    fix: Option<Seq<char>>,
) -> VerdictView {
    VerdictView {
        status: Status::Warn,
        headline,
        cause: cause + gap,
        fix,
        confidence: Confidence::Likely,
        source: Some(id),
    }
}

/// How a break at hop `id` is explained. The probe already decided *what* went
/// wrong; this only turns the code into prose.
pub open spec fn break_verdict(hops: Seq<path::HopView>, id: HopId) -> VerdictView {
    let tunnel = full_tunnel(hops);
    let unread = tunnel_unread(hops);
    let traced = summary_of(hops, HopId::Uplink);
    let wan_up = status_of(hops, HopId::Wan) == Status::Healthy;
    let link_note = match summary_at(hops, HopId::Link) {
        Some(s) => " Link looks like: "@ + s + "."@,
        None => seq![],
    };
    match (id, fault_of(hops, id)) {
        (HopId::Link, Some(Fault::NoRoute)) => broken(
            id,
            "No route off this machine"@,
            "The Wi-Fi link is up, but there's no default route — so nothing can leave this Mac. That is almost always a DHCP lease that never arrived, not a signal problem."@,
            Some("Renew the DHCP lease (System Settings → Network → Details → TCP/IP → Renew DHCP Lease), or rejoin the network."@),
            Confidence::Likely,
        ),
        (HopId::Link, _) => broken(
            id,
            "Wi-Fi link is down"@,
            "Your machine isn't associated with an access point. There's no L2 link to diagnose above."@,
            Some("Toggle Wi-Fi off/on, or pick a network in the Wi-Fi menu."@),
            Confidence::Certain,
        ),
        (HopId::Gateway, Some(Fault::NoGateway)) => broken(
            id,
            "You have no default gateway"@,
            "The link is up and you have an address, but the routing table has no gateway — so traffic has nowhere to go even inside your own house."@,
            Some("Renew the DHCP lease, or check for a static IP configured without a router address."@),
            Confidence::Certain,
        ),
        (HopId::Gateway, _) => broken(
            id,
            "Your router isn't responding"@,
            "You're associated to Wi-Fi but the default gateway isn't answering pings, so nothing leaves your LAN."@ + link_note,
            Some("Reboot the router, or check that you actually got a DHCP lease."@),
            Confidence::Likely,
        ),
        (HopId::Uplink, _) if tunnel => broken(
            id,
            "The path through your VPN breaks upstream"@,
            traced + " But a full-tunnel VPN owns your default route, so this traced through the tunnel, not your own line — the hops named are the tunnel's path, not your ISP's."@,
            Some("Disconnect the VPN and re-run. If the path comes back, the tunnel was the problem — your own line and your ISP aren't involved."@),
            Confidence::Likely,
        ),
        (HopId::Uplink, _) if unread => broken(
            id,
            "The path past your router breaks, but a VPN may be in the way"@,
            traced + " wtfi couldn't read whether a VPN is carrying your traffic, and a tunnel that owns the default route would have been traced instead of your own line — so the hops named may not be your ISP's at all."@,
            Some("If you're on a VPN, disconnect it and re-run before reporting anything to your ISP."@),
            Confidence::Guess,
        ),
        (HopId::Uplink, Some(Fault::UplinkDiesAtModem)) => broken(
            id,
            "The break is on your line, not inside your ISP"@,
            "Your router answers, but nothing past it does — and the trace stops at the very first step outside your house. "@ + traced + " That points at the modem/ONU, the WAN cable, or the line itself rather than at your provider's network."@,
            Some("Check the modem/ONU lights and reseat the WAN cable. If the lights say the line is down, that is what to report."@),
            Confidence::Likely,
        ),
        (HopId::Uplink, Some(Fault::UplinkDiesInIsp)) => broken(
            id,
            "The break is inside your ISP's network"@,
            "Your equipment is forwarding fine — the trace gets out of your house and then stops. "@ + traced + " Nothing you own is between you and that point."@,
            Some("Not your Mac and not your router. Report the outage to your ISP and quote the last hop that answered, from the Uplink detail below."@),
            Confidence::Likely,
        ),
        (HopId::Uplink, _) => broken(
            id,
            "The path past your router is broken"@,
            traced,
            None,
            Confidence::Guess,
        ),
        (HopId::Wan, _) if tunnel => broken(
            id,
            "Internet is down — through your VPN"@,
            "The router answers locally, but nothing beyond it is reachable. A full-tunnel VPN is active, so this is most likely the tunnel, not your ISP."@,
            Some("Disconnect the VPN and re-test — if it comes back, the tunnel was the problem."@),
            Confidence::Likely,
        ),
        (HopId::Wan, _) if unread => broken(
            id,
            "Nothing past your router is reachable"@,
            "The router answers locally but nothing beyond it does. wtfi couldn't read whether a VPN is carrying your traffic, and a dead full-tunnel VPN looks exactly like this — so the ISP is not the only candidate."@,
            Some("If you're on a VPN, disconnect it and re-test. If not, check the modem/ONU lights."@),
            Confidence::Guess,
        ),
        (HopId::Wan, _) => broken(
            id,
            "Your ISP / uplink is down"@,
            "The router answers locally, but nothing beyond it is reachable — the break is between your router and the internet."@,
            Some("Check the modem/ONU lights; this is usually an ISP or WAN-cable outage, not your Mac."@),
            Confidence::Likely,
        ),
        (HopId::Dns, Some(Fault::ResolverHijacked)) => broken(
            id,
            "Your DNS answers are being substituted"@,
            "Name resolution works, but your resolver returns a private address for a public name — something on this network is redirecting your traffic to itself."@,
            Some("If this is a hotel or public network, sign in first. Otherwise set your resolver to 1.1.1.1 or 8.8.8.8 and re-test."@),
            Confidence::Likely,
        ),
        (HopId::Dns, _) => broken(
            id,
            "DNS resolution is failing"@,
            if wan_up {
                "Raw internet works (IPs are reachable) but name resolution fails — a classic DNS-only outage."@
            } else {
                "Name resolution is failing and the WAN looks shaky too."@
            },
            Some("Switch resolvers to 1.1.1.1 / 8.8.8.8, or flush the DNS cache."@),
            Confidence::Likely,
        ),
        (HopId::Captive, _) => broken(
            id,
            "A captive portal is blocking you"@,
            "DNS and routing work, but a hotspot login page is intercepting your traffic — you're not really online yet."@,
            Some("Open http://captive.apple.com in a browser and sign in."@),
            Confidence::Certain,
        ),
        (HopId::Vpn, _) => broken(
            id,
            "Your VPN tunnel is down"@,
            "A VPN tunnel is present but isn't carrying traffic, so anything routed through it is cut off."@,
            Some("Reconnect or quit the VPN client, then re-test."@),
            Confidence::Likely,
        ),
        (HopId::Host, Some(Fault::SelfAssignedAddr)) => broken(
            id,
            "DHCP never gave you an address"@,
            "Your Mac fell back to a self-assigned 169.254 address, which can't reach anything beyond this machine. The Wi-Fi link is fine; the lease is what's missing."@,
            Some("Renew the DHCP lease (System Settings → Network → Details → TCP/IP → Renew DHCP Lease). If that fails, the router's DHCP server is the problem, not your Mac."@),
            Confidence::Certain,
        ),
        (HopId::Host, Some(Fault::NoAddress)) => broken(
            id,
            "This machine has no IP address"@,
            "The interface is up but unconfigured — no IPv4 lease and no routable IPv6."@,
            Some("Renew the DHCP lease, or check for a static configuration that was left half-filled."@),
            Confidence::Certain,
        ),
        (HopId::Host, Some(Fault::GatewayOffSubnet)) => broken(
            id,
            "Your address and your router don't match"@,
            "Your machine and its default gateway are configured on different subnets, so they can't reach each other at all — the router will look unresponsive because nothing you send can arrive."@,
            Some("Renew the DHCP lease, or clear a static IP left over from a different network."@),
            Confidence::Certain,
        ),
        (HopId::Host, _) => broken(
            id,
            "You're offline"@,
            "The connectivity chain is broken end-to-end."@,
            None,
            Confidence::Guess,
        ),
    }
}

/// How far the unmeasured hops reach.
pub open spec fn gap_scope(titles: Seq<Seq<char>>) -> Seq<char> {
    if titles.len() <= 1 {
        "The rest of the path reported, so this hop is unknown rather than unhealthy — don't read it either way."@
    } else {
        number::decimal(titles.len()) + " hops went unmeasured ("@ + text::join(titles, ", "@)
            + "), so this is a gap in the evidence rather than a finding about your network."@
    }
}

/// What is added when other hops went unmeasured.
pub open spec fn gap_note(titles: Seq<Seq<char>>) -> Seq<char> {
    if titles.len() == 0 {
        seq![]
    } else {
        " Separately, "@ + text::join(titles, " and "@)
            + " went unmeasured, so this verdict doesn't account for "@ + (if titles.len() == 1 {
            "it"@
        } else {
            "them"@
        }) + "."@
    }
}

/// How a hop that could not be measured is explained: unknown, not degraded.
pub open spec fn gap_verdict(hops: Seq<path::HopView>, id: HopId) -> VerdictView {
    VerdictView {
        status: Status::Warn,
        headline: "Part of the path couldn't be measured"@,
        cause: summary_of(hops, id) + ". "@ + gap_scope(unmeasured(hops, None)),
        fix: Some(
            "Re-run wtfi. If it keeps timing out, the OS tool that probe depends on is wedged."@,
        ),
        confidence: Confidence::Certain,
        source: Some(id),
    }
}

/// How a degradation at hop `id` is explained.
pub open spec fn warn_verdict(hops: Seq<path::HopView>, id: HopId) -> VerdictView {
    if fault_of(hops, id) == Some(Fault::Unobserved) {
        gap_verdict(hops, id)
    } else {
        degraded_verdict(hops, id)
    }
}

/// How a degradation that was measured at hop `id` is explained.
pub open spec fn degraded_verdict(hops: Seq<path::HopView>, id: HopId) -> VerdictView {
    let summary = summary_of(hops, id);
    let gap = gap_note(unmeasured(hops, Some(id)));
    let cost = match loss_at(hops, HopId::Gateway) {
        Some(l) => " It's already costing you "@ + l.percent() + "% packet loss to the router."@,
        None => seq![],
    };
    let signal = match path::lookup(hops, HopId::Link) {
        Some(h) if h.status == Status::Healthy && h.summary is Some => " The signal itself is fine ("@
            + h.summary->0 + "), so this isn't distance."@,
        _ => seq![],
    };
    let lan = if status_of(hops, HopId::Gateway) == Status::Healthy {
        " Your LAN is clean — the router answers every probe — so this starts past your own equipment."@
    } else {
        ""@
    };
    match (id, fault_of(hops, id)) {
        (HopId::Link, _) => degraded(
            id,
            "Weak Wi-Fi signal"@,
            "You're online, but the link is marginal — "@ + summary + "."@ + cost + " Expect stalls and retransmits."@,
            gap,
            Some("Move closer to the AP or switch to 5 GHz."@),
        ),
        (HopId::Gateway, _) => match loss_at(hops, HopId::Gateway) {
            Some(l) => degraded(
                id,
                "Your local network is dropping packets"@,
                "Every hop is technically up, but "@ + l.percent() + "% of probes to your own router never came back."@ + signal + " That alone stalls pages, calls and streams while everything still looks online."@,
                gap,
                Some("Switch to 5 GHz or a quieter channel, move off a crowded band, and power-cycle the router if it persists."@),
            ),
            None => degraded(
                id,
                "Your router is answering poorly"@,
                "The LAN works, but the hop to your own router is degraded — "@ + summary + "."@,
                gap,
                Some("Check for a saturated LAN or a router that needs a restart."@),
            ),
        },
        (HopId::Wan, Some(Fault::HandshakeOnly)) => degraded(
            id,
            "Something is answering for the internet"@,
            "Every connection completes, but no real request does. A device on the path is replying to handshakes without carrying the traffic — an interception appliance, a misbehaving proxy, or a portal you haven't signed in to."@,
            gap,
            Some("If this is a hotel or public network, open a browser and look for a sign-in page. Otherwise check for a proxy or filtering appliance between you and the internet."@),
        ),
        (HopId::Wan, Some(Fault::TargetBlocked)) => degraded(
            id,
            "This network filters where you can go"@,
            summary + ". Your uplink itself is fine — it reaches the internet, just not everything on it."@,
            gap,
            Some("Expected on corporate or guest Wi-Fi. If it isn't, check for a filtering appliance or a DNS/firewall policy on the router."@),
        ),
        (HopId::Wan, _) => match loss_at(hops, HopId::Wan) {
            Some(l) => degraded(
                id,
                "Your uplink is dropping packets"@,
                "The internet is reachable, but "@ + l.percent() + "% of connections through it never complete."@ + lan,
                gap,
                Some("Usually ISP congestion or a flaky modem/ONU — power-cycle the modem, and report persistent loss to your ISP."@),
            ),
            None => degraded(
                id,
                "Internet is up but degraded"@,
                "Reachable, but quality is poor — "@ + summary + "."@,
                gap,
                Some("Check for background traffic or a congested uplink."@),
            ),
        },
        (HopId::Dns, Some(Fault::ResolverHijacked)) => degraded(
            id,
            "Your resolver invents answers"@,
            summary + ". Nothing is down, but anything relying on a name genuinely not existing — VPN split-horizon checks, some installers, search fallbacks — will misbehave."@,
            gap,
            Some("Set your resolver to 1.1.1.1 or 9.9.9.9 if the redirection gets in your way."@),
        ),
        (HopId::Dns, _) => degraded(
            id,
            "DNS is slow"@,
            "Resolution works but is sluggish — "@ + summary + "."@,
            gap,
            Some("Try a faster resolver like 1.1.1.1."@),
        ),
        (HopId::Host, _) => degraded(
            id,
            "Your addressing is off"@,
            summary,
            gap,
            Some("Check the interface's IP configuration — a static address left over from another network does this."@),
        ),
        _ => degraded(
            id,
            "Minor degradation"@,
            summary,
            gap,
            None,
        ),
    }
}

/// Every hop past the host was skipped, and the host has nothing to report.
pub open spec fn nothing_measured(hops: Seq<path::HopView>) -> bool {
    &&& forall|i: int|
        0 <= i < hops.len() && (#[trigger] hops[i]).id != HopId::Host ==> hops[i].status
            == Status::Skipped
    &&& match path::lookup(hops, HopId::Host) {
        Some(h) => h.status.weight() <= Status::Healthy.weight(),
        None => true,
    }
}

/// The verdict on a path.
pub open spec fn verdict_on(hops: Seq<path::HopView>) -> VerdictView {
    if !path::settled(hops) {
        VerdictView {
            status: Status::Pending,
            headline: "Scanning your connection…"@,
            cause: "Probing each hop from your Wi-Fi link out to the internet."@,
            fix: None,
            confidence: Confidence::Guess,
            source: None,
        }
    } else if nothing_measured(hops) {
        VerdictView {
            status: Status::Skipped,
            headline: "Nothing was measured"@,
            cause: match summary_at(hops, HopId::Link) {
                Some(s) => s,
                None => "No hop reported a result."@,
            },
            fix: None,
            confidence: Confidence::Certain,
            source: None,
        }
    } else if status_of(hops, HopId::Captive) == Status::Fail {
        break_verdict(hops, HopId::Captive)
    } else {
        match (path::earliest(hops, Status::Fail), path::earliest(hops, Status::Warn)) {
            (Some(h), _) => break_verdict(hops, h.id),
            (None, Some(h)) => warn_verdict(hops, h.id),
            (None, None) => VerdictView {
                status: Status::Healthy,
                headline: "You're fully online"@,
                cause: "Every hop from your Wi-Fi to the internet is healthy."@,
                fix: None,
                confidence: Confidence::Certain,
                source: None,
            },
        }
    }
}

// ---- reaching it ----

/// Derive a verdict from a (ideally complete) path.
pub fn diagnose(path: &Path) -> (r: Verdict)
    ensures
        r@ == verdict_on(path@),
{
    // Still probing — don't render a health claim from half the evidence.
    if !path.is_complete() {
        return Verdict {
            status: Status::Pending,
            headline: "Scanning your connection…".to_string(),
            cause: "Probing each hop from your Wi-Fi link out to the internet.".to_string(),
            fix: None,
            confidence: Confidence::Guess,
            source: None,
        };
    }
    // Nothing was measured: every hop skipped. Absence of evidence is not
    // health, so this must not fall through to the clean bill below. The
    // reason, when there is one, is whatever the Link hop recorded.
    //
    // The host hop is exempt only while it is *not* a finding: a failed one has
    // to own the verdict rather than be read as an absence of evidence.
    if is_unmeasured(path) {
        return Verdict {
            status: Status::Skipped,
            headline: "Nothing was measured".to_string(),
            cause: match hop_summary(path, HopId::Link) {
                Some(s) => s,
                None => "No hop reported a result.".to_string(),
            },
            fix: None,
            confidence: Confidence::Certain,
            source: None,
        };
    }
    // A positively-detected captive portal wins over any upstream break it
    // caused. Portals blackhole direct TCP to 1.1.1.1:443, so the WAN hop
    // fails first in the chain — but "sign in to the Wi-Fi" is the real,
    // actionable root cause, not "your ISP is down".
    if hop_status(path, HopId::Captive) == Status::Fail {
        return explain_break(path, HopId::Captive);
    }
    // Otherwise the connection is broken somewhere: explain the *first*
    // break, since everything downstream is just collateral.
    if let Some(broken) = path.first_break() {
        return explain_break(path, broken.id);
    }
    // Nothing is broken — surface the worst degradation, if any.
    if let Some(warn) = path.first_with(Status::Warn) {
        return explain_warn(path, warn.id);
    }
    // Clean bill of health.
    Verdict {
        status: Status::Healthy,
        headline: "You're fully online".to_string(),
        cause: "Every hop from your Wi-Fi to the internet is healthy.".to_string(),
        fix: None,
        confidence: Confidence::Certain,
        source: None,
    }
}

fn is_unmeasured(path: &Path) -> (r: bool)
    ensures
        r == nothing_measured(path@),
{
    let host_quiet = match path.get(HopId::Host) {
        Some(h) => h.status.severity() <= Status::Healthy.severity(),
        None => true,
    };
    let mut i: usize = 0;
    while i < path.hops.len()
        invariant
            i <= path.hops@.len(),
            forall|j: int|
                0 <= j < i && (#[trigger] path@[j]).id != HopId::Host ==> path@[j].status
                    == Status::Skipped,
        decreases path.hops@.len() - i,
    {
        assert(path@[i as int] == path.hops@[i as int]@);
        let h = &path.hops[i];
        if h.id != HopId::Host && h.status != Status::Skipped {
            return false;
        }
        i += 1;
    }
    host_quiet
}

fn hop_status(path: &Path, id: HopId) -> (r: Status)
    ensures
        r == status_of(path@, id),
{
    match path.get(id) {
        Some(h) => h.status,
        None => Status::Skipped,
    }
}

fn hop_fault(path: &Path, id: HopId) -> (r: Option<Fault>)
    ensures
        r == fault_of(path@, id),
{
    match path.get(id) {
        Some(h) => h.fault,
        None => None,
    }
}

fn hop_summary(path: &Path, id: HopId) -> (r: Option<String>)
    ensures
        path::opt_text(r) == summary_at(path@, id),
{
    match path.get(id) {
        Some(h) => path::copy_text(&h.summary),
        None => None,
    }
}

fn hop_note(path: &Path, id: HopId) -> (r: String)
    ensures
        r@ == summary_of(path@, id),
{
    match hop_summary(path, id) {
        Some(s) => s,
        None => String::new(),
    }
}

/// Whether an active full-tunnel VPN is present — the tunnel that would make a
/// WAN failure the VPN's fault rather than the ISP's. Keyed off the `Mode`
/// metric the VPN probe records.
fn vpn_is_full_tunnel(path: &Path) -> (r: bool)
    ensures
        r == full_tunnel(path@),
{
    match path.get(HopId::Vpn) {
        Some(h) => has_full_tunnel_mode(h),
        None => false,
    }
}

fn has_full_tunnel_mode(hop: &Hop) -> (r: bool)
    ensures
        r == full_tunnel_mode(hop@.metrics),
{
    let mut i: usize = 0;
    while i < hop.metrics.len()
        invariant
            i <= hop.metrics@.len(),
            forall|j: int|
                0 <= j < i ==> !((#[trigger] hop@.metrics[j]).label == "Mode"@ && hop@.metrics[j].value
                    == "full-tunnel"@),
        decreases hop.metrics@.len() - i,
    {
        assert(hop@.metrics[i as int] == hop.metrics@[i as int]@);
        let m = &hop.metrics[i];
        if text::str_eq(m.label.as_str(), "Mode") && text::str_eq(m.value.as_str(), "full-tunnel") {
            return true;
        }
        i += 1;
    }
    false
}

/// Whether the tunnel lookup failed, leaving us unable to say if a VPN is
/// carrying this traffic. Not the same as "there is no VPN", and the
/// difference decides whether an outage past the router can be pinned on the
/// ISP at all.
fn vpn_state_unknown(path: &Path) -> (r: bool)
    ensures
        r == tunnel_unread(path@),
{
    match hop_fault(path, HopId::Vpn) {
        Some(f) => f == Fault::Unobserved,
        None => false,
    }
}

/// What the TTL sweep actually saw, quoted into the verdict so the claim
/// carries its evidence rather than asking to be trusted.
fn uplink_evidence(path: &Path) -> (r: String)
    ensures
        r@ == summary_of(path@, HopId::Uplink),
{
    hop_note(path, HopId::Uplink)
}

fn owned(o: Option<&str>) -> (r: Option<String>)
    ensures
        path::opt_text(r) == (match o {
            Some(s) => Some(s@),
            None => None,
        }),
{
    match o {
        Some(s) => Some(s.to_string()),
        None => None,
    }
}

fn break_found(
    id: HopId,
    headline: &str,
    cause: &str,
    fix: Option<&str>,
    confidence: Confidence,
) -> (r: Verdict)
    ensures
        r@ == broken(
            id,
            headline@,
            cause@,
            match fix {
                Some(s) => Some(s@),
                None => None,
            },
            confidence,
        ),
{
    Verdict {
        status: Status::Fail,
        headline: headline.to_string(),
        cause: cause.to_string(),
        fix: owned(fix),
        confidence,
        source: Some(id),
    }
}

fn explain_break(path: &Path, id: HopId) -> (r: Verdict)
    ensures
        r@ == break_verdict(path@, id),
{
    let tunnel = vpn_is_full_tunnel(path);
    let unread = vpn_state_unknown(path);
    let traced = uplink_evidence(path);
    let wan_up = hop_status(path, HopId::Wan) == Status::Healthy;
    let link_note = match hop_summary(path, HopId::Link) {
        Some(s) => text::cat3(" Link looks like: ", s.as_str(), "."),
        None => String::new(),
    };
    match (id, hop_fault(path, id)) {
        (HopId::Link, Some(Fault::NoRoute)) => break_found(
            id,
            "No route off this machine",
            "The Wi-Fi link is up, but there's no default route — so nothing can leave this Mac. That is almost always a DHCP lease that never arrived, not a signal problem.",
            Some("Renew the DHCP lease (System Settings → Network → Details → TCP/IP → Renew DHCP Lease), or rejoin the network."),
            Confidence::Likely,
        ),
        (HopId::Link, _) => break_found(
            id,
            "Wi-Fi link is down",
            "Your machine isn't associated with an access point. There's no L2 link to diagnose above.",
            Some("Toggle Wi-Fi off/on, or pick a network in the Wi-Fi menu."),
            Confidence::Certain,
        ),
        // The routing table has no gateway at all — there is no router to
        // blame for not answering, because nothing was ever asked.
        (HopId::Gateway, Some(Fault::NoGateway)) => break_found(
            id,
            "You have no default gateway",
            "The link is up and you have an address, but the routing table has no gateway — so traffic has nowhere to go even inside your own house.",
            Some("Renew the DHCP lease, or check for a static IP configured without a router address."),
            Confidence::Certain,
        ),
        // Link up but the router won't answer.
        (HopId::Gateway, _) => break_found(
            id,
            "Your router isn't responding",
            text::cat2("You're associated to Wi-Fi but the default gateway isn't answering pings, so nothing leaves your LAN.", link_note.as_str()).as_str(),
            Some("Reboot the router, or check that you actually got a DHCP lease."),
            Confidence::Likely,
        ),
        // A full-tunnel VPN owns the default route, so the sweep traces
        // *through the tunnel*: "hop 1 = your own router" is only true over
        // the physical WAN. Uplink precedes Wan in the chain, so the Wan
        // arm's own reframe never gets to run.
        (HopId::Uplink, _) if tunnel => break_found(
            id,
            "The path through your VPN breaks upstream",
            text::cat2(traced.as_str(), " But a full-tunnel VPN owns your default route, so this traced through the tunnel, not your own line — the hops named are the tunnel's path, not your ISP's.").as_str(),
            Some("Disconnect the VPN and re-run. If the path comes back, the tunnel was the problem — your own line and your ISP aren't involved."),
            Confidence::Likely,
        ),
        // The VPN probe and the WAN failure are independent events, so both
        // can time out in one run, and a trace may then have gone through a
        // dead tunnel still owning the default route.
        (HopId::Uplink, _) if unread => break_found(
            id,
            "The path past your router breaks, but a VPN may be in the way",
            text::cat2(traced.as_str(), " wtfi couldn't read whether a VPN is carrying your traffic, and a tunnel that owns the default route would have been traced instead of your own line — so the hops named may not be your ISP's at all.").as_str(),
            Some("If you're on a VPN, disconnect it and re-run before reporting anything to your ISP."),
            Confidence::Guess,
        ),
        (HopId::Uplink, Some(Fault::UplinkDiesAtModem)) => break_found(
            id,
            "The break is on your line, not inside your ISP",
            text::cat3("Your router answers, but nothing past it does — and the trace stops at the very first step outside your house. ", traced.as_str(), " That points at the modem/ONU, the WAN cable, or the line itself rather than at your provider's network.").as_str(),
            Some("Check the modem/ONU lights and reseat the WAN cable. If the lights say the line is down, that is what to report."),
            Confidence::Likely,
        ),
        (HopId::Uplink, Some(Fault::UplinkDiesInIsp)) => break_found(
            id,
            "The break is inside your ISP's network",
            text::cat3("Your equipment is forwarding fine — the trace gets out of your house and then stops. ", traced.as_str(), " Nothing you own is between you and that point.").as_str(),
            Some("Not your Mac and not your router. Report the outage to your ISP and quote the last hop that answered, from the Uplink detail below."),
            Confidence::Likely,
        ),
        (HopId::Uplink, _) => break_found(
            id,
            "The path past your router is broken",
            traced.as_str(),
            None,
            Confidence::Guess,
        ),
        // A full-tunnel VPN carries *all* egress, so a dead tunnel looks
        // exactly like an ISP outage from the WAN probe's point of view.
        (HopId::Wan, _) if tunnel => break_found(
            id,
            "Internet is down — through your VPN",
            "The router answers locally, but nothing beyond it is reachable. A full-tunnel VPN is active, so this is most likely the tunnel, not your ISP.",
            Some("Disconnect the VPN and re-test — if it comes back, the tunnel was the problem."),
            Confidence::Likely,
        ),
        // Name both rather than picking the one we can't rule out.
        (HopId::Wan, _) if unread => break_found(
            id,
            "Nothing past your router is reachable",
            "The router answers locally but nothing beyond it does. wtfi couldn't read whether a VPN is carrying your traffic, and a dead full-tunnel VPN looks exactly like this — so the ISP is not the only candidate.",
            Some("If you're on a VPN, disconnect it and re-test. If not, check the modem/ONU lights."),
            Confidence::Guess,
        ),
        (HopId::Wan, _) => break_found(
            id,
            "Your ISP / uplink is down",
            "The router answers locally, but nothing beyond it is reachable — the break is between your router and the internet.",
            Some("Check the modem/ONU lights; this is usually an ISP or WAN-cable outage, not your Mac."),
            Confidence::Likely,
        ),
        // Resolution succeeds — it just lies. That is no outage.
        (HopId::Dns, Some(Fault::ResolverHijacked)) => break_found(
            id,
            "Your DNS answers are being substituted",
            "Name resolution works, but your resolver returns a private address for a public name — something on this network is redirecting your traffic to itself.",
            Some("If this is a hotel or public network, sign in first. Otherwise set your resolver to 1.1.1.1 or 8.8.8.8 and re-test."),
            Confidence::Likely,
        ),
        (HopId::Dns, _) => break_found(
            id,
            "DNS resolution is failing",
            if wan_up {
                "Raw internet works (IPs are reachable) but name resolution fails — a classic DNS-only outage."
            } else {
                "Name resolution is failing and the WAN looks shaky too."
            },
            Some("Switch resolvers to 1.1.1.1 / 8.8.8.8, or flush the DNS cache."),
            Confidence::Likely,
        ),
        (HopId::Captive, _) => break_found(
            id,
            "A captive portal is blocking you",
            "DNS and routing work, but a hotspot login page is intercepting your traffic — you're not really online yet.",
            Some("Open http://captive.apple.com in a browser and sign in."),
            Confidence::Certain,
        ),
        // The VPN probe grades only healthy or degraded, so a VPN hop is never
        // itself the first break. Kept in case it gains a hard-fail signal.
        (HopId::Vpn, _) => break_found(
            id,
            "Your VPN tunnel is down",
            "A VPN tunnel is present but isn't carrying traffic, so anything routed through it is cut off.",
            Some("Reconnect or quit the VPN client, then re-test."),
            Confidence::Likely,
        ),
        // DHCP never answered, so macOS autoconfigured. Every hop downstream
        // will fail too, but they are all collateral.
        (HopId::Host, Some(Fault::SelfAssignedAddr)) => break_found(
            id,
            "DHCP never gave you an address",
            "Your Mac fell back to a self-assigned 169.254 address, which can't reach anything beyond this machine. The Wi-Fi link is fine; the lease is what's missing.",
            Some("Renew the DHCP lease (System Settings → Network → Details → TCP/IP → Renew DHCP Lease). If that fails, the router's DHCP server is the problem, not your Mac."),
            Confidence::Certain,
        ),
        (HopId::Host, Some(Fault::NoAddress)) => break_found(
            id,
            "This machine has no IP address",
            "The interface is up but unconfigured — no IPv4 lease and no routable IPv6.",
            Some("Renew the DHCP lease, or check for a static configuration that was left half-filled."),
            Confidence::Certain,
        ),
        (HopId::Host, Some(Fault::GatewayOffSubnet)) => break_found(
            id,
            "Your address and your router don't match",
            "Your machine and its default gateway are configured on different subnets, so they can't reach each other at all — the router will look unresponsive because nothing you send can arrive.",
            Some("Renew the DHCP lease, or clear a static IP left over from a different network."),
            Confidence::Certain,
        ),
        (HopId::Host, _) => break_found(
            id,
            "You're offline",
            "The connectivity chain is broken end-to-end.",
            None,
            Confidence::Guess,
        ),
    }
}

/// Packet loss measured at a hop, when it's high enough to be the story rather
/// than background noise. Reads the structured field the probes record, so the
/// verdict never has to re-parse its own prose.
fn qualifying_loss(path: &Path, id: HopId) -> (r: Option<Loss>)
    ensures
        r == loss_at(path@, id),
{
    match path.get(id) {
        Some(h) => match h.loss_pct {
            Some(l) if l.at_least(LOSS_WARN_PCT) => Some(l),
            _ => None,
        },
        None => None,
    }
}

fn unmeasured_titles(path: &Path, except: Option<HopId>) -> (r: Vec<String>)
    ensures
        text::texts(r@) == unmeasured(path@, except),
{
    let mut out: Vec<String> = Vec::new();
    let mut i: usize = 0;
    assert(text::texts(out@) =~= Seq::<Seq<char>>::empty());
    while i < path.hops.len()
        invariant
            i <= path.hops@.len(),
            text::texts(out@) == unmeasured(path@.take(i as int), except),
        decreases path.hops@.len() - i,
    {
        assert(path@.take(i + 1).drop_last() == path@.take(i as int));
        assert(path@[i as int] == path.hops@[i as int]@);
        let h = &path.hops[i];
        let missed = match h.fault {
            Some(f) => f == Fault::Unobserved,
            None => false,
        };
        let spared = match except {
            Some(id) => h.id == id,
            None => false,
        };
        if missed && !spared {
            let ghost before = text::texts(out@);
            out.push(h.title.clone());
            assert(text::texts(out@) =~= before.push(h.title@));
        }
        i += 1;
    }
    assert(path@.take(i as int) == path@);
    out
}

fn explain_gap(path: &Path, id: HopId) -> (r: Verdict)
    ensures
        r@ == gap_verdict(path@, id),
{
    // Count them rather than asserting everything else reported. A
    // sweep-level deadline takes several hops down at once, and only the
    // earliest one reaches this arm — so claiming the rest checked in
    // would contradict the detail panel printed right underneath.
    let titles = unmeasured_titles(path, None);
    let ghost all = unmeasured(path@, None);
    assert(all.len() == titles@.len());
    let scope = if titles.len() <= 1 {
        "The rest of the path reported, so this hop is unknown rather than unhealthy — don't read it either way.".to_string()
    } else {
        text::cat4(
            number::decimal_of(titles.len() as u128).as_str(),
            " hops went unmeasured (",
            text::joined(&titles, ", ").as_str(),
            "), so this is a gap in the evidence rather than a finding about your network.",
        )
    };
    Verdict {
        status: Status::Warn,
        headline: "Part of the path couldn't be measured".to_string(),
        cause: text::cat3(hop_note(path, id).as_str(), ". ", scope.as_str()),
        fix: Some(
            "Re-run wtfi. If it keeps timing out, the OS tool that probe depends on is wedged.".to_string(),
        ),
        confidence: Confidence::Certain,
        source: Some(id),
    }
}

fn gap_text(path: &Path, id: HopId) -> (r: String)
    ensures
        r@ == gap_note(unmeasured(path@, Some(id))),
{
    // Hops other than the one being explained may also have gone unmeasured.
    // Only the earliest degraded hop is ever explained, so without this the
    // headline would describe a genuine degradation while silently dropping
    // the fact that part of the path was never looked at.
    let titles = unmeasured_titles(path, Some(id));
    assert(unmeasured(path@, Some(id)).len() == titles@.len());
    if titles.len() == 0 {
        String::new()
    } else {
        text::cat5(
            " Separately, ",
            text::joined(&titles, " and ").as_str(),
            " went unmeasured, so this verdict doesn't account for ",
            if titles.len() == 1 {
                "it"
            } else {
                "them"
            },
            ".",
        )
    }
}

fn degradation(id: HopId, headline: &str, cause: &str, gap: &str, fix: Option<&str>) -> (r: Verdict)
    ensures
        r@ == degraded(
            id,
            headline@,
            cause@,
            gap@,
            match fix {
                Some(s) => Some(s@),
                None => None,
            },
        ),
{
    Verdict {
        status: Status::Warn,
        headline: headline.to_string(),
        cause: text::cat2(cause, gap),
        fix: owned(fix),
        confidence: Confidence::Likely,
        source: Some(id),
    }
}

fn explain_warn(path: &Path, id: HopId) -> (r: Verdict)
    ensures
        r@ == warn_verdict(path@, id),
{
    let fault = hop_fault(path, id);
    // A hop we failed to measure is unknown, not degraded. Falling through to
    // the arms below would dress a wedged probe up as a diagnosis — "DNS is
    // slow" for a resolver that was never successfully timed.
    if let Some(Fault::Unobserved) = fault {
        return explain_gap(path, id);
    }
    let summary = hop_note(path, id);
    let gap = gap_text(path, id);
    let cost = match qualifying_loss(path, HopId::Gateway) {
        Some(l) => text::cat3(
            " It's already costing you ",
            l.percent_text().as_str(),
            "% packet loss to the router.",
        ),
        None => String::new(),
    };
    let signal = match path.get(HopId::Link) {
        Some(h) => match &h.summary {
            Some(s) => if h.status == Status::Healthy {
                text::cat3(" The signal itself is fine (", s.as_str(), "), so this isn't distance.")
            } else {
                String::new()
            },
            None => String::new(),
        },
        None => String::new(),
    };
    // Chain order means the gateway wasn't an earlier warning, so in practice
    // the LAN is always clean when the uplink is explained. Guarded anyway so
    // another gateway grade can't make the claim retroactively.
    let lan = if hop_status(path, HopId::Gateway) == Status::Healthy {
        " Your LAN is clean — the router answers every probe — so this starts past your own equipment."
    } else {
        ""
    };
    match (id, fault) {
        // A marginal signal is only half the story; say what it's already
        // costing when the gateway burst shows the damage.
        (HopId::Link, _) => degradation(
            id,
            "Weak Wi-Fi signal",
            text::cat5("You're online, but the link is marginal — ", summary.as_str(), ".", cost.as_str(), " Expect stalls and retransmits.").as_str(),
            gap.as_str(),
            Some("Move closer to the AP or switch to 5 GHz."),
        ),
        (HopId::Gateway, _) => match qualifying_loss(path, HopId::Gateway) {
            // Every hop is "up", so a checklist would call this healthy.
            // Strong signal plus lossy LAN rules distance out and points at
            // interference, congestion or the router itself.
            Some(l) => degradation(
                id,
                "Your local network is dropping packets",
                text::cat5("Every hop is technically up, but ", l.percent_text().as_str(), "% of probes to your own router never came back.", signal.as_str(), " That alone stalls pages, calls and streams while everything still looks online.").as_str(),
                gap.as_str(),
                Some("Switch to 5 GHz or a quieter channel, move off a crowded band, and power-cycle the router if it persists."),
            ),
            // Degraded without qualifying loss means slow or jittery; the
            // hop's own summary already says which, so don't guess here.
            None => degradation(
                id,
                "Your router is answering poorly",
                text::cat3("The LAN works, but the hop to your own router is degraded — ", summary.as_str(), ".").as_str(),
                gap.as_str(),
                Some("Check for a saturated LAN or a router that needs a restart."),
            ),
        },
        // "The path carries nothing" outranks "the path is filtered" and
        // "the path is lossy".
        (HopId::Wan, Some(Fault::HandshakeOnly)) => degradation(
            id,
            "Something is answering for the internet",
            "Every connection completes, but no real request does. A device on the path is replying to handshakes without carrying the traffic — an interception appliance, a misbehaving proxy, or a portal you haven't signed in to.",
            gap.as_str(),
            Some("If this is a hotel or public network, open a browser and look for a sign-in page. Otherwise check for a proxy or filtering appliance between you and the internet."),
        ),
        // Filtered egress is a property of the network you're on, not a
        // quality problem with your connection.
        (HopId::Wan, Some(Fault::TargetBlocked)) => degradation(
            id,
            "This network filters where you can go",
            text::cat2(summary.as_str(), ". Your uplink itself is fine — it reaches the internet, just not everything on it.").as_str(),
            gap.as_str(),
            Some("Expected on corporate or guest Wi-Fi. If it isn't, check for a filtering appliance or a DNS/firewall policy on the router."),
        ),
        (HopId::Wan, _) => match qualifying_loss(path, HopId::Wan) {
            Some(l) => degradation(
                id,
                "Your uplink is dropping packets",
                text::cat4("The internet is reachable, but ", l.percent_text().as_str(), "% of connections through it never complete.", lan).as_str(),
                gap.as_str(),
                Some("Usually ISP congestion or a flaky modem/ONU — power-cycle the modem, and report persistent loss to your ISP."),
            ),
            None => degradation(
                id,
                "Internet is up but degraded",
                text::cat3("Reachable, but quality is poor — ", summary.as_str(), ".").as_str(),
                gap.as_str(),
                Some("Check for background traffic or a congested uplink."),
            ),
        },
        // Synthesised NXDOMAIN is dishonesty, not slowness.
        (HopId::Dns, Some(Fault::ResolverHijacked)) => degradation(
            id,
            "Your resolver invents answers",
            text::cat2(summary.as_str(), ". Nothing is down, but anything relying on a name genuinely not existing — VPN split-horizon checks, some installers, search fallbacks — will misbehave.").as_str(),
            gap.as_str(),
            Some("Set your resolver to 1.1.1.1 or 9.9.9.9 if the redirection gets in your way."),
        ),
        (HopId::Dns, _) => degradation(
            id,
            "DNS is slow",
            text::cat3("Resolution works but is sluggish — ", summary.as_str(), ".").as_str(),
            gap.as_str(),
            Some("Try a faster resolver like 1.1.1.1."),
        ),
        (HopId::Host, _) => degradation(
            id,
            "Your addressing is off",
            summary.as_str(),
            gap.as_str(),
            Some("Check the interface's IP configuration — a static address left over from another network does this."),
        ),
        _ => degradation(
            id,
            "Minor degradation",
            summary.as_str(),
            gap.as_str(),
            None,
        ),
    }
}

// ---- laws ----

/// Some hop has this status.
pub open spec fn any_with(hops: Seq<path::HopView>, st: Status) -> bool {
    exists|i: int| 0 <= i < hops.len() && (#[trigger] hops[i]).status == st
}

/// A hop of a path that holds none twice is the one found under its identity.
proof fn lemma_lookup_of(hops: Seq<path::HopView>, i: int)
    requires
        path::distinct(hops),
        0 <= i < hops.len(),
    ensures
        path::lookup(hops, hops[i].id) == Some(hops[i]),
{
    let id = hops[i].id;
    path::lemma_index_of_id_holds(hops, id);
    let k = path::index_of_id(hops, id);
    assert(k <= i);
    assert(hops[k].id == id);
}

proof fn lemma_unmeasured_is_quiet(hops: Seq<path::HopView>, i: int)
    requires
        path::distinct(hops),
        nothing_measured(hops),
        0 <= i < hops.len(),
    ensures
        hops[i].status != Status::Fail,
        hops[i].status != Status::Warn,
{
    lemma_lookup_of(hops, i);
    assert(hops[i].id != HopId::Host ==> hops[i].status == Status::Skipped);
}

/// The verdict mirrors the worst hop: it is pending while any hop is, broken
/// exactly when some hop is broken, degraded exactly when some hop is degraded
/// and none is broken, and never a clean bill for a path that nothing measured.
pub proof fn the_verdict_mirrors_the_worst_hop(hops: Seq<path::HopView>)
    requires
        path::distinct(hops),
    ensures
        verdict_on(hops).status == Status::Pending <==> any_with(hops, Status::Pending),
        verdict_on(hops).status == Status::Fail <==> path::settled(hops) && any_with(
            hops,
            Status::Fail,
        ),
        verdict_on(hops).status == Status::Warn <==> path::settled(hops) && !any_with(
            hops,
            Status::Fail,
        ) && any_with(hops, Status::Warn),
        verdict_on(hops).status == Status::Skipped <==> path::settled(hops) && nothing_measured(
            hops,
        ),
{
    path::lemma_earliest_exists(hops, Status::Fail);
    path::lemma_earliest_exists(hops, Status::Warn);
    assert forall|i: int| 0 <= i < hops.len() && nothing_measured(hops) implies (
    #[trigger] hops[i]).status != Status::Fail && hops[i].status != Status::Warn by {
        lemma_unmeasured_is_quiet(hops, i);
    }
    if status_of(hops, HopId::Captive) == Status::Fail {
        path::lemma_index_of_id_holds(hops, HopId::Captive);
        assert(hops[path::index_of_id(hops, HopId::Captive)].status == Status::Fail);
    }
}

/// A verdict about one hop names a hop of the path, with the status that the
/// verdict reports. Every break and every degradation names one.
pub proof fn the_source_is_a_hop_of_the_path(hops: Seq<path::HopView>)
    requires
        path::distinct(hops),
    ensures
        verdict_on(hops).source is Some <==> verdict_on(hops).status == Status::Fail || verdict_on(
            hops,
        ).status == Status::Warn,
        verdict_on(hops).source matches Some(id) ==> status_of(hops, id) == verdict_on(hops).status
            && path::lookup(hops, id) is Some,
{
    path::lemma_earliest_exists(hops, Status::Fail);
    path::lemma_earliest_exists(hops, Status::Warn);
    if let Some(h) = path::earliest(hops, Status::Fail) {
        let i = choose|i: int| 0 <= i < hops.len() && #[trigger] hops[i] == h;
        lemma_lookup_of(hops, i);
    }
    if let Some(h) = path::earliest(hops, Status::Warn) {
        let i = choose|i: int| 0 <= i < hops.len() && #[trigger] hops[i] == h;
        lemma_lookup_of(hops, i);
    }
}

/// A captive portal that was positively detected owns the verdict, whatever
/// else is broken.
pub proof fn a_detected_portal_owns_the_verdict(hops: Seq<path::HopView>)
    requires
        path::settled(hops),
        status_of(hops, HopId::Captive) == Status::Fail,
    ensures
        verdict_on(hops) == break_verdict(hops, HopId::Captive),
        verdict_on(hops).headline == "A captive portal is blocking you"@,
{
    path::lemma_index_of_id_holds(hops, HopId::Captive);
    assert(hops[path::index_of_id(hops, HopId::Captive)].id == HopId::Captive);
}

/// Unless a portal owns it, the verdict on a broken path explains the break
/// closest to the host: every other break is collateral.
pub proof fn the_closest_break_owns_the_verdict(hops: Seq<path::HopView>, i: int)
    requires
        path::distinct(hops),
        path::settled(hops),
        status_of(hops, HopId::Captive) != Status::Fail,
        0 <= i < hops.len(),
        hops[i].status == Status::Fail,
    ensures
        verdict_on(hops).source matches Some(id) && verdict_on(hops) == break_verdict(hops, id)
            && id.place() <= hops[i].id.place(),
{
    path::first_break_is_closest_to_the_host(hops, i);
    if nothing_measured(hops) {
        lemma_unmeasured_is_quiet(hops, i);
    }
}

/// What lies past the first break changes nothing: two settled paths with the
/// same hops up to a break, the first of the one, get the same verdict, unless
/// a portal was detected on just one of them.
pub proof fn what_lies_past_the_break_changes_nothing(
    a: Seq<path::HopView>,
    b: Seq<path::HopView>,
    id: HopId,
)
    requires
        path::distinct(a),
        path::distinct(b),
        path::settled(a),
        path::settled(b),
        path::earliest(a, Status::Fail) matches Some(h) && h.id == id,
        forall|k: HopId|
            k.place() <= id.place() ==> #[trigger] path::lookup(a, k) == path::lookup(b, k),
        status_of(a, HopId::Captive) == Status::Fail <==> status_of(b, HopId::Captive)
            == Status::Fail,
    ensures
        verdict_on(a) == verdict_on(b),
{
    path::lemma_earliest_exists(a, Status::Fail);
    let h = path::earliest(a, Status::Fail)->0;
    let i = choose|i: int| path::is_earliest(a, Status::Fail, i);
    assert(path::is_earliest(a, Status::Fail, i) && a[i] == h);
    lemma_lookup_of(a, i);
    assert(path::lookup(a, id) == Some(h));
    path::lemma_index_of_id_holds(b, id);
    let j = path::index_of_id(b, id);
    assert(path::lookup(b, id) == Some(h));
    assert(b[j] == h);
    assert forall|k: int| 0 <= k < b.len() && #[trigger] b[k].status == Status::Fail implies b[j].id.place()
        < b[k].id.place() || (b[j].id.place() == b[k].id.place() && j <= k) by {
        lemma_lookup_of(b, k);
        if b[k].id.place() < id.place() {
            assert(path::lookup(a, b[k].id) == path::lookup(b, b[k].id));
            path::lemma_index_of_id_holds(a, b[k].id);
            assert(a[path::index_of_id(a, b[k].id)].status == Status::Fail);
        } else if b[k].id.place() == id.place() {
            path::chain_places_are_distinct(b[k].id, id);
        }
    }
    assert(path::is_earliest(b, Status::Fail, j));
    path::lemma_earliest(b, Status::Fail, j);
    if nothing_measured(a) {
        lemma_unmeasured_is_quiet(a, i);
    }
    if nothing_measured(b) {
        lemma_unmeasured_is_quiet(b, j);
    }
    assert(path::lookup(a, HopId::Link) == path::lookup(b, HopId::Link) || id.place() < 1);
    assert(path::lookup(a, HopId::Vpn) == path::lookup(b, HopId::Vpn) || id.place() < 3);
    assert(path::lookup(a, HopId::Uplink) == path::lookup(b, HopId::Uplink) || id.place() < 4);
    assert(path::lookup(a, HopId::Wan) == path::lookup(b, HopId::Wan) || id.place() < 5);
    assert(break_verdict(a, id) == break_verdict(b, id));
}

/// While the tunnel state could not be read, an outage past the router is
/// only a guess: a dead full-tunnel VPN looks exactly like one.
pub proof fn an_unread_tunnel_leaves_only_a_guess(hops: Seq<path::HopView>)
    requires
        tunnel_unread(hops),
        !full_tunnel(hops),
    ensures
        break_verdict(hops, HopId::Uplink).confidence == Confidence::Guess,
        break_verdict(hops, HopId::Wan).confidence == Confidence::Guess,
{
}

proof fn lemma_unmeasured_lists(hops: Seq<path::HopView>, except: Option<HopId>, i: int)
    requires
        0 <= i < hops.len(),
        hops[i].fault == Some(Fault::Unobserved),
        Some(hops[i].id) != except,
    ensures
        exists|k: int|
            0 <= k < unmeasured(hops, except).len() && #[trigger] unmeasured(hops, except)[k]
                == hops[i].title,
    decreases hops.len(),
{
    let all = unmeasured(hops, except);
    let before = unmeasured(hops.drop_last(), except);
    if i == hops.len() - 1 {
        assert(all[all.len() - 1] == hops[i].title);
    } else {
        lemma_unmeasured_lists(hops.drop_last(), except, i);
        let k = choose|k: int| 0 <= k < before.len() && #[trigger] before[k] == hops[i].title;
        assert(all[k] == hops[i].title);
    }
}

proof fn lemma_two_unmeasured(hops: Seq<path::HopView>, i: int, j: int)
    requires
        0 <= i < j < hops.len(),
        hops[i].fault == Some(Fault::Unobserved),
        hops[j].fault == Some(Fault::Unobserved),
    ensures
        unmeasured(hops, None).len() >= 2,
    decreases hops.len(),
{
    if j == hops.len() - 1 {
        lemma_unmeasured_lists(hops.drop_last(), None, i);
    } else {
        lemma_two_unmeasured(hops.drop_last(), i, j);
    }
}

/// A verdict on a degradation names every other hop that went unmeasured, so
/// it never passes over a part of the path that nobody looked at.
pub proof fn a_gap_elsewhere_is_named(hops: Seq<path::HopView>, id: HopId, i: int)
    requires
        0 <= i < hops.len(),
        hops[i].fault == Some(Fault::Unobserved),
        hops[i].id != id,
    ensures
        text::contains(warn_verdict(hops, id).cause, hops[i].title),
{
    let e = Seq::<char>::empty();
    if fault_of(hops, id) == Some(Fault::Unobserved) {
        path::lemma_index_of_id_holds(hops, id);
        let j = path::index_of_id(hops, id);
        if i < j {
            lemma_two_unmeasured(hops, i, j);
        } else {
            lemma_two_unmeasured(hops, j, i);
        }
        let titles = unmeasured(hops, None);
        lemma_unmeasured_lists(hops, None, i);
        let k = choose|k: int| 0 <= k < titles.len() && #[trigger] titles[k] == hops[i].title;
        text::lemma_join_contains(titles, ", "@, k);
        let head = summary_of(hops, id) + ". "@;
        let count = number::decimal(titles.len()) + " hops went unmeasured ("@;
        let tail =
            "), so this is a gap in the evidence rather than a finding about your network."@;
        text::lemma_contains_through(head + count, text::join(titles, ", "@), tail, hops[i].title);
        assert(head + count + text::join(titles, ", "@) + tail =~= warn_verdict(hops, id).cause);
    } else {
        let titles = unmeasured(hops, Some(id));
        lemma_unmeasured_lists(hops, Some(id), i);
        let k = choose|k: int| 0 <= k < titles.len() && #[trigger] titles[k] == hops[i].title;
        text::lemma_join_contains(titles, " and "@, k);
        let tail = " went unmeasured, so this verdict doesn't account for "@ + (if titles.len()
            == 1 {
            "it"@
        } else {
            "them"@
        }) + "."@;
        text::lemma_contains_through(
            " Separately, "@,
            text::join(titles, " and "@),
            tail,
            hops[i].title,
        );
        let gap = gap_note(titles);
        assert(" Separately, "@ + text::join(titles, " and "@) + tail =~= gap);
        lemma_cause_ends_with_gap(hops, id);
        let cause = warn_verdict(hops, id).cause;
        let front = cause.take(cause.len() - gap.len());
        text::lemma_contains_through(front, gap, e, hops[i].title);
        assert(front + gap + e =~= cause);
    }
}

proof fn lemma_cause_ends_with_gap(hops: Seq<path::HopView>, id: HopId)
    ensures
        text::ends_with(
            degraded_verdict(hops, id).cause,
            gap_note(unmeasured(hops, Some(id))),
        ),
{
    let gap = gap_note(unmeasured(hops, Some(id)));
    assert forall|c: Seq<char>| text::ends_with(#[trigger] (c + gap), gap) by {
        assert((c + gap).skip(c.len() as int) =~= gap);
    }
}

/// The first hop with an identity is the one found under it, and its status,
/// fault and summary are what is read there; where there is none it was skipped,
/// for no reason and without a word.
pub proof fn what_is_read_of_a_hop_is_its_own(hops: Seq<path::HopView>, id: HopId, i: int)
    requires
        path::distinct(hops),
    ensures
        0 <= i < hops.len() && hops[i].id == id ==> path::lookup(hops, id) == Some(hops[i])
            && status_of(hops, id) == hops[i].status && fault_of(hops, id) == hops[i].fault
            && summary_at(hops, id) == hops[i].summary && summary_of(hops, id) == told(hops[i]),
        (forall|j: int| 0 <= j < hops.len() ==> (#[trigger] hops[j]).id != id) ==> path::lookup(
            hops,
            id,
        ) is None && status_of(hops, id) == Status::Skipped && fault_of(hops, id) is None
            && summary_of(hops, id).len() == 0,
{
    if 0 <= i < hops.len() && hops[i].id == id {
        lemma_lookup_of(hops, i);
    }
    path::lemma_index_of_id_holds(hops, id);
}

/// What a hop says of itself, or nothing.
pub open spec fn told(h: path::HopView) -> Seq<char> {
    match h.summary {
        Some(s) => s,
        None => seq![],
    }
}

/// Hop `i` is the break closest to the host on a settled path where no portal
/// was detected.
pub open spec fn closest_break(hops: Seq<path::HopView>, i: int) -> bool {
    &&& path::distinct(hops)
    &&& path::settled(hops)
    &&& 0 <= i < hops.len()
    &&& hops[i].status == Status::Fail
    &&& forall|j: int|
        0 <= j < hops.len() && (#[trigger] hops[j]).status == Status::Fail ==> hops[i].id.place()
            <= hops[j].id.place() && hops[j].id != HopId::Captive
}

/// Hop `i` is the degradation closest to the host on a settled path where
/// nothing is broken.
pub open spec fn closest_warning(hops: Seq<path::HopView>, i: int) -> bool {
    &&& path::distinct(hops)
    &&& path::settled(hops)
    &&& 0 <= i < hops.len()
    &&& hops[i].status == Status::Warn
    &&& forall|j: int|
        0 <= j < hops.len() ==> (#[trigger] hops[j]).status != Status::Fail && (hops[j].status
            == Status::Warn ==> hops[i].id.place() <= hops[j].id.place())
}

/// A verdict says this.
pub open spec fn says(
    v: VerdictView,
    headline: Seq<char>,
    cause: Seq<char>,
    fix: Option<Seq<char>>,
    confidence: Confidence,
) -> bool {
    v.headline == headline && v.cause == cause && v.fix == fix && v.confidence == confidence
}

/// A verdict on a degradation says this, and adds nothing to the cause but what
/// else went unmeasured.
pub open spec fn warns(
    v: VerdictView,
    headline: Seq<char>,
    cause: Seq<char>,
    fix: Option<Seq<char>>,
) -> bool {
    v.headline == headline && text::starts_with(v.cause, cause) && v.fix == fix && v.confidence
        == Confidence::Likely
}

/// Some hop on the path is a tunnel that carries everything.
pub open spec fn tunnelled(hops: Seq<path::HopView>) -> bool {
    exists|j: int|
        0 <= j < hops.len() && (#[trigger] hops[j]).id == HopId::Vpn && exists|k: int|
            0 <= k < hops[j].metrics.len() && (#[trigger] hops[j].metrics[k]).label == "Mode"@
                && hops[j].metrics[k].value == "full-tunnel"@
}

/// Some hop on the path is a tunnel whose state could not be read.
pub open spec fn unread_tunnel(hops: Seq<path::HopView>) -> bool {
    exists|j: int|
        0 <= j < hops.len() && (#[trigger] hops[j]).id == HopId::Vpn && hops[j].fault == Some(
            Fault::Unobserved,
        )
}

proof fn lemma_tunnel(hops: Seq<path::HopView>)
    requires
        path::distinct(hops),
    ensures
        tunnelled(hops) == full_tunnel(hops),
        unread_tunnel(hops) == tunnel_unread(hops),
{
    path::lemma_index_of_id_holds(hops, HopId::Vpn);
    if tunnelled(hops) {
        let j = choose|j: int|
            0 <= j < hops.len() && (#[trigger] hops[j]).id == HopId::Vpn && exists|k: int|
                0 <= k < hops[j].metrics.len() && (#[trigger] hops[j].metrics[k]).label == "Mode"@
                    && hops[j].metrics[k].value == "full-tunnel"@;
        lemma_lookup_of(hops, j);
    }
    if unread_tunnel(hops) {
        let j = choose|j: int|
            0 <= j < hops.len() && (#[trigger] hops[j]).id == HopId::Vpn && hops[j].fault == Some(
                Fault::Unobserved,
            );
        lemma_lookup_of(hops, j);
    }
    if let Some(h) = path::lookup(hops, HopId::Vpn) {
        let j = path::index_of_id(hops, HopId::Vpn);
        assert(hops[j].id == HopId::Vpn);
    }
}

proof fn lemma_break(hops: Seq<path::HopView>, i: int)
    requires
        closest_break(hops, i),
    ensures
        verdict_on(hops) == break_verdict(hops, hops[i].id),
        path::lookup(hops, hops[i].id) == Some(hops[i]),
        tunnelled(hops) == full_tunnel(hops),
        unread_tunnel(hops) == tunnel_unread(hops),
{
    lemma_lookup_of(hops, i);
    lemma_tunnel(hops);
    path::lemma_index_of_id_holds(hops, HopId::Captive);
    if status_of(hops, HopId::Captive) == Status::Fail {
        assert(hops[path::index_of_id(hops, HopId::Captive)].status == Status::Fail);
    }
    assert forall|j: int| 0 <= j < hops.len() && #[trigger] hops[j].status == Status::Fail implies hops[i].id.place()
        < hops[j].id.place() || (hops[i].id.place() == hops[j].id.place() && i <= j) by {
        path::chain_places_are_distinct(hops[i].id, hops[j].id);
    }
    assert(path::is_earliest(hops, Status::Fail, i));
    path::lemma_earliest(hops, Status::Fail, i);
    if nothing_measured(hops) {
        lemma_unmeasured_is_quiet(hops, i);
    }
}

proof fn lemma_warning(hops: Seq<path::HopView>, i: int)
    requires
        closest_warning(hops, i),
    ensures
        verdict_on(hops) == warn_verdict(hops, hops[i].id),
        path::lookup(hops, hops[i].id) == Some(hops[i]),
{
    lemma_lookup_of(hops, i);
    path::lemma_index_of_id_holds(hops, HopId::Captive);
    assert forall|j: int| 0 <= j < hops.len() && #[trigger] hops[j].status == Status::Warn implies hops[i].id.place()
        < hops[j].id.place() || (hops[i].id.place() == hops[j].id.place() && i <= j) by {
        path::chain_places_are_distinct(hops[i].id, hops[j].id);
    }
    assert(path::is_earliest(hops, Status::Warn, i));
    path::lemma_earliest(hops, Status::Warn, i);
    path::lemma_earliest_exists(hops, Status::Fail);
    if nothing_measured(hops) {
        lemma_unmeasured_is_quiet(hops, i);
    }
}

/// The closest break is what the verdict is about, and it is a break.
pub proof fn the_verdict_is_about_the_closest_break(hops: Seq<path::HopView>, i: int)
    requires
        closest_break(hops, i),
    ensures
        verdict_on(hops).source == Some(hops[i].id),
        verdict_on(hops).status == Status::Fail,
{
    lemma_break(hops, i);
}

/// A gateway that is the closest break is called missing exactly when there is
/// none, and then for certain; one that exists and stayed silent is likely a
/// router that does not respond, whatever the link looks like.
pub proof fn a_missing_gateway_is_not_a_silent_one(hops: Seq<path::HopView>, i: int)
    requires
        closest_break(hops, i),
        hops[i].id == HopId::Gateway,
    ensures
        ({
            let v = verdict_on(hops);
            &&& v.headline == "You have no default gateway"@ <==> hops[i].fault == Some(
                Fault::NoGateway,
            )
            &&& v.headline == "Your router isn't responding"@ <==> hops[i].fault != Some(
                Fault::NoGateway,
            )
            &&& v.confidence == Confidence::Certain <==> hops[i].fault == Some(Fault::NoGateway)
            &&& hops[i].fault == Some(Fault::NoGateway) ==> says(
                    v,
                    "You have no default gateway"@,
                    "The link is up and you have an address, but the routing table has no gateway — so traffic has nowhere to go even inside your own house."@,
                    Some("Renew the DHCP lease, or check for a static IP configured without a router address."@),
                    Confidence::Certain,
                )
            &&& hops[i].fault != Some(Fault::NoGateway) ==> v.confidence == Confidence::Likely
                && v.fix == Some("Reboot the router, or check that you actually got a DHCP lease."@)
                && text::starts_with(
                v.cause,
                "You're associated to Wi-Fi but the default gateway isn't answering pings, so nothing leaves your LAN."@,
            )
        }),
        forall|j: int|
            0 <= j < hops.len() && (#[trigger] hops[j]).id == HopId::Link && hops[i].fault != Some(
                Fault::NoGateway,
            ) ==> (hops[j].summary matches Some(s) ==> text::contains(verdict_on(hops).cause, s)),
{
    lemma_break(hops, i);
    reveal_strlit("You have no default gateway");
    reveal_strlit("Your router isn't responding");
    assert("You have no default gateway"@.len() == 27);
    assert("Your router isn't responding"@.len() == 28);
    let v = verdict_on(hops);
    let head =
        "You're associated to Wi-Fi but the default gateway isn't answering pings, so nothing leaves your LAN."@;
    if hops[i].fault != Some(Fault::NoGateway) {
        assert(v.cause.take(head.len() as int) =~= head);
        assert forall|j: int| 0 <= j < hops.len() && (#[trigger] hops[j]).id == HopId::Link implies (
        hops[j].summary matches Some(s) ==> text::contains(v.cause, s)) by {
            lemma_lookup_of(hops, j);
            if let Some(s) = hops[j].summary {
                text::lemma_contains_middle(head + " Link looks like: "@, s, "."@);
                assert(v.cause =~= head + " Link looks like: "@ + s + "."@);
            }
        }
    }
}

/// A link that is the closest break is down for certain, unless what is missing
/// is the route off this machine.
pub proof fn a_missing_route_is_not_a_dead_link(hops: Seq<path::HopView>, i: int)
    requires
        closest_break(hops, i),
        hops[i].id == HopId::Link,
    ensures
        ({
            let v = verdict_on(hops);
            &&& hops[i].fault == Some(Fault::NoRoute) ==> says(
            v,
            "No route off this machine"@,
            "The Wi-Fi link is up, but there's no default route — so nothing can leave this Mac. That is almost always a DHCP lease that never arrived, not a signal problem."@,
            Some("Renew the DHCP lease (System Settings → Network → Details → TCP/IP → Renew DHCP Lease), or rejoin the network."@),
            Confidence::Likely,
        )
            &&& hops[i].fault != Some(Fault::NoRoute) ==> says(
            v,
            "Wi-Fi link is down"@,
            "Your machine isn't associated with an access point. There's no L2 link to diagnose above."@,
            Some("Toggle Wi-Fi off/on, or pick a network in the Wi-Fi menu."@),
            Confidence::Certain,
        )
        }),
        "No route off this machine"@ != "Wi-Fi link is down"@,
{
    lemma_break(hops, i);
    reveal_strlit("No route off this machine");
    reveal_strlit("Wi-Fi link is down");
    assert("No route off this machine"@.len() != "Wi-Fi link is down"@.len());
}

/// A break on the way out is blamed on a tunnel that carries everything, left
/// open while the tunnel could not be read, and only then put where the trace
/// stopped; what was traced is quoted in any case.
pub proof fn a_traced_break_is_put_where_the_trace_stops(hops: Seq<path::HopView>, i: int)
    requires
        closest_break(hops, i),
        hops[i].id == HopId::Uplink,
    ensures
        ({
            let v = verdict_on(hops);
            let own = !tunnelled(hops) && !unread_tunnel(hops);
            &&& tunnelled(hops) ==> says(
            v,
            "The path through your VPN breaks upstream"@,
            told(hops[i]) + " But a full-tunnel VPN owns your default route, so this traced through the tunnel, not your own line — the hops named are the tunnel's path, not your ISP's."@,
            Some("Disconnect the VPN and re-run. If the path comes back, the tunnel was the problem — your own line and your ISP aren't involved."@),
            Confidence::Likely,
        )
            &&& !tunnelled(hops) && unread_tunnel(hops) ==> says(
            v,
            "The path past your router breaks, but a VPN may be in the way"@,
            told(hops[i]) + " wtfi couldn't read whether a VPN is carrying your traffic, and a tunnel that owns the default route would have been traced instead of your own line — so the hops named may not be your ISP's at all."@,
            Some("If you're on a VPN, disconnect it and re-run before reporting anything to your ISP."@),
            Confidence::Guess,
        )
            &&& own && hops[i].fault == Some(Fault::UplinkDiesAtModem) ==> says(
            v,
            "The break is on your line, not inside your ISP"@,
            "Your router answers, but nothing past it does — and the trace stops at the very first step outside your house. "@ + told(hops[i]) + " That points at the modem/ONU, the WAN cable, or the line itself rather than at your provider's network."@,
            Some("Check the modem/ONU lights and reseat the WAN cable. If the lights say the line is down, that is what to report."@),
            Confidence::Likely,
        )
            &&& own && hops[i].fault == Some(Fault::UplinkDiesInIsp) ==> says(
            v,
            "The break is inside your ISP's network"@,
            "Your equipment is forwarding fine — the trace gets out of your house and then stops. "@ + told(hops[i]) + " Nothing you own is between you and that point."@,
            Some("Not your Mac and not your router. Report the outage to your ISP and quote the last hop that answered, from the Uplink detail below."@),
            Confidence::Likely,
        )
            &&& own && hops[i].fault != Some(Fault::UplinkDiesAtModem) && hops[i].fault != Some(
                Fault::UplinkDiesInIsp,
            ) ==> says(
            v,
            "The path past your router is broken"@,
            told(hops[i]),
            None,
            Confidence::Guess,
        )
        }),
        text::contains(verdict_on(hops).cause, told(hops[i])),
{
    lemma_break(hops, i);
    let none = Seq::<char>::empty();
    let v = verdict_on(hops);
    let s = told(hops[i]);
    assert(summary_of(hops, HopId::Uplink) == s);
    let modem =
        "Your router answers, but nothing past it does — and the trace stops at the very first step outside your house. "@;
    let isp =
        "Your equipment is forwarding fine — the trace gets out of your house and then stops. "@;
    if text::starts_with(v.cause, s) {
        let tail = v.cause.skip(s.len() as int);
        text::lemma_contains_middle(none, s, tail);
        assert(none + s + tail =~= v.cause);
    } else if hops[i].fault == Some(Fault::UplinkDiesAtModem) {
        text::lemma_contains_middle(
            modem,
            s,
            " That points at the modem/ONU, the WAN cable, or the line itself rather than at your provider's network."@,
        );
    } else if hops[i].fault == Some(Fault::UplinkDiesInIsp) {
        text::lemma_contains_middle(isp, s, " Nothing you own is between you and that point."@);
    }
    assert(forall|c: Seq<char>| (#[trigger] (s + c)).take(s.len() as int) =~= s);
    assert(s.take(s.len() as int) =~= s);
}

/// An outage past the router is blamed on a tunnel that carries everything, left
/// open while the tunnel could not be read, and only then on the provider.
pub proof fn an_outage_is_the_providers_only_without_a_tunnel(hops: Seq<path::HopView>, i: int)
    requires
        closest_break(hops, i),
        hops[i].id == HopId::Wan,
    ensures
        ({
            let v = verdict_on(hops);
            &&& tunnelled(hops) ==> says(
            v,
            "Internet is down — through your VPN"@,
            "The router answers locally, but nothing beyond it is reachable. A full-tunnel VPN is active, so this is most likely the tunnel, not your ISP."@,
            Some("Disconnect the VPN and re-test — if it comes back, the tunnel was the problem."@),
            Confidence::Likely,
        )
            &&& !tunnelled(hops) && unread_tunnel(hops) ==> says(
            v,
            "Nothing past your router is reachable"@,
            "The router answers locally but nothing beyond it does. wtfi couldn't read whether a VPN is carrying your traffic, and a dead full-tunnel VPN looks exactly like this — so the ISP is not the only candidate."@,
            Some("If you're on a VPN, disconnect it and re-test. If not, check the modem/ONU lights."@),
            Confidence::Guess,
        )
            &&& !tunnelled(hops) && !unread_tunnel(hops) ==> says(
            v,
            "Your ISP / uplink is down"@,
            "The router answers locally, but nothing beyond it is reachable — the break is between your router and the internet."@,
            Some("Check the modem/ONU lights; this is usually an ISP or WAN-cable outage, not your Mac."@),
            Confidence::Likely,
        )
        }),
{
    lemma_break(hops, i);
}

/// A resolver that is the closest break lies or fails, and the two are told
/// apart. One that fails while the WAN is healthy is an outage of names alone.
pub proof fn a_lying_resolver_is_not_a_dead_one(hops: Seq<path::HopView>, i: int)
    requires
        closest_break(hops, i),
        hops[i].id == HopId::Dns,
    ensures
        ({
            let v = verdict_on(hops);
            let wan_up = exists|j: int|
                0 <= j < hops.len() && (#[trigger] hops[j]).id == HopId::Wan && hops[j].status
                    == Status::Healthy;
            &&& hops[i].fault == Some(Fault::ResolverHijacked) ==> says(
            v,
            "Your DNS answers are being substituted"@,
            "Name resolution works, but your resolver returns a private address for a public name — something on this network is redirecting your traffic to itself."@,
            Some("If this is a hotel or public network, sign in first. Otherwise set your resolver to 1.1.1.1 or 8.8.8.8 and re-test."@),
            Confidence::Likely,
        )
            &&& hops[i].fault != Some(Fault::ResolverHijacked) ==> says(
            v,
            "DNS resolution is failing"@,
            if wan_up {
                "Raw internet works (IPs are reachable) but name resolution fails — a classic DNS-only outage."@
            } else {
                "Name resolution is failing and the WAN looks shaky too."@
            },
            Some("Switch resolvers to 1.1.1.1 / 8.8.8.8, or flush the DNS cache."@),
            Confidence::Likely,
        )
        }),
{
    lemma_break(hops, i);
    path::lemma_index_of_id_holds(hops, HopId::Wan);
    let k = path::index_of_id(hops, HopId::Wan);
    if exists|j: int|
        0 <= j < hops.len() && (#[trigger] hops[j]).id == HopId::Wan && hops[j].status
            == Status::Healthy {
        let j = choose|j: int|
            0 <= j < hops.len() && (#[trigger] hops[j]).id == HopId::Wan && hops[j].status
                == Status::Healthy;
        lemma_lookup_of(hops, j);
    }
    assert(k < hops.len() ==> hops[k].id == HopId::Wan);
}

/// A host that is the closest break is told by what is wrong with its address.
pub proof fn a_host_breaks_on_its_address(hops: Seq<path::HopView>, i: int)
    requires
        closest_break(hops, i),
        hops[i].id == HopId::Host,
    ensures
        ({
            let v = verdict_on(hops);
            let f = hops[i].fault;
            &&& f == Some(Fault::SelfAssignedAddr) ==> says(
            v,
            "DHCP never gave you an address"@,
            "Your Mac fell back to a self-assigned 169.254 address, which can't reach anything beyond this machine. The Wi-Fi link is fine; the lease is what's missing."@,
            Some("Renew the DHCP lease (System Settings → Network → Details → TCP/IP → Renew DHCP Lease). If that fails, the router's DHCP server is the problem, not your Mac."@),
            Confidence::Certain,
        )
            &&& f == Some(Fault::NoAddress) ==> says(
            v,
            "This machine has no IP address"@,
            "The interface is up but unconfigured — no IPv4 lease and no routable IPv6."@,
            Some("Renew the DHCP lease, or check for a static configuration that was left half-filled."@),
            Confidence::Certain,
        )
            &&& f == Some(Fault::GatewayOffSubnet) ==> says(
            v,
            "Your address and your router don't match"@,
            "Your machine and its default gateway are configured on different subnets, so they can't reach each other at all — the router will look unresponsive because nothing you send can arrive."@,
            Some("Renew the DHCP lease, or clear a static IP left over from a different network."@),
            Confidence::Certain,
        )
            &&& f != Some(Fault::SelfAssignedAddr) && f != Some(Fault::NoAddress) && f != Some(
                Fault::GatewayOffSubnet,
            ) ==> says(
            v,
            "You're offline"@,
            "The connectivity chain is broken end-to-end."@,
            None,
            Confidence::Guess,
        )
        }),
{
    lemma_break(hops, i);
}

/// A tunnel that is the closest break is down; a portal that was detected says
/// so for certain, whatever else is broken.
pub proof fn a_dead_tunnel_and_a_portal_are_told_apart(hops: Seq<path::HopView>, i: int)
    requires
        path::distinct(hops),
        path::settled(hops),
        0 <= i < hops.len(),
        hops[i].status == Status::Fail,
    ensures
        ({
            let v = verdict_on(hops);
            &&& hops[i].id == HopId::Captive ==> v.source == Some(HopId::Captive) && v.status
                == Status::Fail && says(
            v,
            "A captive portal is blocking you"@,
            "DNS and routing work, but a hotspot login page is intercepting your traffic — you're not really online yet."@,
            Some("Open http://captive.apple.com in a browser and sign in."@),
            Confidence::Certain,
        )
            &&& hops[i].id == HopId::Vpn && closest_break(hops, i) ==> says(
            v,
            "Your VPN tunnel is down"@,
            "A VPN tunnel is present but isn't carrying traffic, so anything routed through it is cut off."@,
            Some("Reconnect or quit the VPN client, then re-test."@),
            Confidence::Likely,
        )
        }),
{
    lemma_lookup_of(hops, i);
    if hops[i].id == HopId::Captive {
        a_detected_portal_owns_the_verdict(hops);
        lemma_unmeasured_if(hops, i);
    } else if closest_break(hops, i) {
        lemma_break(hops, i);
    }
}

proof fn lemma_unmeasured_if(hops: Seq<path::HopView>, i: int)
    requires
        path::distinct(hops),
        0 <= i < hops.len(),
        hops[i].status == Status::Fail,
    ensures
        !nothing_measured(hops),
{
    if nothing_measured(hops) {
        lemma_unmeasured_is_quiet(hops, i);
    }
}

/// What a hop lost is enough to be the story: a quarter or more.
pub open spec fn lost_a_quarter(h: path::HopView) -> bool {
    h.loss_pct matches Some(l) && 4 * l.missing() >= l.out_of()
}

proof fn lemma_loss_at(hops: Seq<path::HopView>, i: int)
    requires
        path::distinct(hops),
        0 <= i < hops.len(),
    ensures
        loss_at(hops, hops[i].id) == (if lost_a_quarter(hops[i]) {
            hops[i].loss_pct
        } else {
            None
        }),
{
    lemma_lookup_of(hops, i);
}

proof fn lemma_front(a: Seq<char>, b: Seq<char>)
    ensures
        text::starts_with(a + b, a),
{
    assert((a + b).take(a.len() as int) =~= a);
}

/// The closest degradation is what the verdict is about, and it is one. What was
/// not measured there is called unknown, for certain; what was is likely.
pub proof fn the_verdict_is_about_the_closest_degradation(hops: Seq<path::HopView>, i: int)
    requires
        closest_warning(hops, i),
    ensures
        ({
            let v = verdict_on(hops);
            let blind = hops[i].fault == Some(Fault::Unobserved);
            &&& v.source == Some(hops[i].id)
            &&& v.status == Status::Warn
            &&& blind ==> v.headline == "Part of the path couldn't be measured"@ && v.confidence
                == Confidence::Certain && text::starts_with(v.cause, told(hops[i])) && v.fix
                == Some(
                "Re-run wtfi. If it keeps timing out, the OS tool that probe depends on is wedged."@,
            )
            &&& !blind ==> v.confidence == Confidence::Likely
        }),
{
    lemma_warning(hops, i);
    if hops[i].fault == Some(Fault::Unobserved) {
        let v = verdict_on(hops);
        assert(v.cause.take(told(hops[i]).len() as int) =~= told(hops[i]));
    }
}

/// A gateway that is the closest degradation drops packets exactly when it lost
/// a quarter of its burst, and otherwise answers poorly.
pub proof fn a_degraded_gateway_drops_packets_or_is_slow(hops: Seq<path::HopView>, i: int)
    requires
        closest_warning(hops, i),
        hops[i].id == HopId::Gateway,
        hops[i].fault != Some(Fault::Unobserved),
    ensures
        ({
            let v = verdict_on(hops);
            &&& lost_a_quarter(hops[i]) ==> warns(
                v,
                "Your local network is dropping packets"@,
                "Every hop is technically up, but "@ + (hops[i].loss_pct->0).percent()
                    + "% of probes to your own router never came back."@,
                Some("Switch to 5 GHz or a quieter channel, move off a crowded band, and power-cycle the router if it persists."@),
            )
            &&& !lost_a_quarter(hops[i]) ==> warns(
            v,
            "Your router is answering poorly"@,
            "The LAN works, but the hop to your own router is degraded — "@ + told(hops[i]) + "."@,
            Some("Check for a saturated LAN or a router that needs a restart."@),
        )
        }),
{
    lemma_warning(hops, i);
    lemma_loss_at(hops, i);
    let v = verdict_on(hops);
    let gap = gap_note(unmeasured(hops, Some(hops[i].id)));
    if lost_a_quarter(hops[i]) {
        let head = "Every hop is technically up, but "@ + (hops[i].loss_pct->0).percent()
            + "% of probes to your own router never came back."@;
        assert(v.cause.take(head.len() as int) =~= head);
    } else {
        lemma_front(
            "The LAN works, but the hop to your own router is degraded — "@ + told(hops[i]) + "."@,
            gap,
        );
    }
}

/// An uplink that is the closest degradation answers handshakes alone, is
/// filtered, drops packets or is poor, and the first of these that holds is
/// what is said.
pub proof fn a_degraded_uplink_is_told_by_its_fault_and_then_its_loss(
    hops: Seq<path::HopView>,
    i: int,
)
    requires
        closest_warning(hops, i),
        hops[i].id == HopId::Wan,
        hops[i].fault != Some(Fault::Unobserved),
    ensures
        ({
            let v = verdict_on(hops);
            let f = hops[i].fault;
            let plain = f != Some(Fault::HandshakeOnly) && f != Some(Fault::TargetBlocked);
            &&& f == Some(Fault::HandshakeOnly) ==> warns(
            v,
            "Something is answering for the internet"@,
            "Every connection completes, but no real request does. A device on the path is replying to handshakes without carrying the traffic — an interception appliance, a misbehaving proxy, or a portal you haven't signed in to."@,
            Some("If this is a hotel or public network, open a browser and look for a sign-in page. Otherwise check for a proxy or filtering appliance between you and the internet."@),
        )
            &&& f == Some(Fault::TargetBlocked) ==> warns(
            v,
            "This network filters where you can go"@,
            told(hops[i]) + ". Your uplink itself is fine — it reaches the internet, just not everything on it."@,
            Some("Expected on corporate or guest Wi-Fi. If it isn't, check for a filtering appliance or a DNS/firewall policy on the router."@),
        )
            &&& plain && lost_a_quarter(hops[i]) ==> warns(
                v,
                "Your uplink is dropping packets"@,
                "The internet is reachable, but "@ + (hops[i].loss_pct->0).percent()
                    + "% of connections through it never complete."@,
                Some("Usually ISP congestion or a flaky modem/ONU — power-cycle the modem, and report persistent loss to your ISP."@),
            )
            &&& plain && !lost_a_quarter(hops[i]) ==> warns(
            v,
            "Internet is up but degraded"@,
            "Reachable, but quality is poor — "@ + told(hops[i]) + "."@,
            Some("Check for background traffic or a congested uplink."@),
        )
        }),
{
    lemma_warning(hops, i);
    lemma_loss_at(hops, i);
    let v = verdict_on(hops);
    let gap = gap_note(unmeasured(hops, Some(hops[i].id)));
    let s = told(hops[i]);
    lemma_front(
        "Every connection completes, but no real request does. A device on the path is replying to handshakes without carrying the traffic — an interception appliance, a misbehaving proxy, or a portal you haven't signed in to."@,
        gap,
    );
    lemma_front(
        s + ". Your uplink itself is fine — it reaches the internet, just not everything on it."@,
        gap,
    );
    lemma_front("Reachable, but quality is poor — "@ + s + "."@, gap);
    if lost_a_quarter(hops[i]) {
        let head = "The internet is reachable, but "@ + (hops[i].loss_pct->0).percent()
            + "% of connections through it never complete."@;
        let lan = if status_of(hops, HopId::Gateway) == Status::Healthy {
            " Your LAN is clean — the router answers every probe — so this starts past your own equipment."@
        } else {
            ""@
        };
        assert((head + lan + gap).take(head.len() as int) =~= head);
    }
}

/// What else may be the closest degradation: a weak link, a resolver that
/// invents answers or is slow, an address that is off, or something minor.
pub proof fn other_degradations_are_told_by_their_hop(hops: Seq<path::HopView>, i: int)
    requires
        closest_warning(hops, i),
        hops[i].fault != Some(Fault::Unobserved),
    ensures
        ({
            let v = verdict_on(hops);
            let id = hops[i].id;
            let lies = hops[i].fault == Some(Fault::ResolverHijacked);
            &&& id == HopId::Link ==> warns(
                v,
                "Weak Wi-Fi signal"@,
                "You're online, but the link is marginal — "@ + told(hops[i]) + "."@,
                Some("Move closer to the AP or switch to 5 GHz."@),
            )
            &&& id == HopId::Dns && lies ==> warns(
            v,
            "Your resolver invents answers"@,
            told(hops[i]) + ". Nothing is down, but anything relying on a name genuinely not existing — VPN split-horizon checks, some installers, search fallbacks — will misbehave."@,
            Some("Set your resolver to 1.1.1.1 or 9.9.9.9 if the redirection gets in your way."@),
        )
            &&& id == HopId::Dns && !lies ==> warns(
            v,
            "DNS is slow"@,
            "Resolution works but is sluggish — "@ + told(hops[i]) + "."@,
            Some("Try a faster resolver like 1.1.1.1."@),
        )
            &&& id == HopId::Host ==> warns(
            v,
            "Your addressing is off"@,
            told(hops[i]),
            Some("Check the interface's IP configuration — a static address left over from another network does this."@),
        )
            &&& id == HopId::Vpn || id == HopId::Uplink || id == HopId::Captive ==> warns(
            v,
            "Minor degradation"@,
            told(hops[i]),
            None,
        )
        }),
{
    lemma_warning(hops, i);
    let v = verdict_on(hops);
    let s = told(hops[i]);
    let gap = gap_note(unmeasured(hops, Some(hops[i].id)));
    lemma_front(s, gap);
    lemma_front("Resolution works but is sluggish — "@ + s + "."@, gap);
    lemma_front(
        s + ". Nothing is down, but anything relying on a name genuinely not existing — VPN split-horizon checks, some installers, search fallbacks — will misbehave."@,
        gap,
    );
    if hops[i].id == HopId::Link {
        let head = "You're online, but the link is marginal — "@ + s + "."@;
        assert(v.cause.take(head.len() as int) =~= head);
    }
}

proof fn lemma_all_measured(hops: Seq<path::HopView>, except: Option<HopId>)
    requires
        forall|j: int|
            0 <= j < hops.len() ==> (#[trigger] hops[j]).fault != Some(Fault::Unobserved) || Some(
                hops[j].id,
            ) == except,
    ensures
        unmeasured(hops, except).len() == 0,
    decreases hops.len(),
{
    if hops.len() > 0 {
        let rest = hops.drop_last();
        assert forall|j: int| 0 <= j < rest.len() implies (#[trigger] rest[j]).fault != Some(
            Fault::Unobserved,
        ) || Some(rest[j].id) == except by {
            assert(hops[j] == rest[j]);
        }
        lemma_all_measured(rest, except);
        assert(hops[hops.len() - 1].fault != Some(Fault::Unobserved) || Some(hops.last().id)
            == except);
    }
}

/// A verdict on a degradation of a path whose other hops were all measured
/// speaks of no gap.
pub proof fn no_gap_is_named_where_there_is_none(hops: Seq<path::HopView>, id: HopId)
    requires
        forall|j: int|
            0 <= j < hops.len() ==> (#[trigger] hops[j]).fault != Some(Fault::Unobserved)
                || hops[j].id == id,
    ensures
        gap_note(unmeasured(hops, Some(id))).len() == 0,
{
    lemma_all_measured(hops, Some(id));
}

/// A clean bill of health takes a settled path without a break or a
/// degradation, and some hop past the host that was found healthy; without that
/// hop nothing was measured. Either is certain and asks for nothing.
pub proof fn a_clean_bill_takes_a_measurement(hops: Seq<path::HopView>)
    requires
        path::distinct(hops),
        path::settled(hops),
        !any_with(hops, Status::Fail),
        !any_with(hops, Status::Warn),
    ensures
        ({
            let v = verdict_on(hops);
            let seen = exists|i: int|
                0 <= i < hops.len() && (#[trigger] hops[i]).id != HopId::Host && hops[i].status
                    == Status::Healthy;
            &&& v.status == (if seen {
                Status::Healthy
            } else {
                Status::Skipped
            })
            &&& v.headline == (if seen {
                "You're fully online"@
            } else {
                "Nothing was measured"@
            })
            &&& v.fix is None
            &&& v.confidence == Confidence::Certain
            &&& v.source is None
        }),
{
    path::lemma_earliest_exists(hops, Status::Fail);
    path::lemma_earliest_exists(hops, Status::Warn);
    path::lemma_index_of_id_holds(hops, HopId::Captive);
    path::lemma_index_of_id_holds(hops, HopId::Host);
    let c = path::index_of_id(hops, HopId::Captive);
    let h = path::index_of_id(hops, HopId::Host);
    assert(c < hops.len() ==> hops[c].status != Status::Fail);
    assert(h < hops.len() ==> hops[h].status != Status::Fail && hops[h].status != Status::Warn);
    if !nothing_measured(hops) {
        let i = choose|i: int|
            0 <= i < hops.len() && (#[trigger] hops[i]).id != HopId::Host && hops[i].status
                != Status::Skipped;
        assert(hops[i].status == Status::Healthy);
    }
}

/// While any hop is still being probed the verdict only says that it is, and
/// claims nothing.
pub proof fn a_scan_claims_nothing(hops: Seq<path::HopView>)
    requires
        !path::settled(hops),
    ensures
        verdict_on(hops).status == Status::Pending,
        verdict_on(hops).headline == "Scanning your connection…"@,
        verdict_on(hops).fix is None,
        verdict_on(hops).source is None,
        verdict_on(hops).confidence == Confidence::Guess,
{
}

/// What a weak link costs is said where it shows: packet loss to the router is
/// named exactly when a quarter of the burst to it was lost.
pub proof fn what_a_weak_link_costs_is_said(hops: Seq<path::HopView>, i: int, g: int)
    requires
        closest_warning(hops, i),
        hops[i].id == HopId::Link,
        hops[i].fault != Some(Fault::Unobserved),
        0 <= g < hops.len(),
        hops[g].id == HopId::Gateway,
    ensures
        warns(
            verdict_on(hops),
            "Weak Wi-Fi signal"@,
            "You're online, but the link is marginal — "@ + told(hops[i]) + "."@ + (
            if lost_a_quarter(hops[g]) {
                " It's already costing you "@ + (hops[g].loss_pct->0).percent()
                    + "% packet loss to the router."@
            } else {
                seq![]
            }) + " Expect stalls and retransmits."@,
            Some("Move closer to the AP or switch to 5 GHz."@),
        ),
{
    lemma_warning(hops, i);
    lemma_loss_at(hops, g);
    let gap = gap_note(unmeasured(hops, Some(hops[i].id)));
    let cost = if lost_a_quarter(hops[g]) {
        " It's already costing you "@ + (hops[g].loss_pct->0).percent()
            + "% packet loss to the router."@
    } else {
        seq![]
    };
    lemma_front(
        "You're online, but the link is marginal — "@ + told(hops[i]) + "."@ + cost
            + " Expect stalls and retransmits."@,
        gap,
    );
}

/// Where the local network drops packets, distance is ruled out exactly when the
/// link itself is healthy and says how strong it is.
pub proof fn distance_is_ruled_out_by_a_healthy_link(hops: Seq<path::HopView>, i: int, l: int)
    requires
        closest_warning(hops, i),
        hops[i].id == HopId::Gateway,
        hops[i].fault != Some(Fault::Unobserved),
        lost_a_quarter(hops[i]),
        0 <= l < hops.len(),
        hops[l].id == HopId::Link,
    ensures
        text::starts_with(
            verdict_on(hops).cause,
            "Every hop is technically up, but "@ + (hops[i].loss_pct->0).percent()
                + "% of probes to your own router never came back."@ + (if hops[l].status
                == Status::Healthy && hops[l].summary is Some {
                " The signal itself is fine ("@ + told(hops[l]) + "), so this isn't distance."@
            } else {
                seq![]
            })
                + " That alone stalls pages, calls and streams while everything still looks online."@,
        ),
{
    lemma_warning(hops, i);
    lemma_loss_at(hops, i);
    lemma_lookup_of(hops, l);
    let gap = gap_note(unmeasured(hops, Some(hops[i].id)));
    let signal = if hops[l].status == Status::Healthy && hops[l].summary is Some {
        " The signal itself is fine ("@ + told(hops[l]) + "), so this isn't distance."@
    } else {
        seq![]
    };
    lemma_front(
        "Every hop is technically up, but "@ + (hops[i].loss_pct->0).percent()
            + "% of probes to your own router never came back."@ + signal
            + " That alone stalls pages, calls and streams while everything still looks online."@,
        gap,
    );
}

/// Where the uplink drops packets, the local network is cleared exactly when the
/// router is healthy.
pub proof fn the_local_network_is_cleared_by_a_healthy_router(
    hops: Seq<path::HopView>,
    i: int,
    g: int,
)
    requires
        closest_warning(hops, i),
        hops[i].id == HopId::Wan,
        hops[i].fault is None,
        lost_a_quarter(hops[i]),
        0 <= g < hops.len(),
        hops[g].id == HopId::Gateway,
    ensures
        ({
            let head = "The internet is reachable, but "@ + (hops[i].loss_pct->0).percent()
                + "% of connections through it never complete."@;
            let clean =
                " Your LAN is clean — the router answers every probe — so this starts past your own equipment."@;
            let gap = gap_note(unmeasured(hops, Some(HopId::Wan)));
            verdict_on(hops).cause == (if hops[g].status == Status::Healthy {
                head + clean + gap
            } else {
                head + gap
            })
        }),
{
    lemma_warning(hops, i);
    lemma_loss_at(hops, i);
    lemma_lookup_of(hops, g);
    reveal_strlit("");
    let head = "The internet is reachable, but "@ + (hops[i].loss_pct->0).percent()
        + "% of connections through it never complete."@;
    assert(head + ""@ =~= head);
}

proof fn lemma_how_many_unmeasured(hops: Seq<path::HopView>, i: int)
    requires
        forall|j: int|
            0 <= j < hops.len() && j != i ==> (#[trigger] hops[j]).fault != Some(Fault::Unobserved),
    ensures
        unmeasured(hops, None).len() <= 1,
        !(0 <= i < hops.len()) ==> unmeasured(hops, None).len() == 0,
    decreases hops.len(),
{
    if hops.len() > 0 {
        let head = hops.drop_last();
        let n = hops.len() - 1;
        assert forall|j: int| 0 <= j < head.len() && j != i implies (#[trigger] head[j]).fault
            != Some(Fault::Unobserved) by {
            assert(head[j] == hops[j]);
        }
        lemma_how_many_unmeasured(head, i);
        if n != i {
            assert(hops[n].fault != Some(Fault::Unobserved));
        }
    }
}

/// Where one hop alone went unmeasured, the rest of the path is said to have
/// reported.
pub proof fn a_single_gap_is_said_to_be_one(hops: Seq<path::HopView>, i: int)
    requires
        closest_warning(hops, i),
        hops[i].fault == Some(Fault::Unobserved),
        forall|j: int|
            0 <= j < hops.len() && j != i ==> (#[trigger] hops[j]).fault != Some(Fault::Unobserved),
    ensures
        verdict_on(hops).cause == told(hops[i])
            + ". The rest of the path reported, so this hop is unknown rather than unhealthy — don't read it either way."@,
{
    lemma_warning(hops, i);
    lemma_how_many_unmeasured(hops, i);
    reveal_strlit(". ");
    reveal_strlit(
        "The rest of the path reported, so this hop is unknown rather than unhealthy — don't read it either way.",
    );
    reveal_strlit(
        ". The rest of the path reported, so this hop is unknown rather than unhealthy — don't read it either way.",
    );
    assert(". The rest of the path reported, so this hop is unknown rather than unhealthy — don't read it either way."@
        =~= ". "@
        + "The rest of the path reported, so this hop is unknown rather than unhealthy — don't read it either way."@);
    assert(verdict_on(hops).cause =~= told(hops[i])
        + ". The rest of the path reported, so this hop is unknown rather than unhealthy — don't read it either way."@);
}

} // verus!
