//! L7 captive-portal probe.
//!
//! Two independent signals, because the obvious one stops working in the case
//! that matters most.
//!
//! The obvious one is Apple's plain-HTTP hotspot-detect endpoint: a clean
//! network returns `Success`, and a login page or a 302 means a portal. But it
//! is reached *by hostname*, so it needs the system resolver — and hijacking
//! the system resolver is how captive portals usually announce themselves.
//! When DNS goes, this check goes with it, and the portal is missed at exactly
//! the moment it is the answer.
//!
//! So it is backed by a DNS-free one: a plain HTTP request to an address that
//! cannot exist on the public internet. Nothing legitimate can answer it, so
//! any HTTP reply at all is proof that something on the path is intercepting
//! port 80.

use crate::model::path;
use crate::model::{Fault, Hop, HopId, Layer, Metric, Status};
use crate::number;
use crate::text;
use vstd::prelude::*;

verus! {

broadcast use vstd::string::group_string_axioms;

/// The hotspot endpoint.
pub const HOTSPOT: &'static str = "http://captive.apple.com/hotspot-detect.html";

/// What it answers where there is no portal.
pub const EXPECTED: &'static str =
    "<HTML><HEAD><TITLE>Success</TITLE></HEAD><BODY>Success</BODY></HTML>";

/// TEST-NET-1 (RFC 5737): reserved for documentation and never routed on the
/// public internet. Nothing legitimate is listening here, so a reply is not
/// ambiguous — it is an interceptor. No name is resolved to reach it, which is
/// the entire point.
pub const UNROUTABLE: &'static str = "http://192.0.2.1/";

/// The hotspot endpoint needs to survive a slow-but-working network. In
/// seconds.
pub const HOTSPOT_WAIT_SECS: u64 = 4;

/// The interception probe is expected to time out on every healthy network, so
/// it is held short. It runs concurrently with the hotspot check and so adds
/// no wall-clock cost. In seconds.
pub const INTERCEPT_WAIT_SECS: u64 = 2;

/// What the hotspot endpoint had to say.
#[derive(Debug, Clone)]
pub enum Hotspot {
    /// Answered with exactly the sentinel body: no portal.
    Clean,
    /// Answered with something else — a redirect or a login page.
    Portal(Option<Metric>),
    /// Never answered. On its own this says nothing about portals: it is what
    /// a dead uplink *and* a hijacked resolver both look like.
    Unreachable,
}

/// What the endpoint had to say.
pub enum HotspotView {
    Clean,
    Portal(Option<path::MetricView>),
    Unreachable,
}

/// An optional metric by what it says.
pub open spec fn metric_view(o: Option<Metric>) -> Option<path::MetricView> {
    match o {
        Some(m) => Some(m@),
        None => None,
    }
}

impl View for Hotspot {
    type V = HotspotView;

    open spec fn view(&self) -> HotspotView {
        match self {
            Hotspot::Clean => HotspotView::Clean,
            Hotspot::Portal(m) => HotspotView::Portal(metric_view(*m)),
            Hotspot::Unreachable => HotspotView::Unreachable,
        }
    }
}

/// The hop with both signals combined. The DNS-free signal is read first: it is
/// the one that still works when a portal has taken the resolver down with it.
pub open spec fn graded(
    hop: path::HopView,
    hotspot: HotspotView,
    intercepted: Option<u16>,
) -> path::HopView {
    match (intercepted, hotspot) {
        (Some(status), _) => hop.failed(
            Fault::PortalIntercept,
            "Something is intercepting HTTP — a portal is standing between you and the internet"@,
        ).with_metric(
            path::graded(
                "Intercepted"@,
                "HTTP "@ + number::decimal(status as nat) + " from 192.0.2.1"@,
                Status::Fail,
            ),
        ),
        (None, HotspotView::Portal(detail)) => {
            let found = hop.failed(
                Fault::PortalIntercept,
                "Captive portal is intercepting the hotspot check"@,
            );
            match detail {
                Some(m) => found.with_metric(m),
                None => found,
            }
        },
        (None, HotspotView::Clean) => path::HopView {
            status: Status::Healthy,
            summary: Some("No portal — traffic flows clean to the internet"@),
            ..hop
        },
        (None, HotspotView::Unreachable) => path::HopView {
            status: Status::Skipped,
            summary: Some("No portal — nothing answered on port 80, and a portal would have"@),
            ..hop
        },
    }
}

/// The hop before anything was asked.
pub open spec fn opening() -> path::HopView {
    path::HopView {
        subtitle: Some("captive check"@),
        ..path::blank(HopId::Captive, Layer::Application, "Portal"@)
    }
}

/// What the endpoint's response says: a redirection is a portal, and so is any
/// body but the expected one. A body that could not be read is not one that
/// said the wrong thing.
pub open spec fn hotspot_of(
    status: u16,
    location: Option<Seq<char>>,
    body: Option<Seq<char>>,
) -> HotspotView {
    if 300 <= status < 400 {
        HotspotView::Portal(
            match location {
                Some(url) => Some(path::graded("Portal"@, url, Status::Fail)),
                None => None,
            },
        )
    } else {
        match body {
            None => HotspotView::Unreachable,
            Some(b) => if text::trim(b) == EXPECTED@ {
                HotspotView::Clean
            } else {
                HotspotView::Portal(
                    Some(path::graded("HTTP"@, number::decimal(status as nat), Status::Warn)),
                )
            },
        }
    }
}

/// Combine the two signals.
pub fn grade(hop: &mut Hop, hotspot: Hotspot, intercepted: Option<u16>)
    ensures
        final(hop)@ == graded(old(hop)@, hotspot@, intercepted),
{
    if let Some(status) = intercepted {
        hop.fail(
            Fault::PortalIntercept,
            "Something is intercepting HTTP — a portal is standing between you and the internet",
        );
        hop.push_metric(
            Metric::new(
                "Intercepted",
                text::cat3(
                    "HTTP ",
                    number::decimal_of(status as u128).as_str(),
                    " from 192.0.2.1",
                ).as_str(),
            ).with_status(Status::Fail),
        );
        return;
    }
    match hotspot {
        Hotspot::Portal(detail) => {
            hop.fail(Fault::PortalIntercept, "Captive portal is intercepting the hotspot check");
            if let Some(m) = detail {
                hop.push_metric(m);
            }
        },
        Hotspot::Clean => {
            hop.status = Status::Healthy;
            hop.summary = Some("No portal — traffic flows clean to the internet".to_string());
        },
        // Neither probe drew a reply. That is not "we couldn't check": a
        // portal would have answered the interception probe, and none did. So
        // this positively rules a portal out and leaves the upstream break
        // owning the verdict.
        Hotspot::Unreachable => {
            hop.status = Status::Skipped;
            hop.summary = Some(
                "No portal — nothing answered on port 80, and a portal would have".to_string(),
            );
        },
    }
}

/// Read the endpoint's response: its status, where it redirects to, and its
/// body, if that could be read.
///
/// A body we couldn't read is not a body that said the wrong thing. A
/// connection dropping mid-read on a portal-free network must not report "sign
/// in to the Wi-Fi": a detected portal outranks every upstream break, so that
/// verdict would take over the whole report.
pub fn check_hotspot(status: u16, location: Option<String>, body: Option<String>) -> (r: Hotspot)
    ensures
        r@ == hotspot_of(status, path::opt_text(location), path::opt_text(body)),
{
    if 300 <= status && status < 400 {
        return Hotspot::Portal(
            match location {
                Some(url) => Some(Metric::new("Portal", url.as_str()).with_status(Status::Fail)),
                None => None,
            },
        );
    }
    match body {
        None => Hotspot::Unreachable,
        Some(b) => {
            let chars = text::chars_of(b.as_str());
            if text::text_is(text::trimmed(chars.as_slice()), EXPECTED) {
                Hotspot::Clean
            } else {
                Hotspot::Portal(
                    Some(
                        Metric::new(
                            "HTTP",
                            number::decimal_of(status as u128).as_str(),
                        ).with_status(Status::Warn),
                    ),
                )
            }
        },
    }
}

fn begin() -> (r: Hop)
    ensures
        r@ == opening(),
{
    let mut hop = Hop::new(HopId::Captive, Layer::Application, "Portal");
    hop.subtitle = Some("captive check".to_string());
    hop
}

/// The hop when there is no HTTP client to ask with.
pub fn unasked() -> (r: Hop)
    ensures
        r@ == opening().reporting(
            Status::Warn,
            Some(Fault::Unobserved),
            "Couldn't build HTTP client"@,
        ),
{
    let mut hop = begin();
    hop.set_report(Status::Warn, Some(Fault::Unobserved), "Couldn't build HTTP client");
    hop
}

/// The hop that both signals come to: what the hotspot endpoint had to say, and
/// the status that the address which cannot answer answered with, if it did.
pub fn probe(hotspot: Hotspot, intercepted: Option<u16>) -> (r: Hop)
    ensures
        r@ == graded(
            path::HopView {
                evidence: Some(
                    "hotspot check against "@ + HOTSPOT@ + ", plus a DNS-free port-80 probe to "@
                        + UNROUTABLE@,
                ),
                ..opening()
            },
            hotspot@,
            intercepted,
        ),
{
    let mut hop = begin();
    hop.evidence = Some(
        text::cat4(
            "hotspot check against ",
            HOTSPOT,
            ", plus a DNS-free port-80 probe to ",
            UNROUTABLE,
        ),
    );
    grade(&mut hop, hotspot, intercepted);
    hop
}

// ---- laws ----

/// Any reply from the address that cannot answer is a portal, whatever the
/// hotspot endpoint had to say.
pub proof fn a_reply_from_nowhere_is_a_portal(
    hop: path::HopView,
    hotspot: HotspotView,
    status: u16,
)
    ensures
        graded(hop, hotspot, Some(status)).status == Status::Fail,
        graded(hop, hotspot, Some(status)).fault == Some(Fault::PortalIntercept),
{
}

/// A portal is claimed only where something answered: silence rules it out.
pub proof fn silence_is_no_portal(hop: path::HopView, hotspot: HotspotView, intercepted: Option<u16>)
    ensures
        graded(hop, hotspot, intercepted).status == Status::Fail <==> intercepted is Some
            || hotspot is Portal,
{
}

/// What is reported follows from the two signals alone: a portal exactly when
/// one of them shows it, with that as the reason; a clean bill exactly when the
/// endpoint answered as it should and nothing intercepted; and nothing measured
/// when neither drew a reply.
pub proof fn a_portal_is_what_the_signals_show(
    hop: path::HopView,
    hotspot: HotspotView,
    intercepted: Option<u16>,
)
    requires
        hop.fault is None,
    ensures
        ({
            let found = graded(hop, hotspot, intercepted);
            let portal = intercepted is Some || hotspot is Portal;
            &&& found.status == Status::Fail <==> portal
            &&& found.fault == Some(Fault::PortalIntercept) <==> portal
            &&& found.fault is None <==> !portal
            &&& found.status == Status::Healthy <==> intercepted is None && hotspot is Clean
            &&& found.status == Status::Skipped <==> intercepted is None && hotspot is Unreachable
            &&& found.id == hop.id
        }),
{
}

/// The endpoint shows a portal when it redirects, or when it answers with any
/// body but the expected one, white space around it aside; only that body is a
/// clean answer, and without a body nothing is known.
pub proof fn only_the_expected_answer_is_clean(
    status: u16,
    location: Option<Seq<char>>,
    body: Option<Seq<char>>,
)
    ensures
        hotspot_of(status, location, body) is Portal <==> 300 <= status <= 399 || (
        body matches Some(b) && text::trim(b) != EXPECTED@),
        hotspot_of(status, location, body) is Clean <==> !(300 <= status <= 399) && (
        body matches Some(b) && text::trim(b) == EXPECTED@),
        hotspot_of(status, location, body) is Unreachable <==> !(300 <= status <= 399)
            && body is None,
        300 <= status <= 399 ==> (hotspot_of(status, location, body) matches HotspotView::Portal(m)
            && (m is Some <==> location is Some) && (m matches Some(x) ==> x.value
            == location->0)),
{
}

/// What was seen of a portal stands on a line of its own: a reply from nowhere
/// with its code, or what the endpoint gave away; and without a portal no line
/// is added.
pub proof fn a_portal_leaves_its_line(
    hop: path::HopView,
    hotspot: HotspotView,
    intercepted: Option<u16>,
)
    ensures
        ({
            let found = graded(hop, hotspot, intercepted);
            match (intercepted, hotspot) {
                (Some(code), _) => {
                    let line = found.metrics.last();
                    &&& found.metrics == hop.metrics.push(line)
                    &&& line.label == "Intercepted"@
                    &&& line.status == Some(Status::Fail)
                    &&& text::contains(line.value, number::decimal(code as nat))
                },
                (None, HotspotView::Portal(Some(line))) => found.metrics == hop.metrics.push(line),
                _ => found.metrics == hop.metrics,
            }
        }),
{
    if let Some(code) = intercepted {
        text::lemma_contains_middle(
            "HTTP "@,
            number::decimal(code as nat),
            " from 192.0.2.1"@,
        );
    }
}

/// The line on a redirection says where to, and reads as a break; that on an
/// unexpected body says the code that came with it, and reads as a warning.
pub proof fn the_endpoint_is_quoted(
    status: u16,
    location: Option<Seq<char>>,
    body: Option<Seq<char>>,
)
    ensures
        match hotspot_of(status, location, body) {
            HotspotView::Portal(Some(line)) => if 300 <= status <= 399 {
                location == Some(line.value) && line.status == Some(Status::Fail)
            } else {
                line.value == number::decimal(status as nat) && line.status == Some(Status::Warn)
            },
            HotspotView::Portal(None) => 300 <= status <= 399 && location is None,
            _ => true,
        },
{
}

} // verus!
