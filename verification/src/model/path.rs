//! The connectivity path: an ordered chain of hops from the host to the
//! internet. This is the model the topology diagram renders.

use crate::model::reading::{Loss, Millis};
use crate::model::status::Status;
use vstd::prelude::*;

verus! {

/// OSI-ish layer a hop lives at, used for grouping and coloring.
#[derive(Debug, Clone, Copy, PartialEq, Eq, Structural)]
pub enum Layer {
    /// L2 — Wi-Fi / physical link.
    Link,
    /// L3 — local routing, gateway, VPN.
    Network,
    /// L3/L4 — WAN / internet reachability.
    Internet,
    /// L7 — DNS, captive portal, application.
    Application,
}

impl Layer {
    /// The label of a layer.
    pub open spec fn name(self) -> Seq<char> {
        match self {
            Layer::Link => "L2 Link"@,
            Layer::Network => "L3 Network"@,
            Layer::Internet => "WAN"@,
            Layer::Application => "L7 App"@,
        }
    }

    /// The label of a layer.
    pub fn label(self) -> (r: &'static str)
        ensures
            r@ == self.name(),
    {
        match self {
            Layer::Link => "L2 Link",
            Layer::Network => "L3 Network",
            Layer::Internet => "WAN",
            Layer::Application => "L7 App",
        }
    }
}

/// Stable identity of a hop, so probes can update the right node.
#[derive(Debug, Clone, Copy, PartialEq, Eq, Hash, Structural)]
pub enum HopId {
    Host,
    Link,
    Gateway,
    /// Overlay VPN / tunnel hop — only present when a tunnel is active. Sits
    /// between the local gateway and the WAN because traffic is encapsulated
    /// here before it egresses to the internet.
    Vpn,
    /// The path between the local gateway and the internet — your modem, your
    /// ISP's access network, transit. Only present when something upstream is
    /// already broken, because that is the only time it is worth the seconds
    /// it costs to sweep.
    Uplink,
    Wan,
    Dns,
    Captive,
}

impl HopId {
    /// Where a hop stands in the chain, counted from the host.
    pub open spec fn place(self) -> nat {
        match self {
            HopId::Host => 0,
            HopId::Link => 1,
            HopId::Gateway => 2,
            HopId::Vpn => 3,
            HopId::Uplink => 4,
            HopId::Wan => 5,
            HopId::Dns => 6,
            HopId::Captive => 7,
        }
    }

    /// Where a hop stands in the chain, counted from the host.
    pub fn position(self) -> (r: usize)
        ensures
            r == self.place(),
    {
        match self {
            HopId::Host => 0,
            HopId::Link => 1,
            HopId::Gateway => 2,
            HopId::Vpn => 3,
            HopId::Uplink => 4,
            HopId::Wan => 5,
            HopId::Dns => 6,
            HopId::Captive => 7,
        }
    }
}

/// No two hops stand at the same place in the chain.
pub proof fn chain_places_are_distinct(a: HopId, b: HopId)
    ensures
        a.place() == b.place() <==> a == b,
{
}

/// The chain runs from the host over the link, the gateway, a tunnel, the uplink
/// and the WAN to name resolution, and to the portal check last.
pub proof fn the_chain_runs_outward()
    ensures
        HopId::Host.place() < HopId::Link.place() < HopId::Gateway.place(),
        HopId::Gateway.place() < HopId::Vpn.place() < HopId::Uplink.place(),
        HopId::Uplink.place() < HopId::Wan.place() < HopId::Dns.place(),
        HopId::Dns.place() < HopId::Captive.place(),
{
}

/// Why a hop is not healthy, as a code rather than as prose.
///
/// Probes record *what they observed*; the diagnosis engine turns that into a
/// human verdict. Without a code the two ends drift, because the engine has to
/// re-derive a cause the probe already knew — and then the verdict can
/// contradict the evidence printed right under it.
#[derive(Debug, Clone, Copy, PartialEq, Eq, Structural)]
pub enum Fault {
    /// The OS tools wtfi reads the network through could not be run, so
    /// nothing about the network was observed. Emphatically not the same as
    /// observing that the network is down.
    Unobserved,
    /// Not associated with any access point at all.
    NotAssociated,
    /// DHCP never answered, so IPv4 autoconfiguration took over
    /// (`169.254.0.0/16`). The interface looks configured and reaches nothing.
    SelfAssignedAddr,
    /// The interface has no address at all.
    NoAddress,
    /// The configured address and the default gateway share no subnet, so
    /// they cannot reach each other however healthy each one is.
    GatewayOffSubnet,
    /// Associated, but there is no default route off this machine — typically
    /// a DHCP lease that never arrived.
    NoRoute,
    /// No default gateway in the routing table.
    NoGateway,
    /// The gateway is in the routing table but answers nothing.
    GatewaySilent,
    /// The trace stops immediately past your own router: the break is on the
    /// link between it and your provider — modem/ONU, WAN cable, or the line.
    UplinkDiesAtModem,
    /// The trace gets into the provider's network and stops there.
    UplinkDiesInIsp,
    /// No transport-layer path to the internet.
    NoInternet,
    /// The internet is reachable, but this network filters specific
    /// destinations. A property of the network you are on, not an outage.
    TargetBlocked,
    /// Every TCP handshake completes, but no real request does — something on
    /// the path answers connections without carrying them.
    HandshakeOnly,
    /// The system resolver returned no answer.
    ResolverDead,
    /// The system resolver answers, but not truthfully — it synthesises
    /// results for names that don't exist, or substitutes its own address for
    /// a public one.
    ResolverHijacked,
    /// A captive portal is intercepting traffic.
    PortalIntercept,
    /// A tunnel interface is up but is not carrying traffic.
    TunnelDown,
}

impl Fault {
    /// The code of a fault.
    pub open spec fn tag(self) -> Seq<char> {
        match self {
            Fault::Unobserved => "unobserved"@,
            Fault::NotAssociated => "not_associated"@,
            Fault::SelfAssignedAddr => "self_assigned_addr"@,
            Fault::NoAddress => "no_address"@,
            Fault::GatewayOffSubnet => "gateway_off_subnet"@,
            Fault::NoRoute => "no_route"@,
            Fault::NoGateway => "no_gateway"@,
            Fault::GatewaySilent => "gateway_silent"@,
            Fault::UplinkDiesAtModem => "uplink_dies_at_modem"@,
            Fault::UplinkDiesInIsp => "uplink_dies_in_isp"@,
            Fault::NoInternet => "no_internet"@,
            Fault::TargetBlocked => "target_blocked"@,
            Fault::HandshakeOnly => "handshake_only"@,
            Fault::ResolverDead => "resolver_dead"@,
            Fault::ResolverHijacked => "resolver_hijacked"@,
            Fault::PortalIntercept => "portal_intercept"@,
            Fault::TunnelDown => "tunnel_down"@,
        }
    }

    /// Stable lowercase code for `--json` consumers.
    pub fn code(self) -> (r: &'static str)
        ensures
            r@ == self.tag(),
    {
        match self {
            Fault::Unobserved => "unobserved",
            Fault::NotAssociated => "not_associated",
            Fault::SelfAssignedAddr => "self_assigned_addr",
            Fault::NoAddress => "no_address",
            Fault::GatewayOffSubnet => "gateway_off_subnet",
            Fault::NoRoute => "no_route",
            Fault::NoGateway => "no_gateway",
            Fault::GatewaySilent => "gateway_silent",
            Fault::UplinkDiesAtModem => "uplink_dies_at_modem",
            Fault::UplinkDiesInIsp => "uplink_dies_in_isp",
            Fault::NoInternet => "no_internet",
            Fault::TargetBlocked => "target_blocked",
            Fault::HandshakeOnly => "handshake_only",
            Fault::ResolverDead => "resolver_dead",
            Fault::ResolverHijacked => "resolver_hijacked",
            Fault::PortalIntercept => "portal_intercept",
            Fault::TunnelDown => "tunnel_down",
        }
    }
}

/// A character that the code of a fault may hold.
pub open spec fn code_char(c: char) -> bool {
    'a' <= c <= 'z' || c == '_'
}

/// Every code is there, and is made of lower case letters and underscores.
pub proof fn fault_codes_are_lower_case(f: Fault)
    ensures
        f.tag().len() > 0,
        forall|i: int| 0 <= i < f.tag().len() ==> code_char(#[trigger] f.tag()[i]),
{
    match f {
        Fault::Unobserved => {
            reveal_strlit("unobserved");
        },
        Fault::NotAssociated => {
            reveal_strlit("not_associated");
        },
        Fault::SelfAssignedAddr => {
            reveal_strlit("self_assigned_addr");
        },
        Fault::NoAddress => {
            reveal_strlit("no_address");
        },
        Fault::GatewayOffSubnet => {
            reveal_strlit("gateway_off_subnet");
        },
        Fault::NoRoute => {
            reveal_strlit("no_route");
        },
        Fault::NoGateway => {
            reveal_strlit("no_gateway");
        },
        Fault::GatewaySilent => {
            reveal_strlit("gateway_silent");
        },
        Fault::UplinkDiesAtModem => {
            reveal_strlit("uplink_dies_at_modem");
        },
        Fault::UplinkDiesInIsp => {
            reveal_strlit("uplink_dies_in_isp");
        },
        Fault::NoInternet => {
            reveal_strlit("no_internet");
        },
        Fault::TargetBlocked => {
            reveal_strlit("target_blocked");
        },
        Fault::HandshakeOnly => {
            reveal_strlit("handshake_only");
        },
        Fault::ResolverDead => {
            reveal_strlit("resolver_dead");
        },
        Fault::ResolverHijacked => {
            reveal_strlit("resolver_hijacked");
        },
        Fault::PortalIntercept => {
            reveal_strlit("portal_intercept");
        },
        Fault::TunnelDown => {
            reveal_strlit("tunnel_down");
        },
    }
}

/// The codes tell every fault from every other.
pub proof fn fault_codes_are_distinct(a: Fault, b: Fault)
    ensures
        a.tag() == b.tag() <==> a == b,
{
    reveal_strlit("unobserved");
    reveal_strlit("not_associated");
    reveal_strlit("self_assigned_addr");
    reveal_strlit("no_address");
    reveal_strlit("gateway_off_subnet");
    reveal_strlit("no_route");
    reveal_strlit("no_gateway");
    reveal_strlit("gateway_silent");
    reveal_strlit("uplink_dies_at_modem");
    reveal_strlit("uplink_dies_in_isp");
    reveal_strlit("no_internet");
    reveal_strlit("target_blocked");
    reveal_strlit("handshake_only");
    reveal_strlit("resolver_dead");
    reveal_strlit("resolver_hijacked");
    reveal_strlit("portal_intercept");
    reveal_strlit("tunnel_down");
    if a.tag() == b.tag() {
        assert(a.tag().len() == b.tag().len());
        assert(a.tag()[0] == b.tag()[0] && a.tag()[3] == b.tag()[3] && a.tag()[9] == b.tag()[9]);
        assert(a.tag()[7] == b.tag()[7]);
        assert(a.tag()[a.tag().len() - 1] == b.tag()[b.tag().len() - 1]);
    }
}

/// An optional string as optional text.
pub open spec fn opt_text(o: Option<String>) -> Option<Seq<char>> {
    match o {
        Some(s) => Some(s@),
        None => None,
    }
}

/// Copies an optional string.
pub fn copy_text(o: &Option<String>) -> (r: Option<String>)
    ensures
        opt_text(r) == opt_text(*o),
{
    match o {
        Some(s) => Some(s.clone()),
        None => None,
    }
}

/// A named key/value measurement attached to a hop.
#[derive(Debug, Clone)]
pub struct Metric {
    pub label: String,
    pub value: String,
    /// Optional per-metric status, e.g. IPv6 down while IPv4 is up.
    pub status: Option<Status>,
}

/// What a metric says.
#[verifier::ext_equal]
pub struct MetricView {
    pub label: Seq<char>,
    pub value: Seq<char>,
    pub status: Option<Status>,
}

impl View for Metric {
    type V = MetricView;

    open spec fn view(&self) -> MetricView {
        MetricView { label: self.label@, value: self.value@, status: self.status }
    }
}

/// A metric without a status of its own.
pub open spec fn plain(label: Seq<char>, value: Seq<char>) -> MetricView {
    MetricView { label, value, status: None }
}

/// A metric with a status of its own.
pub open spec fn graded(label: Seq<char>, value: Seq<char>, status: Status) -> MetricView {
    MetricView { label, value, status: Some(status) }
}

impl Metric {
    /// A metric without a status of its own.
    pub fn new(label: &str, value: &str) -> (r: Self)
        ensures
            r@ == plain(label@, value@),
    {
        Metric { label: label.to_string(), value: value.to_string(), status: None }
    }

    /// The same metric, graded.
    pub fn with_status(self, s: Status) -> (r: Self)
        ensures
            r@ == (MetricView { status: Some(s), ..self@ }),
    {
        Metric { label: self.label, value: self.value, status: Some(s) }
    }
}

/// One node in the connectivity chain.
#[derive(Debug, Clone)]
pub struct Hop {
    pub id: HopId,
    pub layer: Layer,
    /// Short node label for the diagram, e.g. `Gateway`.
    pub title: String,
    /// Address / identity subtitle, e.g. `192.168.0.1`.
    pub subtitle: Option<String>,
    pub status: Status,
    /// What went wrong, as a code the diagnosis engine can match on. `None`
    /// when the hop is healthy, or when it is degraded in a way the hop's own
    /// [`Hop::summary`] already describes well enough.
    pub fault: Option<Fault>,
    /// One-line human summary shown in the detail panel.
    pub summary: Option<String>,
    /// What this hop actually did to reach its conclusion — how many probes,
    /// to where, over how long.
    ///
    /// A verdict without this is an assertion: the reader has to take "your
    /// ISP is down" on trust, with no way to tell a thorough measurement from
    /// a single timed-out packet. Stating the method is what turns it into a
    /// diagnosis they can check, argue with, or quote to someone else.
    pub evidence: Option<String>,
    /// Round-trip latency, when meaningful.
    pub latency_ms: Option<Millis>,
    /// Share of probe samples that never came back, when the hop was measured
    /// with a burst. A reachable hop can still be losing a quarter of its
    /// packets, which is what "everything is green but nothing loads" means.
    pub loss_pct: Option<Loss>,
    /// Variation between successive round trips.
    pub jitter_ms: Option<Millis>,
    pub metrics: Vec<Metric>,
}

/// What a hop says.
#[verifier::ext_equal]
pub struct HopView {
    pub id: HopId,
    pub layer: Layer,
    pub title: Seq<char>,
    pub subtitle: Option<Seq<char>>,
    pub status: Status,
    pub fault: Option<Fault>,
    pub summary: Option<Seq<char>>,
    pub evidence: Option<Seq<char>>,
    pub latency_ms: Option<Millis>,
    pub loss_pct: Option<Loss>,
    pub jitter_ms: Option<Millis>,
    pub metrics: Seq<MetricView>,
}

/// What a list of metrics says.
pub open spec fn metrics_view(m: Seq<Metric>) -> Seq<MetricView> {
    m.map_values(|x: Metric| x@)
}

impl View for Hop {
    type V = HopView;

    open spec fn view(&self) -> HopView {
        HopView {
            id: self.id,
            layer: self.layer,
            title: self.title@,
            subtitle: opt_text(self.subtitle),
            status: self.status,
            fault: self.fault,
            summary: opt_text(self.summary),
            evidence: opt_text(self.evidence),
            latency_ms: self.latency_ms,
            loss_pct: self.loss_pct,
            jitter_ms: self.jitter_ms,
            metrics: metrics_view(self.metrics@),
        }
    }
}

/// A hop that no probe has reported on.
pub open spec fn blank(id: HopId, layer: Layer, title: Seq<char>) -> HopView {
    HopView {
        id,
        layer,
        title,
        subtitle: None,
        status: Status::Pending,
        fault: None,
        summary: None,
        evidence: None,
        latency_ms: None,
        loss_pct: None,
        jitter_ms: None,
        metrics: seq![],
    }
}

impl HopView {
    /// The same hop with another status, fault and summary.
    pub open spec fn reporting(self, status: Status, fault: Option<Fault>, summary: Seq<char>) -> HopView {
        HopView { status, fault, summary: Some(summary), ..self }
    }

    /// The hop broken for a reason, with the reason both as a code and as prose.
    pub open spec fn failed(self, fault: Fault, summary: Seq<char>) -> HopView {
        self.reporting(Status::Fail, Some(fault), summary)
    }

    /// The same hop with one more metric.
    pub open spec fn with_metric(self, m: MetricView) -> HopView {
        HopView { metrics: self.metrics.push(m), ..self }
    }
}

impl Hop {
    /// A hop that no probe has reported on yet.
    pub fn new(id: HopId, layer: Layer, title: &str) -> (r: Self)
        ensures
            r@ == blank(id, layer, title@),
    {
        let r = Hop {
            id,
            layer,
            title: title.to_string(),
            subtitle: None,
            status: Status::Pending,
            fault: None,
            summary: None,
            evidence: None,
            latency_ms: None,
            loss_pct: None,
            jitter_ms: None,
            metrics: Vec::new(),
        };
        assert(r@ =~= blank(id, layer, title@));
        r
    }

    /// Mark the hop broken, with the reason recorded both as a code the
    /// diagnosis engine matches on and as the prose the human reads. Going
    /// through one call keeps the two from drifting apart.
    pub fn fail(&mut self, fault: Fault, summary: &str)
        ensures
            final(self)@ == old(self)@.failed(fault, summary@),
    {
        self.status = Status::Fail;
        self.fault = Some(fault);
        self.summary = Some(summary.to_string());
    }

    /// Set the status, the code and the prose together.
    pub fn set_report(&mut self, status: Status, fault: Option<Fault>, summary: &str)
        ensures
            final(self)@ == old(self)@.reporting(status, fault, summary@),
    {
        self.status = status;
        self.fault = fault;
        self.summary = Some(summary.to_string());
    }

    /// Append a metric.
    pub fn push_metric(&mut self, m: Metric)
        ensures
            final(self)@ == old(self)@.with_metric(m@),
    {
        let ghost before = self@.metrics;
        self.metrics.push(m);
        assert(metrics_view(self.metrics@) =~= before.push(m@));
    }
}

/// The ordered connectivity chain.
#[derive(Debug, Clone)]
pub struct Path {
    pub hops: Vec<Hop>,
}

/// What a list of hops says.
pub open spec fn hops_view(h: Seq<Hop>) -> Seq<HopView> {
    h.map_values(|x: Hop| x@)
}

impl View for Path {
    type V = Seq<HopView>;

    open spec fn view(&self) -> Seq<HopView> {
        hops_view(self.hops@)
    }
}

impl Default for Path {
    fn default() -> (r: Self)
        ensures
            r@ == Seq::<HopView>::empty(),
    {
        let r = Path { hops: Vec::new() };
        assert(r@ =~= Seq::<HopView>::empty());
        r
    }
}

/// The position of the first hop with this identity, or the length.
pub open spec fn index_of_id(hops: Seq<HopView>, id: HopId) -> int
    decreases hops.len(),
{
    if hops.len() == 0 || hops[0].id == id {
        0
    } else {
        1 + index_of_id(hops.skip(1), id)
    }
}

pub proof fn lemma_index_of_id(hops: Seq<HopView>, id: HopId, n: int)
    requires
        0 <= n <= hops.len(),
        forall|j: int| 0 <= j < n ==> hops[j].id != id,
        n < hops.len() ==> hops[n].id == id,
    ensures
        index_of_id(hops, id) == n,
    decreases hops.len(),
{
    if hops.len() > 0 && n > 0 {
        assert(hops[0].id != id);
        assert forall|j: int| 0 <= j < n - 1 implies hops.skip(1)[j].id != id by {
            assert(hops[j + 1].id != id);
        }
        lemma_index_of_id(hops.skip(1), id, n - 1);
    }
}

pub proof fn lemma_index_of_id_holds(hops: Seq<HopView>, id: HopId)
    ensures
        0 <= index_of_id(hops, id) <= hops.len(),
        index_of_id(hops, id) < hops.len() ==> hops[index_of_id(hops, id)].id == id,
        forall|j: int| 0 <= j < index_of_id(hops, id) ==> hops[j].id != id,
    decreases hops.len(),
{
    if hops.len() > 0 && hops[0].id != id {
        lemma_index_of_id_holds(hops.skip(1), id);
        assert forall|j: int| 0 <= j < index_of_id(hops, id) implies hops[j].id != id by {
            if j > 0 {
                assert(hops.skip(1)[j - 1].id != id);
            }
        }
    }
}

/// The first hop with this identity.
pub open spec fn lookup(hops: Seq<HopView>, id: HopId) -> Option<HopView> {
    let i = index_of_id(hops, id);
    if 0 <= i < hops.len() {
        Some(hops[i])
    } else {
        None
    }
}

/// Hop `i` has status `st`, and no hop with that status comes before it: none
/// stands earlier in the chain, and none at the same place comes earlier in
/// the list.
pub open spec fn is_earliest(hops: Seq<HopView>, st: Status, i: int) -> bool {
    &&& 0 <= i < hops.len()
    &&& hops[i].status == st
    &&& forall|j: int|
        0 <= j < hops.len() && #[trigger] hops[j].status == st ==> hops[i].id.place()
            < hops[j].id.place() || (hops[i].id.place() == hops[j].id.place() && i <= j)
}

/// The hop with status `st` that comes first in the chain.
pub open spec fn earliest(hops: Seq<HopView>, st: Status) -> Option<HopView> {
    if exists|i: int| is_earliest(hops, st, i) {
        Some(hops[choose|i: int| is_earliest(hops, st, i)])
    } else {
        None
    }
}

pub proof fn lemma_earliest(hops: Seq<HopView>, st: Status, i: int)
    requires
        is_earliest(hops, st, i),
    ensures
        earliest(hops, st) == Some(hops[i]),
{
    let k = choose|k: int| is_earliest(hops, st, k);
    assert(is_earliest(hops, st, k));
    assert(hops[k].status == st && hops[i].status == st);
}

/// There is an earliest hop with a status as soon as any hop has it.
pub proof fn lemma_earliest_exists(hops: Seq<HopView>, st: Status)
    ensures
        earliest(hops, st) is Some <==> exists|i: int|
            0 <= i < hops.len() && (#[trigger] hops[i]).status == st,
        earliest(hops, st) matches Some(h) ==> h.status == st && exists|i: int|
            0 <= i < hops.len() && #[trigger] hops[i] == h,
    decreases hops.len(),
{
    if exists|i: int| is_earliest(hops, st, i) {
        let k = choose|k: int| is_earliest(hops, st, k);
        assert(is_earliest(hops, st, k));
        assert(hops[k] == earliest(hops, st)->0);
    } else if exists|i: int| 0 <= i < hops.len() && (#[trigger] hops[i]).status == st {
        let rest = hops.drop_last();
        let n = hops.len() - 1;
        lemma_earliest_exists(rest, st);
        if exists|i: int| is_earliest(rest, st, i) {
            let k = choose|k: int| is_earliest(rest, st, k);
            assert(is_earliest(rest, st, k));
            assert forall|j: int| 0 <= j < n && #[trigger] hops[j].status == st implies hops[k].id.place()
                < hops[j].id.place() || (hops[k].id.place() == hops[j].id.place() && k <= j) by {
                assert(rest[j].status == st);
            }
            if hops[n].status == st && hops[n].id.place() < hops[k].id.place() {
                assert(is_earliest(hops, st, n));
            } else {
                assert(is_earliest(hops, st, k));
            }
        } else {
            assert forall|j: int| 0 <= j < n implies #[trigger] hops[j].status != st by {
                assert(rest[j] == hops[j]);
            }
            assert(is_earliest(hops, st, n));
        }
    }
}

/// Every hop has settled.
pub open spec fn settled(hops: Seq<HopView>) -> bool {
    forall|i: int| 0 <= i < hops.len() ==> (#[trigger] hops[i]).status != Status::Pending
}

/// No two hops have the same identity.
pub open spec fn distinct(hops: Seq<HopView>) -> bool {
    forall|i: int, j: int|
        0 <= i < j < hops.len() ==> (#[trigger] hops[i]).id != (#[trigger] hops[j]).id
}

/// The hops stand in chain order, each place at most once.
pub open spec fn in_chain_order(hops: Seq<HopView>) -> bool {
    forall|i: int, j: int|
        0 <= i < j < hops.len() ==> (#[trigger] hops[i]).id.place() < (#[trigger] hops[j]).id.place()
}

/// The position of the first hop that stands later in the chain than `id`, or
/// the length.
pub open spec fn slot_for(hops: Seq<HopView>, id: HopId) -> int
    decreases hops.len(),
{
    if hops.len() == 0 || hops[0].id.place() > id.place() {
        0
    } else {
        1 + slot_for(hops.skip(1), id)
    }
}

pub proof fn lemma_slot_for(hops: Seq<HopView>, id: HopId, n: int)
    requires
        0 <= n <= hops.len(),
        forall|j: int| 0 <= j < n ==> (#[trigger] hops[j]).id.place() <= id.place(),
        n < hops.len() ==> hops[n].id.place() > id.place(),
    ensures
        slot_for(hops, id) == n,
    decreases hops.len(),
{
    if hops.len() > 0 && n > 0 {
        assert(hops[0].id.place() <= id.place());
        assert forall|j: int| 0 <= j < n - 1 implies (#[trigger] hops.skip(1)[j]).id.place()
            <= id.place() by {
            assert(hops[j + 1].id.place() <= id.place());
        }
        lemma_slot_for(hops.skip(1), id, n - 1);
    }
}

pub proof fn lemma_slot_for_holds(hops: Seq<HopView>, id: HopId)
    ensures
        0 <= slot_for(hops, id) <= hops.len(),
        slot_for(hops, id) < hops.len() ==> hops[slot_for(hops, id)].id.place() > id.place(),
        forall|j: int| 0 <= j < slot_for(hops, id) ==> (#[trigger] hops[j]).id.place() <= id.place(),
    decreases hops.len(),
{
    if hops.len() > 0 && hops[0].id.place() <= id.place() {
        lemma_slot_for_holds(hops.skip(1), id);
        assert forall|j: int| 0 <= j < slot_for(hops, id) implies (#[trigger] hops[j]).id.place()
            <= id.place() by {
            if j > 0 {
                assert(hops.skip(1)[j - 1].id.place() <= id.place());
            }
        }
    }
}

/// The path with a hop reported: in place of the hop with the same identity,
/// or inserted before the first hop that stands later in the chain.
pub open spec fn upserted(hops: Seq<HopView>, hop: HopView) -> Seq<HopView> {
    let i = index_of_id(hops, hop.id);
    if i < hops.len() {
        hops.update(i, hop)
    } else {
        hops.insert(slot_for(hops, hop.id), hop)
    }
}

impl Path {
    fn index(&self, id: HopId) -> (r: usize)
        ensures
            r == index_of_id(self@, id),
            r <= self.hops@.len(),
            r < self.hops@.len() ==> self.hops@[r as int].id == id,
    {
        let mut i: usize = 0;
        while i < self.hops.len() && self.hops[i].id != id
            invariant
                i <= self.hops@.len(),
                forall|j: int| 0 <= j < i ==> self@[j].id != id,
            decreases self.hops@.len() - i,
        {
            assert(self@[i as int] == self.hops@[i as int]@);
            i += 1;
        }
        proof {
            if i < self.hops@.len() {
                assert(self@[i as int] == self.hops@[i as int]@);
            }
            lemma_index_of_id(self@, id, i as int);
        }
        i
    }

    /// The first hop with this identity, if there is one.
    pub fn get(&self, id: HopId) -> (r: Option<&Hop>)
        ensures
            match r {
                Some(h) => lookup(self@, id) == Some(h@),
                None => lookup(self@, id) is None,
            },
    {
        let i = self.index(id);
        if i < self.hops.len() {
            assert(self@[i as int] == self.hops@[i as int]@);
            Some(&self.hops[i])
        } else {
            None
        }
    }

    /// The first hop with this identity, to be changed in place.
    pub fn get_mut(&mut self, id: HopId) -> (r: Option<&mut Hop>)
        ensures
            match r {
                Some(h) => {
                    let i = index_of_id(old(self)@, id);
                    &&& 0 <= i < old(self)@.len()
                    &&& h@ == old(self)@[i]
                    &&& final(self)@ == old(self)@.update(i, final(h)@)
                },
                None => lookup(old(self)@, id) is None && final(self)@ == old(self)@,
            },
    {
        let i = self.index(id);
        if i < self.hops.len() {
            let ghost before = self.hops@;
            assert(self@[i as int] == self.hops@[i as int]@);
            let h = &mut self.hops[i];
            proof {
                assert(hops_view(before.update(i as int, *final(h))) =~= hops_view(before).update(
                    i as int,
                    final(h)@,
                ));
            }
            Some(h)
        } else {
            None
        }
    }

    /// Replace the hop with the same id, or insert it in chain order.
    ///
    /// Conditional hops (e.g. the VPN tunnel) aren't in the seed skeleton, so
    /// they land here for the first time and must slot into the right place —
    /// ordered by [`HopId`] position — rather than being dropped or appended.
    pub fn upsert(&mut self, hop: Hop)
        ensures
            final(self)@ == upserted(old(self)@, hop@),
    {
        let i = self.index(hop.id);
        let ghost before = self.hops@;
        if i < self.hops.len() {
            self.hops[i] = hop;
            assert(hops_view(before.update(i as int, hop)) =~= hops_view(before).update(
                i as int,
                hop@,
            ));
            return;
        }
        let mut pos: usize = 0;
        while pos < self.hops.len() && self.hops[pos].id.position() <= hop.id.position()
            invariant
                pos <= self.hops@.len(),
                forall|j: int| 0 <= j < pos ==> (#[trigger] self@[j]).id.place() <= hop.id.place(),
            decreases self.hops@.len() - pos,
        {
            assert(self@[pos as int] == self.hops@[pos as int]@);
            pos += 1;
        }
        proof {
            if pos < self.hops@.len() {
                assert(self@[pos as int] == self.hops@[pos as int]@);
            }
            lemma_slot_for(self@, hop.id, pos as int);
            assert(hops_view(before.insert(pos as int, hop)) =~= hops_view(before).insert(
                pos as int,
                hop@,
            ));
        }
        self.hops.insert(pos, hop);
    }

    /// The first hop in chain order that has this status.
    pub fn first_with(&self, st: Status) -> (r: Option<&Hop>)
        ensures
            match r {
                Some(h) => earliest(self@, st) == Some(h@),
                None => earliest(self@, st) is None,
            },
    {
        let mut best: usize = self.hops.len();
        let mut i: usize = 0;
        let n: usize = self.hops.len();
        while i < n
            invariant
                i <= n,
                n == self.hops@.len(),
                best <= n,
                best < n ==> best < i && self@[best as int].status == st && forall|j: int|
                    0 <= j < i && (#[trigger] self@[j]).status == st ==> self@[best as int].id.place()
                        < self@[j].id.place() || (self@[best as int].id.place()
                        == self@[j].id.place() && best <= j),
                best == n ==> forall|j: int| 0 <= j < i ==> (#[trigger] self@[j]).status != st,
            decreases n - i,
        {
            assert(self@[i as int] == self.hops@[i as int]@);
            if best < n {
                assert(self@[best as int] == self.hops@[best as int]@);
            }
            if self.hops[i].status == st && (best == n || self.hops[i].id.position()
                < self.hops[best].id.position()) {
                best = i;
            }
            i += 1;
        }
        if best < n {
            proof {
                assert(self@[best as int] == self.hops@[best as int]@);
                assert(is_earliest(self@, st, best as int));
                lemma_earliest(self@, st, best as int);
            }
            Some(&self.hops[best])
        } else {
            proof {
                lemma_earliest_exists(self@, st);
            }
            None
        }
    }

    /// The first hop (closest to the host) that is broken, if any.
    /// This is "where the connection died".
    ///
    /// Ordered by [`HopId`] position in the chain rather than vec order, so the
    /// result is stable even if probes ever land out of order — matching how
    /// the diagnosis engine selects the worst warning.
    pub fn first_break(&self) -> (r: Option<&Hop>)
        ensures
            match r {
                Some(h) => earliest(self@, Status::Fail) == Some(h@),
                None => earliest(self@, Status::Fail) is None,
            },
    {
        self.first_with(Status::Fail)
    }

    /// True once every hop has a terminal status.
    pub fn is_complete(&self) -> (r: bool)
        ensures
            r == settled(self@),
    {
        let mut i: usize = 0;
        while i < self.hops.len()
            invariant
                i <= self.hops@.len(),
                forall|j: int| 0 <= j < i ==> (#[trigger] self@[j]).status != Status::Pending,
            decreases self.hops@.len() - i,
        {
            assert(self@[i as int] == self.hops@[i as int]@);
            if !self.hops[i].status.is_terminal() {
                return false;
            }
            i += 1;
        }
        true
    }
}

// ---- laws ----

/// Reading back what was reported: the hop is there as reported, and every
/// hop with another identity is as it was.
pub proof fn upsert_then_get(hops: Seq<HopView>, hop: HopView, other: HopId)
    ensures
        lookup(upserted(hops, hop), hop.id) == Some(hop),
        other != hop.id ==> lookup(upserted(hops, hop), other) == lookup(hops, other),
{
    let out = upserted(hops, hop);
    let i = index_of_id(hops, hop.id);
    lemma_index_of_id_holds(hops, hop.id);
    lemma_index_of_id_holds(hops, other);
    lemma_slot_for_holds(hops, hop.id);
    let k = index_of_id(hops, other);
    if i < hops.len() {
        assert forall|j: int| 0 <= j < i implies out[j].id != hop.id by {
            assert(hops[j].id != hop.id);
        }
        lemma_index_of_id(out, hop.id, i);
        if other != hop.id {
            assert forall|j: int| 0 <= j < k implies out[j].id != other by {
                assert(hops[j].id != other);
            }
            lemma_index_of_id(out, other, k);
        }
    } else {
        let s = slot_for(hops, hop.id);
        assert forall|j: int| 0 <= j < s implies out[j].id != hop.id by {
            assert(hops[j].id != hop.id);
        }
        lemma_index_of_id(out, hop.id, s);
        if other != hop.id {
            let n = if k < s {
                k
            } else {
                k + 1
            };
            assert forall|j: int| 0 <= j < n implies out[j].id != other by {
                if j < s {
                    assert(hops[j].id != other);
                } else if j > s {
                    assert(hops[j - 1].id != other);
                }
            }
            lemma_index_of_id(out, other, n);
        }
    }
}

/// A path in chain order stays in chain order whatever is reported.
pub proof fn upsert_keeps_chain_order(hops: Seq<HopView>, hop: HopView)
    requires
        in_chain_order(hops),
    ensures
        in_chain_order(upserted(hops, hop)),
{
    let out = upserted(hops, hop);
    lemma_index_of_id_holds(hops, hop.id);
    lemma_slot_for_holds(hops, hop.id);
    let i = index_of_id(hops, hop.id);
    let s = slot_for(hops, hop.id);
    assert forall|a: int, b: int| 0 <= a < b < out.len() implies (#[trigger] out[a]).id.place() < (
    #[trigger] out[b]).id.place() by {
        if i < hops.len() {
            assert(hops[a].id.place() < hops[b].id.place());
        } else {
            let a0 = if a < s {
                a
            } else {
                a - 1
            };
            let b0 = if b < s {
                b
            } else {
                b - 1
            };
            if a == s {
                assert(b0 >= s);
                if b0 > s {
                    assert(hops[s].id.place() < hops[b0].id.place());
                }
            } else if b == s {
                assert(hops[a].id.place() <= hop.id.place());
                assert(hops[a].id != hop.id);
                chain_places_are_distinct(hops[a].id, hop.id);
            } else {
                assert(hops[a0].id.place() < hops[b0].id.place());
            }
        }
    }
}

/// Reporting a hop changes the number of hops by at most one, and not at all
/// when its identity was already there.
pub proof fn upsert_grows_by_at_most_one(hops: Seq<HopView>, hop: HopView)
    ensures
        lookup(hops, hop.id) is Some ==> upserted(hops, hop).len() == hops.len(),
        lookup(hops, hop.id) is None ==> upserted(hops, hop).len() == hops.len() + 1,
{
    lemma_index_of_id_holds(hops, hop.id);
    lemma_slot_for_holds(hops, hop.id);
}

/// A path in chain order holds no hop twice.
pub proof fn chain_order_keeps_hops_distinct(hops: Seq<HopView>)
    requires
        in_chain_order(hops),
    ensures
        distinct(hops),
{
}

/// A report makes no hop stand twice, whatever the order of the list.
pub proof fn upsert_keeps_hops_distinct(hops: Seq<HopView>, hop: HopView)
    requires
        distinct(hops),
    ensures
        distinct(upserted(hops, hop)),
{
    lemma_index_of_id_holds(hops, hop.id);
    lemma_slot_for_holds(hops, hop.id);
}

/// The first break is the broken hop closest to the host, whatever the order
/// of the list; there is one exactly when some hop is broken.
pub proof fn first_break_is_closest_to_the_host(hops: Seq<HopView>, i: int)
    requires
        0 <= i < hops.len(),
        hops[i].status == Status::Fail,
    ensures
        earliest(hops, Status::Fail) matches Some(h) && h.status == Status::Fail && h.id.place()
            <= hops[i].id.place(),
{
    lemma_earliest_exists(hops, Status::Fail);
    let k = choose|k: int| is_earliest(hops, Status::Fail, k);
    assert(is_earliest(hops, Status::Fail, k));
    assert(hops[i].status == Status::Fail);
}

} // verus!
