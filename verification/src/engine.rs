//! Orchestration: fan probes out concurrently and stream graded hops back.
//!
//! The engine seeds a canonical path skeleton, then has every probe run in
//! parallel. Each finished hop is handed on the moment it lands, so the live
//! dashboard fills in out of order as results arrive, and the one-shot mode
//! simply collects them all. What is started, what is sent and when is decided
//! here; running the probes is up to the caller.

use crate::addr::IpAddr;
use crate::diagnose;
use crate::model::path;
use crate::model::{Fault, Hop, HopId, Layer, Path, Status};
use crate::platform;
use crate::platform::{AddrInfo, Platform, PlatformError, RouteInfo};
use crate::probe::net::Quality;
use crate::probe::{captive, dns, gateway, host, link, uplink, vpn, wan};
use crate::text;
use vstd::prelude::*;

verus! {

broadcast use vstd::string::group_string_axioms;

/// The canonical hop order of the connectivity chain, host → internet.
pub const CHAIN: [HopId; 6] = [
    HopId::Host,
    HopId::Link,
    HopId::Gateway,
    HopId::Wan,
    HopId::Dns,
    HopId::Captive,
];

/// Ceiling on any one probe, in seconds.
///
/// Every probe sizes its own sampling to finish well inside this; the deadline
/// is the backstop for the tool underneath wedging (`system_profiler` has, and
/// a resolver pointed at a black hole will). Without it one stuck probe holds
/// the scan open, which stalls the one-shot report and costs the live
/// dashboard its re-probe cadence — during exactly the outage it is meant to
/// be showing you.
pub const PROBE_DEADLINE: u64 = 8;

/// Ceiling on a whole sweep, in seconds.
///
/// Each probe is bounded individually, so this only catches a task that never
/// reports at all, which would otherwise hang the CLI forever.
pub const SWEEP_DEADLINE: u64 = 20;

// ---- the skeleton ----

/// The `You` hop before anything said what address this machine holds.
pub open spec fn host_seed() -> path::HopView {
    path::HopView {
        subtitle: Some("this Mac"@),
        ..path::blank(HopId::Host, Layer::Link, "You"@)
    }
}

/// Every hop of the chain, pending.
pub open spec fn skeleton_view() -> Seq<path::HopView> {
    seq![
        host_seed(),
        path::blank(HopId::Link, Layer::Link, "Wi-Fi"@),
        path::blank(HopId::Gateway, Layer::Network, "Gateway"@),
        path::blank(HopId::Wan, Layer::Internet, "Internet"@),
        path::blank(HopId::Dns, Layer::Application, "DNS"@),
        path::blank(HopId::Captive, Layer::Application, "Portal"@),
    ]
}

/// The unmeasured `You` hop the skeleton starts from, before the host probe
/// has said what address this machine actually holds.
pub fn host_hop() -> (r: Hop)
    ensures
        r@ == host_seed(),
{
    let mut h = Hop::new(HopId::Host, Layer::Link, "You");
    h.subtitle = Some("this Mac".to_string());
    h
}

/// A freshly seeded path with every hop pending, in chain order.
pub fn skeleton() -> (r: Path)
    ensures
        r@ == skeleton_view(),
{
    let mut hops: Vec<Hop> = Vec::new();
    hops.push(host_hop());
    hops.push(Hop::new(HopId::Link, Layer::Link, "Wi-Fi"));
    hops.push(Hop::new(HopId::Gateway, Layer::Network, "Gateway"));
    hops.push(Hop::new(HopId::Wan, Layer::Internet, "Internet"));
    hops.push(Hop::new(HopId::Dns, Layer::Application, "DNS"));
    hops.push(Hop::new(HopId::Captive, Layer::Application, "Portal"));
    let r = Path { hops };
    assert(r@ =~= skeleton_view());
    r
}

/// A hop that could not be measured.
pub open spec fn gap(id: HopId, layer: Layer, title: Seq<char>, note: Seq<char>) -> path::HopView {
    path::blank(id, layer, title).reporting(Status::Warn, Some(Fault::Unobserved), note)
}

/// The hop a probe leaves behind when it overruns [`PROBE_DEADLINE`].
///
/// Graded `Warn`, never `Fail`: a probe that never answered observed nothing,
/// and "we couldn't measure this" must not be dressed up as "this is broken".
pub fn unmeasured(id: HopId, layer: Layer, title: &str, note: &str) -> (r: Hop)
    ensures
        r@ == gap(id, layer, title@, note@),
{
    let mut hop = Hop::new(id, layer, title);
    hop.set_report(Status::Warn, Some(Fault::Unobserved), note);
    hop
}

// ---- opening a sweep ----

/// What looking up the default route came to.
#[derive(Debug)]
pub enum Lookup {
    /// There is no module for this OS, for this reason.
    Unsupported(String),
    /// The route was read.
    Found(RouteInfo),
    /// The platform has no route to give.
    Refused(PlatformError),
    /// The lookup never finished, for this reason.
    Unfinished(String),
}

/// How a sweep goes on from there.
#[derive(Debug)]
pub enum Opening {
    /// Nothing can be measured: these hops are all there is.
    Stalled(Vec<Hop>),
    /// Only the host can be measured; these hops follow it.
    HostOnly(Vec<Hop>),
    /// Every probe runs over this route.
    Probe(RouteInfo),
}

/// How a sweep goes on, by what its hops say.
pub enum OpeningView {
    Stalled(Seq<path::HopView>),
    HostOnly(Seq<path::HopView>),
    Probe(platform::RouteView),
}

impl View for Opening {
    type V = OpeningView;

    open spec fn view(&self) -> OpeningView {
        match self {
            Opening::Stalled(h) => OpeningView::Stalled(path::hops_view(h@)),
            Opening::HostOnly(h) => OpeningView::HostOnly(path::hops_view(h@)),
            Opening::Probe(route) => OpeningView::Probe(route@),
        }
    }
}

/// A path that stops at the link: everything downstream is skipped because
/// there is nothing left to measure it over.
pub open spec fn stalled(status: Status, fault: Fault, summary: Seq<char>) -> Seq<path::HopView> {
    let skipped = |h: path::HopView| path::HopView { status: Status::Skipped, ..h };
    seq![
        skeleton_view()[1].reporting(status, Some(fault), summary),
        skipped(skeleton_view()[2]),
        skipped(skeleton_view()[3]),
        skipped(skeleton_view()[4]),
        skipped(skeleton_view()[5]),
    ]
}

/// The host hop when nothing is to be measured.
pub open spec fn host_skipped() -> path::HopView {
    path::HopView { status: Status::Skipped, fault: Some(Fault::Unobserved), ..host_seed() }
}

/// Nothing was observed, for this reason.
pub open spec fn blind(reason: Seq<char>) -> Seq<path::HopView> {
    seq![host_skipped()] + stalled(Status::Skipped, Fault::Unobserved, reason)
}

/// How a sweep goes on from a lookup.
pub open spec fn opening_of(lookup: Lookup) -> OpeningView {
    match lookup {
        Lookup::Unsupported(reason) => OpeningView::Stalled(blind(reason@)),
        Lookup::Found(route) => OpeningView::Probe(route@),
        Lookup::Refused(PlatformError::NoNetwork) => OpeningView::HostOnly(
            stalled(
                Status::Fail,
                Fault::NoRoute,
                "No default route — the link is up but nothing routes off this machine"@,
            ),
        ),
        Lookup::Refused(e) => OpeningView::Stalled(
            blind("Couldn't read the routing table — "@ + e@.words()),
        ),
        Lookup::Unfinished(reason) => OpeningView::Stalled(
            blind("The route lookup didn't finish — "@ + reason@),
        ),
    }
}

/// Appends a path that stops at the link: the Link hop carries `status`,
/// `fault` and `summary`, and everything downstream is skipped.
///
/// The three arguments travel together so a stalled sweep can never ship a
/// status without the code and the prose that explain it.
fn push_stalled(out: &mut Vec<Hop>, status: Status, fault: Fault, summary: &str)
    ensures
        path::hops_view(final(out)@) == path::hops_view(old(out)@) + stalled(
            status,
            fault,
            summary@,
        ),
{
    let ghost before = out@;
    let mut link = Hop::new(HopId::Link, Layer::Link, "Wi-Fi");
    link.set_report(status, Some(fault), summary);
    let mut gateway = Hop::new(HopId::Gateway, Layer::Network, "Gateway");
    gateway.status = Status::Skipped;
    let mut wan = Hop::new(HopId::Wan, Layer::Internet, "Internet");
    wan.status = Status::Skipped;
    let mut dns = Hop::new(HopId::Dns, Layer::Application, "DNS");
    dns.status = Status::Skipped;
    let mut captive = Hop::new(HopId::Captive, Layer::Application, "Portal");
    captive.status = Status::Skipped;
    out.push(link);
    out.push(gateway);
    out.push(wan);
    out.push(dns);
    out.push(captive);
    assert(path::hops_view(out@) =~= path::hops_view(before) + stalled(status, fault, summary@));
}

fn blind_hops(reason: &str) -> (r: Vec<Hop>)
    ensures
        path::hops_view(r@) == blind(reason@),
{
    let mut host = host_hop();
    host.status = Status::Skipped;
    host.fault = Some(Fault::Unobserved);
    let mut out: Vec<Hop> = Vec::new();
    out.push(host);
    assert(path::hops_view(out@) =~= seq![host_skipped()]);
    push_stalled(&mut out, Status::Skipped, Fault::Unobserved, reason);
    out
}

/// Decide how a sweep goes on from its route lookup.
pub fn open_sweep(lookup: Lookup) -> (r: Opening)
    ensures
        r@ == opening_of(lookup),
{
    match lookup {
        // Nothing can be measured without a platform module, and an unmeasured
        // hop is unknown rather than broken. Probing anyway would grade every
        // refusal as a network fault.
        Lookup::Unsupported(reason) => Opening::Stalled(blind_hops(reason.as_str())),
        Lookup::Found(route) => Opening::Probe(route),
        // The routing table was read and had no default route: nothing
        // downstream can be measured. Record it as *no route*, not as "not
        // associated" — you can be perfectly associated to an AP and still
        // have no lease, and the two faults have different fixes. The host is
        // still measured: "no route" and "no lease" look identical from the
        // routing table, and the host hop is the only place that can tell them
        // apart.
        Lookup::Refused(PlatformError::NoNetwork) => {
            let mut out: Vec<Hop> = Vec::new();
            assert(path::hops_view(out@) =~= Seq::<path::HopView>::empty());
            push_stalled(
                &mut out,
                Status::Fail,
                Fault::NoRoute,
                "No default route — the link is up but nothing routes off this machine",
            );
            Opening::HostOnly(out)
        },
        // The routing table could not be read at all, so the network was
        // never observed. Grading that as an outage would report a working
        // connection as broken on the strength of our own blindness.
        Lookup::Refused(e) => Opening::Stalled(
            blind_hops(
                text::cat2("Couldn't read the routing table — ", e.message().as_str()).as_str(),
            ),
        ),
        Lookup::Unfinished(reason) => Opening::Stalled(
            blind_hops(
                text::cat2("The route lookup didn't finish — ", reason.as_str()).as_str(),
            ),
        ),
    }
}

// ---- the host ----

/// The hop when there is no interface to inspect.
pub open spec fn host_unplaced() -> path::HopView {
    host_seed().reporting(
        Status::Warn,
        Some(Fault::Unobserved),
        "Couldn't tell which interface to inspect"@,
    )
}

/// The hop is what some reading of the addresses on this interface came to.
pub open spec fn host_read<P: Platform>(
    platform: &P,
    interface: Seq<char>,
    gateway: Option<IpAddr>,
    hop: path::HopView,
) -> bool {
    exists|name: &str, res: Result<AddrInfo, PlatformError>|
        name@ == interface && #[trigger] call_ensures(P::addrs, (platform, name), res) && hop
            == host::host_hop(interface, res, gateway)
}

/// Measure local addressing, falling back to the primary interface when there
/// is no default route to name one. That fallback is the point: a link that
/// came up and never got a lease has no route *because* of the fault, and it
/// is the state most worth reporting.
pub fn probe_host<P: Platform>(platform: &P, iface: Option<String>, gateway: Option<IpAddr>) -> (r: Hop)
    ensures
        match iface {
            Some(i) => host_read(platform, i@, gateway, r@),
            None => exists|primary: Result<String, PlatformError>|
                #[trigger] call_ensures(P::primary_interface, (platform,), primary)
                    && match primary {
                    Ok(i) => host_read(platform, i@, gateway, r@),
                    Err(_) => r@ == host_unplaced(),
                },
        },
{
    let named = match iface {
        Some(i) => Some(i),
        None => match platform.primary_interface() {
            Ok(i) => Some(i),
            Err(_) => None,
        },
    };
    match named {
        Some(i) => host::probe(platform, i.as_str(), gateway),
        None => {
            let mut hop = host_hop();
            hop.set_report(
                Status::Warn,
                Some(Fault::Unobserved),
                "Couldn't tell which interface to inspect",
            );
            hop
        },
    }
}

// ---- the fan-out ----

/// One probe of a sweep.
#[derive(Debug, Clone, Copy, PartialEq, Eq, Structural)]
pub enum Task {
    Host,
    Link,
    Gateway,
    Wan,
    Uplink,
    Dns,
    Vpn,
    Captive,
}

/// What a probe leaves behind when it does not finish.
pub open spec fn fallback_of(task: Task) -> path::HopView {
    match task {
        Task::Host => gap(
            HopId::Host,
            Layer::Link,
            "You"@,
            "Couldn't read this machine's addresses"@,
        ),
        Task::Link => gap(
            HopId::Link,
            Layer::Link,
            "Wi-Fi"@,
            "Link telemetry timed out — the Wi-Fi state is unknown, not bad"@,
        ),
        Task::Gateway => gap(
            HopId::Gateway,
            Layer::Network,
            "Gateway"@,
            "The gateway probe didn't finish — the router's state is unknown"@,
        ),
        Task::Wan => gap(
            HopId::Wan,
            Layer::Internet,
            "Internet"@,
            "The internet probe didn't finish — reachability is unknown"@,
        ),
        Task::Uplink => gap(
            HopId::Uplink,
            Layer::Internet,
            "Uplink"@,
            "Couldn't trace the path past your router"@,
        ),
        Task::Dns => gap(
            HopId::Dns,
            Layer::Application,
            "DNS"@,
            "The DNS probe didn't finish — resolution is unknown"@,
        ),
        Task::Vpn => gap(
            HopId::Vpn,
            Layer::Network,
            "VPN"@,
            "VPN telemetry timed out — the tunnel's state is unknown"@,
        ),
        Task::Captive => gap(
            HopId::Captive,
            Layer::Application,
            "Portal"@,
            "The portal probe didn't finish — interception is unknown"@,
        ),
    }
}

/// What a probe leaves behind when it does not finish, so the hop always
/// reaches a terminal state — otherwise the dashboard waits forever on a hop
/// that is never coming.
pub fn fallback(task: Task) -> (r: Hop)
    ensures
        r@ == fallback_of(task),
{
    match task {
        Task::Host => unmeasured(
            HopId::Host,
            Layer::Link,
            "You",
            "Couldn't read this machine's addresses",
        ),
        Task::Link => unmeasured(
            HopId::Link,
            Layer::Link,
            "Wi-Fi",
            "Link telemetry timed out — the Wi-Fi state is unknown, not bad",
        ),
        Task::Gateway => unmeasured(
            HopId::Gateway,
            Layer::Network,
            "Gateway",
            "The gateway probe didn't finish — the router's state is unknown",
        ),
        Task::Wan => unmeasured(
            HopId::Wan,
            Layer::Internet,
            "Internet",
            "The internet probe didn't finish — reachability is unknown",
        ),
        Task::Uplink => unmeasured(
            HopId::Uplink,
            Layer::Internet,
            "Uplink",
            "Couldn't trace the path past your router",
        ),
        Task::Dns => unmeasured(
            HopId::Dns,
            Layer::Application,
            "DNS",
            "The DNS probe didn't finish — resolution is unknown",
        ),
        Task::Vpn => unmeasured(
            HopId::Vpn,
            Layer::Network,
            "VPN",
            "VPN telemetry timed out — the tunnel's state is unknown",
        ),
        Task::Captive => unmeasured(
            HopId::Captive,
            Layer::Application,
            "Portal",
            "The portal probe didn't finish — interception is unknown",
        ),
    }
}

/// The probes to start over a route. The tunnel is only a hop when one is
/// active, and the uplink sweep waits for what the WAN probe finds.
pub open spec fn tasks_over(route: platform::RouteView) -> Seq<Task> {
    seq![Task::Host, Task::Link, Task::Gateway, Task::Wan, Task::Dns] + (if route.tunnel_active {
        seq![Task::Vpn]
    } else {
        seq![]
    }) + seq![Task::Captive]
}

/// The probes to start over a route.
pub fn tasks(route: &RouteInfo) -> (r: Vec<Task>)
    ensures
        r@ == tasks_over(route@),
{
    let mut out: Vec<Task> = Vec::new();
    out.push(Task::Host);
    out.push(Task::Link);
    out.push(Task::Gateway);
    out.push(Task::Wan);
    out.push(Task::Dns);
    if route.tunnel_active {
        out.push(Task::Vpn);
    }
    out.push(Task::Captive);
    assert(out@ =~= tasks_over(route@));
    out
}

/// The hops known before any probe reports.
pub open spec fn seeds_over(route: platform::RouteView) -> Seq<path::HopView> {
    let vpn = path::blank(HopId::Vpn, Layer::Network, "VPN"@);
    (if route.tunnel_unreadable {
        seq![
            vpn.reporting(
                Status::Warn,
                Some(Fault::Unobserved),
                "Couldn't tell whether a VPN is active — the tunnel lookup failed"@,
            ),
        ]
    } else {
        seq![]
    }) + (if route.tunnel_active {
        seq![path::HopView { subtitle: route.tunnel_iface, ..vpn }]
    } else {
        seq![]
    })
}

/// The hops known before any probe reports.
///
/// An active tunnel is seeded as pending, so a finished base chain can't run
/// the diagnosis (and briefly mis-blame the ISP for a full-tunnel outage)
/// before the VPN result lands. When the tunnel lookup failed, we cannot say
/// whether a VPN is carrying this traffic; the hop is there anyway, marked
/// unobserved: a silently absent VPN hop reads as "no VPN", which is what lets
/// a dead full-tunnel outage get reported as the ISP's fault.
pub fn seeds(route: &RouteInfo) -> (r: Vec<Hop>)
    ensures
        path::hops_view(r@) == seeds_over(route@),
{
    let mut out: Vec<Hop> = Vec::new();
    if route.tunnel_unreadable {
        let mut hop = Hop::new(HopId::Vpn, Layer::Network, "VPN");
        hop.set_report(
            Status::Warn,
            Some(Fault::Unobserved),
            "Couldn't tell whether a VPN is active — the tunnel lookup failed",
        );
        out.push(hop);
    }
    if route.tunnel_active {
        let mut pending = Hop::new(HopId::Vpn, Layer::Network, "VPN");
        pending.subtitle = path::copy_text(&route.tunnel_iface);
        out.push(pending);
    }
    assert(path::hops_view(out@) =~= seeds_over(route@));
    out
}

/// The WAN result leaves open where past the router the path stops.
pub open spec fn wants_sweep(wan: path::HopView) -> bool {
    wan.status == Status::Fail || wan.fault == Some(Fault::HandshakeOnly)
}

/// Whether the WAN result is worth spending a TTL sweep on.
///
/// The sweep costs seconds, so it is not part of every run. It earns them only
/// when the question it answers — *where* past your router does this stop? —
/// is actually open: when nothing is reachable, or when the path answers
/// handshakes without carrying traffic. A merely slow or lossy uplink is
/// already described by the WAN probe, which measures quality properly; a
/// one-probe-per-hop sweep would add nothing.
pub fn needs_uplink_sweep(wan: &Hop) -> (r: bool)
    ensures
        r == wants_sweep(wan@),
{
    let hollow = match wan.fault {
        Some(f) => f == Fault::HandshakeOnly,
        None => false,
    };
    wan.status == Status::Fail || hollow
}

/// What a finished probe leads to: hops to hand on, in this order, and whether
/// the uplink sweep starts.
#[derive(Debug)]
pub struct Finished {
    pub send: Vec<Hop>,
    pub sweep: bool,
}

/// What a probe that finished, or did not, hands on.
pub open spec fn handed_on(task: Task, hop: Option<path::HopView>) -> Seq<path::HopView> {
    let landed = match hop {
        Some(h) => h,
        None => fallback_of(task),
    };
    if task == Task::Wan && wants_sweep(landed) {
        seq![path::blank(HopId::Uplink, Layer::Internet, "Uplink"@), landed]
    } else {
        seq![landed]
    }
}

/// An optional hop by what it says.
pub open spec fn hop_view(o: Option<Hop>) -> Option<path::HopView> {
    match o {
        Some(h) => Some(h@),
        None => None,
    }
}

/// Decide what follows a probe that finished with a hop, or — past
/// [`PROBE_DEADLINE`], or crashed — without one.
///
/// When the WAN result calls for the uplink sweep, its pending hop goes out
/// *before* the WAN result does. The dashboard renders a verdict as soon as
/// every hop is terminal, so handing on the WAN failure first would flash "your
/// ISP is down" and only then narrow it down.
pub fn finished(task: Task, hop: Option<Hop>) -> (r: Finished)
    ensures
        path::hops_view(r.send@) == handed_on(task, hop_view(hop)),
        r.sweep == (handed_on(task, hop_view(hop)).len() > 1),
{
    let landed = match hop {
        Some(h) => h,
        None => fallback(task),
    };
    let sweep = task == Task::Wan && needs_uplink_sweep(&landed);
    let mut send: Vec<Hop> = Vec::new();
    if sweep {
        send.push(Hop::new(HopId::Uplink, Layer::Internet, "Uplink"));
    }
    send.push(landed);
    assert(path::hops_view(send@) =~= handed_on(task, hop_view(hop)));
    Finished { send, sweep }
}

// ---- closing a sweep ----

/// A hop that has settled: one still pending when the sweep ends was not
/// measured.
pub open spec fn settled_hop(h: path::HopView) -> path::HopView {
    if h.status == Status::Pending {
        h.reporting(
            Status::Warn,
            Some(Fault::Unobserved),
            "The sweep ended before this hop reported"@,
        )
    } else {
        h
    }
}

/// Every hop settled.
pub open spec fn all_settled(hops: Seq<path::HopView>) -> Seq<path::HopView> {
    hops.map_values(|h: path::HopView| settled_hop(h))
}

/// The path after these hops were reported, in order.
pub open spec fn reported(hops: Seq<path::HopView>, landed: Seq<path::HopView>) -> Seq<path::HopView>
    decreases landed.len(),
{
    if landed.len() == 0 {
        hops
    } else {
        path::upserted(reported(hops, landed.drop_last()), landed.last())
    }
}

/// Report hops that never landed as unmeasured rather than leaving them
/// pending, so a truncated sweep can't render as "Scanning your connection…" in
/// a report that has already stopped scanning.
pub fn settle(path: &mut Path)
    ensures
        final(path)@ == all_settled(old(path)@),
{
    let ghost start = path@;
    let n: usize = path.hops.len();
    let mut i: usize = 0;
    assert(all_settled(start).take(0) + start.skip(0) =~= start);
    while i < n
        invariant
            i <= n,
            n == path.hops@.len(),
            n == start.len(),
            path@ == all_settled(start).take(i as int) + start.skip(i as int),
        decreases n - i,
    {
        let ghost before = path@;
        assert(before[i as int] == path.hops@[i as int]@);
        assert(before[i as int] == start[i as int]);
        if path.hops[i].status == Status::Pending {
            let ghost held = path.hops@;
            let h = &mut path.hops[i];
            h.set_report(
                Status::Warn,
                Some(Fault::Unobserved),
                "The sweep ended before this hop reported",
            );
            assert(path.hops@ =~= held.update(i as int, path.hops@[i as int]));
        }
        assert(path@[i as int] == settled_hop(start[i as int]));
        assert forall|j: int| 0 <= j < n && j != i implies path@[j] == before[j] by {}
        let ghost next = all_settled(start).take(i + 1) + start.skip(i + 1);
        assert forall|j: int| 0 <= j < n implies path@[j] == next[j] by {
            if j < i {
                assert(before[j] == all_settled(start)[j]);
            } else if j > i {
                assert(before[j] == start[j]);
            }
        }
        assert(path@ =~= next);
        i += 1;
    }
    assert(path@ =~= all_settled(start));
}

/// The path of a one-shot sweep, from the hops that landed before it ended.
pub fn complete(landed: Vec<Hop>) -> (r: Path)
    ensures
        r@ == all_settled(reported(skeleton_view(), path::hops_view(landed@))),
{
    let mut path = skeleton();
    let ghost all = path::hops_view(landed@);
    let mut rest = landed;
    let mut queue: Vec<Hop> = Vec::new();
    let ghost total = rest@.len();
    // Taken from the back onto a queue, and from there in order.
    while rest.len() > 0
        invariant
            all == path::hops_view(landed@),
            total == landed@.len(),
            rest@ == landed@.take(rest@.len() as int),
            queue@ == landed@.skip(rest@.len() as int).reverse(),
            rest@.len() <= total,
        decreases rest@.len(),
    {
        let ghost k = rest@.len() as int;
        if let Some(h) = rest.pop() {
            queue.push(h);
        }
        assert(rest@ =~= landed@.take(k - 1));
        assert(landed@.skip(k - 1).reverse() =~= landed@.skip(k).reverse().push(landed@[k - 1]));
    }
    assert(landed@.skip(0) =~= landed@);
    let ghost mut done: int = 0;
    assert(all.take(0) =~= Seq::<path::HopView>::empty());
    while queue.len() > 0
        invariant
            all == path::hops_view(landed@),
            0 <= done <= landed@.len(),
            queue@ == landed@.skip(done).reverse(),
            path@ == reported(skeleton_view(), all.take(done)),
        decreases queue@.len(),
    {
        assert(queue@.last() == landed@[done]);
        if let Some(h) = queue.pop() {
            path.upsert(h);
            assert(all.take(done + 1).drop_last() =~= all.take(done));
            assert(all.take(done + 1).last() == h@);
        }
        assert(landed@.skip(done + 1).reverse() =~= landed@.skip(done).reverse().drop_last());
        proof {
            done = done + 1;
        }
    }
    assert(all.take(done) =~= all);
    settle(&mut path);
    path
}

// ---- laws ----

/// The skeleton holds exactly the hops of the chain, in its order, all of them
/// pending.
pub proof fn the_skeleton_is_the_chain()
    ensures
        skeleton_view().len() == CHAIN@.len(),
        forall|i: int|
            0 <= i < CHAIN@.len() ==> (#[trigger] skeleton_view()[i]).id == CHAIN@[i]
                && skeleton_view()[i].status == Status::Pending,
        path::in_chain_order(skeleton_view()),
{
}

/// Whatever lands, in whatever order, the path stays in chain order.
pub proof fn reports_keep_chain_order(hops: Seq<path::HopView>, landed: Seq<path::HopView>)
    requires
        path::in_chain_order(hops),
    ensures
        path::in_chain_order(reported(hops, landed)),
    decreases landed.len(),
{
    if landed.len() > 0 {
        reports_keep_chain_order(hops, landed.drop_last());
        path::upsert_keeps_chain_order(reported(hops, landed.drop_last()), landed.last());
    }
}

/// Whatever lands, no hop of the path is lost.
pub proof fn reports_lose_no_hop(hops: Seq<path::HopView>, landed: Seq<path::HopView>, id: HopId)
    requires
        path::lookup(hops, id) is Some,
    ensures
        path::lookup(reported(hops, landed), id) is Some,
    decreases landed.len(),
{
    if landed.len() > 0 {
        reports_lose_no_hop(hops, landed.drop_last(), id);
        path::upsert_then_get(reported(hops, landed.drop_last()), landed.last(), id);
    }
}

/// A one-shot sweep leaves no hop pending, whatever landed, and stays in chain
/// order.
pub proof fn a_one_shot_sweep_settles_every_hop(landed: Seq<path::HopView>)
    ensures
        path::settled(all_settled(reported(skeleton_view(), landed))),
        path::in_chain_order(all_settled(reported(skeleton_view(), landed))),
{
    the_skeleton_is_the_chain();
    reports_keep_chain_order(skeleton_view(), landed);
    let hops = reported(skeleton_view(), landed);
    let out = all_settled(hops);
    assert forall|i: int, j: int| 0 <= i < j < out.len() implies (#[trigger] out[i]).id.place() < (
    #[trigger] out[j]).id.place() by {
        assert(hops[i].id.place() < hops[j].id.place());
    }
}

/// Settling calls nothing broken that was not: what was not observed is a gap.
pub proof fn settling_breaks_nothing(hops: Seq<path::HopView>, i: int)
    requires
        0 <= i < hops.len(),
    ensures
        all_settled(hops)[i].status == Status::Fail <==> hops[i].status == Status::Fail,
        hops[i].status == Status::Pending ==> all_settled(hops)[i].fault == Some(Fault::Unobserved),
        hops[i].status != Status::Pending ==> all_settled(hops)[i] == hops[i],
{
}

/// A probe that does not finish leaves a settled hop behind that is a gap in
/// the evidence, never a break.
pub proof fn an_unfinished_probe_is_a_gap(task: Task)
    ensures
        fallback_of(task).status == Status::Warn,
        fallback_of(task).fault == Some(Fault::Unobserved),
        handed_on(task, None) == seq![fallback_of(task)],
{
}

/// When the uplink sweep starts, its pending hop goes out before the WAN
/// result, so no verdict is reached in between.
pub proof fn the_sweep_is_seeded_before_the_wan_result(wan: path::HopView)
    requires
        wants_sweep(wan),
    ensures
        handed_on(Task::Wan, Some(wan)).len() == 2,
        handed_on(Task::Wan, Some(wan))[0].id == HopId::Uplink,
        handed_on(Task::Wan, Some(wan))[0].status == Status::Pending,
        handed_on(Task::Wan, Some(wan))[1] == wan,
{
}

/// Every probe's worst case fits the deadline on a probe, and a WAN failure
/// with the uplink sweep that follows it fits the deadline on a sweep.
pub proof fn the_deadlines_compose()
    ensures
        PROBE_DEADLINE + PROBE_DEADLINE < SWEEP_DEADLINE,
        uplink::BUDGET_SECS < PROBE_DEADLINE,
        dns::SYSTEM_BENCH_BUDGET_SECS < PROBE_DEADLINE,
        wan::TRACE_BUDGET_MS + wan::SAMPLE_BUDGET_MS < PROBE_DEADLINE * 1000,
        wan::SAMPLE_WAIT_MS <= wan::TRACE_BUDGET_MS,
        gateway::BUDGET_SECS * 1000 + gateway::INTERVAL_MS * gateway::SAMPLES + 1000
            + gateway::TCP_WAIT_MS + (gateway::TCP_SAMPLES - 1) * (gateway::TCP_INTERVAL_MS
            + gateway::TCP_WAIT_MS) < PROBE_DEADLINE * 1000,
{
}

/// Where the network could not be looked at, nothing is called broken or
/// degraded: the verdict is that nothing was measured, for the reason given.
pub proof fn blindness_is_no_outage(reason: Seq<char>)
    ensures
        forall|i: int|
            0 <= i < blind(reason).len() ==> (#[trigger] blind(reason)[i]).status
                == Status::Skipped,
        diagnose::verdict_on(blind(reason)).status == Status::Skipped,
        diagnose::verdict_on(blind(reason)).cause == reason,
        path::in_chain_order(blind(reason)),
        blind(reason).len() == CHAIN@.len(),
{
    let hops = blind(reason);
    assert(hops.len() == 6);
    assert(hops[0] == host_skipped());
    assert forall|i: int| 1 <= i < 6 implies #[trigger] hops[i] == stalled(
        Status::Skipped,
        Fault::Unobserved,
        reason,
    )[i - 1] by {}
    path::lemma_index_of_id(hops, HopId::Host, 0);
    path::lemma_index_of_id(hops, HopId::Link, 1);
    assert(hops[1].summary == Some(reason));
    assert(diagnose::nothing_measured(hops));
}

/// A routing table without a default route is a break of the link, for that
/// reason; what lies past it is skipped, and the host is still to be measured.
/// A table that was read leads to every probe; anything else leads to none.
pub proof fn a_sweep_opens_as_the_route_allows(lookup: Lookup)
    ensures
        opening_of(lookup) is Probe <==> lookup is Found,
        opening_of(lookup) matches OpeningView::Probe(r) ==> (lookup matches Lookup::Found(route)
            && route@ == r),
        opening_of(lookup) is HostOnly <==> (lookup matches Lookup::Refused(
            PlatformError::NoNetwork,
        )),
        opening_of(lookup) matches OpeningView::HostOnly(hops) ==> {
            &&& hops.len() == 5
            &&& hops[0].id == HopId::Link
            &&& hops[0].status == Status::Fail
            &&& hops[0].fault == Some(Fault::NoRoute)
            &&& forall|i: int|
                1 <= i < hops.len() ==> (#[trigger] hops[i]).status == Status::Skipped
            &&& path::in_chain_order(hops)
        },
        opening_of(lookup) matches OpeningView::Stalled(hops) ==> forall|i: int|
            0 <= i < hops.len() ==> (#[trigger] hops[i]).status == Status::Skipped,
{
    match lookup {
        Lookup::Unsupported(reason) => blindness_is_no_outage(reason@),
        Lookup::Unfinished(reason) => blindness_is_no_outage(
            "The route lookup didn't finish — "@ + reason@,
        ),
        Lookup::Refused(PlatformError::NoNetwork) => {
            let hops = stalled(
                Status::Fail,
                Fault::NoRoute,
                "No default route — the link is up but nothing routes off this machine"@,
            );
            assert(hops[0].id == HopId::Link);
        },
        Lookup::Refused(e) => blindness_is_no_outage(
            "Couldn't read the routing table — "@ + e@.words(),
        ),
        Lookup::Found(_) => {},
    }
}

/// The hop that a probe reports on.
pub open spec fn hop_of(task: Task) -> HopId {
    match task {
        Task::Host => HopId::Host,
        Task::Link => HopId::Link,
        Task::Gateway => HopId::Gateway,
        Task::Wan => HopId::Wan,
        Task::Uplink => HopId::Uplink,
        Task::Dns => HopId::Dns,
        Task::Vpn => HopId::Vpn,
        Task::Captive => HopId::Captive,
    }
}

/// A probe that does not finish leaves its own hop behind, with a word on what
/// is unknown; and the WAN probe that does not finish starts no sweep.
pub proof fn an_unfinished_probe_leaves_its_own_hop(task: Task)
    ensures
        fallback_of(task).id == hop_of(task),
        fallback_of(task).summary is Some,
        handed_on(task, None).len() == 1,
{
}

/// Over a route every hop of the chain is probed, once; a tunnel exactly when
/// one is active; and the uplink not yet.
pub proof fn every_hop_of_the_chain_is_probed(route: platform::RouteView, task: Task)
    ensures
        CHAIN@.contains(hop_of(task)) ==> tasks_over(route).contains(task),
        tasks_over(route).contains(Task::Vpn) <==> route.tunnel_active,
        !tasks_over(route).contains(Task::Uplink),
        tasks_over(route).no_duplicates(),
{
    let all = tasks_over(route);
    let c = CHAIN@;
    assert(c[0] == HopId::Host && c[1] == HopId::Link && c[2] == HopId::Gateway && c[3]
        == HopId::Wan && c[4] == HopId::Dns && c[5] == HopId::Captive);
    assert(all[0] == Task::Host && all[1] == Task::Link && all[2] == Task::Gateway && all[3]
        == Task::Wan && all[4] == Task::Dns);
    assert(all.last() == Task::Captive);
    assert(all[all.len() - 1] == Task::Captive);
    if route.tunnel_active {
        assert(all[5] == Task::Vpn);
    }
}

/// What is known of a tunnel before any probe reports: nothing where there is
/// none to speak of; a pending hop where one is active, so that no verdict comes
/// before its own; and a gap where the lookup failed.
pub proof fn a_tunnel_is_seeded(route: platform::RouteView)
    ensures
        seeds_over(route).len() == (if route.tunnel_unreadable {
            1int
        } else {
            0
        }) + (if route.tunnel_active {
            1int
        } else {
            0
        }),
        forall|i: int| 0 <= i < seeds_over(route).len() ==> (#[trigger] seeds_over(route)[i]).id
            == HopId::Vpn,
        route.tunnel_active ==> seeds_over(route).last().status == Status::Pending && seeds_over(
            route,
        ).last().subtitle == route.tunnel_iface,
        route.tunnel_unreadable ==> seeds_over(route)[0].status == Status::Warn && seeds_over(
            route,
        )[0].fault == Some(Fault::Unobserved),
{
}

/// The uplink is swept exactly when the WAN probe found an outage, or handshakes
/// that carry nothing; no other probe leads to a sweep, and every finished
/// probe's own hop is handed on last.
pub proof fn the_uplink_is_swept_only_when_it_is_in_question(task: Task, hop: path::HopView)
    ensures
        handed_on(task, Some(hop)).len() == 2 <==> task == Task::Wan && (hop.status == Status::Fail
            || hop.fault == Some(Fault::HandshakeOnly)),
        handed_on(task, Some(hop)).len() == 1 <==> !(task == Task::Wan && (hop.status
            == Status::Fail || hop.fault == Some(Fault::HandshakeOnly))),
        handed_on(task, Some(hop)).last() == hop,
{
}

/// Of several reports on a hop the last counts, and a hop that none was on stays
/// as it was.
pub proof fn the_last_report_counts(
    hops: Seq<path::HopView>,
    landed: Seq<path::HopView>,
    next: path::HopView,
    other: HopId,
)
    ensures
        path::lookup(reported(hops, landed.push(next)), next.id) == Some(next),
        other != next.id ==> path::lookup(reported(hops, landed.push(next)), other)
            == path::lookup(reported(hops, landed), other),
        reported(hops, Seq::empty()) == hops,
{
    assert(landed.push(next).drop_last() =~= landed);
    path::upsert_then_get(reported(hops, landed), next, other);
}

/// One hop stands where another does: same place, same layer, same name.
pub open spec fn same_place(a: path::HopView, b: path::HopView) -> bool {
    a.id == b.id && a.layer == b.layer && a.title == b.title
}

/// What a probe reports stands where its hop was pending, and so does what it
/// leaves behind when it does not finish.
pub proof fn a_report_lands_where_its_hop_was_pending(
    route: platform::RouteView,
    interface: Seq<char>,
    addrs: Result<AddrInfo, PlatformError>,
    link: Result<platform::LinkInfo, PlatformError>,
    v4: Seq<wan::Outcome>,
    v6: Seq<wan::Outcome>,
    egress: wan::Egress,
    q: Quality,
    nameservers: Seq<IpAddr>,
    benches: (dns::Bench, dns::Bench, dns::Bench),
)
    ensures
        ({
            let pending = skeleton_view();
            &&& same_place(host::host_hop(interface, addrs, route.gateway), pending[0])
            &&& link::link_hop(interface, link).id == pending[1].id && link::link_hop(
                interface,
                link,
            ).layer == pending[1].layer
            &&& same_place(gateway::opening(route), pending[2])
            &&& same_place(wan::concluded(v4, v6, egress, q), pending[3])
            &&& same_place(
                dns::opening(nameservers, benches.0, benches.1, benches.2),
                pending[4],
            )
            &&& same_place(captive::opening(), pending[5])
            &&& same_place(fallback_of(Task::Host), pending[0])
            &&& same_place(fallback_of(Task::Link), pending[1])
            &&& same_place(fallback_of(Task::Gateway), pending[2])
            &&& same_place(fallback_of(Task::Wan), pending[3])
            &&& same_place(fallback_of(Task::Dns), pending[4])
            &&& same_place(fallback_of(Task::Captive), pending[5])
            &&& forall|i: int| 0 <= i < 6 ==> (#[trigger] pending[i]).status == Status::Pending
        }),
{
}

/// The layers of the chain rise outward: from the link over the network and the
/// internet to what runs on it.
pub proof fn the_layers_rise_outward()
    ensures
        ({
            let pending = skeleton_view();
            &&& pending[0].layer == Layer::Link && pending[1].layer == Layer::Link
            &&& pending[2].layer == Layer::Network
            &&& pending[3].layer == Layer::Internet
            &&& pending[4].layer == Layer::Application && pending[5].layer == Layer::Application
            &&& fallback_of(Task::Vpn).layer == Layer::Network
        }),
{
}

/// A host whose interface could not be told is unknown, not broken.
pub proof fn an_unplaced_host_is_unknown()
    ensures
        host_unplaced().id == HopId::Host,
        host_unplaced().status == Status::Warn,
        host_unplaced().fault == Some(Fault::Unobserved),
        host_unplaced().summary is Some,
{
}

/// What is found of a tunnel stands where its hop was seeded, and so does what
/// its probe leaves behind when it does not finish.
pub proof fn a_tunnel_is_reported_where_it_was_seeded(
    info: platform::VpnView,
    route: platform::RouteView,
)
    requires
        route.tunnel_active,
        !route.tunnel_unreadable,
    ensures
        seeds_over(route).len() == 1,
        same_place(vpn::vpn_hop(info, route), seeds_over(route)[0]),
        same_place(fallback_of(Task::Vpn), seeds_over(route)[0]),
{
}

} // verus!
