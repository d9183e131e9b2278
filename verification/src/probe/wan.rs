//! WAN / internet reachability probe.
//!
//! Uses real TCP handshakes to well-known anycast resolvers on :443 — this
//! exercises the actual forwarding path and needs no root, unlike raw ICMP.
//! Runs IPv4 and IPv6 concurrently to expose asymmetric blackholing, then, once
//! IPv4 is known to work, repeats the handshake a few times to tell a healthy
//! uplink from one that is technically up but dropping traffic.
//!
//! Each family is tried against *several operators*, not one. A single target
//! cannot tell "the internet is unreachable" from "this network blocks that
//! address" — and the difference is the whole verdict. Corporate egress
//! policy, national filtering and a flapping anycast route all make one
//! provider vanish while the internet is fine; reporting that as "your ISP is
//! down", confidently, is a lie the reader has no way to catch.

use crate::addr;
use crate::addr::{IpAddr, Ipv4Addr, Ipv6Addr};
use crate::model::path;
use crate::model::{Fault, Hop, HopId, Layer, Metric, Millis, Status};
use crate::number;
use crate::probe::net;
use crate::probe::net::{apply_quality, is_cgnat, warned, Probe, Quality};
use crate::text;
use vstd::prelude::*;

verus! {

broadcast use vstd::string::group_string_axioms;

/// A reachability target, named so the report can say which operator went
/// quiet rather than quoting a bare address.
#[derive(Debug, Clone, Copy)]
pub struct Target {
    pub label: &'static str,
    pub addr: IpAddr,
}

/// What a target is.
#[verifier::ext_equal]
pub struct TargetView {
    pub label: Seq<char>,
    pub addr: IpAddr,
}

impl View for Target {
    type V = TargetView;

    open spec fn view(&self) -> TargetView {
        TargetView { label: self.label@, addr: self.addr }
    }
}

/// What several targets are.
pub open spec fn targets_view(t: Seq<Target>) -> Seq<TargetView> {
    t.map_values(|x: Target| x@)
}

/// An IPv4 target.
pub open spec fn target4(label: Seq<char>, a: u8, b: u8, c: u8, d: u8) -> TargetView {
    TargetView { label, addr: IpAddr::V4(Ipv4Addr { a, b, c, d }) }
}

/// An IPv6 target, by its first three segments and its last.
pub open spec fn target6(label: Seq<char>, a: u16, b: u16, c: u16, h: u16) -> TargetView {
    TargetView { label, addr: IpAddr::V6(Ipv6Addr { a, b, c, d: 0, e: 0, f: 0, g: 0, h }) }
}

/// Three operators on three different networks.
pub open spec fn v4_list() -> Seq<TargetView> {
    seq![
        target4("Cloudflare"@, 1, 1, 1, 1),
        target4("Google"@, 8, 8, 8, 8),
        target4("Quad9"@, 9, 9, 9, 9),
    ]
}

/// The IPv6 addresses of two of them.
pub open spec fn v6_list() -> Seq<TargetView> {
    seq![
        target6("Cloudflare v6"@, 0x2606, 0x4700, 0x4700, 0x1111),
        target6("Google v6"@, 0x2001, 0x4860, 0x4860, 0x8888),
    ]
}

/// Three operators on three different networks. Independence is the point: if
/// they disagree, the disagreement itself is the finding.
pub fn v4_targets() -> (r: Vec<Target>)
    ensures
        targets_view(r@) == v4_list(),
{
    let r = vec![
        Target { label: "Cloudflare", addr: IpAddr::V4(Ipv4Addr::new(1, 1, 1, 1)) },
        Target { label: "Google", addr: IpAddr::V4(Ipv4Addr::new(8, 8, 8, 8)) },
        Target { label: "Quad9", addr: IpAddr::V4(Ipv4Addr::new(9, 9, 9, 9)) },
    ];
    assert(targets_view(r@) =~= v4_list());
    r
}

/// The same question over IPv6.
pub fn v6_targets() -> (r: Vec<Target>)
    ensures
        targets_view(r@) == v6_list(),
{
    let r = vec![
        Target {
            label: "Cloudflare v6",
            addr: IpAddr::V6(Ipv6Addr::new(0x2606, 0x4700, 0x4700, 0, 0, 0, 0, 0x1111)),
        },
        Target {
            label: "Google v6",
            addr: IpAddr::V6(Ipv6Addr::new(0x2001, 0x4860, 0x4860, 0, 0, 0, 0, 0x8888)),
        },
    ];
    assert(targets_view(r@) =~= v6_list());
    r
}

/// How many IPv4 targets there are.
pub const V4_COUNT: usize = 3;

/// How many targets there are.
pub const TARGET_COUNT: usize = 5;

/// The port every target is asked on.
pub const PORT: u16 = 443;

/// Handshakes per sweep, counting the reachability probe itself.
pub const SAMPLES: u32 = 5;

/// Spacing in milliseconds, so the samples cover a slice of time rather than
/// one instant.
pub const SPACING_MS: u64 = 100;

/// Ceiling for *every* handshake in milliseconds, reachability probe included.
///
/// It has to be one number: if the follow-up samples were held to a tighter
/// deadline than the probe that declared the path up, a merely slow uplink
/// would be reported as a lossy one — "80% of connections never complete" for
/// a link where every connection completes, just not quickly.
pub const SAMPLE_WAIT_MS: u64 = 3000;

/// Wall-clock ceiling on the follow-up sampling in milliseconds, so a path that
/// dies right after the first success can't stretch the sweep past the
/// dashboard's tick.
///
/// It is a real ceiling because no sample is *started* unless its own worst
/// case still fits inside it — checking only the start time would let a single
/// timed-out handshake overshoot by most of [`SAMPLE_WAIT_MS`]. The cost is
/// that a dying path yields a short burst, which is reported as what it is: a
/// loss figure over the handshakes actually attempted.
pub const SAMPLE_BUDGET_MS: u64 = 3600;

/// The public internet is allowed to wobble more than your own LAN. Sized so a
/// single latency spike can't trip it: mean IPDV over `n` samples turns one
/// spike of `S` into roughly `2S/(n-1)`, i.e. `S/2` at five samples.
pub const JITTER_WARN_MS: u32 = 120;

/// Cloudflare's trace endpoint, reached by IP so no name has to resolve —
/// which keeps this check working during exactly the DNS failures it needs to
/// see past. It answers in `key=value` lines, one of which is the address the
/// far end saw the request come from.
pub const TRACE_BY_IP: &'static str = "https://1.1.1.1/cdn-cgi/trace";

/// The same endpoint by name, for the case where the IP literal is refused
/// (a TLS stack that won't match an IP SAN, a proxy that insists on SNI).
pub const TRACE_BY_NAME: &'static str = "https://one.one.one.one/cdn-cgi/trace";

/// Ceiling on the *whole* verified-request check in milliseconds, both URLs
/// included.
///
/// It has to cover both, not each. Tried sequentially at a full deadline
/// apiece, this check alone could take as long as the engine's entire
/// per-probe budget — and then the follow-up sampling still runs after it.
/// The hop would time out and be replaced by a generic "reachability is
/// unknown", silently discarding the [`Fault::HandshakeOnly`] finding in
/// exactly the middlebox scenario it exists to catch, where a stalled HTTPS
/// exchange is the *expected* shape.
pub const TRACE_BUDGET_MS: u64 = 3500;

/// Below this there isn't room for a request worth making, so the by-name
/// retry is skipped rather than started and cut off.
pub const MIN_TRACE_MS: u64 = 1200;

/// Another sample may be started: there are fewer than enough, and the worst
/// case of the whole iteration still fits.
pub open spec fn room_for_sample(taken: nat, elapsed_ns: nat) -> bool {
    taken < SAMPLES && elapsed_ns + (SPACING_MS + SAMPLE_WAIT_MS) * 1_000_000 <= SAMPLE_BUDGET_MS
        * 1_000_000
}

/// Whether another sample may be started, `taken` of them and `elapsed_ns`
/// nanoseconds into the follow-up sampling.
///
/// The worst case of the *whole* iteration has to fit, not just its start: a
/// handshake that times out takes [`SAMPLE_WAIT_MS`] no matter how much budget
/// is left when it begins.
pub fn may_sample(taken: u32, elapsed_ns: u64) -> (r: bool)
    ensures
        r == room_for_sample(taken as nat, elapsed_ns as nat),
{
    taken < SAMPLES && elapsed_ns <= (SAMPLE_BUDGET_MS - SPACING_MS - SAMPLE_WAIT_MS) * 1_000_000
}

/// How long the next request may take, in nanoseconds, `elapsed_ns` into the
/// verified-request check; `None` when it is not worth making.
///
/// A by-IP attempt that failed because the TLS stack wouldn't match an IP SAN
/// fails fast, leaving room for the by-name retry. One that stalled has already
/// spent the budget, and starting a second request would only push the hop past
/// the deadline that discards its finding.
pub fn trace_allowance(elapsed_ns: u64) -> (r: Option<u64>)
    ensures
        match r {
            Some(left) => left == TRACE_BUDGET_MS * 1_000_000 - elapsed_ns && left >= MIN_TRACE_MS
                * 1_000_000,
            None => TRACE_BUDGET_MS * 1_000_000 - elapsed_ns < MIN_TRACE_MS * 1_000_000,
        },
{
    let budget: u64 = TRACE_BUDGET_MS * 1_000_000;
    if elapsed_ns > budget || budget - elapsed_ns < MIN_TRACE_MS * 1_000_000 {
        None
    } else {
        Some(budget - elapsed_ns)
    }
}

/// What one real, complete request through the uplink found.
#[derive(Debug, Clone, Copy)]
pub struct Egress {
    /// The address the far end saw — your public IP.
    pub public_ip: Option<IpAddr>,
    /// A full HTTPS exchange completed: TLS negotiated against a certificate
    /// that chains, and a body came back in the shape it should be.
    ///
    /// This is the difference between "a SYN was answered" and "the internet
    /// works". A middlebox can complete a handshake to anything; it cannot
    /// produce Cloudflare's certificate.
    pub verified: bool,
}

/// What came back from one target.
#[verifier::ext_equal]
pub struct Outcome {
    pub label: Seq<char>,
    pub probe: Probe,
}

/// One family's results: which targets answered, and how fast.
#[derive(Debug, Clone)]
pub struct Family {
    pub reached: Vec<(&'static str, Probe)>,
}

impl View for Family {
    type V = Seq<Outcome>;

    open spec fn view(&self) -> Seq<Outcome> {
        self.reached@.map_values(|x: (&'static str, Probe)| Outcome { label: x.0@, probe: x.1 })
    }
}

/// Some target answered.
pub open spec fn any_answered(f: Seq<Outcome>) -> bool {
    exists|i: int| 0 <= i < f.len() && (#[trigger] f[i]).probe is Up
}

/// The targets that answered.
pub open spec fn answered(f: Seq<Outcome>) -> Seq<Outcome>
    decreases f.len(),
{
    if f.len() == 0 {
        seq![]
    } else if f.last().probe is Up {
        answered(f.drop_last()).push(f.last())
    } else {
        answered(f.drop_last())
    }
}

/// The names of the targets that stayed quiet.
pub open spec fn quiet(f: Seq<Outcome>) -> Seq<Seq<char>>
    decreases f.len(),
{
    if f.len() == 0 {
        seq![]
    } else if f.last().probe is Up {
        quiet(f.drop_last())
    } else {
        quiet(f.drop_last()).push(f.last().label)
    }
}

/// Target `i` answered, none quicker, and none before it as quick.
pub open spec fn is_quickest(f: Seq<Outcome>, i: int) -> bool {
    &&& 0 <= i < f.len()
    &&& f[i].probe is Up
    &&& forall|j: int|
        0 <= j < f.len() && (#[trigger] f[j]).probe is Up ==> f[i].probe->0 < f[j].probe->0 || (
        f[i].probe->0 == f[j].probe->0 && i <= j)
}

/// The quickest target that answered.
pub open spec fn quickest(f: Seq<Outcome>) -> Option<Outcome> {
    if exists|i: int| is_quickest(f, i) {
        Some(f[choose|i: int| is_quickest(f, i)])
    } else {
        None
    }
}

/// The address of the first of these targets with a label.
pub open spec fn find_addr(targets: Seq<TargetView>, label: Seq<char>) -> Option<IpAddr>
    decreases targets.len(),
{
    if targets.len() == 0 {
        None
    } else if targets[0].label == label {
        Some(targets[0].addr)
    } else {
        find_addr(targets.skip(1), label)
    }
}

/// The address of the target with a label.
pub open spec fn known_addr(label: Seq<char>) -> Option<IpAddr> {
    find_addr(v4_list() + v6_list(), label)
}

/// Every result is of a known target.
pub open spec fn all_known(f: Seq<Outcome>) -> bool {
    forall|i: int| 0 <= i < f.len() ==> known_addr((#[trigger] f[i]).label) is Some
}

/// The quickest target that answered, with its address.
pub open spec fn best_of(f: Seq<Outcome>) -> Option<(Seq<char>, IpAddr, Probe)> {
    match quickest(f) {
        Some(o) => match known_addr(o.label) {
            Some(ip) => Some((o.label, ip, o.probe)),
            None => None,
        },
        None => None,
    }
}

/// Some target answered exactly when one was the quickest.
pub proof fn lemma_quickest(f: Seq<Outcome>)
    ensures
        quickest(f) is Some <==> any_answered(f),
        quickest(f) matches Some(o) ==> o.probe is Up && exists|i: int|
            0 <= i < f.len() && #[trigger] f[i] == o,
    decreases f.len(),
{
    if exists|i: int| is_quickest(f, i) {
        let k = choose|k: int| is_quickest(f, k);
        assert(is_quickest(f, k));
        assert(f[k].probe is Up);
    } else if any_answered(f) {
        let rest = f.drop_last();
        let n = f.len() - 1;
        lemma_quickest(rest);
        if exists|i: int| is_quickest(rest, i) {
            let k = choose|k: int| is_quickest(rest, k);
            assert(is_quickest(rest, k));
            assert forall|j: int| 0 <= j < n && (#[trigger] f[j]).probe is Up implies f[k].probe->0
                < f[j].probe->0 || (f[k].probe->0 == f[j].probe->0 && k <= j) by {
                assert(rest[j].probe is Up);
            }
            if f[n].probe is Up && f[n].probe->0 < f[k].probe->0 {
                assert(is_quickest(f, n));
            } else {
                assert(is_quickest(f, k));
            }
        } else {
            assert forall|j: int| 0 <= j < n implies !((#[trigger] f[j]).probe is Up) by {
                assert(rest[j] == f[j]);
            }
            assert(is_quickest(f, n));
        }
    }
}

proof fn lemma_quickest_is(f: Seq<Outcome>, i: int)
    requires
        is_quickest(f, i),
    ensures
        quickest(f) == Some(f[i]),
{
    let k = choose|k: int| is_quickest(f, k);
    assert(is_quickest(f, k));
    assert(f[k].probe is Up && f[i].probe is Up);
}

/// Labels as texts.
pub open spec fn labels_view(v: Seq<&'static str>) -> Seq<Seq<char>> {
    v.map_values(|x: &'static str| x@)
}

/// Results as outcomes.
pub open spec fn outcomes_view(v: Seq<(&'static str, Probe)>) -> Seq<Outcome> {
    v.map_values(|x: (&'static str, Probe)| Outcome { label: x.0@, probe: x.1 })
}

/// The address of the target with this label.
pub fn addr_of(label: &str) -> (r: Option<IpAddr>)
    ensures
        r == known_addr(label@),
{
    let v4 = v4_targets();
    let v6 = v6_targets();
    let ghost all = v4_list() + v6_list();
    assert(targets_view(v4@).len() == v4@.len() == 3);
    assert(targets_view(v6@).len() == v6@.len() == 2);
    let mut i: usize = 0;
    assert(all.skip(0) == all);
    while i < TARGET_COUNT
        invariant
            i <= 5,
            v4@.len() == 3,
            v6@.len() == 2,
            all == targets_view(v4@) + targets_view(v6@),
            known_addr(label@) == find_addr(all, label@),
            find_addr(all, label@) == find_addr(all.skip(i as int), label@),
        decreases 5 - i,
    {
        assert(all.skip(i as int).skip(1) == all.skip(i + 1));
        let t = if i < V4_COUNT {
            assert(all[i as int] == v4@[i as int]@);
            v4[i]
        } else {
            assert(all[i as int] == v6@[i - 3]@);
            v6[i - V4_COUNT]
        };
        if text::str_eq(t.label, label) {
            return Some(t.addr);
        }
        i += 1;
    }
    None
}

impl Family {
    /// The targets that answered.
    pub fn up(&self) -> (r: Vec<(&'static str, Probe)>)
        ensures
            outcomes_view(r@) == answered(self@),
    {
        let mut out: Vec<(&'static str, Probe)> = Vec::new();
        let mut i: usize = 0;
        assert(outcomes_view(out@) =~= Seq::<Outcome>::empty());
        while i < self.reached.len()
            invariant
                i <= self.reached@.len(),
                outcomes_view(out@) == answered(self@.take(i as int)),
            decreases self.reached@.len() - i,
        {
            assert(self@.take(i + 1).drop_last() == self@.take(i as int));
            let ghost before = outcomes_view(out@);
            if self.reached[i].1.is_up() {
                out.push(self.reached[i]);
                assert(outcomes_view(out@) =~= before.push(self@[i as int]));
            }
            i += 1;
        }
        assert(self@.take(i as int) == self@);
        out
    }

    /// The targets that stayed quiet.
    pub fn down(&self) -> (r: Vec<&'static str>)
        ensures
            labels_view(r@) == quiet(self@),
    {
        let mut out: Vec<&'static str> = Vec::new();
        let mut i: usize = 0;
        assert(labels_view(out@) =~= Seq::<Seq<char>>::empty());
        while i < self.reached.len()
            invariant
                i <= self.reached@.len(),
                labels_view(out@) == quiet(self@.take(i as int)),
            decreases self.reached@.len() - i,
        {
            assert(self@.take(i + 1).drop_last() == self@.take(i as int));
            let ghost before = labels_view(out@);
            if !self.reached[i].1.is_up() {
                out.push(self.reached[i].0);
                assert(labels_view(out@) =~= before.push(self@[i as int].label));
            }
            i += 1;
        }
        assert(self@.take(i as int) == self@);
        out
    }

    /// Whether any target answered.
    pub fn any_up(&self) -> (r: bool)
        ensures
            r == any_answered(self@),
    {
        let mut i: usize = 0;
        while i < self.reached.len()
            invariant
                i <= self.reached@.len(),
                forall|j: int| 0 <= j < i ==> !((#[trigger] self@[j]).probe is Up),
            decreases self.reached@.len() - i,
        {
            if self.reached[i].1.is_up() {
                assert(self@[i as int].probe is Up);
                return true;
            }
            i += 1;
        }
        false
    }

    /// The quickest target that answered — the one worth sampling further,
    /// since a slow target would spend the budget without measuring the path.
    pub fn best(&self) -> (r: Option<(&'static str, IpAddr, Probe)>)
        ensures
            best_view(r) == best_of(self@),
    {
        let n: usize = self.reached.len();
        let mut k: usize = n;
        let mut least: i64 = 0;
        let mut i: usize = 0;
        while i < n
            invariant
                i <= n,
                n == self.reached@.len(),
                k <= n,
                k < n ==> k < i && self@[k as int].probe == Probe::Up(least) && forall|j: int|
                    0 <= j < i && (#[trigger] self@[j]).probe is Up ==> least < self@[j].probe->0
                        || (least == self@[j].probe->0 && k <= j),
                k == n ==> forall|j: int| 0 <= j < i ==> !((#[trigger] self@[j]).probe is Up),
            decreases n - i,
        {
            if let Probe::Up(t) = self.reached[i].1 {
                assert(self@[i as int].probe == Probe::Up(t));
                if k == n || t < least {
                    k = i;
                    least = t;
                }
            }
            i += 1;
        }
        if k == n {
            proof {
                lemma_quickest(self@);
            }
            return None;
        }
        proof {
            assert(is_quickest(self@, k as int));
            lemma_quickest_is(self@, k as int);
        }
        let (label, probe) = self.reached[k];
        match addr_of(label) {
            Some(ip) => Some((label, ip, probe)),
            None => None,
        }
    }
}

/// What the best target is.
pub open spec fn best_view(
    o: Option<(&'static str, IpAddr, Probe)>,
) -> Option<(Seq<char>, IpAddr, Probe)> {
    match o {
        Some((label, ip, p)) => Some((label@, ip, p)),
        None => None,
    }
}

/// How a target's result reads next to the hop's own status.
pub open spec fn target_standing(up: bool, family_any_up: bool, any_reachable: bool) -> Option<
    Status,
> {
    if up {
        Some(Status::Healthy)
    } else if !any_reachable {
        Some(Status::Fail)
    } else if family_any_up {
        Some(Status::Warn)
    } else {
        None
    }
}

/// How an individual target's result should read next to the hop's own status.
///
/// `-v` and `--json` both render per-metric status, so this has to agree with
/// the headline above it in both directions:
///
/// - nothing reachable anywhere: the hop fails, so its measurements are
///   `Fail` too — five yellow "Warn" lines under a red headline is the
///   evidence contradicting the verdict in the case this tool is most careful
///   about;
/// - a family that works but is missing an operator: `Warn`, the filtering
///   this probe exists to surface;
/// - a family this network simply doesn't carry while another one works: no
///   status at all. An IPv4-only home LAN is the most common config there is,
///   and marking its two IPv6 lines red under a green hop is the same
///   contradiction reversed. It mirrors `blocked_targets`, which for the same
///   reason declines to call an absent family "filtered".
pub fn target_status(up: bool, family_any_up: bool, any_reachable: bool) -> (r: Option<Status>)
    ensures
        r == target_standing(up, family_any_up, any_reachable),
{
    if up {
        Some(Status::Healthy)
    } else if !any_reachable {
        Some(Status::Fail)
    } else if family_any_up {
        Some(Status::Warn)
    } else {
        None
    }
}

/// The uplink answers handshakes without carrying traffic.
pub open spec fn only_handshakes(v4: Seq<Outcome>, v6: Seq<Outcome>, verified: bool) -> bool {
    &&& any_answered(v4)
    &&& quiet(v4).len() == 0
    &&& any_answered(v6) ==> quiet(v6).len() == 0
    &&& !verified
}

/// Whether the uplink answers handshakes without carrying traffic.
///
/// A TCP handshake proves only that *something* on the path replied to a SYN.
/// Interception appliances and some portals reply to everything, so a hop can
/// be entirely green while nothing works — the failure a topology diagram is
/// least able to show you.
///
/// The claim is only made when **every** target answered and the verified
/// request still didn't complete. A partial failure has a simpler explanation
/// already reported (filtering), and one request can fail on its own for
/// reasons that say nothing about the path; demanding unanimity on one side
/// and silence on the other keeps this from crying wolf.
pub fn handshake_only(v4: &Family, v6: &Family, egress: &Egress) -> (r: bool)
    ensures
        r == only_handshakes(v4@, v6@, egress.verified),
{
    let quiet4 = v4.down();
    let quiet6 = v6.down();
    assert(labels_view(quiet4@).len() == quiet4@.len());
    assert(labels_view(quiet6@).len() == quiet6@.len());
    let all_answered = quiet4.len() == 0 && (!v6.any_up() || quiet6.len() == 0);
    v4.any_up() && all_answered && !egress.verified
}

/// The address on the first of these lines that has one.
pub open spec fn trace_ip(lines: Seq<Seq<char>>) -> Option<IpAddr>
    decreases lines.len(),
{
    if lines.len() == 0 {
        None
    } else {
        match text::after_prefix(text::trim(lines[0]), "ip="@) {
            Some(v) => addr::ip_value(text::trim(v)),
            None => trace_ip(lines.skip(1)),
        }
    }
}

/// Pull the `ip=` line out of a `cdn-cgi/trace` response.
///
/// The body has to be the shape it should be. A captive portal can return 200
/// to anything; it cannot return this.
pub fn parse_trace(body: &str) -> (r: Option<IpAddr>)
    ensures
        r == trace_ip(text::lines(body@)),
{
    let chars = text::chars_of(body);
    let lines = text::lines_of(chars.as_slice());
    let ghost all = text::views(lines@);
    let mut i: usize = 0;
    assert(all.skip(0) == all);
    while i < lines.len()
        invariant
            i <= lines@.len(),
            all == text::views(lines@),
            all == text::lines(body@),
            trace_ip(all) == trace_ip(all.skip(i as int)),
        decreases lines@.len() - i,
    {
        assert(all[i as int] == lines@[i as int]@);
        assert(all.skip(i as int).skip(1) == all.skip(i + 1));
        if let Some(v) = text::strip_prefix(text::trimmed(lines[i]), "ip=") {
            return addr::parse_ip(text::trimmed(v));
        }
        i += 1;
    }
    None
}

/// What a successful response to the trace request shows; `None` when its body
/// is not of the shape it should be.
pub fn egress_from_trace(body: &str) -> (r: Option<Egress>)
    ensures
        match r {
            Some(e) => e.verified && e.public_ip is Some && e.public_ip == trace_ip(
                text::lines(body@),
            ),
            None => trace_ip(text::lines(body@)) is None,
        },
{
    match parse_trace(body) {
        Some(ip) => Some(Egress { public_ip: Some(ip), verified: true }),
        None => None,
    }
}

/// A reply to the trace request: its status, and its body if that could be read.
pub open spec fn reply_view(o: Option<(u16, Option<String>)>) -> Option<(u16, Option<Seq<char>>)> {
    match o {
        Some((status, body)) => Some((status, path::opt_text(body))),
        None => None,
    }
}

/// The address that a reply shows: it has to be a success, with a body of the
/// shape it should be.
pub open spec fn shown_ip(reply: Option<(u16, Option<Seq<char>>)>) -> Option<IpAddr> {
    match reply {
        Some((status, Some(body))) if 200 <= status <= 299 => trace_ip(text::lines(body)),
        _ => None,
    }
}

/// What the verified-request check does next.
#[derive(Debug, Clone, Copy)]
pub enum TraceStep {
    /// Make a request, bounded by this many nanoseconds.
    Ask { url: &'static str, within_ns: u64 },
    /// Nothing is left to ask.
    Done(Egress),
}

/// What the verified-request check does next, after `tried` requests and
/// `elapsed_ns` nanoseconds, given the reply to the last of them, if it got one.
///
/// By address first, so this keeps working when name resolution doesn't — the
/// case it most needs to see past. Anything but a success with a body of the
/// right shape leaves the question open.
pub fn next_trace(tried: usize, elapsed_ns: u64, last: Option<(u16, Option<String>)>) -> (r:
    TraceStep)
    ensures
        match (r, shown_ip(reply_view(last))) {
            (TraceStep::Done(e), Some(ip)) => e == (Egress { public_ip: Some(ip), verified: true }),
            (TraceStep::Done(e), None) => e == (Egress { public_ip: None, verified: false }) && (
            tried >= 2 || TRACE_BUDGET_MS * 1_000_000 - elapsed_ns < MIN_TRACE_MS * 1_000_000),
            (TraceStep::Ask { url, within_ns }, shown) => shown is None && tried < 2 && url@ == (
            if tried == 0 {
                TRACE_BY_IP@
            } else {
                TRACE_BY_NAME@
            }) && within_ns == TRACE_BUDGET_MS * 1_000_000 - elapsed_ns && within_ns
                >= MIN_TRACE_MS * 1_000_000,
        },
{
    if let Some((status, Some(body))) = last {
        if 200 <= status && status <= 299 {
            if let Some(e) = egress_from_trace(body.as_str()) {
                return TraceStep::Done(e);
            }
        }
    }
    match trace_allowance(elapsed_ns) {
        Some(within_ns) if tried < 2 => TraceStep::Ask {
            url: if tried == 0 {
                TRACE_BY_IP
            } else {
                TRACE_BY_NAME
            },
            within_ns,
        },
        _ => TraceStep::Done(Egress { public_ip: None, verified: false }),
    }
}

/// The targets that look filtered.
pub open spec fn filtered(v4: Seq<Outcome>, v6: Seq<Outcome>) -> Seq<Seq<char>> {
    if any_answered(v6) {
        quiet(v4) + quiet(v6)
    } else {
        quiet(v4)
    }
}

/// Which targets look filtered rather than simply absent.
///
/// A family that is down *entirely* is not filtering — it is a family this
/// network doesn't carry. Having no IPv6 at all is the ordinary case on a home
/// LAN, and flagging it as blocked egress would put a warning on most healthy
/// networks; the "no IPv6 on this network" note already covers it. Only a
/// *partial* failure, where some operators answer and others don't, is
/// evidence that something is picking destinations.
pub fn blocked_targets(v4: &Family, v6: &Family) -> (r: Vec<&'static str>)
    ensures
        labels_view(r@) == filtered(v4@, v6@),
{
    let mut blocked = v4.down();
    if v6.any_up() {
        let more = v6.down();
        let ghost before = blocked@;
        let mut i: usize = 0;
        while i < more.len()
            invariant
                i <= more@.len(),
                blocked@ == before + more@.take(i as int),
            decreases more@.len() - i,
        {
            blocked.push(more[i]);
            i += 1;
        }
        assert(more@.take(i as int) == more@);
        assert(labels_view(blocked@) =~= labels_view(before) + labels_view(more@));
    }
    blocked
}

/// A blocked target on an otherwise-working uplink is a warning, never a
/// break: the internet is demonstrably reachable, you just can't reach *that*.
pub fn block_status(blocked: &[&'static str]) -> (r: Status)
    ensures
        r == net::warn_if(blocked@.len() > 0),
{
    warned(blocked.len() > 0)
}

// ---- what is said ----

/// A label without the suffix of its family.
pub open spec fn operator_name(label: Seq<char>) -> Seq<char>
    decreases label.len(),
{
    match text::before_suffix(label, " v6"@) {
        Some(rest) if rest.len() < label.len() => operator_name(rest),
        _ => label,
    }
}

/// The distinct operators behind these targets.
pub open spec fn operator_names(targets: Seq<TargetView>) -> Seq<Seq<char>>
    decreases targets.len(),
{
    if targets.len() == 0 {
        seq![]
    } else {
        let before = operator_names(targets.drop_last());
        let name = operator_name(targets.last().label);
        if before.contains(name) {
            before
        } else {
            before.push(name)
        }
    }
}

/// The distinct operators behind all targets.
pub open spec fn networks() -> Seq<Seq<char>> {
    operator_names(v4_list() + v6_list())
}

/// What the probe did.
pub open spec fn evidence_text(addresses: nat, verified: bool) -> Seq<char> {
    number::decimal(addresses) + " handshakes to :"@ + number::decimal(PORT as nat) + " across "@
        + number::decimal(networks().len())
        + " independent networks, and one HTTPS request that "@ + (if verified {
        "completed"@
    } else {
        "did not complete"@
    })
}

fn name_of(label: &str) -> (r: String)
    ensures
        r@ == operator_name(label@),
{
    let chars = text::chars_of(label);
    let mut rest: &[char] = chars.as_slice();
    proof {
        reveal_strlit(" v6");
    }
    loop
        invariant
            " v6"@.len() == 3,
            operator_name(label@) == operator_name(rest@),
        decreases rest@.len(),
    {
        match text::strip_suffix(rest, " v6") {
            Some(shorter) => {
                rest = shorter;
            },
            None => {
                return text::string_of(rest);
            },
        }
    }
}

fn has_name(names: &Vec<String>, name: &str) -> (r: bool)
    ensures
        r == text::texts(names@).contains(name@),
{
    let ghost all = text::texts(names@);
    let mut i: usize = 0;
    while i < names.len()
        invariant
            i <= names@.len(),
            all == text::texts(names@),
            forall|j: int| 0 <= j < i ==> all[j] != name@,
        decreases names@.len() - i,
    {
        assert(all[i as int] == names@[i as int]@);
        if text::str_eq(names[i].as_str(), name) {
            return true;
        }
        i += 1;
    }
    false
}

fn add_names(names: &mut Vec<String>, targets: &Vec<Target>, Ghost(before): Ghost<Seq<TargetView>>)
    requires
        text::texts(old(names)@) == operator_names(before),
    ensures
        text::texts(final(names)@) == operator_names(before + targets_view(targets@)),
{
    let ghost all = targets_view(targets@);
    let mut i: usize = 0;
    assert(before + all.take(0) == before);
    while i < targets.len()
        invariant
            i <= targets@.len(),
            all == targets_view(targets@),
            text::texts(names@) == operator_names(before + all.take(i as int)),
        decreases targets@.len() - i,
    {
        let ghost seen = before + all.take(i + 1);
        assert(seen.drop_last() == before + all.take(i as int));
        assert(seen.last() == targets@[i as int]@);
        let name = name_of(targets[i].label);
        if !has_name(names, name.as_str()) {
            let ghost so_far = text::texts(names@);
            names.push(name);
            assert(text::texts(names@) =~= so_far.push(name@));
        }
        i += 1;
    }
    assert(all.take(i as int) == all);
}

fn operator_list() -> (r: Vec<String>)
    ensures
        text::texts(r@) == networks(),
        r@.len() == networks().len(),
{
    let mut names: Vec<String> = Vec::new();
    assert(text::texts(names@) =~= Seq::<Seq<char>>::empty());
    add_names(&mut names, &v4_targets(), Ghost(Seq::empty()));
    assert(Seq::<TargetView>::empty() + v4_list() =~= v4_list());
    add_names(&mut names, &v6_targets(), Ghost(v4_list()));
    assert(text::texts(names@).len() == names@.len());
    names
}

/// How many distinct operators back the targets. The outage message's whole
/// weight is "N independent networks went quiet", so this must count networks
/// and not addresses — two families of one operator are one network.
pub fn operator_count() -> (r: usize)
    ensures
        r == networks().len(),
{
    operator_list().len()
}

/// The distinct operators behind the targets, for the outage message. The
/// point of the message is *how many independent networks* stayed silent, so
/// listing the same operator twice for its two address families would inflate
/// exactly the number that makes the claim credible.
pub fn operators() -> (r: String)
    ensures
        r@ == text::join(networks(), ", "@),
{
    text::joined(&operator_list(), ", ")
}

/// What this probe actually did, for the report's evidence line.
///
/// The verified request has to be described by its outcome, not asserted.
/// `handshake_only` is *defined* by a request that did not complete, so a fixed
/// claim would contradict the cause printed beside it in exactly the case the
/// evidence matters most.
pub fn evidence(addresses: usize, verified: bool) -> (r: String)
    ensures
        r@ == evidence_text(addresses as nat, verified),
{
    let head = text::cat4(
        number::decimal_of(addresses as u128).as_str(),
        " handshakes to :",
        number::decimal_of(PORT as u128).as_str(),
        " across ",
    );
    text::cat4(
        head.as_str(),
        number::decimal_of(operator_count() as u128).as_str(),
        " independent networks, and one HTTPS request that ",
        if verified {
            "completed"
        } else {
            "did not complete"
        },
    )
}

/// The summary of a reachable uplink, and whether it reports a block.
pub open spec fn summary_of(
    label: Seq<char>,
    avg: Millis,
    dual_stack: bool,
    q: Quality,
    blocked: Seq<Seq<char>>,
) -> (Seq<char>, bool) {
    match q.grievance(JITTER_WARN_MS) {
        Some(c) => (
            "Reachable over "@ + (if dual_stack {
                "IPv4 + IPv6"@
            } else {
                "IPv4"@
            }) + " but the uplink is unhealthy — "@ + c + " over "@ + number::decimal(
                q.sent as nat,
            ) + " handshakes"@,
            false,
        ),
        None => if blocked.len() > 0 {
            (
                "Reachable via "@ + label + " ("@ + avg.whole() + " ms), but this network blocks "@
                    + text::join(blocked, " and "@) + " — filtered egress, not an outage"@,
                true,
            )
        } else if dual_stack {
            ("Reachable over IPv4 + IPv6 ("@ + avg.whole() + " ms via "@ + label + ")"@, false)
        } else {
            (
                "Reachable over IPv4 ("@ + avg.whole() + " ms via "@ + label
                    + ") · no IPv6 on this network"@,
                false,
            )
        },
    }
}

fn owned_labels(labels: &[&'static str]) -> (r: Vec<String>)
    ensures
        text::texts(r@) == labels_view(labels@),
{
    let mut out: Vec<String> = Vec::new();
    let mut i: usize = 0;
    while i < labels.len()
        invariant
            i <= labels@.len(),
            text::texts(out@) == labels_view(labels@).take(i as int),
        decreases labels@.len() - i,
    {
        let ghost before = text::texts(out@);
        out.push(labels[i].to_string());
        assert(text::texts(out@) =~= before.push(labels@[i as int]@));
        i += 1;
        assert(labels_view(labels@).take(i as int) =~= before.push(labels@[i - 1]@));
    }
    assert(labels_view(labels@).take(i as int) == labels_view(labels@));
    out
}

/// The summary, plus whether it is the one that actually reports the block.
///
/// Returned rather than sniffed back out of the rendered English: gating
/// [`Fault::TargetBlocked`] on the words would couple the fault code to a
/// literal string, so rewording this function would silently stop setting the
/// code.
pub fn summarise(
    label: &str,
    avg: Millis,
    dual_stack: bool,
    q: &Quality,
    blocked: &[&'static str],
) -> (r: (String, bool))
    ensures
        (r.0@, r.1) == summary_of(label@, avg, dual_stack, *q, labels_view(blocked@)),
{
    if let Some(c) = q.complaint(JITTER_WARN_MS) {
        let family = if dual_stack {
            "IPv4 + IPv6"
        } else {
            "IPv4"
        };
        let head = text::cat4(
            "Reachable over ",
            family,
            " but the uplink is unhealthy — ",
            c.as_str(),
        );
        return (
            text::cat4(
                head.as_str(),
                " over ",
                number::decimal_of(q.sent as u128).as_str(),
                " handshakes",
            ),
            false,
        );
    }
    let whole = avg.whole_text();
    assert(labels_view(blocked@).len() == blocked@.len());
    if blocked.len() > 0 {
        // The uplink works, so this is about *this network's* filtering, not
        // about your connection being down. Saying which operator is missing
        // is the whole point of probing more than one.
        let names = owned_labels(blocked);
        let head = text::cat5(
            "Reachable via ",
            label,
            " (",
            whole.as_str(),
            " ms), but this network blocks ",
        );
        return (
            text::cat3(
                head.as_str(),
                text::joined(&names, " and ").as_str(),
                " — filtered egress, not an outage",
            ),
            true,
        );
    }
    let clean = if dual_stack {
        text::cat5("Reachable over IPv4 + IPv6 (", whole.as_str(), " ms via ", label, ")")
    } else {
        text::cat5(
            "Reachable over IPv4 (",
            whole.as_str(),
            " ms via ",
            label,
            ") · no IPv6 on this network",
        )
    };
    (clean, false)
}

// ---- the hop ----

/// What a target's line says.
pub open spec fn target_metric(o: Outcome, family_any_up: bool, any_reachable: bool) -> path::MetricView {
    path::MetricView {
        label: o.label,
        value: match o.probe {
            Probe::Up(t) => Millis::of(t as int, 1).whole() + " ms"@,
            Probe::Timeout => "unreachable"@,
        },
        status: target_standing(o.probe is Up, family_any_up, any_reachable),
    }
}

/// What a family's lines say.
pub open spec fn target_metrics(f: Seq<Outcome>, any_reachable: bool) -> Seq<path::MetricView> {
    f.map_values(|o: Outcome| target_metric(o, any_answered(f), any_reachable))
}

/// What the lines on the public address say.
pub open spec fn egress_metrics(public_ip: Option<IpAddr>) -> Seq<path::MetricView> {
    match public_ip {
        Some(ip) => if ip.shared_space() {
            seq![
                path::plain("Public IP"@, addr::ip_text(ip)),
                path::graded(
                    "NAT"@,
                    "carrier-grade — inbound connections can't reach you"@,
                    Status::Warn,
                ),
            ]
        } else {
            seq![path::plain("Public IP"@, addr::ip_text(ip))]
        },
        None => seq![],
    }
}

/// `1.1.1.1 (Cloudflare)`: the address that is carrying traffic.
pub open spec fn carrier(v4: Seq<Outcome>, v6: Seq<Outcome>) -> Seq<char> {
    match (best_of(v4), best_of(v6)) {
        (Some((label, ip, _)), _) => addr::ip_text(ip) + " ("@ + label + ")"@,
        (None, Some((label, ip, _))) => addr::ip_text(ip) + " ("@ + label + ")"@,
        (None, None) => number::decimal(TARGET_COUNT as nat) + " targets"@,
    }
}

/// The hop before its status is decided.
pub open spec fn opening(v4: Seq<Outcome>, v6: Seq<Outcome>, egress: Egress) -> path::HopView {
    let any_reachable = any_answered(v4) || any_answered(v6);
    path::HopView {
        subtitle: Some(carrier(v4, v6)),
        metrics: target_metrics(v4, any_reachable) + target_metrics(v6, any_reachable)
            + egress_metrics(egress.public_ip),
        evidence: Some(evidence_text(v4.len() + v6.len(), egress.verified)),
        ..path::blank(HopId::Wan, Layer::Internet, "Internet"@)
    }
}

/// The hop of an uplink that carries IPv4, measured by a burst.
pub open spec fn reachable(
    v4: Seq<Outcome>,
    v6: Seq<Outcome>,
    egress: Egress,
    q: Quality,
) -> path::HopView {
    let avg = q.mean_or_zero();
    let blocked = filtered(v4, v6);
    let fake = only_handshakes(v4, v6, egress.verified);
    let label = (best_of(v4)->0).0;
    let (summary, reports_block) = summary_of(label, avg, any_answered(v6), q, blocked);
    let timed = path::HopView { latency_ms: Some(avg), ..opening(v4, v6, egress) };
    let hop = net::with_quality(timed, q, JITTER_WARN_MS);
    path::HopView {
        status: q.standing(JITTER_WARN_MS).worse(net::warn_if(blocked.len() > 0)).worse(
            net::warn_if(fake),
        ),
        fault: if fake {
            Some(Fault::HandshakeOnly)
        } else if reports_block {
            Some(Fault::TargetBlocked)
        } else {
            None
        },
        summary: Some(
            if fake {
                "Every handshake completes but no real request does — something is answering connections on the path without carrying them"@
            } else {
                summary
            },
        ),
        ..hop
    }
}

/// What an outage is summed up as.
pub open spec fn outage_text() -> Seq<char> {
    "No TCP path to the internet — "@ + number::decimal(networks().len())
        + " independent networks ("@ + text::join(networks(), ", "@) + ") all refused across "@
        + number::decimal(TARGET_COUNT as nat) + " addresses, so the break is past your router"@
}

/// The hop that the probe concludes with.
pub open spec fn concluded(
    v4: Seq<Outcome>,
    v6: Seq<Outcome>,
    egress: Egress,
    q: Quality,
) -> path::HopView {
    let hop = opening(v4, v6, egress);
    if any_answered(v4) {
        reachable(v4, v6, egress, q)
    } else if any_answered(v6) {
        path::HopView {
            status: Status::Warn,
            latency_ms: match best_of(v6) {
                Some((_, _, Probe::Up(t))) => Some(Millis::of(t as int, 1)),
                _ => None,
            },
            summary: Some(
                "IPv6-only reachable — all "@ + number::decimal(V4_COUNT as nat)
                    + " IPv4 targets are blackholed"@,
            ),
            ..hop
        }
    } else {
        hop.failed(Fault::NoInternet, outage_text())
    }
}

fn push_targets(hop: &mut Hop, family: &Family, any_reachable: bool)
    ensures
        final(hop)@ == (path::HopView {
            metrics: old(hop)@.metrics + target_metrics(family@, any_reachable),
            ..old(hop)@
        }),
{
    let family_any_up = family.any_up();
    let ghost start = hop@;
    let ghost all = target_metrics(family@, any_reachable);
    let mut i: usize = 0;
    assert(start.metrics + all.take(0) =~= start.metrics);
    while i < family.reached.len()
        invariant
            i <= family.reached@.len(),
            family_any_up == any_answered(family@),
            all == target_metrics(family@, any_reachable),
            hop@ == (path::HopView { metrics: start.metrics + all.take(i as int), ..start }),
        decreases family.reached@.len() - i,
    {
        let (label, probe) = family.reached[i];
        let value = match probe {
            Probe::Up(t) => text::cat2(Millis::from_nanos(t).whole_text().as_str(), " ms"),
            Probe::Timeout => "unreachable".to_string(),
        };
        let metric = Metric::new(label, value.as_str());
        let metric = match target_status(probe.is_up(), family_any_up, any_reachable) {
            Some(status) => metric.with_status(status),
            None => metric,
        };
        assert(metric@ == all[i as int]);
        hop.push_metric(metric);
        i += 1;
        assert(start.metrics + all.take(i as int) =~= (start.metrics + all.take(i - 1)).push(
            all[i - 1],
        ));
    }
    assert(all.take(i as int) == all);
}

fn carrier_of(v4: &Family, v6: &Family) -> (r: String)
    ensures
        r@ == carrier(v4@, v6@),
{
    // Falling back through v6 matters: an IPv6-only network is the case where
    // the reader most needs to see *which* address is carrying traffic.
    match v4.best() {
        Some((label, ip, _)) => text::cat4(addr::ip_to_string(ip).as_str(), " (", label, ")"),
        None => match v6.best() {
            Some((label, ip, _)) => text::cat4(addr::ip_to_string(ip).as_str(), " (", label, ")"),
            None => text::cat2(number::decimal_of(TARGET_COUNT as u128).as_str(), " targets"),
        },
    }
}

fn begin(v4: &Family, v6: &Family, egress: &Egress) -> (r: Hop)
    requires
        v4.reached@.len() + v6.reached@.len() <= usize::MAX,
    ensures
        r@ == opening(v4@, v6@, *egress),
{
    let mut hop = Hop::new(HopId::Wan, Layer::Internet, "Internet");
    hop.subtitle = Some(carrier_of(v4, v6));
    // An unreached target is graded by what its silence contributes to *this
    // hop*, which is not the same as what it means for its own family.
    let any_reachable = v4.any_up() || v6.any_up();
    push_targets(&mut hop, v4, any_reachable);
    push_targets(&mut hop, v6, any_reachable);
    let ghost targets = hop@.metrics;
    if let Some(ip) = egress.public_ip {
        hop.push_metric(Metric::new("Public IP", addr::ip_to_string(ip).as_str()));
        if is_cgnat(ip) {
            hop.push_metric(
                Metric::new("NAT", "carrier-grade — inbound connections can't reach you").with_status(
                    Status::Warn,
                ),
            );
        }
    }
    assert(hop@.metrics =~= targets + egress_metrics(egress.public_ip));
    assert(targets =~= target_metrics(v4@, any_reachable) + target_metrics(v6@, any_reachable));
    hop.evidence = Some(evidence(v4.reached.len() + v6.reached.len(), egress.verified));
    assert(hop@ =~= opening(v4@, v6@, *egress));
    hop
}

fn conclude_reachable(v4: &Family, v6: &Family, egress: &Egress, q: &Quality) -> (r: Hop)
    requires
        any_answered(v4@),
        best_of(v4@) is Some,
        v4.reached@.len() + v6.reached@.len() <= usize::MAX,
    ensures
        r@ == reachable(v4@, v6@, *egress, *q),
{
    let mut hop = begin(v4, v6, egress);
    // Reachability is settled; the open questions are quality, whether any
    // *individual* operator is being filtered, and whether those handshakes
    // actually mean anything.
    let label = match v4.best() {
        Some((label, _, _)) => label,
        None => "",
    };
    let avg = q.avg_or_zero();
    hop.latency_ms = Some(avg);
    let quality = apply_quality(&mut hop, q, JITTER_WARN_MS);
    let blocked = blocked_targets(v4, v6);
    let fake = handshake_only(v4, v6, egress);
    assert(labels_view(blocked@).len() == blocked@.len());
    hop.status = quality.max(block_status(blocked.as_slice())).max(warned(fake));
    // Whichever finding is the more serious owns the code; a path that
    // answers handshakes but carries nothing is worse news than one
    // operator being filtered.
    if fake {
        hop.fault = Some(Fault::HandshakeOnly);
        hop.summary = Some(
            "Every handshake completes but no real request does — something is answering connections on the path without carrying them".to_string(),
        );
    } else {
        // The code follows the branch `summarise` took, reported by
        // `summarise` itself. When a quality complaint owns the prose the
        // block goes unmentioned, and a `--json` consumer reading
        // `target_blocked` off a hop whose text never says so has been told
        // two different things.
        let (summary, reports_block) = summarise(label, avg, v6.any_up(), q, blocked.as_slice());
        if reports_block {
            hop.fault = Some(Fault::TargetBlocked);
        }
        hop.summary = Some(summary);
    }
    hop
}

/// What to sample further once reachability is settled: the address of the
/// quickest IPv4 target and its handshake, which counts as the first sample.
pub fn sample_target(v4: &Family) -> (r: Option<(IpAddr, Probe)>)
    ensures
        r == (match best_of(v4@) {
            Some((_, ip, p)) => Some((ip, p)),
            None => None,
        }),
{
    match v4.best() {
        Some((_, ip, p)) => Some((ip, p)),
        None => None,
    }
}

/// Grade the uplink on what both families, the verified request and the
/// follow-up burst came to. The burst only counts when IPv4 is reachable.
pub fn probe(v4: &Family, v6: &Family, egress: &Egress, q: &Quality) -> (r: Hop)
    requires
        any_answered(v4@) ==> best_of(v4@) is Some,
        v4.reached@.len() + v6.reached@.len() <= usize::MAX,
    ensures
        r@ == concluded(v4@, v6@, *egress, *q),
{
    if v4.any_up() {
        return conclude_reachable(v4, v6, egress, q);
    }
    let mut hop = begin(v4, v6, egress);
    if v6.any_up() {
        hop.status = Status::Warn;
        hop.latency_ms = match v6.best() {
            Some((_, _, p)) => p.ms(),
            None => None,
        };
        hop.summary = Some(
            text::cat3(
                "IPv6-only reachable — all ",
                number::decimal_of(V4_COUNT as u128).as_str(),
                " IPv4 targets are blackholed",
            ),
        );
    } else {
        // Every operator, on every family, independently silent. That is
        // as strong as this probe can make the claim, and it is what makes
        // "the break is past your router" worth saying out loud.
        let head = text::cat4(
            "No TCP path to the internet — ",
            number::decimal_of(operator_count() as u128).as_str(),
            " independent networks (",
            operators().as_str(),
        );
        let summary = text::cat4(
            head.as_str(),
            ") all refused across ",
            number::decimal_of(TARGET_COUNT as u128).as_str(),
            " addresses, so the break is past your router",
        );
        hop.fail(Fault::NoInternet, summary.as_str());
    }
    hop
}

// ---- laws ----

/// A family of known targets has a best one exactly when one of them answered.
pub proof fn known_targets_have_a_best(f: Seq<Outcome>)
    requires
        all_known(f),
    ensures
        best_of(f) is Some <==> any_answered(f),
{
    lemma_quickest(f);
    if let Some(o) = quickest(f) {
        let i = choose|i: int| 0 <= i < f.len() && #[trigger] f[i] == o;
        assert(known_addr(f[i].label) is Some);
    }
}

/// The uplink is called broken exactly when no target of either family
/// answered; then every target's own line reads as broken too, and otherwise
/// none does.
pub proof fn an_outage_is_unanimous(v4: Seq<Outcome>, v6: Seq<Outcome>, egress: Egress, q: Quality)
    ensures
        concluded(v4, v6, egress, q).status == Status::Fail <==> !any_answered(v4)
            && !any_answered(v6),
        forall|i: int|
            0 <= i < v4.len() + v6.len() ==> ((#[trigger] opening(
                v4,
                v6,
                egress,
            ).metrics[i]).status == Some(Status::Fail) <==> !any_answered(v4) && !any_answered(v6)),
{
    let any_reachable = any_answered(v4) || any_answered(v6);
    let m4 = target_metrics(v4, any_reachable);
    let m6 = target_metrics(v6, any_reachable);
    assert forall|i: int| 0 <= i < v4.len() + v6.len() implies ((#[trigger] opening(
        v4,
        v6,
        egress,
    ).metrics[i]).status == Some(Status::Fail) <==> !any_reachable) by {
        if i < v4.len() {
            assert(opening(v4, v6, egress).metrics[i] == m4[i]);
            assert(v4[i].probe is Up ==> any_reachable);
        } else {
            assert(opening(v4, v6, egress).metrics[i] == m6[i - v4.len()]);
            assert(v6[i - v4.len()].probe is Up ==> any_reachable);
        }
    }
}

/// A path that only answers handshakes has no target that looks filtered, so
/// the two findings never both explain one observation.
pub proof fn handshakes_alone_are_not_filtering(v4: Seq<Outcome>, v6: Seq<Outcome>, verified: bool)
    requires
        only_handshakes(v4, v6, verified),
    ensures
        filtered(v4, v6).len() == 0,
{
}

/// A family that this network does not carry at all is not filtering.
pub proof fn an_absent_family_is_not_filtering(v4: Seq<Outcome>, v6: Seq<Outcome>)
    requires
        quiet(v4).len() == 0,
        !any_answered(v6),
    ensures
        filtered(v4, v6).len() == 0,
{
}

/// The fault code of a reachable uplink follows from what its summary says: a
/// block is coded exactly when it is what the summary reports.
pub proof fn the_block_code_follows_the_summary(
    v4: Seq<Outcome>,
    v6: Seq<Outcome>,
    egress: Egress,
    q: Quality,
)
    requires
        any_answered(v4),
        !only_handshakes(v4, v6, egress.verified),
    ensures
        concluded(v4, v6, egress, q).fault == Some(Fault::TargetBlocked) <==> filtered(v4, v6).len()
            > 0 && q.grievance(JITTER_WARN_MS) is None,
{
}

/// The five addresses belong to three operators, each listed once.
pub proof fn the_targets_are_three_networks()
    ensures
        networks() == seq!["Cloudflare"@, "Google"@, "Quad9"@],
{
    reveal_strlit("Cloudflare");
    reveal_strlit("Google");
    reveal_strlit("Quad9");
    reveal_strlit("Cloudflare v6");
    reveal_strlit("Google v6");
    reveal_strlit(" v6");
    let all = v4_list() + v6_list();
    let c = "Cloudflare"@;
    let g = "Google"@;
    let q = "Quad9"@;
    lemma_bare_name(c);
    lemma_bare_name(g);
    lemma_bare_name(q);
    assert(operator_name("Cloudflare v6"@) == c) by {
        assert("Cloudflare v6"@.skip(10) =~= " v6"@);
        assert("Cloudflare v6"@.take(10) =~= c);
    }
    assert(operator_name("Google v6"@) == g) by {
        assert("Google v6"@.skip(6) =~= " v6"@);
        assert("Google v6"@.take(6) =~= g);
    }
    assert(c.len() == 10 && g.len() == 6 && q.len() == 5);
    let t1 = all.take(1);
    let t2 = all.take(2);
    let t3 = all.take(3);
    let t4 = all.take(4);
    assert(t1.drop_last() =~= Seq::<TargetView>::empty());
    assert(t2.drop_last() =~= t1);
    assert(t3.drop_last() =~= t2);
    assert(t4.drop_last() =~= t3);
    assert(all.drop_last() =~= t4);
    assert(operator_names(t1.drop_last()) =~= Seq::<Seq<char>>::empty());
    assert(t1.last().label == c);
    assert(operator_names(t1) =~= seq![c]);
    assert(!seq![c].contains(g));
    assert(operator_names(t2) =~= seq![c, g]);
    assert(!seq![c, g].contains(q));
    assert(operator_names(t3) =~= seq![c, g, q]);
    assert(seq![c, g, q][0] == c && seq![c, g, q][1] == g);
    assert(operator_names(t4) =~= seq![c, g, q]);
}

proof fn lemma_bare_name(s: Seq<char>)
    requires
        s.len() > 0,
        s.last() != '6' || (s.len() >= 2 && s[s.len() - 2] != 'v'),
    ensures
        operator_name(s) == s,
{
    reveal_strlit(" v6");
    if text::ends_with(s, " v6"@) {
        assert(s.skip(s.len() - 3)[2] == '6');
        assert(s.skip(s.len() - 3)[1] == 'v');
    }
}

/// The follow-up budget admits at least one sample at its full length.
pub proof fn the_budget_admits_a_sample()
    ensures
        room_for_sample(1, 0),
{
}

/// Every target of a family answered.
pub open spec fn all_answered(f: Seq<Outcome>) -> bool {
    forall|i: int| 0 <= i < f.len() ==> (#[trigger] f[i]).probe is Up
}

/// A target that stayed quiet although its family works looks filtered.
pub open spec fn some_filtered(v4: Seq<Outcome>, v6: Seq<Outcome>) -> bool {
    !all_answered(v4) || (any_answered(v6) && !all_answered(v6))
}

/// The burst through an uplink shows it to be bad: a quarter of it was lost, or
/// its round trips vary by a hundred and twenty milliseconds.
pub open spec fn bad_burst(q: Quality) -> bool {
    net::loses_a_quarter(q) || net::varies_by(q, 120)
}

/// No target stayed quiet exactly when all answered; and the names of those
/// that did are listed, each of them and nothing else.
pub proof fn the_quiet_targets_are_those_that_did_not_answer(f: Seq<Outcome>)
    ensures
        quiet(f).len() == 0 <==> all_answered(f),
        forall|name: Seq<char>| #[trigger]
            quiet(f).contains(name) <==> exists|i: int|
                0 <= i < f.len() && (#[trigger] f[i]).label == name && f[i].probe
                    == Probe::Timeout,
        answered(f).len() + quiet(f).len() == f.len(),
    decreases f.len(),
{
    if f.len() > 0 {
        let rest = f.drop_last();
        let n = f.len() - 1;
        the_quiet_targets_are_those_that_did_not_answer(rest);
        assert(forall|i: int| 0 <= i < n ==> rest[i] == f[i]);
        if all_answered(f) {
            assert forall|i: int| 0 <= i < rest.len() implies (#[trigger] rest[i]).probe is Up by {
                assert(f[i].probe is Up);
            }
            assert(f[n].probe is Up);
        } else if quiet(f).len() == 0 {
            assert(f[n].probe is Up);
            assert forall|i: int| 0 <= i < f.len() implies (#[trigger] f[i]).probe is Up by {
                if i < n {
                    assert(rest[i].probe is Up);
                }
            }
        }
        assert forall|name: Seq<char>| #[trigger] quiet(f).contains(name) <==> exists|i: int|
            0 <= i < f.len() && (#[trigger] f[i]).label == name && f[i].probe == Probe::Timeout by {
            let before = quiet(rest);
            if quiet(f).contains(name) {
                let k = choose|k: int| 0 <= k < quiet(f).len() && quiet(f)[k] == name;
                if k < before.len() {
                    assert(before[k] == name);
                    assert(before.contains(name));
                    let i = choose|i: int|
                        0 <= i < rest.len() && (#[trigger] rest[i]).label == name && rest[i].probe
                            == Probe::Timeout;
                    assert(f[i].label == name);
                } else {
                    assert(f[n].label == name);
                }
            }
            if exists|i: int|
                0 <= i < f.len() && (#[trigger] f[i]).label == name && f[i].probe
                    == Probe::Timeout {
                let i = choose|i: int|
                    0 <= i < f.len() && (#[trigger] f[i]).label == name && f[i].probe
                        == Probe::Timeout;
                if i < n {
                    assert(rest[i].label == name);
                    assert(before.contains(name));
                    let k = choose|k: int| 0 <= k < before.len() && before[k] == name;
                    assert(quiet(f)[k] == name);
                } else {
                    assert(quiet(f)[before.len() as int] == name);
                }
            }
        }
    }
}

/// An uplink that carries IPv4 is healthy exactly when no target looks
/// filtered, a real request completed, and its burst is clean; otherwise it is
/// degraded, and never broken.
pub proof fn a_reachable_uplink_is_healthy_only_when_all_is(
    v4: Seq<Outcome>,
    v6: Seq<Outcome>,
    egress: Egress,
    q: Quality,
)
    requires
        any_answered(v4),
        0 < q.sent,
        q.rtts_ns@.len() <= q.sent,
    ensures
        concluded(v4, v6, egress, q).status == (if some_filtered(v4, v6) || !egress.verified
            || bad_burst(q) {
            Status::Warn
        } else {
            Status::Healthy
        }),
        concluded(v4, v6, egress, q).fault is Some ==> concluded(v4, v6, egress, q).status
            != Status::Healthy,
        concluded(v4, v6, egress, q).fault == (if !some_filtered(v4, v6) && !egress.verified {
            Some(Fault::HandshakeOnly)
        } else if some_filtered(v4, v6) && !bad_burst(q) {
            Some(Fault::TargetBlocked)
        } else {
            None
        }),
        concluded(v4, v6, egress, q).latency_ms == Some(q.mean_or_zero()),
{
    the_quiet_targets_are_those_that_did_not_answer(v4);
    the_quiet_targets_are_those_that_did_not_answer(v6);
    net::a_burst_is_degraded_by_loss_or_jitter(q, JITTER_WARN_MS);
}

/// An uplink that carries IPv6 alone is degraded, and one that carries nothing
/// is broken, with no internet as the reason; the burst decides neither.
pub proof fn without_ipv4_an_uplink_is_degraded_or_broken(
    v4: Seq<Outcome>,
    v6: Seq<Outcome>,
    egress: Egress,
    q: Quality,
)
    requires
        !any_answered(v4),
    ensures
        any_answered(v6) ==> concluded(v4, v6, egress, q).status == Status::Warn && concluded(
            v4,
            v6,
            egress,
            q,
        ).fault is None,
        !any_answered(v6) ==> concluded(v4, v6, egress, q).status == Status::Fail && concluded(
            v4,
            v6,
            egress,
            q,
        ).fault == Some(Fault::NoInternet),
{
}

/// What an uplink's hop says of the way it was measured: it stands at the WAN,
/// every target has a line in order, each as its own result reads, and the
/// public address has one as soon as it is known.
pub proof fn every_target_has_its_line(
    v4: Seq<Outcome>,
    v6: Seq<Outcome>,
    egress: Egress,
    q: Quality,
    i: int,
)
    requires
        0 <= i < v4.len() + v6.len(),
    ensures
        ({
            let hop = concluded(v4, v6, egress, q);
            let f = if i < v4.len() {
                v4
            } else {
                v6
            };
            let o = if i < v4.len() {
                v4[i]
            } else {
                v6[i - v4.len()]
            };
            let m = hop.metrics[i];
            &&& hop.id == HopId::Wan
            &&& m.label == o.label
            &&& o.probe is Up ==> m.status == Some(Status::Healthy)
            &&& o.probe is Timeout ==> m.value == "unreachable"@
            &&& o.probe is Timeout && any_answered(f) ==> m.status == Some(Status::Warn)
            &&& o.probe is Timeout && !any_answered(f) && (any_answered(v4) || any_answered(v6))
                ==> m.status is None
            &&& o.probe is Timeout && !any_answered(v4) && !any_answered(v6) ==> m.status == Some(
                Status::Fail,
            )
            &&& egress.public_ip matches Some(ip) ==> {
                let at = (v4.len() + v6.len()) as int;
                &&& hop.metrics[at].label == "Public IP"@
                &&& hop.metrics[at].value == addr::ip_text(ip)
                &&& ip.shared_space() ==> hop.metrics[at + 1].label == "NAT"@ && hop.metrics[at
                    + 1].status == Some(Status::Warn)
            }
        }),
{
    let any_reachable = any_answered(v4) || any_answered(v6);
    let m4 = target_metrics(v4, any_reachable);
    let m6 = target_metrics(v6, any_reachable);
    let ms = opening(v4, v6, egress).metrics;
    let hop = concluded(v4, v6, egress, q);
    assert(m4.len() == v4.len() && m6.len() == v6.len());
    assert(forall|k: int| 0 <= k < ms.len() ==> hop.metrics[k] == ms[k]);
    if i < v4.len() {
        assert(ms[i] == m4[i]);
        assert(v4[i].probe is Up ==> any_answered(v4));
    } else {
        assert(ms[i] == m6[i - v4.len()]);
        assert(v6[i - v4.len()].probe is Up ==> any_answered(v6));
    }
    if let Some(ip) = egress.public_ip {
        let shown = egress_metrics(egress.public_ip);
        let at = (v4.len() + v6.len()) as int;
        assert(ms[at] == shown[0]);
        if ip.shared_space() {
            assert(ms[at + 1] == shown[1]);
        }
    }
}

/// The target that is sampled further is one that answered, at the address of
/// its operator, and none answered quicker.
pub proof fn the_quickest_target_is_sampled(f: Seq<Outcome>, j: int)
    requires
        all_known(f),
        0 <= j < f.len(),
        f[j].probe is Up,
    ensures
        best_of(f) matches Some((label, ip, p)) && p is Up && p->0 <= f[j].probe->0 && known_addr(
            label,
        ) == Some(ip) && exists|i: int|
            0 <= i < f.len() && (#[trigger] f[i]).label == label && f[i].probe == p,
{
    known_targets_have_a_best(f);
    lemma_quickest(f);
    let k = choose|k: int| is_quickest(f, k);
    assert(is_quickest(f, k));
    assert(f[j].probe is Up);
    let (label, _, _) = best_of(f)->0;
    assert(f[k].label == label);
}

/// A target that stayed quiet although its family works is named in the summary
/// that reports the block.
pub proof fn a_blocked_target_is_named(
    v4: Seq<Outcome>,
    v6: Seq<Outcome>,
    egress: Egress,
    q: Quality,
    i: int,
)
    requires
        any_answered(v4),
        concluded(v4, v6, egress, q).fault == Some(Fault::TargetBlocked),
        0 <= i < v4.len() + v6.len(),
        i < v4.len() ==> v4[i].probe == Probe::Timeout,
        i >= v4.len() ==> v6[i - v4.len()].probe == Probe::Timeout && any_answered(v6),
    ensures
        concluded(v4, v6, egress, q).summary matches Some(said) && text::contains(
            said,
            (if i < v4.len() {
                v4[i]
            } else {
                v6[i - v4.len()]
            }).label,
        ),
{
    let name = (if i < v4.len() {
        v4[i]
    } else {
        v6[i - v4.len()]
    }).label;
    the_quiet_targets_are_those_that_did_not_answer(v4);
    the_quiet_targets_are_those_that_did_not_answer(v6);
    let blocked = filtered(v4, v6);
    if i < v4.len() {
        assert(v4[i].label == name);
        assert(quiet(v4).contains(name));
        let k = choose|k: int| 0 <= k < quiet(v4).len() && quiet(v4)[k] == name;
        assert(blocked[k] == name);
    } else {
        assert(v6[i - v4.len()].label == name);
        assert(quiet(v6).contains(name));
        let k = choose|k: int| 0 <= k < quiet(v6).len() && quiet(v6)[k] == name;
        assert(blocked[quiet(v4).len() + k] == name);
    }
    let k = choose|k: int| 0 <= k < blocked.len() && blocked[k] == name;
    text::lemma_join_contains(blocked, " and "@, k);
    let head = "Reachable via "@ + (best_of(v4)->0).0 + " ("@ + q.mean_or_zero().whole()
        + " ms), but this network blocks "@;
    text::lemma_contains_through(
        head,
        text::join(blocked, " and "@),
        " — filtered egress, not an outage"@,
        name,
    );
}

/// What was done is told by its outcome: the evidence opens with the number of
/// addresses, and it says that the request completed exactly when it did.
pub proof fn the_evidence_tells_whether_the_request_completed(
    v4: Seq<Outcome>,
    v6: Seq<Outcome>,
    egress: Egress,
    q: Quality,
)
    ensures
        concluded(v4, v6, egress, q).evidence matches Some(said) && (text::ends_with(
            said,
            "completed"@,
        ) <==> egress.verified) && text::starts_with(
            said,
            number::decimal(v4.len() + v6.len()) + " handshakes"@,
        ),
{
    reveal_strlit("completed");
    reveal_strlit("did not complete");
    reveal_strlit(" handshakes");
    reveal_strlit(" handshakes to :");
    let n = number::decimal(v4.len() + v6.len());
    let said = evidence_text(v4.len() + v6.len(), egress.verified);
    let mid = number::decimal(PORT as nat) + " across "@ + number::decimal(networks().len())
        + " independent networks, and one HTTPS request that "@;
    let last = if egress.verified {
        "completed"@
    } else {
        "did not complete"@
    };
    assert(said =~= n + " handshakes to :"@ + mid + last);
    let open = n + " handshakes"@;
    assert(said.take(open.len() as int) =~= open);
    if egress.verified {
        assert(said.skip(said.len() - 9) =~= last);
    } else {
        assert(said.last() == 'e');
        if text::ends_with(said, "completed"@) {
            assert(said.skip(said.len() - 9)[8] == 'd');
        }
    }
}

/// The subtitle opens with the address that carries traffic: that of the
/// quickest IPv4 target, else that of the quickest IPv6 one.
pub proof fn the_carrying_address_is_shown(
    v4: Seq<Outcome>,
    v6: Seq<Outcome>,
    egress: Egress,
    q: Quality,
)
    ensures
        best_of(v4) matches Some((_, ip, _)) ==> text::starts_with(
            concluded(v4, v6, egress, q).subtitle->Some_0,
            addr::ip_text(ip),
        ),
        best_of(v4) is None ==> (best_of(v6) matches Some((_, ip, _)) ==> text::starts_with(
            concluded(v4, v6, egress, q).subtitle->Some_0,
            addr::ip_text(ip),
        )),
{
    if let Some((label, ip, _)) = best_of(v4) {
        let s = addr::ip_text(ip) + " ("@ + label + ")"@;
        assert(s.take(addr::ip_text(ip).len() as int) =~= addr::ip_text(ip));
    } else if let Some((label, ip, _)) = best_of(v6) {
        let s = addr::ip_text(ip) + " ("@ + label + ")"@;
        assert(s.take(addr::ip_text(ip).len() as int) =~= addr::ip_text(ip));
    }
}

/// An uplink whose request completed says so in one of three ways: unhealthy
/// where its burst is bad, else filtered where a target looks so, else by the
/// families that it carries.
pub proof fn the_summary_says_what_was_found(
    v4: Seq<Outcome>,
    v6: Seq<Outcome>,
    egress: Egress,
    q: Quality,
)
    requires
        any_answered(v4),
        egress.verified,
        0 < q.sent,
        q.rtts_ns@.len() <= q.sent,
    ensures
        ({
            let said = concluded(v4, v6, egress, q).summary->Some_0;
            let both = "Reachable over IPv4 + IPv6"@;
            &&& concluded(v4, v6, egress, q).summary is Some
            &&& bad_burst(q) ==> text::contains(said, " but the uplink is unhealthy — "@)
            &&& !bad_burst(q) && some_filtered(v4, v6) ==> text::starts_with(
                said,
                "Reachable via "@,
            )
            &&& (bad_burst(q) || !some_filtered(v4, v6)) ==> (text::starts_with(said, both)
                <==> any_answered(v6))
        }),
{
    the_quiet_targets_are_those_that_did_not_answer(v4);
    the_quiet_targets_are_those_that_did_not_answer(v6);
    net::a_burst_is_degraded_by_loss_or_jitter(q, JITTER_WARN_MS);
    assert(q.grievance(JITTER_WARN_MS) is Some <==> bad_burst(q));
    let label = (best_of(v4)->0).0;
    let avg = q.mean_or_zero();
    let dual = any_answered(v6);
    let said = summary_of(label, avg, dual, q, filtered(v4, v6)).0;
    if bad_burst(q) {
        lemma_unhealthy(
            dual,
            q.grievance(JITTER_WARN_MS)->0,
            " over "@ + number::decimal(q.sent as nat) + " handshakes"@,
        );
        let family = if dual {
            "IPv4 + IPv6"@
        } else {
            "IPv4"@
        };
        assert(said =~= "Reachable over "@ + family + " but the uplink is unhealthy — "@
            + q.grievance(JITTER_WARN_MS)->0 + (" over "@ + number::decimal(q.sent as nat)
            + " handshakes"@));
    } else if some_filtered(v4, v6) {
        let open = "Reachable via "@;
        assert(said.take(open.len() as int) =~= open);
    } else {
        lemma_clean(dual, avg.whole(), label);
    }
}

proof fn lemma_unhealthy(dual: bool, c: Seq<char>, rest: Seq<char>)
    ensures
        ({
            let said = "Reachable over "@ + (if dual {
                "IPv4 + IPv6"@
            } else {
                "IPv4"@
            }) + " but the uplink is unhealthy — "@ + c + rest;
            &&& text::contains(said, " but the uplink is unhealthy — "@)
            &&& text::starts_with(said, "Reachable over IPv4 + IPv6"@) <==> dual
        }),
{
    let family = if dual {
        "IPv4 + IPv6"@
    } else {
        "IPv4"@
    };
    let word = " but the uplink is unhealthy — "@;
    let head = "Reachable over "@ + family;
    let said = head + word + c + rest;
    let both = "Reachable over IPv4 + IPv6"@;
    assert(said =~= head + word + (c + rest));
    text::lemma_contains_middle(head, word, c + rest);
    reveal_strlit("Reachable over ");
    reveal_strlit("IPv4 + IPv6");
    reveal_strlit("IPv4");
    reveal_strlit("Reachable over IPv4 + IPv6");
    reveal_strlit(" but the uplink is unhealthy — ");
    if dual {
        assert(said.take(both.len() as int) =~= both);
    } else if text::starts_with(said, both) {
        assert(said.take(both.len() as int)[20] == '+');
        assert(said[20] == 'b');
    }
}

proof fn lemma_clean(dual: bool, ms: Seq<char>, label: Seq<char>)
    ensures
        text::starts_with(
            "Reachable over IPv4 + IPv6 ("@ + ms + " ms via "@ + label + ")"@,
            "Reachable over IPv4 + IPv6"@,
        ),
        !text::starts_with(
            "Reachable over IPv4 ("@ + ms + " ms via "@ + label + ") · no IPv6 on this network"@,
            "Reachable over IPv4 + IPv6"@,
        ),
{
    reveal_strlit("Reachable over IPv4 + IPv6 (");
    reveal_strlit("Reachable over IPv4 + IPv6");
    reveal_strlit("Reachable over IPv4 (");
    let both = "Reachable over IPv4 + IPv6"@;
    let a = "Reachable over IPv4 + IPv6 ("@ + ms + " ms via "@ + label + ")"@;
    let b = "Reachable over IPv4 ("@ + ms + " ms via "@ + label + ") · no IPv6 on this network"@;
    assert(a.take(both.len() as int) =~= both);
    if text::starts_with(b, both) {
        assert(b.take(both.len() as int)[20] == '+');
        assert(b[20] == '(');
    }
}

/// An outage names every network that stayed silent.
pub proof fn an_outage_names_the_silent_networks(
    v4: Seq<Outcome>,
    v6: Seq<Outcome>,
    egress: Egress,
    q: Quality,
)
    requires
        !any_answered(v4),
        !any_answered(v6),
    ensures
        concluded(v4, v6, egress, q).summary matches Some(said) && text::contains(
            said,
            "Cloudflare"@,
        ) && text::contains(said, "Google"@) && text::contains(said, "Quad9"@),
{
    the_targets_are_three_networks();
    let names = networks();
    let head = "No TCP path to the internet — "@ + number::decimal(names.len())
        + " independent networks ("@;
    let list = text::join(names, ", "@);
    let tail = ") all refused across "@ + number::decimal(TARGET_COUNT as nat)
        + " addresses, so the break is past your router"@;
    assert(outage_text() =~= head + list + tail);
    text::lemma_join_contains(names, ", "@, 0);
    text::lemma_join_contains(names, ", "@, 1);
    text::lemma_join_contains(names, ", "@, 2);
    text::lemma_contains_through(head, list, tail, "Cloudflare"@);
    text::lemma_contains_through(head, list, tail, "Google"@);
    text::lemma_contains_through(head, list, tail, "Quad9"@);
}

/// Sampling goes on exactly as long as samples are wanting and the worst case of
/// one more still fits.
pub proof fn sampling_stays_within_its_bounds(taken: nat, elapsed_ns: nat)
    ensures
        taken >= SAMPLES ==> !room_for_sample(taken, elapsed_ns),
        elapsed_ns > (SAMPLE_BUDGET_MS - SPACING_MS - SAMPLE_WAIT_MS) * 1_000_000
            ==> !room_for_sample(taken, elapsed_ns),
        taken < SAMPLES && elapsed_ns <= (SAMPLE_BUDGET_MS - SPACING_MS - SAMPLE_WAIT_MS)
            * 1_000_000 ==> room_for_sample(taken, elapsed_ns),
{
}

/// A target that answered shows its handshake in whole milliseconds.
pub proof fn an_answer_shows_its_time(
    v4: Seq<Outcome>,
    v6: Seq<Outcome>,
    egress: Egress,
    q: Quality,
    i: int,
    t: i64,
)
    requires
        0 <= i < v4.len() + v6.len(),
        (if i < v4.len() {
            v4[i]
        } else {
            v6[i - v4.len()]
        }).probe == Probe::Up(t),
    ensures
        concluded(v4, v6, egress, q).metrics[i].value == number::whole(t as int, 1_000_000)
            + " ms"@,
{
    let any_reachable = any_answered(v4) || any_answered(v6);
    let m4 = target_metrics(v4, any_reachable);
    let m6 = target_metrics(v6, any_reachable);
    let ms = opening(v4, v6, egress).metrics;
    assert(m4.len() == v4.len() && m6.len() == v6.len());
    assert(forall|k: int|
        0 <= k < ms.len() ==> concluded(v4, v6, egress, q).metrics[k] == ms[k]);
    if i < v4.len() {
        assert(ms[i] == m4[i]);
    } else {
        assert(ms[i] == m6[i - v4.len()]);
    }
    Millis::lemma_of(t as int, 1);
}

/// Only a success with a body shows an address: the one that the body gives.
pub proof fn only_a_success_shows_an_address(status: u16, body: Option<Seq<char>>)
    ensures
        shown_ip(None) is None,
        status < 200 || status > 299 || body is None ==> shown_ip(Some((status, body))) is None,
        200 <= status <= 299 ==> (body matches Some(b) ==> shown_ip(Some((status, body)))
            == trace_ip(text::lines(b))),
{
}

/// The public address reads back from the first line that gives one, and without
/// such a line there is none.
pub proof fn the_public_address_reads_back(lines: Seq<Seq<char>>, k: int, ip: IpAddr)
    requires
        0 <= k <= lines.len(),
        k < lines.len() ==> text::trim(lines[k]) == "ip="@ + addr::ip_text(ip),
        forall|j: int| 0 <= j < k ==> !text::starts_with(text::trim(#[trigger] lines[j]), "ip="@),
    ensures
        trace_ip(lines) == (if k < lines.len() {
            Some(ip)
        } else {
            None
        }),
    decreases lines.len(),
{
    if k > 0 {
        assert(!text::starts_with(text::trim(lines[0]), "ip="@));
        let rest = lines.skip(1);
        assert forall|j: int| 0 <= j < k - 1 implies !text::starts_with(
            text::trim(#[trigger] rest[j]),
            "ip="@,
        ) by {
            assert(rest[j] == lines[j + 1]);
        }
        if k < lines.len() {
            assert(rest[k - 1] == lines[k]);
        }
        the_public_address_reads_back(rest, k - 1, ip);
    } else if k < lines.len() {
        let a = addr::ip_text(ip);
        let t = "ip="@ + a;
        assert(t.take("ip="@.len() as int) =~= "ip="@);
        assert(t.skip("ip="@.len() as int) =~= a);
        addr::an_address_reads_back(ip);
        addr::an_address_is_spelt_in_digits_points_and_colons(ip);
        assert(addr::in_address(a[0]) && addr::in_address(a[a.len() - 1]));
        assert(text::trim_start(a) == a);
        assert(text::trim_end(a) == a);
    }
}

/// A target is found under its label, at its own address.
pub proof fn a_target_is_found_under_its_label(targets: Seq<TargetView>, i: int)
    requires
        0 <= i < targets.len(),
        forall|j: int| 0 <= j < i ==> (#[trigger] targets[j]).label != targets[i].label,
    ensures
        find_addr(targets, targets[i].label) == Some(targets[i].addr),
    decreases targets.len(),
{
    if i > 0 {
        assert(targets[0].label != targets[i].label);
        let rest = targets.skip(1);
        assert(rest[i - 1] == targets[i]);
        assert forall|j: int| 0 <= j < i - 1 implies (#[trigger] rest[j]).label
            != rest[i - 1].label by {
            assert(rest[j] == targets[j + 1]);
        }
        a_target_is_found_under_its_label(rest, i - 1);
    }
}

} // verus!
