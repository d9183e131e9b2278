//! L7 DNS probe: does name resolution work, is it fast, and is it honest?
//!
//! Benchmarks the system resolver against Cloudflare and Google so we can tell
//! "DNS is down" from "your ISP's resolver is slow" from "everything's fine",
//! and names the resolvers it actually measured — "System: failed" is not much
//! use when you can't tell whether that's your router, a stale corporate
//! resolver or a VPN's.
//!
//! Speed alone is not health, though. A resolver that answers instantly with
//! the wrong address is the fastest one on the network, and grading only on
//! latency marks it green. So the answers are checked too.

use crate::addr;
use crate::addr::IpAddr;
use crate::model::path;
use crate::model::{Fault, Hop, HopId, Layer, Metric, Millis, Status};
use crate::number;
use crate::probe::net;
use crate::probe::net::warned;
use crate::text;
use vstd::prelude::*;

verus! {

broadcast use vstd::string::group_string_axioms;

/// The name that every resolver is asked for.
pub const QUERY: &'static str = "cloudflare.com.";

/// Ceiling for a single resolver in seconds, applied to *every* bench.
///
/// It has to be one number. Held to the resolver library's defaults (5 s over
/// 2 attempts, per configured nameserver) the system bench alone can run past
/// ten seconds — long enough to outlast every other probe in the sweep and to
/// break the live dashboard's re-probe cadence during exactly the DNS outage it
/// is meant to be showing you. And comparing a resolver measured under one
/// deadline against two measured under a tighter one is not a benchmark.
pub const QUERY_WAIT_SECS: u64 = 3;

/// One shot per resolver: a retry would double the ceiling, and "it didn't
/// answer the first time" is already the signal worth reporting.
pub const QUERY_ATTEMPTS: usize = 1;

/// Ceiling on the system bench *as a whole* in seconds, not per nameserver.
///
/// The wait applies to each configured nameserver in turn, so a host with three
/// or more — a VPN-pushed resolver plus two ISP fallbacks, or dual-stack pairs
/// — can still outrun the engine's per-probe deadline. The engine would then
/// report the whole hop as unmeasured, which is the worse of the two wrong
/// answers: a resolver that is merely slow becomes a gap in the evidence rather
/// than the finding it actually is.
///
/// Sized so the probe (whose benches all run concurrently) stays inside the
/// probe deadline with room to spare.
pub const SYSTEM_BENCH_BUDGET_SECS: u64 = 6;

/// Above this a resolver is slow enough to warn of, in milliseconds.
pub const WARN_MS: u32 = 80;

/// Up to this a resolver is fast, in milliseconds.
pub const FAST_MS: u32 = 50;

/// One resolver's answer.
#[derive(Debug, Clone)]
pub struct Bench {
    pub label: &'static str,
    pub latency: Option<Millis>,
    pub ok: bool,
    /// Addresses returned, so the *answer* can be checked and not just the
    /// clock.
    pub addrs: Vec<IpAddr>,
}

/// A resolver that answers, but not truthfully.
#[derive(Debug, Clone, Copy, PartialEq, Eq, Structural)]
pub enum Hijack {
    /// A name that cannot exist resolved anyway — the resolver is synthesising
    /// answers instead of returning NXDOMAIN.
    Nxdomain,
    /// A public name resolved to an address on a private network. Nothing
    /// legitimate does this for `cloudflare.com`; a portal or an interception
    /// appliance does.
    PrivateAnswer,
}

/// How long a resolver that answered took.
pub open spec fn answer_time(b: Bench) -> Option<Millis> {
    if b.ok {
        b.latency
    } else {
        None
    }
}

/// The subtitle: which resolvers are in use.
pub open spec fn resolvers_text(nameservers: Seq<IpAddr>) -> Seq<char> {
    if nameservers.len() == 0 {
        "system resolver"@
    } else if nameservers.len() == 1 {
        addr::ip_text(nameservers[0])
    } else {
        addr::ip_text(nameservers[0]) + " +"@ + number::decimal((nameservers.len() - 1) as nat)
            + " more"@
    }
}

/// Addresses as texts.
pub open spec fn ip_texts(ips: Seq<IpAddr>) -> Seq<Seq<char>> {
    ips.map_values(|ip: IpAddr| addr::ip_text(ip))
}

/// What a resolver's line says.
pub open spec fn bench_metric(b: Bench) -> path::MetricView {
    match answer_time(b) {
        Some(ms) => path::graded(
            b.label@,
            ms.whole() + " ms"@,
            net::warn_if(ms.exceeds(WARN_MS as nat)),
        ),
        None => path::graded(b.label@, "failed"@, Status::Fail),
    }
}

/// Some address in an answer cannot be public.
pub open spec fn has_private(ips: Seq<IpAddr>) -> bool {
    exists|i: int| 0 <= i < ips.len() && (#[trigger] ips[i]).not_public()
}

/// A resolver that answered with public addresses only.
pub open spec fn is_baseline(b: Bench) -> bool {
    b.ok && b.addrs@.len() > 0 && !has_private(b.addrs@)
}

/// Some of these resolvers is a public baseline.
pub open spec fn any_baseline(public: Seq<&Bench>) -> bool {
    exists|i: int| 0 <= i < public.len() && is_baseline(*#[trigger] public[i])
}

/// What the answers give away.
pub open spec fn hijack_of(system: Bench, public: Seq<&Bench>, synthesised: bool) -> Option<Hijack> {
    if any_baseline(public) && has_private(system.addrs@) {
        Some(Hijack::PrivateAnswer)
    } else if synthesised {
        Some(Hijack::Nxdomain)
    } else {
        None
    }
}

/// What the hop reports. A dead resolver outranks a dishonest one; otherwise
/// dishonesty is read before the clock.
pub open spec fn graded(
    hop: path::HopView,
    system: Bench,
    cf: Bench,
    google: Bench,
    hijacked: Option<Hijack>,
) -> path::HopView {
    match hijacked {
        Some(Hijack::PrivateAnswer) if system.ok => hop.failed(
            Fault::ResolverHijacked,
            "Your resolver is lying — it answers "@ + QUERY@
                + " with a private address, so something is intercepting your traffic"@,
        ),
        Some(Hijack::Nxdomain) if system.ok => hop.reporting(
            Status::Warn,
            Some(Fault::ResolverHijacked),
            "Your resolver invents answers for names that don't exist — NXDOMAIN hijacking, usually ISP ad/search redirection"@,
        ),
        _ => match answer_time(system) {
            Some(ms) => path::HopView {
                status: net::warn_if(ms.exceeds(WARN_MS as nat)),
                summary: Some(
                    if ms.exceeds(FAST_MS as nat) {
                        "Resolving but slow ("@ + ms.whole() + " ms)"@
                    } else {
                        "Resolving fast ("@ + ms.whole() + " ms)"@
                    },
                ),
                ..hop
            },
            None => hop.failed(
                Fault::ResolverDead,
                if cf.ok || google.ok {
                    "Your resolver gave no answer within "@ + number::decimal(
                        SYSTEM_BENCH_BUDGET_SECS as nat,
                    ) + "s, but public DNS works — misconfigured or unreachable resolver"@
                } else {
                    "Name resolution is failing everywhere"@
                },
            ),
        },
    }
}

/// How many of the three answered.
pub open spec fn answered(system: Bench, cf: Bench, google: Bench) -> nat {
    ((if system.ok {
        1int
    } else {
        0
    }) + (if cf.ok {
        1int
    } else {
        0
    }) + (if google.ok {
        1int
    } else {
        0
    })) as nat
}

/// The hop before it is graded.
pub open spec fn opening(
    nameservers: Seq<IpAddr>,
    system: Bench,
    cf: Bench,
    google: Bench,
) -> path::HopView {
    let listed = if nameservers.len() > 0 {
        seq![path::plain("Resolvers"@, text::join(ip_texts(nameservers), ", "@))]
    } else {
        seq![]
    };
    path::HopView {
        subtitle: Some(resolvers_text(nameservers)),
        latency_ms: system.latency,
        metrics: listed.push(bench_metric(system)).push(bench_metric(cf)).push(
            bench_metric(google),
        ),
        evidence: Some(
            QUERY@ + " asked of 3 resolvers under a "@ + number::decimal(QUERY_WAIT_SECS as nat)
                + "s deadline ("@ + number::decimal(answered(system, cf, google))
                + " answered), plus one nonexistent-name check"@,
        ),
        ..path::blank(HopId::Dns, Layer::Application, "DNS"@)
    }
}

/// Turn the resolver list into the hop's subtitle.
pub fn describe(nameservers: &[IpAddr]) -> (r: String)
    ensures
        r@ == resolvers_text(nameservers@),
{
    let n: usize = nameservers.len();
    if n == 0 {
        "system resolver".to_string()
    } else if n == 1 {
        addr::ip_to_string(nameservers[0])
    } else {
        text::cat4(
            addr::ip_to_string(nameservers[0]).as_str(),
            " +",
            number::decimal_of((n - 1) as u128).as_str(),
            " more",
        )
    }
}

fn ip_list(ips: &[IpAddr]) -> (r: Vec<String>)
    ensures
        text::texts(r@) == ip_texts(ips@),
{
    let ghost all = ip_texts(ips@);
    let mut out: Vec<String> = Vec::new();
    let mut i: usize = 0;
    while i < ips.len()
        invariant
            i <= ips@.len(),
            all == ip_texts(ips@),
            text::texts(out@) == all.take(i as int),
        decreases ips@.len() - i,
    {
        let ghost before = text::texts(out@);
        out.push(addr::ip_to_string(ips[i]));
        assert(text::texts(out@) =~= before.push(all[i as int]));
        i += 1;
        assert(all.take(i as int) =~= before.push(all[i - 1]));
    }
    assert(all.take(i as int) == all);
    out
}

/// Whether a resolver's time is healthy or worth a warning.
pub fn latency_status(ms: Millis) -> (r: Status)
    ensures
        r == net::warn_if(ms.exceeds(WARN_MS as nat)),
{
    warned(ms.more_than(WARN_MS))
}

fn metric_of(b: &Bench) -> (r: Metric)
    ensures
        r@ == bench_metric(*b),
{
    if b.ok {
        if let Some(ms) = b.latency {
            return Metric::new(
                b.label,
                text::cat2(ms.whole_text().as_str(), " ms").as_str(),
            ).with_status(latency_status(ms));
        }
    }
    Metric::new(b.label, "failed").with_status(Status::Fail)
}

/// Addresses that cannot legitimately be the answer for a public name.
pub fn is_private(ip: IpAddr) -> (r: bool)
    ensures
        r == ip.not_public(),
{
    match ip {
        IpAddr::V4(v4) => v4.is_not_public(),
        // Unique-local and link-local — the latter being the direct analogue
        // of the v4 169.254 case, and AAAA answers reach here through the same
        // path as A records.
        IpAddr::V6(v6) => v6.is_not_public(),
    }
}

fn any_private(ips: &Vec<IpAddr>) -> (r: bool)
    ensures
        r == has_private(ips@),
{
    let mut i: usize = 0;
    while i < ips.len()
        invariant
            i <= ips@.len(),
            forall|j: int| 0 <= j < i ==> !(#[trigger] ips@[j]).not_public(),
        decreases ips@.len() - i,
    {
        if is_private(ips[i]) {
            return true;
        }
        i += 1;
    }
    false
}

/// Compare the system resolver's *answer* against the public ones.
///
/// A public baseline is required before claiming substitution: without one we
/// cannot tell an interception appliance from a network where the name simply
/// resolves differently, and "your resolver is lying" is far too strong a claim
/// to make on a guess.
pub fn detect_hijack(system: &Bench, public: &[&Bench], synthesised: bool) -> (r: Option<Hijack>)
    ensures
        r == hijack_of(*system, public@, synthesised),
{
    let mut baseline = false;
    let mut i: usize = 0;
    while i < public.len()
        invariant
            i <= public@.len(),
            baseline == exists|j: int| 0 <= j < i && is_baseline(*#[trigger] public@[j]),
        decreases public@.len() - i,
    {
        let b = public[i];
        if b.ok && b.addrs.len() > 0 && !any_private(&b.addrs) {
            assert(is_baseline(*public@[i as int]));
            baseline = true;
        }
        i += 1;
    }
    if baseline && any_private(&system.addrs) {
        return Some(Hijack::PrivateAnswer);
    }
    if synthesised {
        Some(Hijack::Nxdomain)
    } else {
        None
    }
}

/// Decide what the hop reports.
pub fn grade(hop: &mut Hop, system: &Bench, cf: &Bench, google: &Bench, hijacked: Option<Hijack>)
    ensures
        final(hop)@ == graded(old(hop)@, *system, *cf, *google, hijacked),
{
    // A dead resolver outranks a dishonest one: "it answers wrongly" is not a
    // finding you can make about a resolver that didn't answer. The NXDOMAIN
    // check is a *separate* query from the bench, so with one attempt and no
    // retry the bench can time out while the bogus-name query still gets a
    // synthesised reply.
    //
    // Otherwise hijacking is checked before latency, because a hijacked
    // resolver is fast: it answers from a table instead of doing the work, and
    // grading on the clock alone marks the one resolver you must not trust as
    // the healthiest thing in the report.
    if system.ok {
        match hijacked {
            // Answers substituted for a public name: you are being intercepted,
            // which means you are not really online.
            Some(Hijack::PrivateAnswer) => {
                hop.fail(
                    Fault::ResolverHijacked,
                    text::cat3(
                        "Your resolver is lying — it answers ",
                        QUERY,
                        " with a private address, so something is intercepting your traffic",
                    ).as_str(),
                );
                return;
            },
            // Synthesised NXDOMAIN: typically ISP search/ad redirection. It is
            // dishonest and it breaks software that relies on NXDOMAIN, but the
            // network still works, so it is a warning and not a break.
            Some(Hijack::Nxdomain) => {
                hop.set_report(
                    Status::Warn,
                    Some(Fault::ResolverHijacked),
                    "Your resolver invents answers for names that don't exist — NXDOMAIN hijacking, usually ISP ad/search redirection",
                );
                return;
            },
            None => {},
        }
        // The system resolver is what your apps actually use — grade on it, but
        // use the public resolvers as context for the cause.
        if let Some(ms) = system.latency {
            hop.status = latency_status(ms);
            let whole = ms.whole_text();
            hop.summary = Some(
                if ms.more_than(FAST_MS) {
                    text::cat3("Resolving but slow (", whole.as_str(), " ms)")
                } else {
                    text::cat3("Resolving fast (", whole.as_str(), " ms)")
                },
            );
            return;
        }
    }
    // "No answer in time" rather than "dead": with several nameservers
    // configured, the budget can expire on a resolver that would have
    // answered from a later one. Slow past the point of usefulness is
    // still the honest description of that.
    let summary = if cf.ok || google.ok {
        text::cat3(
            "Your resolver gave no answer within ",
            number::decimal_of(SYSTEM_BENCH_BUDGET_SECS as u128).as_str(),
            "s, but public DNS works — misconfigured or unreachable resolver",
        )
    } else {
        "Name resolution is failing everywhere".to_string()
    };
    hop.fail(Fault::ResolverDead, summary.as_str());
}

/// A resolver that gave no answer.
pub fn failed(label: &'static str) -> (r: Bench)
    ensures
        r.label@ == label@,
        r.latency is None,
        !r.ok,
        r.addrs@.len() == 0,
{
    Bench { label, latency: None, ok: false, addrs: Vec::new() }
}

/// A resolver's bench from what it answered and how many nanoseconds it took;
/// no address is no answer.
pub fn time_lookup(label: &'static str, elapsed_ns: u64, addrs: Vec<IpAddr>) -> (r: Bench)
    ensures
        r.label@ == label@,
        r.ok == (addrs@.len() > 0),
        r.addrs@ == addrs@,
        r.latency == (if addrs@.len() > 0 {
            Some(Millis::of(elapsed_ns as int, 1))
        } else {
            None
        }),
{
    if addrs.len() == 0 {
        let r = failed(label);
        assert(r.addrs@ =~= addrs@);
        return r;
    }
    Bench { label, latency: Some(Millis::mean(elapsed_ns as u128, 1)), ok: true, addrs }
}

/// The hop that the three benches and the nonexistent-name check come to.
pub fn probe(
    nameservers: &[IpAddr],
    system: &Bench,
    cf: &Bench,
    google: &Bench,
    synthesised: bool,
) -> (r: Hop)
    ensures
        r@ == graded(
            opening(nameservers@, *system, *cf, *google),
            *system,
            *cf,
            *google,
            hijack_of(*system, seq![cf, google], synthesised),
        ),
{
    let mut hop = Hop::new(HopId::Dns, Layer::Application, "DNS");
    hop.subtitle = Some(describe(nameservers));
    hop.latency_ms = system.latency;
    if nameservers.len() > 0 {
        let names = ip_list(nameservers);
        hop.push_metric(Metric::new("Resolvers", text::joined(&names, ", ").as_str()));
    }
    hop.push_metric(metric_of(system));
    hop.push_metric(metric_of(cf));
    hop.push_metric(metric_of(google));
    let mut count: u128 = 0;
    if system.ok {
        count = count + 1;
    }
    if cf.ok {
        count = count + 1;
    }
    if google.ok {
        count = count + 1;
    }
    let head = text::cat4(
        QUERY,
        " asked of 3 resolvers under a ",
        number::decimal_of(QUERY_WAIT_SECS as u128).as_str(),
        "s deadline (",
    );
    hop.evidence = Some(
        text::cat3(
            head.as_str(),
            number::decimal_of(count).as_str(),
            " answered), plus one nonexistent-name check",
        ),
    );
    assert(hop@ =~= opening(nameservers@, *system, *cf, *google));
    let public: [&Bench; 2] = [cf, google];
    let hijacked = detect_hijack(system, &public, synthesised);
    assert(public@ =~= seq![cf, google]);
    grade(&mut hop, system, cf, google, hijacked);
    hop
}

// ---- the name that cannot exist ----

/// A per-run value. Sourced from the clock rather than a random generator: this
/// needs to be unpredictable to a resolver, not cryptographically random.
pub fn random_label(clock_ns: u64) -> (r: u64)
    ensures
        r == (clock_ns * 0x9e37_79b9_7f4a_7c15) % 0x1_0000_0000_0000_0000,
{
    clock_ns.wrapping_mul(0x9e37_79b9_7f4a_7c15)
}

/// A name that cannot exist.
///
/// The label varies rather than being a fixed sentinel, so a resolver cannot be
/// tuned to answer this specific probe honestly while hijacking everything
/// else, and so repeated runs can't be served from a cached answer.
pub fn nonexistent_name(label: u64) -> (r: String)
    ensures
        r@ == "wtfi-"@ + number::zero_padded(number::numeral(label as nat, 16), 16) + ".com."@,
{
    let mut digits: String = String::new();
    number::push_numeral(&mut digits, label as u128, 16);
    assert(digits@ =~= number::numeral(label as nat, 16));
    text::cat3("wtfi-", number::pad_zeros(digits.as_str(), 16).as_str(), ".com.")
}

// ---- laws ----

/// Without a public answer to compare with, no substitution is ever claimed.
pub proof fn no_baseline_no_substitution(system: Bench, public: Seq<&Bench>, synthesised: bool)
    requires
        !any_baseline(public),
    ensures
        hijack_of(system, public, synthesised) != Some(Hijack::PrivateAnswer),
{
}

/// A resolver that did not answer is reported dead, whatever another query
/// came to.
pub proof fn a_dead_resolver_outranks_a_dishonest_one(
    hop: path::HopView,
    system: Bench,
    cf: Bench,
    google: Bench,
    hijacked: Option<Hijack>,
)
    requires
        !system.ok,
    ensures
        graded(hop, system, cf, google, hijacked).status == Status::Fail,
        graded(hop, system, cf, google, hijacked).fault == Some(Fault::ResolverDead),
{
}

/// A resolver that lies is never called healthy, however fast it is.
pub proof fn a_fast_liar_is_not_healthy(
    hop: path::HopView,
    system: Bench,
    cf: Bench,
    google: Bench,
    hijacked: Hijack,
)
    requires
        system.ok,
    ensures
        graded(hop, system, cf, google, Some(hijacked)).status != Status::Healthy,
        graded(hop, system, cf, google, Some(hijacked)).fault == Some(Fault::ResolverHijacked),
{
}

/// A time of more than `ms` milliseconds.
pub open spec fn longer_than(t: Millis, ms: nat) -> bool {
    t.total() > ms * 1_000_000 * t.count()
}

/// The resolver in use answered with an address that no public name can have,
/// while a public resolver answered with public addresses only.
pub open spec fn substitutes(system: Bench, cf: Bench, google: Bench) -> bool {
    &&& exists|i: int| 0 <= i < system.addrs@.len() && (#[trigger] system.addrs@[i]).not_public()
    &&& honest(cf) || honest(google)
}

/// A resolver answered, with public addresses only.
pub open spec fn honest(b: Bench) -> bool {
    &&& b.ok
    &&& b.addrs@.len() > 0
    &&& forall|i: int| 0 <= i < b.addrs@.len() ==> !(#[trigger] b.addrs@[i]).not_public()
}

proof fn lemma_hijack(system: Bench, cf: &Bench, google: &Bench, synthesised: bool)
    ensures
        hijack_of(system, seq![cf, google], synthesised) == (if substitutes(
            system,
            *cf,
            *google,
        ) {
            Some(Hijack::PrivateAnswer)
        } else if synthesised {
            Some(Hijack::Nxdomain)
        } else {
            None
        }),
{
    let public = seq![cf, google];
    assert(public[0] == cf && public[1] == google);
    assert(honest(*cf) == is_baseline(*public[0]));
    assert(honest(*google) == is_baseline(*public[1]));
}

/// What a DNS hop reports follows from what was answered: a resolver that gave
/// no answer in time is dead and broken; one that answers a public name with a
/// private address is broken for its dishonesty, one that invents answers is
/// degraded for it; and one that is honest is degraded exactly when it took
/// more than eighty milliseconds, and healthy otherwise.
pub proof fn a_resolver_is_graded_on_its_answer_and_then_its_time(
    nameservers: Seq<IpAddr>,
    system: Bench,
    cf: &Bench,
    google: &Bench,
    synthesised: bool,
)
    ensures
        ({
            let hop = graded(
                opening(nameservers, system, *cf, *google),
                system,
                *cf,
                *google,
                hijack_of(system, seq![cf, google], synthesised),
            );
            let lies = substitutes(system, *cf, *google);
            let answers = system.ok && (lies || synthesised || system.latency is Some);
            &&& hop.id == HopId::Dns
            &&& hop.latency_ms == system.latency
            &&& hop.fault == Some(Fault::ResolverDead) <==> !answers
            &&& hop.fault == Some(Fault::ResolverHijacked) <==> system.ok && (lies || synthesised)
            &&& hop.status == Status::Fail <==> !answers || lies
            &&& hop.status == Status::Warn <==> answers && !lies && (synthesised || longer_than(
                system.latency->0,
                80,
            ))
            &&& hop.status == Status::Healthy <==> answers && !lies && !synthesised && !longer_than(
                system.latency->0,
                80,
            )
        }),
{
    lemma_hijack(system, cf, google, synthesised);
    if let Some(ms) = system.latency {
        assert(80 * (ms.count() * 1_000_000) == 80 * 1_000_000 * ms.count()) by (nonlinear_arith);
    }
}

/// Each resolver has its line, the one in use first: failed and broken when it
/// gave no answer, and otherwise worth a warning exactly when it took more than
/// eighty milliseconds. Where nothing but time counts, the hop is as bad as the
/// line of the resolver in use.
pub proof fn the_hop_reads_as_the_line_of_its_resolver(
    nameservers: Seq<IpAddr>,
    system: Bench,
    cf: &Bench,
    google: &Bench,
    synthesised: bool,
)
    ensures
        ({
            let hop = graded(
                opening(nameservers, system, *cf, *google),
                system,
                *cf,
                *google,
                hijack_of(system, seq![cf, google], synthesised),
            );
            let at: int = if nameservers.len() > 0 {
                1
            } else {
                0
            };
            &&& hop.metrics.len() == at + 3
            &&& line_of(hop.metrics[at], system)
            &&& line_of(hop.metrics[at + 1], *cf)
            &&& line_of(hop.metrics[at + 2], *google)
            &&& system.ok && !synthesised && !substitutes(system, *cf, *google)
                ==> hop.metrics[at].status == Some(hop.status)
        }),
{
    lemma_hijack(system, cf, google, synthesised);
    lemma_line(system);
    lemma_line(*cf);
    lemma_line(*google);
}

/// A line says how its resolver did.
pub open spec fn line_of(m: path::MetricView, b: Bench) -> bool {
    &&& m.label == b.label@
    &&& m.status == Some(
        if !b.ok || b.latency is None {
            Status::Fail
        } else if longer_than(b.latency->0, 80) {
            Status::Warn
        } else {
            Status::Healthy
        },
    )
    &&& m.value == (if !b.ok || b.latency is None {
        "failed"@
    } else {
        (b.latency->0).whole() + " ms"@
    })
}

proof fn lemma_line(b: Bench)
    ensures
        line_of(bench_metric(b), b),
{
    if let Some(ms) = b.latency {
        assert(80 * (ms.count() * 1_000_000) == 80 * 1_000_000 * ms.count()) by (nonlinear_arith);
    }
}

/// The subtitle names the resolver in use and counts the others.
pub proof fn the_resolver_in_use_is_named(nameservers: Seq<IpAddr>)
    ensures
        nameservers.len() == 0 ==> resolvers_text(nameservers) == "system resolver"@,
        nameservers.len() == 1 ==> resolvers_text(nameservers) == addr::ip_text(nameservers[0]),
        nameservers.len() > 1 ==> text::starts_with(
            resolvers_text(nameservers),
            addr::ip_text(nameservers[0]) + " +"@,
        ) && text::ends_with(
            resolvers_text(nameservers),
            number::decimal((nameservers.len() - 1) as nat) + " more"@,
        ),
{
    let open = addr::ip_text(nameservers[0]) + " +"@;
    let last = number::decimal((nameservers.len() - 1) as nat) + " more"@;
    if nameservers.len() > 1 {
        let s = resolvers_text(nameservers);
        assert(s =~= open + last);
        assert(s.take(open.len() as int) =~= open);
        assert(s.skip(s.len() - last.len()) =~= last);
    }
}

/// The evidence counts the resolvers that answered, and the hop is that of the
/// resolver; every server that is configured is listed.
pub proof fn the_answers_are_counted(
    nameservers: Seq<IpAddr>,
    system: Bench,
    cf: Bench,
    google: Bench,
    i: int,
)
    ensures
        ({
            let hop = opening(nameservers, system, cf, google);
            let n: nat = if system.ok && cf.ok && google.ok {
                3
            } else if (system.ok && cf.ok) || (system.ok && google.ok) || (cf.ok && google.ok) {
                2
            } else if system.ok || cf.ok || google.ok {
                1
            } else {
                0
            };
            &&& hop.id == HopId::Dns && hop.layer == Layer::Application
            &&& hop.evidence matches Some(said) && text::contains(
                said,
                "("@ + number::decimal(n) + " answered)"@,
            )
            &&& 0 <= i < nameservers.len() ==> hop.metrics[0].label == "Resolvers"@
                && text::contains(hop.metrics[0].value, addr::ip_text(nameservers[i]))
        }),
{
    let n = answered(system, cf, google);
    let said = opening(nameservers, system, cf, google).evidence->Some_0;
    let head = QUERY@ + " asked of 3 resolvers under a "@ + number::decimal(QUERY_WAIT_SECS as nat)
        + "s deadline "@;
    let shown = "("@ + number::decimal(n) + " answered)"@;
    reveal_strlit("s deadline (");
    reveal_strlit("s deadline ");
    reveal_strlit("(");
    reveal_strlit(" answered), plus one nonexistent-name check");
    reveal_strlit(" answered)");
    reveal_strlit(", plus one nonexistent-name check");
    assert("s deadline ("@ =~= "s deadline "@ + "("@);
    assert(" answered), plus one nonexistent-name check"@ =~= " answered)"@
        + ", plus one nonexistent-name check"@);
    assert(said =~= head + shown + ", plus one nonexistent-name check"@);
    text::lemma_contains_middle(head, shown, ", plus one nonexistent-name check"@);
    if 0 <= i < nameservers.len() {
        assert(ip_texts(nameservers)[i] == addr::ip_text(nameservers[i]));
        text::lemma_join_contains(ip_texts(nameservers), ", "@, i);
    }
}

/// An honest resolver is called fast exactly when it took no more than fifty
/// milliseconds; a dead one is set apart from name resolution failing everywhere
/// by whether a public resolver answered.
pub proof fn the_summary_tells_fast_from_slow_and_dead(
    hop: path::HopView,
    system: Bench,
    cf: Bench,
    google: Bench,
)
    ensures
        ({
            let said = graded(hop, system, cf, google, None).summary->Some_0;
            let alive = system.ok && system.latency is Some;
            &&& graded(hop, system, cf, google, None).summary is Some
            &&& alive ==> (text::starts_with(said, "Resolving fast ("@) <==> !longer_than(
                system.latency->0,
                50,
            ))
            &&& alive ==> (text::starts_with(said, "Resolving but slow ("@) <==> longer_than(
                system.latency->0,
                50,
            ))
            &&& alive ==> text::contains(said, (system.latency->0).whole() + " ms"@)
            &&& !alive && (cf.ok || google.ok) ==> text::contains(said, "but public DNS works"@)
            &&& !alive && !cf.ok && !google.ok ==> said == "Name resolution is failing everywhere"@
        }),
{
    if system.ok && system.latency is Some {
        let ms = system.latency->0;
        assert(50 * (ms.count() * 1_000_000) == 50 * 1_000_000 * ms.count()) by (nonlinear_arith);
        lemma_pace(ms.whole());
    } else if cf.ok || google.ok {
        let a = "Your resolver gave no answer within "@ + number::decimal(
            SYSTEM_BENCH_BUDGET_SECS as nat,
        ) + "s, "@;
        let m = "but public DNS works"@;
        let b = " — misconfigured or unreachable resolver"@;
        assert("s, but public DNS works — misconfigured or unreachable resolver"@ =~= "s, "@ + m
            + b) by {
            reveal_strlit("s, but public DNS works — misconfigured or unreachable resolver");
            reveal_strlit("s, ");
            reveal_strlit("but public DNS works");
            reveal_strlit(" — misconfigured or unreachable resolver");
        }
        assert(graded(hop, system, cf, google, None).summary->Some_0 =~= a + m + b);
        text::lemma_contains_middle(a, m, b);
    }
}

proof fn lemma_pace(ms: Seq<char>)
    ensures
        ({
            let fast = "Resolving fast ("@ + ms + " ms)"@;
            let slow = "Resolving but slow ("@ + ms + " ms)"@;
            &&& text::starts_with(fast, "Resolving fast ("@)
            &&& !text::starts_with(fast, "Resolving but slow ("@)
            &&& text::starts_with(slow, "Resolving but slow ("@)
            &&& !text::starts_with(slow, "Resolving fast ("@)
            &&& text::contains(fast, ms + " ms"@)
            &&& text::contains(slow, ms + " ms"@)
        }),
{
    let a = "Resolving fast ("@;
    let b = "Resolving but slow ("@;
    let fast = a + ms + " ms)"@;
    let slow = b + ms + " ms)"@;
    reveal_strlit("Resolving fast (");
    reveal_strlit("Resolving but slow (");
    reveal_strlit(" ms)");
    reveal_strlit(" ms");
    reveal_strlit(")");
    assert(fast.take(a.len() as int) =~= a);
    assert(slow.take(b.len() as int) =~= b);
    assert(a[10] == 'f' && b[10] == 'b');
    assert(fast[10] == 'f' && slow[10] == 'b');
    if text::starts_with(fast, b) {
        assert(fast.take(b.len() as int)[10] == fast[10]);
    }
    if text::starts_with(slow, a) {
        assert(slow.take(a.len() as int)[10] == slow[10]);
    }
    assert(fast =~= a + (ms + " ms"@) + ")"@);
    assert(slow =~= b + (ms + " ms"@) + ")"@);
    text::lemma_contains_middle(a, ms + " ms"@, ")"@);
    text::lemma_contains_middle(b, ms + " ms"@, ")"@);
}

} // verus!
