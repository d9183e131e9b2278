//! The path between your gateway and the internet.
//!
//! Everything from your modem through your ISP's access network and out across
//! transit would otherwise collapse into a single edge of the diagram. So when
//! the WAN probe found nothing reachable, the most wtfi could say would be "the
//! break is past your router" — which is the part you already knew, and leaves
//! the actual question (is it my equipment or theirs?) unanswered.
//!
//! A bounded TTL sweep turns that one edge back into hops. Where the replies
//! stop is where the path stops, and *which* hop that is decides who you should
//! be calling.
//!
//! Only runs when something upstream is already wrong: it costs seconds, and
//! on a healthy network it would only confirm what the WAN probe just proved.

use crate::addr;
use crate::addr::{IpAddr, Ipv4Addr};
use crate::model::path;
use crate::model::{Fault, Hop, HopId, Layer, Metric, Millis, Status};
use crate::number;
use crate::probe::net::warned;
use crate::text;
use vstd::prelude::*;
use vstd::slice::slice_subrange;

verus! {

broadcast use vstd::string::group_string_axioms;

/// Swept towards the same address the WAN probe treats as primary, so the two
/// findings describe one path rather than two.
pub const TARGET: &'static str = "1.1.1.1";

/// How far to look. Far enough to clear your own equipment and your ISP's edge
/// — which is where the answer lives — and no further: every unanswered hop
/// costs a full [`WAIT_SECS`], and the sweep has to fit inside the probe
/// deadline.
pub const MAX_TTL: u8 = 6;

/// One probe per hop. The question here is *where the path stops*, not how
/// good it is; quality is the WAN probe's job and it measures it properly.
pub const QUERIES: u8 = 1;

/// Seconds to wait per probe. Routers that answer at all answer quickly.
pub const WAIT_SECS: u8 = 1;

/// Ceiling on the whole probe in seconds, both sweeps included.
///
/// Has to sit under the engine's per-probe deadline: the sweep is what locates
/// the break, so being cut off mid-way is worst precisely when a break exists.
/// An all-silent sweep costs `MAX_TTL * WAIT_SECS`, so this leaves room for
/// process startup and little else — which is the point of the retry rule
/// rather than simply running two sweeps.
pub const BUDGET_SECS: u64 = 7;

/// Below this many seconds there isn't room for a sweep worth running, so the
/// retry is skipped rather than started and truncated.
pub const MIN_SWEEP_SECS: u64 = 2;

/// One time-to-live step of the sweep.
#[derive(Debug, Clone, Copy)]
pub struct TtlHop {
    pub ttl: u8,
    /// Who answered, or `None` when the hop stayed silent.
    pub addr: Option<IpAddr>,
    pub rtt_ms: Option<Millis>,
}

// ---- the sweep ----

/// The arguments of a sweep: over ICMP, or over UDP.
///
/// ICMP comes first: high-port UDP, which traceroute uses by default, is
/// dropped by plenty of NATs and firewalls that pass ICMP perfectly well — and
/// a sweep that dies at hop 1 because of the probe protocol would invent the
/// exact fault this module exists to locate.
pub fn sweep_args(echo: bool) -> (r: Vec<String>)
    ensures
        text::texts(r@) == seq![
            "-n"@,
            "-m"@,
            number::decimal(MAX_TTL as nat),
            "-q"@,
            number::decimal(QUERIES as nat),
            "-w"@,
            number::decimal(WAIT_SECS as nat),
        ] + (if echo {
            seq!["-P"@, "icmp"@]
        } else {
            seq![]
        }) + seq![TARGET@],
{
    let mut args: Vec<String> = Vec::new();
    args.push("-n".to_string());
    args.push("-m".to_string());
    args.push(number::decimal_of(MAX_TTL as u128));
    args.push("-q".to_string());
    args.push(number::decimal_of(QUERIES as u128));
    args.push("-w".to_string());
    args.push(number::decimal_of(WAIT_SECS as u128));
    if echo {
        args.push("-P".to_string());
        args.push("icmp".to_string());
    }
    args.push(TARGET.to_string());
    args
}

/// How long another sweep may take, in nanoseconds, `elapsed_ns` into the
/// probe; `None` when there is no room for one worth running.
pub fn retry_allowance(elapsed_ns: u64) -> (r: Option<u64>)
    ensures
        match r {
            Some(left) => left == BUDGET_SECS * 1_000_000_000 - elapsed_ns && left
                >= MIN_SWEEP_SECS * 1_000_000_000,
            None => BUDGET_SECS * 1_000_000_000 - elapsed_ns < MIN_SWEEP_SECS * 1_000_000_000,
        },
{
    let budget: u64 = BUDGET_SECS * 1_000_000_000;
    if elapsed_ns > budget || budget - elapsed_ns < MIN_SWEEP_SECS * 1_000_000_000 {
        None
    } else {
        Some(budget - elapsed_ns)
    }
}

/// The sweep to run next, if any: whether it goes over ICMP, and how long it
/// may take in nanoseconds, after `swept` sweeps of which the last found `hops`.
///
/// The first always runs. A retry over UDP needs room for a sweep worth
/// running: one that produced nothing because the flag was refused fails in
/// milliseconds; one that produced nothing because every hop stayed silent has
/// already spent the budget, and running it again would only overrun the
/// deadline to re-learn the same silence.
pub fn next_sweep(swept: usize, hops: &[TtlHop], elapsed_ns: u64) -> (r: Option<(bool, u64)>)
    ensures
        r == (if swept == 0 {
            Some(
                (
                    true,
                    if elapsed_ns < BUDGET_SECS * 1_000_000_000 {
                        (BUDGET_SECS * 1_000_000_000 - elapsed_ns) as u64
                    } else {
                        0
                    },
                ),
            )
        } else if swept == 1 && hops@.len() == 0 && BUDGET_SECS * 1_000_000_000 - elapsed_ns
            >= MIN_SWEEP_SECS * 1_000_000_000 {
            Some((false, (BUDGET_SECS * 1_000_000_000 - elapsed_ns) as u64))
        } else {
            None
        }),
{
    if swept == 0 {
        let budget: u64 = BUDGET_SECS * 1_000_000_000;
        return Some(
            (
                true,
                if elapsed_ns < budget {
                    budget - elapsed_ns
                } else {
                    0
                },
            ),
        );
    }
    if swept == 1 && hops.len() == 0 {
        return match retry_allowance(elapsed_ns) {
            Some(left) => Some((false, left)),
            None => None,
        };
    }
    None
}

// ---- reading it ----

/// A round bracket.
pub open spec fn bracket(c: char) -> bool {
    c == '(' || c == ')'
}

/// `s` without round brackets at its start.
pub open spec fn unbracket_start(s: Seq<char>) -> Seq<char>
    decreases s.len(),
{
    if s.len() > 0 && bracket(s[0]) {
        unbracket_start(s.skip(1))
    } else {
        s
    }
}

/// `s` without round brackets at its end.
pub open spec fn unbracket_end(s: Seq<char>) -> Seq<char>
    decreases s.len(),
{
    if s.len() > 0 && bracket(s.last()) {
        unbracket_end(s.drop_last())
    } else {
        s
    }
}

/// The address that a token holds, in brackets or not.
pub open spec fn addr_token(tok: Seq<char>) -> Option<IpAddr> {
    addr::ip_value(unbracket_end(unbracket_start(tok)))
}

/// The first address among the tokens.
pub open spec fn first_addr(toks: Seq<Seq<char>>) -> Option<IpAddr>
    decreases toks.len(),
{
    if toks.len() == 0 {
        None
    } else if addr_token(toks[0]) is Some {
        addr_token(toks[0])
    } else {
        first_addr(toks.skip(1))
    }
}

/// The round trip: whatever precedes the first `ms`, in nanoseconds.
/// Annotations traceroute appends after it (`!H`, `!N`, `!`) are deliberately
/// ignored: they qualify *how* a hop replied, and for locating where the path
/// stops, a reply is a reply.
pub open spec fn first_rtt(toks: Seq<Seq<char>>) -> Option<i64>
    decreases toks.len(),
{
    if toks.len() < 2 {
        None
    } else if toks[1] == "ms"@ {
        number::millionths_value(toks[0])
    } else {
        first_rtt(toks.skip(1))
    }
}

/// A time in milliseconds, from nanoseconds.
pub open spec fn as_millis(ns: Option<i64>) -> Option<Millis> {
    match ns {
        Some(n) => Some(Millis::of(n as int, 1)),
        None => None,
    }
}

/// The step that a line reports. The header line has no leading hop number, so
/// requiring one skips it without a special case.
pub open spec fn step_of(line: Seq<char>) -> Option<TtlHop> {
    let toks = text::words(line);
    if toks.len() == 0 {
        None
    } else {
        match number::unsigned_value(toks[0], 10, 255) {
            Some(ttl) => Some(
                TtlHop {
                    ttl: ttl as u8,
                    addr: first_addr(toks.skip(1)),
                    rtt_ms: as_millis(first_rtt(toks.skip(1))),
                },
            ),
            None => None,
        }
    }
}

/// The steps that these lines report.
pub open spec fn steps_of(lines: Seq<Seq<char>>) -> Seq<TtlHop>
    decreases lines.len(),
{
    if lines.len() == 0 {
        seq![]
    } else {
        match step_of(lines.last()) {
            Some(s) => steps_of(lines.drop_last()).push(s),
            None => steps_of(lines.drop_last()),
        }
    }
}

/// Addresses are bare under `-n`, but tolerate the parenthesised form so a
/// sweep that somehow ran without it still parses.
fn parse_addr(tok: &[char]) -> (r: Option<IpAddr>)
    ensures
        r == addr_token(tok@),
{
    let mut a: usize = 0;
    assert(tok@.skip(0) == tok@);
    while a < tok.len() && (tok[a] == '(' || tok[a] == ')')
        invariant
            a <= tok@.len(),
            unbracket_start(tok@) == unbracket_start(tok@.skip(a as int)),
        decreases tok@.len() - a,
    {
        assert(tok@.skip(a as int).skip(1) == tok@.skip(a + 1));
        a += 1;
    }
    let rest = slice_subrange(tok, a, tok.len());
    assert(rest@ == tok@.skip(a as int));
    let mut n: usize = rest.len();
    assert(rest@.take(n as int) == rest@);
    while n > 0 && (rest[n - 1] == '(' || rest[n - 1] == ')')
        invariant
            n <= rest@.len(),
            unbracket_end(rest@) == unbracket_end(rest@.take(n as int)),
        decreases n,
    {
        assert(rest@.take(n as int).drop_last() == rest@.take(n - 1));
        n -= 1;
    }
    let body = slice_subrange(rest, 0, n);
    assert(body@ == rest@.take(n as int));
    addr::parse_ip(body)
}

fn read_addr(toks: &Vec<&[char]>) -> (r: Option<IpAddr>)
    requires
        toks@.len() > 0,
    ensures
        r == first_addr(text::views(toks@).skip(1)),
{
    let ghost all = text::views(toks@);
    let mut i: usize = 1;
    while i < toks.len()
        invariant
            1 <= i <= toks@.len(),
            all == text::views(toks@),
            first_addr(all.skip(1)) == first_addr(all.skip(i as int)),
        decreases toks@.len() - i,
    {
        assert(all.skip(i as int).skip(1) == all.skip(i + 1));
        assert(all.skip(i as int)[0] == toks@[i as int]@);
        let ip = parse_addr(toks[i]);
        if ip.is_some() {
            return ip;
        }
        i += 1;
    }
    None
}

fn read_rtt(toks: &Vec<&[char]>) -> (r: Option<i64>)
    requires
        toks@.len() > 0,
    ensures
        r == first_rtt(text::views(toks@).skip(1)),
{
    let ghost all = text::views(toks@);
    let n: usize = toks.len();
    let mut i: usize = 1;
    while i < n && i + 1 < n
        invariant
            1 <= i <= n,
            n == toks@.len(),
            all == text::views(toks@),
            first_rtt(all.skip(1)) == first_rtt(all.skip(i as int)),
        decreases n - i,
    {
        assert(all.skip(i as int).skip(1) == all.skip(i + 1));
        assert(all.skip(i as int)[0] == toks@[i as int]@);
        assert(all.skip(i as int)[1] == toks@[i + 1]@);
        if text::text_is(toks[i + 1], "ms") {
            return number::read_millionths(toks[i]);
        }
        i += 1;
    }
    None
}

fn read_step(line: &[char]) -> (r: Option<TtlHop>)
    ensures
        r == step_of(line@),
{
    let toks = text::words_of(line);
    assert(text::views(toks@).len() == toks@.len());
    if toks.len() == 0 {
        return None;
    }
    assert(text::views(toks@)[0] == toks@[0]@);
    match number::read_unsigned(toks[0], 10, 255) {
        Some(ttl) => {
            let rtt_ms = match read_rtt(&toks) {
                Some(n) => Some(Millis::from_nanos(n)),
                None => None,
            };
            Some(TtlHop { ttl: ttl as u8, addr: read_addr(&toks), rtt_ms })
        },
        None => None,
    }
}

/// Parse `traceroute -n` output. It is read regardless of exit status:
/// traceroute exits non-zero when it never reaches the target, which is
/// precisely the run whose output we want.
///
/// ```text
/// traceroute to 1.1.1.1 (1.1.1.1), 6 hops max, 52 byte packets
///  1  192.168.0.1  3.456 ms
///  2  203.0.113.1  12.345 ms
///  3  *
/// ```
pub fn parse(output: &str) -> (r: Vec<TtlHop>)
    ensures
        r@ == steps_of(text::lines(output@)),
{
    let chars = text::chars_of(output);
    let lines = text::lines_of(chars.as_slice());
    let ghost all = text::views(lines@);
    let mut out: Vec<TtlHop> = Vec::new();
    let mut i: usize = 0;
    while i < lines.len()
        invariant
            i <= lines@.len(),
            all == text::views(lines@),
            out@ == steps_of(all.take(i as int)),
        decreases lines@.len() - i,
    {
        assert(all.take(i + 1).drop_last() == all.take(i as int));
        assert(all[i as int] == lines@[i as int]@);
        if let Some(s) = read_step(lines[i]) {
            out.push(s);
        }
        i += 1;
    }
    assert(all.take(i as int) == all);
    out
}

// ---- the hop ----

/// What a step's line says.
pub open spec fn step_metric(h: TtlHop) -> path::MetricView {
    path::graded(
        "hop "@ + number::decimal(h.ttl as nat),
        match (h.addr, h.rtt_ms) {
            (Some(ip), Some(ms)) => addr::ip_text(ip) + "  "@ + ms.tenths() + " ms"@,
            (Some(ip), None) => addr::ip_text(ip),
            (None, _) => "*"@,
        },
        if h.addr is Some {
            Status::Healthy
        } else {
            Status::Warn
        },
    )
}

/// What the steps' lines say.
pub open spec fn step_metrics(hops: Seq<TtlHop>) -> Seq<path::MetricView> {
    hops.map_values(|h: TtlHop| step_metric(h))
}

/// The target answered at some step.
pub open spec fn reached(hops: Seq<TtlHop>, target: IpAddr) -> bool {
    exists|i: int| 0 <= i < hops.len() && (#[trigger] hops[i]).addr == Some(target)
}

/// The last step that answered.
pub open spec fn last_reply(hops: Seq<TtlHop>) -> Option<TtlHop>
    decreases hops.len(),
{
    if hops.len() == 0 {
        None
    } else if hops.last().addr is Some {
        Some(hops.last())
    } else {
        last_reply(hops.drop_last())
    }
}

/// The last round trip.
pub open spec fn last_rtt(hops: Seq<TtlHop>) -> Option<Millis>
    decreases hops.len(),
{
    if hops.len() == 0 {
        None
    } else if hops.last().rtt_ms is Some {
        hops.last().rtt_ms
    } else {
        last_rtt(hops.drop_last())
    }
}

/// How many steps were silent after this one.
pub open spec fn silent_after(hops: Seq<TtlHop>, ttl: u8) -> nat {
    if hops.len() >= ttl {
        (hops.len() - ttl) as nat
    } else {
        0
    }
}

/// Where the path stops. Step 1 is your own router: when it answered and
/// nothing beyond it did, the break is on the link between your router and your
/// provider. Replies that got further stopped inside the provider's network.
pub open spec fn graded(hop: path::HopView, hops: Seq<TtlHop>, target: IpAddr) -> path::HopView {
    let shown = path::HopView { metrics: hop.metrics + step_metrics(hops), ..hop };
    if hops.len() == 0 {
        shown.reporting(
            Status::Warn,
            Some(Fault::Unobserved),
            "Couldn't trace the path — traceroute produced nothing"@,
        )
    } else if reached(hops, target) {
        path::HopView {
            status: Status::Healthy,
            latency_ms: last_rtt(hops),
            summary: Some(
                "Path to "@ + addr::ip_text(target) + " is intact over "@ + number::decimal(
                    hops.len(),
                )
                    + " hops — the route is fine, so the failure is specific to what was tested"@,
            ),
            ..shown
        }
    } else {
        match last_reply(hops) {
            None => shown.reporting(
                Status::Warn,
                Some(Fault::Unobserved),
                "No hop answered the trace, including your own router — nothing to locate"@,
            ),
            Some(last) => {
                let who = addr::ip_text(last.addr->0);
                let silent = number::decimal(silent_after(hops, last.ttl));
                if last.ttl <= 1 {
                    shown.failed(
                        Fault::UplinkDiesAtModem,
                        "Dies immediately past your router — "@ + who
                            + " replied at hop 1 and nothing beyond it did, over "@ + silent
                            + " further hops"@,
                    )
                } else {
                    shown.failed(
                        Fault::UplinkDiesInIsp,
                        "Dies past hop "@ + number::decimal(last.ttl as nat)
                            + " — the last reply came from "@ + who + ", then "@ + silent
                            + " hops of silence"@,
                    )
                }
            },
        }
    }
}

fn show_steps(hop: &mut Hop, hops: &[TtlHop])
    ensures
        final(hop)@ == (path::HopView {
            metrics: old(hop)@.metrics + step_metrics(hops@),
            ..old(hop)@
        }),
{
    let ghost start = hop@;
    let ghost all = step_metrics(hops@);
    let mut i: usize = 0;
    assert(start.metrics + all.take(0) =~= start.metrics);
    while i < hops.len()
        invariant
            i <= hops@.len(),
            all == step_metrics(hops@),
            hop@ == (path::HopView { metrics: start.metrics + all.take(i as int), ..start }),
        decreases hops@.len() - i,
    {
        let h = hops[i];
        let value = match (h.addr, h.rtt_ms) {
            (Some(ip), Some(ms)) => text::cat4(
                addr::ip_to_string(ip).as_str(),
                "  ",
                ms.tenths_text().as_str(),
                " ms",
            ),
            (Some(ip), None) => addr::ip_to_string(ip),
            (None, _) => "*".to_string(),
        };
        let label = text::cat2("hop ", number::decimal_of(h.ttl as u128).as_str());
        hop.push_metric(
            Metric::new(label.as_str(), value.as_str()).with_status(warned(h.addr.is_none())),
        );
        i += 1;
        assert(start.metrics + all.take(i as int) =~= (start.metrics + all.take(i - 1)).push(
            all[i - 1],
        ));
    }
    assert(all.take(i as int) == all);
}

fn reaches(hops: &[TtlHop], target: IpAddr) -> (r: bool)
    ensures
        r == reached(hops@, target),
{
    let mut i: usize = 0;
    while i < hops.len()
        invariant
            i <= hops@.len(),
            forall|j: int| 0 <= j < i ==> (#[trigger] hops@[j]).addr != Some(target),
        decreases hops@.len() - i,
    {
        if let Some(ip) = hops[i].addr {
            if ip == target {
                return true;
            }
        }
        i += 1;
    }
    false
}

fn final_rtt(hops: &[TtlHop]) -> (r: Option<Millis>)
    ensures
        r == last_rtt(hops@),
{
    let mut n: usize = hops.len();
    assert(hops@.take(n as int) == hops@);
    while n > 0
        invariant
            n <= hops@.len(),
            last_rtt(hops@) == last_rtt(hops@.take(n as int)),
        decreases n,
    {
        assert(hops@.take(n as int).drop_last() == hops@.take(n - 1));
        if hops[n - 1].rtt_ms.is_some() {
            return hops[n - 1].rtt_ms;
        }
        n -= 1;
    }
    None
}

fn final_reply(hops: &[TtlHop]) -> (r: Option<(u8, IpAddr)>)
    ensures
        match r {
            Some((ttl, ip)) => last_reply(hops@) matches Some(h) && h.ttl == ttl && h.addr == Some(
                ip,
            ),
            None => last_reply(hops@) is None,
        },
{
    let mut n: usize = hops.len();
    assert(hops@.take(n as int) == hops@);
    while n > 0
        invariant
            n <= hops@.len(),
            last_reply(hops@) == last_reply(hops@.take(n as int)),
        decreases n,
    {
        assert(hops@.take(n as int).drop_last() == hops@.take(n - 1));
        let h = hops[n - 1];
        if let Some(ip) = h.addr {
            return Some((h.ttl, ip));
        }
        n -= 1;
    }
    None
}

/// Turn the sweep into a verdict about where the path stops.
pub fn grade(hop: &mut Hop, hops: &[TtlHop], target: IpAddr)
    ensures
        final(hop)@ == graded(old(hop)@, hops@, target),
{
    show_steps(hop, hops);
    let count: usize = hops.len();
    if count == 0 {
        hop.set_report(
            Status::Warn,
            Some(Fault::Unobserved),
            "Couldn't trace the path — traceroute produced nothing",
        );
        return;
    }
    if reaches(hops, target) {
        // The path is intact all the way to the target, so whatever the WAN
        // probe hit is specific to the service rather than to the route.
        hop.status = Status::Healthy;
        hop.latency_ms = final_rtt(hops);
        hop.summary = Some(
            text::cat5(
                "Path to ",
                addr::ip_to_string(target).as_str(),
                " is intact over ",
                number::decimal_of(count as u128).as_str(),
                " hops — the route is fine, so the failure is specific to what was tested",
            ),
        );
        return;
    }
    match final_reply(hops) {
        // Not even the first hop answered. That is your own router, and the
        // gateway probe owns that verdict — say what was seen and let it.
        None => hop.set_report(
            Status::Warn,
            Some(Fault::Unobserved),
            "No hop answered the trace, including your own router — nothing to locate",
        ),
        Some((ttl, ip)) => {
            let who = addr::ip_to_string(ip);
            let left: usize = if count >= ttl as usize {
                count - ttl as usize
            } else {
                0
            };
            let silent = number::decimal_of(left as u128);
            if ttl <= 1 {
                // Hop 1 is your own router, and it answered. Nothing beyond it
                // did, so the break is on the link between your router and your
                // provider — the modem/ONU, the WAN cable, or the line itself.
                hop.fail(
                    Fault::UplinkDiesAtModem,
                    text::cat5(
                        "Dies immediately past your router — ",
                        who.as_str(),
                        " replied at hop 1 and nothing beyond it did, over ",
                        silent.as_str(),
                        " further hops",
                    ).as_str(),
                );
            } else {
                // Replies got somewhere inside the provider's network and
                // stopped. That is the strongest statement this tool can make
                // about whose equipment is at fault, and it is a statement
                // worth quoting to them.
                let head = text::cat4(
                    "Dies past hop ",
                    number::decimal_of(ttl as u128).as_str(),
                    " — the last reply came from ",
                    who.as_str(),
                );
                hop.fail(
                    Fault::UplinkDiesInIsp,
                    text::cat4(head.as_str(), ", then ", silent.as_str(), " hops of silence").as_str(),
                );
            }
        },
    }
}

/// The address that [`TARGET`] spells.
pub open spec fn target_ip() -> IpAddr {
    IpAddr::V4(Ipv4Addr { a: 1, b: 1, c: 1, d: 1 })
}

/// The hop that a sweep comes to.
pub fn probe(hops: &[TtlHop]) -> (r: Hop)
    ensures
        r@ == graded(
            path::HopView {
                subtitle: Some("path to "@ + TARGET@),
                ..path::blank(HopId::Uplink, Layer::Internet, "Uplink"@)
            },
            hops@,
            target_ip(),
        ),
{
    let mut hop = Hop::new(HopId::Uplink, Layer::Internet, "Uplink");
    hop.subtitle = Some(text::cat2("path to ", TARGET));
    grade(&mut hop, hops, IpAddr::V4(Ipv4Addr::new(1, 1, 1, 1)));
    hop
}

// ---- laws ----

/// A break is located only where a step answered and the target did not, and
/// at the modem exactly when nothing past the first step answered.
pub proof fn a_break_is_located_by_the_last_reply(
    hop: path::HopView,
    hops: Seq<TtlHop>,
    target: IpAddr,
)
    ensures
        graded(hop, hops, target).status == Status::Fail <==> !reached(hops, target) && last_reply(
            hops,
        ) is Some,
        graded(hop, hops, target).status == Status::Fail ==> (graded(hop, hops, target).fault
            == Some(Fault::UplinkDiesAtModem) <==> (last_reply(hops)->0).ttl <= 1),
{
}

/// A sweep in which every step stays silent still fits the budget at its full
/// depth, and leaves no room for a retry.
pub proof fn a_silent_sweep_fits_and_is_not_repeated()
    ensures
        MAX_TTL * WAIT_SECS < BUDGET_SECS,
        BUDGET_SECS - MAX_TTL * WAIT_SECS < MIN_SWEEP_SECS,
{
}

/// The address that a sweep is held to is the one that it asks for.
pub proof fn the_target_is_the_one_asked_for()
    ensures
        addr::ip_value(TARGET@) == Some(target_ip()),
{
    reveal_strlit("1.1.1.1");
    assert(number::decimal(1) =~= seq!['1']);
    assert(TARGET@ =~= addr::ip_text(target_ip()));
    addr::an_address_reads_back(target_ip());
}

/// Step `k` is the last that answered.
pub open spec fn answers_last(hops: Seq<TtlHop>, k: int) -> bool {
    &&& 0 <= k < hops.len()
    &&& hops[k].addr is Some
    &&& forall|j: int| k < j < hops.len() ==> (#[trigger] hops[j]).addr is None
}

proof fn lemma_last_reply(hops: Seq<TtlHop>, k: int)
    requires
        answers_last(hops, k),
    ensures
        last_reply(hops) == Some(hops[k]),
    decreases hops.len(),
{
    let n = hops.len() - 1;
    if k < n {
        assert(hops[n].addr is None);
        let fewer = hops.drop_last();
        assert forall|j: int| k < j < fewer.len() implies (#[trigger] fewer[j]).addr is None by {
            assert(hops[j].addr is None);
        }
        lemma_last_reply(fewer, k);
    }
}

proof fn lemma_no_reply(hops: Seq<TtlHop>)
    requires
        forall|j: int| 0 <= j < hops.len() ==> (#[trigger] hops[j]).addr is None,
    ensures
        last_reply(hops) is None,
    decreases hops.len(),
{
    if hops.len() > 0 {
        let fewer = hops.drop_last();
        assert(hops[hops.len() - 1].addr is None);
        assert forall|j: int| 0 <= j < fewer.len() implies (#[trigger] fewer[j]).addr is None by {
            assert(hops[j].addr is None);
        }
        lemma_no_reply(fewer);
    }
}

/// A path that stops short of the target is broken, and where: on the line when
/// your own router was the last to answer, and inside the provider's network
/// when a later step was. Who answered last is named.
pub proof fn a_path_dies_behind_the_last_to_answer(
    hop: path::HopView,
    hops: Seq<TtlHop>,
    target: IpAddr,
    k: int,
)
    requires
        answers_last(hops, k),
        forall|j: int| 0 <= j < hops.len() ==> (#[trigger] hops[j]).addr != Some(target),
    ensures
        graded(hop, hops, target).status == Status::Fail,
        graded(hop, hops, target).fault == Some(
            if hops[k].ttl <= 1 {
                Fault::UplinkDiesAtModem
            } else {
                Fault::UplinkDiesInIsp
            },
        ),
        graded(hop, hops, target).summary matches Some(s) && text::contains(
            s,
            addr::ip_text(hops[k].addr->0),
        ),
{
    lemma_last_reply(hops, k);
    let who = addr::ip_text(hops[k].addr->0);
    let silent = number::decimal(silent_after(hops, hops[k].ttl));
    let tail = " replied at hop 1 and nothing beyond it did, over "@ + silent + " further hops"@;
    let s = (graded(hop, hops, target).summary)->0;
    if hops[k].ttl <= 1 {
        text::lemma_contains_middle("Dies immediately past your router — "@, who, tail);
        assert(s =~= "Dies immediately past your router — "@ + who + tail);
    } else {
        let head = "Dies past hop "@ + number::decimal(hops[k].ttl as nat)
            + " — the last reply came from "@;
        let rest = ", then "@ + silent + " hops of silence"@;
        text::lemma_contains_middle(head, who, rest);
        assert(s =~= head + who + rest);
    }
}

/// A path on which the target answered is intact, and one of which nothing was
/// seen, not even your own router, is unknown and no break.
pub proof fn a_path_is_intact_or_unseen_otherwise(
    hop: path::HopView,
    hops: Seq<TtlHop>,
    target: IpAddr,
)
    ensures
        (exists|j: int| 0 <= j < hops.len() && (#[trigger] hops[j]).addr == Some(target))
            ==> graded(hop, hops, target).status == Status::Healthy && graded(
            hop,
            hops,
            target,
        ).fault == hop.fault,
        (forall|j: int| 0 <= j < hops.len() ==> (#[trigger] hops[j]).addr is None) ==> graded(
            hop,
            hops,
            target,
        ).status == Status::Warn && graded(hop, hops, target).fault == Some(Fault::Unobserved),
{
    if forall|j: int| 0 <= j < hops.len() ==> (#[trigger] hops[j]).addr is None {
        lemma_no_reply(hops);
        assert(!reached(hops, target));
    }
}

/// Every step has its line, behind those that the hop had: what answered, or a
/// star, and a warning exactly where nothing did.
pub proof fn every_step_has_its_line(
    hop: path::HopView,
    hops: Seq<TtlHop>,
    target: IpAddr,
    i: int,
)
    requires
        0 <= i < hops.len(),
    ensures
        ({
            let m = graded(hop, hops, target).metrics[hop.metrics.len() + i];
            &&& m.label == "hop "@ + number::decimal(hops[i].ttl as nat)
            &&& hops[i].addr is None ==> m.value == "*"@ && m.status == Some(Status::Warn)
            &&& hops[i].addr matches Some(ip) ==> m.status == Some(Status::Healthy)
                && text::starts_with(m.value, addr::ip_text(ip))
        }),
{
    let shown = step_metrics(hops);
    assert((hop.metrics + shown)[hop.metrics.len() + i] == shown[i]);
    if let Some(ip) = hops[i].addr {
        let who = addr::ip_text(ip);
        assert(step_metric(hops[i]).value.take(who.len() as int) =~= who);
    }
}

/// The lines of a trace are read in order, each that begins with a number as a
/// step with that number, and no other.
pub proof fn each_numbered_line_is_a_step(lines: Seq<Seq<char>>, line: Seq<char>)
    ensures
        steps_of(Seq::empty()) == Seq::<TtlHop>::empty(),
        ({
            let toks = text::words(line);
            let numbered = toks.len() > 0 && number::unsigned_value(toks[0], 10, 255) is Some;
            &&& !numbered ==> steps_of(lines.push(line)) == steps_of(lines)
            &&& numbered ==> steps_of(lines.push(line)).len() == steps_of(lines).len() + 1
                && steps_of(lines.push(line)).drop_last() == steps_of(lines) && steps_of(
                lines.push(line),
            ).last().ttl == number::unsigned_value(toks[0], 10, 255)->0
        }),
{
    assert(lines.push(line).drop_last() =~= lines);
    if let Some(s) = step_of(line) {
        assert(steps_of(lines).push(s).drop_last() =~= steps_of(lines));
    }
}

/// A step that stayed silent has neither an address nor a time.
pub proof fn a_star_is_silence(line: Seq<char>, ttl: u8)
    requires
        text::words(line).len() == 2,
        number::unsigned_value(text::words(line)[0], 10, 255) == Some(ttl as nat),
        text::words(line)[1] == "*"@,
    ensures
        step_of(line) == Some(TtlHop { ttl, addr: None, rtt_ms: None }),
{
    reveal_strlit("*");
    let toks = text::words(line).skip(1);
    assert(toks.len() == 1 && toks[0] == "*"@);
    assert(unbracket_start("*"@) == "*"@);
    assert(unbracket_end("*"@) == "*"@);
    addr::a_star_is_no_address();
    assert(addr_token(toks[0]) is None);
    assert(first_addr(toks.skip(1)) is None);
    assert(first_addr(toks) is None);
    assert(first_rtt(toks) is None);
}

/// An address reads back from a token, in brackets or not.
pub proof fn a_token_reads_back_in_brackets_or_not(ip: IpAddr)
    ensures
        addr_token(addr::ip_text(ip)) == Some(ip),
        addr_token(seq!['('] + addr::ip_text(ip) + seq![')']) == Some(ip),
{
    let s = addr::ip_text(ip);
    addr::an_address_reads_back(ip);
    addr::an_address_is_spelt_in_digits_points_and_colons(ip);
    assert(addr::in_address(s[0]) && addr::in_address(s[s.len() - 1]));
    assert(unbracket_start(s) == s);
    assert(unbracket_end(s) == s);
    let t = seq!['('] + s + seq![')'];
    let u = s + seq![')'];
    assert(t.skip(1) =~= u);
    assert(u[0] == s[0]);
    assert(unbracket_start(u) == u);
    assert(unbracket_start(t) == u);
    assert(u.drop_last() =~= s);
    assert(u.last() == ')');
    assert(unbracket_end(u) == s);
}

/// The round trip is what stands before the first `ms`, and what follows it
/// does not count.
pub proof fn the_first_time_counts(toks: Seq<Seq<char>>, k: int)
    requires
        0 <= k < toks.len() - 1,
        toks[k + 1] == "ms"@,
        forall|j: int| 1 <= j <= k ==> #[trigger] toks[j] != "ms"@,
    ensures
        first_rtt(toks) == number::millionths_value(toks[k]),
    decreases k,
{
    if k > 0 {
        assert(toks[1] != "ms"@);
        let rest = toks.skip(1);
        assert(rest[k] == toks[k + 1]);
        assert forall|j: int| 1 <= j <= k - 1 implies #[trigger] rest[j] != "ms"@ by {
            assert(rest[j] == toks[j + 1]);
        }
        the_first_time_counts(rest, k - 1);
        assert(rest[k - 1] == toks[k]);
    }
}

/// A path that dies says behind which step, and how many steps stayed silent
/// past it.
pub proof fn the_silence_is_counted(
    hop: path::HopView,
    hops: Seq<TtlHop>,
    target: IpAddr,
    k: int,
)
    requires
        answers_last(hops, k),
        hops[k].ttl == k + 1,
        forall|j: int| 0 <= j < hops.len() ==> (#[trigger] hops[j]).addr != Some(target),
    ensures
        ({
            let said = graded(hop, hops, target).summary->Some_0;
            let silent = number::decimal((hops.len() - 1 - k) as nat);
            &&& graded(hop, hops, target).summary is Some
            &&& k == 0 ==> text::ends_with(said, silent + " further hops"@)
            &&& k > 0 ==> text::ends_with(said, silent + " hops of silence"@)
                && text::starts_with(said, "Dies past hop "@ + number::decimal((k + 1) as nat))
        }),
{
    lemma_last_reply(hops, k);
    let who = addr::ip_text(hops[k].addr->0);
    let silent = number::decimal((hops.len() - 1 - k) as nat);
    let said = graded(hop, hops, target).summary->Some_0;
    if k == 0 {
        let last = silent + " further hops"@;
        let head = "Dies immediately past your router — "@ + who
            + " replied at hop 1 and nothing beyond it did, over "@;
        assert(said =~= head + last);
        assert(said.skip(said.len() - last.len()) =~= last);
    } else {
        let last = silent + " hops of silence"@;
        let open = "Dies past hop "@ + number::decimal((k + 1) as nat);
        let mid = " — the last reply came from "@ + who + ", then "@;
        assert(said =~= open + mid + last);
        assert(said.skip(said.len() - last.len()) =~= last);
        assert(said.take(open.len() as int) =~= open);
    }
}

/// A path that is intact took as long as the last step that was timed, and says
/// over how many steps it runs.
pub proof fn an_intact_path_is_timed_by_its_last_step(
    hop: path::HopView,
    hops: Seq<TtlHop>,
    target: IpAddr,
    k: int,
)
    requires
        reached(hops, target),
        0 <= k < hops.len(),
        hops[k].rtt_ms is Some,
        forall|j: int| k < j < hops.len() ==> (#[trigger] hops[j]).rtt_ms is None,
    ensures
        graded(hop, hops, target).latency_ms == hops[k].rtt_ms,
        graded(hop, hops, target).summary matches Some(s) && text::starts_with(
            s,
            "Path to "@ + addr::ip_text(target) + " is intact over "@ + number::decimal(hops.len()),
        ),
{
    lemma_last_rtt(hops, k);
    let open = "Path to "@ + addr::ip_text(target) + " is intact over "@ + number::decimal(
        hops.len(),
    );
    let s = graded(hop, hops, target).summary->Some_0;
    assert(s.take(open.len() as int) =~= open);
}

proof fn lemma_last_rtt(hops: Seq<TtlHop>, k: int)
    requires
        0 <= k < hops.len(),
        hops[k].rtt_ms is Some,
        forall|j: int| k < j < hops.len() ==> (#[trigger] hops[j]).rtt_ms is None,
    ensures
        last_rtt(hops) == hops[k].rtt_ms,
    decreases hops.len(),
{
    let n = hops.len() - 1;
    if k < n {
        assert(hops[n].rtt_ms is None);
        let fewer = hops.drop_last();
        assert forall|j: int| k < j < fewer.len() implies (#[trigger] fewer[j]).rtt_ms is None by {
            assert(hops[j].rtt_ms is None);
        }
        lemma_last_rtt(fewer, k);
    }
}

/// Who answered is the first token that spells an address, and nobody did where
/// none does.
pub proof fn the_first_address_counts(toks: Seq<Seq<char>>, k: int)
    requires
        0 <= k <= toks.len(),
        k < toks.len() ==> addr_token(toks[k]) is Some,
        forall|j: int| 0 <= j < k ==> addr_token(#[trigger] toks[j]) is None,
    ensures
        first_addr(toks) == (if k < toks.len() {
            addr_token(toks[k])
        } else {
            None
        }),
    decreases toks.len(),
{
    if k > 0 {
        assert(addr_token(toks[0]) is None);
        let rest = toks.skip(1);
        assert forall|j: int| 0 <= j < k - 1 implies addr_token(#[trigger] rest[j]) is None by {
            assert(rest[j] == toks[j + 1]);
        }
        if k < toks.len() {
            assert(rest[k - 1] == toks[k]);
        }
        the_first_address_counts(rest, k - 1);
    }
}

} // verus!
