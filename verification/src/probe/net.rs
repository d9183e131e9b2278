//! Low-level, no-root network measurement helpers shared by probes.
//!
//! macOS raw ICMP sockets require root, so we lean on primitives that work
//! unprivileged: the setuid `ping` binary for ICMP RTT, and plain TCP connects
//! (which also exercise the real forwarding path better than ICMP for WAN).
//! This module says how those are invoked and what their results mean.

use crate::addr;
use crate::addr::IpAddr;
use crate::model::path;
use crate::model::{Hop, Loss, Metric, Millis, Status};
use crate::number;
use crate::text;
use vstd::prelude::*;

verus! {

broadcast use vstd::string::group_string_axioms;

/// Result of a single latency measurement.
///
/// "Couldn't measure at all" is deliberately not a variant here: that's a
/// property of a whole burst, not a sample, and [`Quality::is_empty`] carries
/// it — which keeps a failed *tool* from ever being counted as a lost *packet*.
#[derive(Debug, Clone, Copy, PartialEq, Eq, Structural)]
pub enum Probe {
    /// Reached, with the round-trip time in nanoseconds.
    Up(i64),
    /// No response within the timeout.
    Timeout,
}

impl Probe {
    /// The round-trip time in milliseconds.
    pub fn ms(self) -> (r: Option<Millis>)
        ensures
            r == match self {
                Probe::Up(nanos) => Some(Millis::of(nanos as int, 1)),
                Probe::Timeout => None,
            },
    {
        match self {
            Probe::Up(nanos) => Some(Millis::from_nanos(nanos)),
            Probe::Timeout => None,
        }
    }

    /// Whether the target was reached.
    pub fn is_up(self) -> (r: bool)
        ensures
            r == (self is Up),
    {
        matches!(self, Probe::Up(_))
    }
}

/// Loss share that counts as degradation, in percent.
///
/// Deliberately above "one sample went missing" in a short burst: a lone
/// dropped ICMP echo is normal noise on any Wi-Fi network, and a diagnostic
/// that cries wolf is worse than one that stays quiet. Two drops out of five
/// is not noise.
pub const LOSS_WARN_PCT: u32 = 25;

/// Aggregate quality of a *burst* of samples, not just a single "is it up".
///
/// A single probe can only answer "reachable?". The failure the tool exists to
/// catch — full bars, every hop green, yet nothing loads — is a path that is
/// reachable but *lossy* or *unstable*. That only shows up across several
/// samples, so probes send a burst and grade the aggregate.
#[derive(Debug, Clone, PartialEq)]
pub struct Quality {
    /// How many samples were sent. Zero means the measurement never ran.
    pub sent: u32,
    /// Round-trip times of the samples that came back, in nanoseconds and in
    /// send order.
    pub rtts_ns: Vec<i64>,
}

impl Default for Quality {
    fn default() -> (r: Self)
        ensures
            r.sent == 0,
            r.rtts_ns@ == Seq::<i64>::empty(),
    {
        Quality { sent: 0, rtts_ns: Vec::new() }
    }
}

/// The round trips among the samples.
pub open spec fn replies(samples: Seq<Probe>) -> Seq<i64>
    decreases samples.len(),
{
    if samples.len() == 0 {
        seq![]
    } else {
        match samples.last() {
            Probe::Up(nanos) => replies(samples.drop_last()).push(nanos),
            Probe::Timeout => replies(samples.drop_last()),
        }
    }
}

/// The sum of the round trips.
pub open spec fn total(rtts: Seq<i64>) -> int
    decreases rtts.len(),
{
    if rtts.len() == 0 {
        0
    } else {
        total(rtts.drop_last()) + rtts.last()
    }
}

/// How far apart two round trips are.
pub open spec fn gap(a: i64, b: i64) -> nat {
    if a <= b {
        (b - a) as nat
    } else {
        (a - b) as nat
    }
}

/// The sum of the differences between successive round trips.
pub open spec fn wobble(rtts: Seq<i64>) -> nat
    decreases rtts.len(),
{
    if rtts.len() < 2 {
        0
    } else {
        wobble(rtts.drop_last()) + gap(rtts[rtts.len() - 2], rtts.last())
    }
}

/// `40% packet loss`.
pub open spec fn loss_note(l: Loss) -> Seq<char> {
    l.percent() + "% packet loss"@
}

/// `±60 ms jitter`.
pub open spec fn jitter_note(j: Millis) -> Seq<char> {
    "±"@ + j.whole() + " ms jitter"@
}

impl Quality {
    /// How many samples came back.
    pub open spec fn came_back(self) -> u32 {
        self.rtts_ns@.len() as u32
    }

    /// How many samples never came back.
    pub open spec fn lost(self) -> nat {
        if self.sent >= self.came_back() {
            (self.sent - self.came_back()) as nat
        } else {
            0
        }
    }

    /// The share of samples that never came back.
    pub open spec fn loss(self) -> Option<Loss> {
        if self.sent == 0 {
            None
        } else {
            Some(Loss::of(self.lost(), self.sent as nat))
        }
    }

    /// The mean round trip.
    pub open spec fn mean(self) -> Option<Millis> {
        if self.rtts_ns@.len() == 0 {
            None
        } else {
            Some(Millis::of(total(self.rtts_ns@), self.rtts_ns@.len()))
        }
    }

    /// The mean round trip, or no time at all.
    pub open spec fn mean_or_zero(self) -> Millis {
        match self.mean() {
            Some(m) => m,
            None => Millis::of(0, 1),
        }
    }

    /// The mean difference between successive round trips.
    pub open spec fn jitter(self) -> Option<Millis> {
        if self.rtts_ns@.len() < 2 {
            None
        } else {
            Some(Millis::of(wobble(self.rtts_ns@) as int, (self.rtts_ns@.len() - 1) as nat))
        }
    }

    /// Enough was lost to matter.
    pub open spec fn lossy(self) -> bool {
        self.loss() matches Some(l) && l.reaches(LOSS_WARN_PCT as nat)
    }

    /// The round trips vary by `warn_ms` milliseconds or more.
    pub open spec fn jittery(self, warn_ms: u32) -> bool {
        self.jitter() matches Some(j) && j.reaches(warn_ms as nat)
    }

    /// The grade of the burst.
    pub open spec fn standing(self, warn_ms: u32) -> Status {
        if self.lossy() || self.jittery(warn_ms) {
            Status::Warn
        } else {
            Status::Healthy
        }
    }

    /// What there is to complain of.
    pub open spec fn grievance(self, warn_ms: u32) -> Option<Seq<char>> {
        if self.lossy() && self.jittery(warn_ms) {
            Some(loss_note(self.loss()->0) + " and "@ + jitter_note(self.jitter()->0))
        } else if self.lossy() {
            Some(loss_note(self.loss()->0))
        } else if self.jittery(warn_ms) {
            Some(jitter_note(self.jitter()->0))
        } else {
            None
        }
    }

    /// Aggregate a set of individually-taken samples (e.g. TCP handshakes).
    pub fn from_samples(samples: &[Probe]) -> (r: Self)
        ensures
            r.sent == samples@.len() as u32,
            r.rtts_ns@ == replies(samples@),
    {
        let mut rtts_ns: Vec<i64> = Vec::new();
        let mut i: usize = 0;
        while i < samples.len()
            invariant
                i <= samples@.len(),
                rtts_ns@ == replies(samples@.take(i as int)),
            decreases samples@.len() - i,
        {
            assert(samples@.take(i + 1).drop_last() == samples@.take(i as int));
            if let Probe::Up(nanos) = samples[i] {
                rtts_ns.push(nanos);
            }
            i += 1;
        }
        assert(samples@.take(i as int) == samples@);
        Quality { sent: samples.len() as u32, rtts_ns }
    }

    /// True when nothing was measured at all (the probe tool failed to run).
    pub fn is_empty(&self) -> (r: bool)
        ensures
            r == (self.sent == 0),
    {
        self.sent == 0
    }

    /// How many samples came back.
    pub fn received(&self) -> (r: u32)
        ensures
            r == self.came_back(),
    {
        self.rtts_ns.len() as u32
    }

    /// How many samples never came back.
    pub fn lost_count(&self) -> (r: u32)
        ensures
            r == self.lost(),
    {
        let back: u32 = self.received();
        if self.sent >= back {
            self.sent - back
        } else {
            0
        }
    }

    /// Percentage of samples that never came back. `None` if nothing was sent.
    pub fn loss_pct(&self) -> (r: Option<Loss>)
        ensures
            r == self.loss(),
    {
        if self.sent == 0 {
            return None;
        }
        Some(Loss::new(self.lost_count(), self.sent))
    }

    /// Mean round-trip time over the samples that came back.
    pub fn avg_ms(&self) -> (r: Option<Millis>)
        ensures
            r == self.mean(),
    {
        let n: usize = self.rtts_ns.len();
        if n == 0 {
            return None;
        }
        let mut sum: i128 = 0;
        let mut i: usize = 0;
        while i < n
            invariant
                n == self.rtts_ns@.len(),
                i <= n,
                sum == total(self.rtts_ns@.take(i as int)),
                -(i * 0x8000_0000_0000_0000) <= sum <= i * 0x8000_0000_0000_0000,
            decreases n - i,
        {
            assert(self.rtts_ns@.take(i + 1).drop_last() == self.rtts_ns@.take(i as int));
            sum = sum + self.rtts_ns[i] as i128;
            i += 1;
        }
        assert(self.rtts_ns@.take(i as int) == self.rtts_ns@);
        Some(Millis::signed_mean(sum, n as u64))
    }

    /// The mean round trip, or no time at all when nothing came back.
    pub fn avg_or_zero(&self) -> (r: Millis)
        ensures
            r == self.mean_or_zero(),
    {
        match self.avg_ms() {
            Some(m) => m,
            None => Millis::from_nanos(0),
        }
    }

    /// Jitter as the mean absolute difference between successive round trips
    /// (the IPDV definition `ping` itself reports as `stddev`-adjacent).
    ///
    /// Dropped samples are simply absent, so "successive" means successive
    /// *replies*, not successive sends — the same simplification every ping
    /// implementation makes. Needs at least two replies to mean anything.
    pub fn jitter_ms(&self) -> (r: Option<Millis>)
        ensures
            r == self.jitter(),
    {
        let n: usize = self.rtts_ns.len();
        if n < 2 {
            return None;
        }
        let mut sum: u128 = 0;
        let mut i: usize = 1;
        while i < n
            invariant
                n == self.rtts_ns@.len(),
                1 <= i <= n,
                sum == wobble(self.rtts_ns@.take(i as int)),
                sum <= i * 0xffff_ffff_ffff_ffff,
            decreases n - i,
        {
            assert(self.rtts_ns@.take(i + 1).drop_last() == self.rtts_ns@.take(i as int));
            let a: i128 = self.rtts_ns[i - 1] as i128;
            let b: i128 = self.rtts_ns[i] as i128;
            let d: i128 = if a <= b {
                b - a
            } else {
                a - b
            };
            sum = sum + d as u128;
            i += 1;
        }
        assert(self.rtts_ns@.take(i as int) == self.rtts_ns@);
        Some(Millis::mean(sum, (n - 1) as u64))
    }

    fn is_lossy(&self) -> (r: bool)
        ensures
            r == self.lossy(),
    {
        match self.loss_pct() {
            Some(l) => l.at_least(LOSS_WARN_PCT),
            None => false,
        }
    }

    fn is_jittery(&self, jitter_warn_ms: u32) -> (r: bool)
        ensures
            r == self.jittery(jitter_warn_ms),
    {
        match self.jitter_ms() {
            Some(j) => j.at_least(jitter_warn_ms),
            None => false,
        }
    }

    /// Grade the burst. `jitter_warn_ms` is per-hop: a LAN round trip should be
    /// rock steady, while a WAN one is allowed to wobble.
    ///
    /// Grades no worse than [`Status::Warn`] on purpose — loss is degradation,
    /// never a break. `Fail` stays reserved for "nothing got through at all",
    /// so a lossy-but-alive hop can't be mistaken for the point of failure.
    pub fn grade(&self, jitter_warn_ms: u32) -> (r: Status)
        ensures
            r == self.standing(jitter_warn_ms),
    {
        if self.is_lossy() || self.is_jittery(jitter_warn_ms) {
            Status::Warn
        } else {
            Status::Healthy
        }
    }

    /// Plain-language evidence for the verdict, e.g. `40% packet loss`.
    /// `None` when the burst was clean or never measured.
    pub fn complaint(&self, jitter_warn_ms: u32) -> (r: Option<String>)
        ensures
            path::opt_text(r) == self.grievance(jitter_warn_ms),
    {
        let loss = match self.loss_pct() {
            Some(l) if l.at_least(LOSS_WARN_PCT) => Some(
                text::cat2(l.percent_text().as_str(), "% packet loss"),
            ),
            _ => None,
        };
        let jitter = match self.jitter_ms() {
            Some(j) if j.at_least(jitter_warn_ms) => Some(
                text::cat3("±", j.whole_text().as_str(), " ms jitter"),
            ),
            _ => None,
        };
        match (loss, jitter) {
            (Some(l), Some(j)) => Some(text::cat3(l.as_str(), " and ", j.as_str())),
            (Some(l), None) => Some(l),
            (None, Some(j)) => Some(j),
            (None, None) => None,
        }
    }
}

/// Healthy, or degraded if it is worth a warning.
pub open spec fn warn_if(degraded: bool) -> Status {
    if degraded {
        Status::Warn
    } else {
        Status::Healthy
    }
}

/// Healthy, or degraded if it is worth a warning.
pub fn warned(degraded: bool) -> (r: Status)
    ensures
        r == warn_if(degraded),
{
    if degraded {
        Status::Warn
    } else {
        Status::Healthy
    }
}

/// `40% (2/5 lost)`.
pub open spec fn loss_value(q: Quality, l: Loss) -> Seq<char> {
    l.percent() + "% ("@ + number::decimal(q.lost()) + "/"@ + number::decimal(q.sent as nat)
        + " lost)"@
}

/// A hop with the quality of a burst on it.
pub open spec fn with_quality(hop: path::HopView, q: Quality, warn_ms: u32) -> path::HopView {
    let base = path::HopView { loss_pct: q.loss(), jitter_ms: q.jitter(), ..hop };
    let lossed = match q.loss() {
        Some(l) => base.with_metric(path::graded("Loss"@, loss_value(q, l), warn_if(q.lossy()))),
        None => base,
    };
    match q.jitter() {
        Some(j) => lossed.with_metric(
            path::graded("Jitter"@, "±"@ + j.tenths() + " ms"@, warn_if(q.jittery(warn_ms))),
        ),
        None => lossed,
    }
}

/// Fold a burst's quality onto a hop: structured fields for the diagnosis
/// engine, metrics for the human. Returns the quality grade so the caller can
/// combine it with its own reachability/latency grading.
pub fn apply_quality(hop: &mut Hop, q: &Quality, jitter_warn_ms: u32) -> (r: Status)
    ensures
        r == q.standing(jitter_warn_ms),
        final(hop)@ == with_quality(old(hop)@, *q, jitter_warn_ms),
{
    hop.loss_pct = q.loss_pct();
    hop.jitter_ms = q.jitter_ms();
    if let Some(loss) = q.loss_pct() {
        let st = warned(loss.at_least(LOSS_WARN_PCT));
        let value = text::cat3(
            text::cat3(
                loss.percent_text().as_str(),
                "% (",
                number::decimal_of(q.lost_count() as u128).as_str(),
            ).as_str(),
            "/",
            text::cat2(number::decimal_of(q.sent as u128).as_str(), " lost)").as_str(),
        );
        assert(value@ =~= loss_value(*q, loss));
        hop.push_metric(Metric::new("Loss", value.as_str()).with_status(st));
    }
    if let Some(j) = q.jitter_ms() {
        let st = warned(j.at_least(jitter_warn_ms));
        let value = text::cat3("±", j.tenths_text().as_str(), " ms");
        hop.push_metric(Metric::new("Jitter", value.as_str()).with_status(st));
    }
    q.grade(jitter_warn_ms)
}

/// Whether an address is in `100.64.0.0/10`, the block shared behind
/// carrier-grade NAT: inbound connections can't reach it.
pub fn is_cgnat(ip: IpAddr) -> (r: bool)
    ensures
        r == ip.shared_space(),
{
    ip.is_shared_space()
}

// ---- ping ----

/// How one burst of echoes is sent: the tool, its arguments, and the ceiling
/// for the whole child in milliseconds.
#[derive(Debug, Clone)]
pub struct PingCommand {
    pub program: &'static str,
    pub args: Vec<String>,
    pub budget_ms: u64,
}

/// `n` with three digits at least.
pub open spec fn three_digits(n: nat) -> Seq<char> {
    if n < 10 {
        "00"@ + number::decimal(n)
    } else if n < 100 {
        "0"@ + number::decimal(n)
    } else {
        number::decimal(n)
    }
}

/// A number of milliseconds in seconds, to three decimal places.
pub open spec fn seconds_text(ms: nat) -> Seq<char> {
    number::decimal(ms / 1000) + "."@ + three_digits(ms % 1000)
}

fn seconds_of(ms: u32) -> (r: String)
    ensures
        r@ == seconds_text(ms as nat),
{
    let frac: u32 = ms % 1000;
    let digits = number::decimal_of(frac as u128);
    let padded = if frac < 10 {
        text::cat2("00", digits.as_str())
    } else if frac < 100 {
        text::cat2("0", digits.as_str())
    } else {
        digits
    };
    text::cat3(number::decimal_of((ms / 1000) as u128).as_str(), ".", padded.as_str())
}

/// The address as `ping` takes it, with the scope of a link-local IPv6 one.
pub open spec fn ping_target(addr: IpAddr, zone: Option<Seq<char>>) -> Seq<char> {
    match (addr, zone) {
        (IpAddr::V6(v6), Some(z)) => addr::v6_text(v6@) + "%"@ + z,
        _ => addr::ip_text(addr),
    }
}

/// The arguments of a burst. `ping6` takes no timeout: its `-t` is an
/// unrelated boolean and would swallow the value as a `hops` positional. A
/// single sample needs no spacing.
pub open spec fn ping_args(
    addr: IpAddr,
    zone: Option<Seq<char>>,
    count: u32,
    interval_ms: u32,
    wait_secs: u32,
) -> Seq<Seq<char>> {
    let secs = if wait_secs == 0 {
        1
    } else {
        wait_secs as nat
    };
    let counted = seq!["-c"@, number::decimal(count as nat)];
    let bounded = if addr is V4 {
        counted.push("-t"@).push(number::decimal(secs))
    } else {
        counted
    };
    let spaced = if count > 1 {
        bounded.push("-i"@).push(seconds_text(interval_ms as nat))
    } else {
        bounded
    };
    spaced.push(ping_target(addr, zone))
}

/// An optional string slice as optional text.
pub open spec fn opt_str(o: Option<&str>) -> Option<Seq<char>> {
    match o {
        Some(s) => Some(s@),
        None => None,
    }
}

fn push_arg(args: &mut Vec<String>, arg: String)
    ensures
        text::texts(final(args)@) == text::texts(old(args)@).push(arg@),
{
    let ghost before = args@;
    args.push(arg);
    assert(text::texts(args@) =~= text::texts(before).push(arg@));
}

/// The command that sends `count` ICMP echoes `interval_ms` apart.
///
/// Uses the system `ping`/`ping6` binary (setuid, so no sudo). `zone` carries
/// the scope id for a link-local IPv6 target (`fe80::1%en0`), without which the
/// kernel can't pick an egress interface.
///
/// `wait_secs` bounds the burst so a black-holed target costs a bounded amount
/// of time rather than `count * timeout`. Only `ping(8)` can enforce that
/// itself (`-t`), so the whole child has a ceiling too, padded so it can't
/// pre-empt `ping`'s own tally.
pub fn ping_command(
    addr: IpAddr,
    zone: Option<&str>,
    count: u32,
    interval_ms: u32,
    wait_secs: u32,
) -> (r: PingCommand)
    requires
        wait_secs * 1000 + interval_ms * count + 1000 <= u64::MAX,
    ensures
        r.program@ == (if addr is V4 {
            "ping"@
        } else {
            "ping6"@
        }),
        text::texts(r.args@) == ping_args(addr, opt_str(zone), count, interval_ms, wait_secs),
        r.budget_ms == wait_secs * 1000 + interval_ms * count + 1000,
{
    let secs: u32 = if wait_secs == 0 {
        1
    } else {
        wait_secs
    };
    let v6 = addr.is_ipv6();
    let mut args: Vec<String> = Vec::new();
    assert(text::texts(args@) =~= Seq::<Seq<char>>::empty());
    push_arg(&mut args, "-c".to_string());
    push_arg(&mut args, number::decimal_of(count as u128));
    assert(text::texts(args@) =~= seq!["-c"@, number::decimal(count as nat)]);
    if !v6 {
        push_arg(&mut args, "-t".to_string());
        push_arg(&mut args, number::decimal_of(secs as u128));
    }
    if count > 1 {
        push_arg(&mut args, "-i".to_string());
        push_arg(&mut args, seconds_of(interval_ms));
    }
    let target = match (addr, zone) {
        (IpAddr::V6(a), Some(z)) => text::cat3(addr::v6_to_string(a).as_str(), "%", z),
        _ => addr::ip_to_string(addr),
    };
    push_arg(&mut args, target);
    assert(interval_ms * count <= u64::MAX - 1000 - wait_secs * 1000);
    PingCommand {
        program: if v6 {
            "ping6"
        } else {
            "ping"
        },
        args,
        budget_ms: wait_secs as u64 * 1000 + interval_ms as u64 * count as u64 + 1000,
    }
}

/// The round trip a line of ping output reports, in nanoseconds. A duplicate
/// reports none.
pub open spec fn reply_time(line: Seq<char>) -> Option<i64> {
    if text::contains(line, "(DUP!)"@) {
        None
    } else {
        match text::split_at_first(line, "time="@) {
            Some((_, rest)) => match text::first_word(rest) {
                Some(w) => number::millionths_value(w),
                None => None,
            },
            None => None,
        }
    }
}

/// The round trips that these lines report.
pub open spec fn reply_times(lines: Seq<Seq<char>>) -> Seq<i64>
    decreases lines.len(),
{
    if lines.len() == 0 {
        seq![]
    } else {
        match reply_time(lines.last()) {
            Some(t) => reply_times(lines.drop_last()).push(t),
            None => reply_times(lines.drop_last()),
        }
    }
}

fn reply_time_of(line: &[char]) -> (r: Option<i64>)
    ensures
        r == reply_time(line@),
{
    if text::has(line, "(DUP!)") {
        return None;
    }
    match text::split_once(line, "time=") {
        Some((_, rest)) => match text::word_of(rest) {
            Some(w) => number::read_millionths(w),
            None => None,
        },
        None => None,
    }
}

/// Pull every `time=3.456 ms` out of ping output, in reply order.
///
/// Duplicate replies are skipped: a duplicating switch or a bridge loop makes
/// `ping` print more replies than it sent, and counting those as distinct
/// samples would report a genuinely broken LAN as loss-free.
pub fn parse_ping_times(output: &str) -> (r: Vec<i64>)
    ensures
        r@ == reply_times(text::lines(output@)),
{
    let chars = text::chars_of(output);
    let lines = text::lines_of(chars.as_slice());
    let ghost all = text::views(lines@);
    let mut out: Vec<i64> = Vec::new();
    let mut i: usize = 0;
    while i < lines.len()
        invariant
            i <= lines@.len(),
            all == text::views(lines@),
            out@ == reply_times(all.take(i as int)),
        decreases lines@.len() - i,
    {
        assert(all.take(i + 1).drop_last() == all.take(i as int));
        assert(all[i as int] == lines@[i as int]@);
        if let Some(t) = reply_time_of(lines[i]) {
            out.push(t);
        }
        i += 1;
    }
    assert(all.take(i as int) == all);
    out
}

/// The last word of `s`, if it has one.
pub open spec fn last_word(s: Seq<char>) -> Option<Seq<char>> {
    if text::words(s).len() > 0 {
        Some(text::words(s).last())
    } else {
        None
    }
}

/// The count in front of ` packets transmitted`.
pub open spec fn transmitted(s: Seq<char>) -> Option<u32> {
    match text::split_at_first(s, " packets transmitted"@) {
        Some((before, _)) => match last_word(before) {
            Some(w) => number::u32_value(w),
            None => None,
        },
        None => None,
    }
}

/// Read the transmitted count out of ping's `N packets transmitted, …` tally.
pub fn parse_ping_sent(output: &str) -> (r: Option<u32>)
    ensures
        r == transmitted(output@),
{
    let chars = text::chars_of(output);
    match text::split_once(chars.as_slice(), " packets transmitted") {
        Some((before, _)) => {
            let words = text::words_of(before);
            if words.len() == 0 {
                return None;
            }
            let last: usize = words.len() - 1;
            assert(text::views(words@).last() == words@[last as int]@);
            number::read_u32(words[last])
        },
        None => None,
    }
}

/// At most the first `n` of these.
pub open spec fn at_most(s: Seq<i64>, n: nat) -> Seq<i64> {
    if n < s.len() {
        s.take(n as int)
    } else {
        s
    }
}

/// What the output of a burst of `count` echoes says of the path.
///
/// Output is read regardless of exit status: `ping` exits non-zero on 100%
/// loss, and "everything was lost" is a result we very much want to report.
/// A run that produced neither replies *nor* a tally is treated as unmeasured
/// rather than as total loss — `ping` reports pre-transmit failures (no route,
/// interface torn down, interval refused) on stderr with an empty stdout, and
/// a probe that never left the machine must not be reported as packet loss.
pub fn burst_from_output(output: &str, count: u32) -> (r: Quality)
    ensures
        ({
            let times = reply_times(text::lines(output@));
            match transmitted(output@) {
                Some(n) => r.sent == n && r.rtts_ns@ == at_most(times, n as nat),
                None if times.len() == 0 => r.sent == 0 && r.rtts_ns@.len() == 0,
                None => r.sent == count && r.rtts_ns@ == at_most(times, count as nat),
            }
        }),
        r.rtts_ns@.len() <= r.sent,
{
    let mut rtts_ns = parse_ping_times(output);
    // Prefer ping's own tally: `-t` can cut a burst short, so the number we
    // asked for isn't necessarily the number that went out.
    let sent: u32 = match parse_ping_sent(output) {
        Some(n) => n,
        None => {
            // No tally and no replies: the tool never got going.
            if rtts_ns.len() == 0 {
                return Quality::default();
            }
            count
        },
    };
    // Clamp rather than raise `sent`: duplicate replies (`(DUP!)`) are already
    // filtered out, but any other surplus must not be able to manufacture a
    // clean bill of health by making `received >= sent`.
    if rtts_ns.len() > sent as usize {
        rtts_ns.truncate(sent as usize);
        assert(rtts_ns@ =~= at_most(reply_times(text::lines(output@)), sent as nat));
    }
    Quality { sent, rtts_ns }
}

// ---- laws ----

/// A burst is graded healthy or degraded, never broken.
pub proof fn a_burst_is_never_a_break(q: Quality, warn_ms: u32)
    ensures
        q.standing(warn_ms) == Status::Healthy || q.standing(warn_ms) == Status::Warn,
{
}

/// There is something to complain of exactly when the burst is degraded.
pub proof fn a_complaint_means_degraded(q: Quality, warn_ms: u32)
    ensures
        q.grievance(warn_ms) is Some <==> q.standing(warn_ms) == Status::Warn,
{
}

/// A burst that was never sent has no loss share, and one that was sent loses
/// at most everything — which is what it loses when nothing comes back.
pub proof fn loss_is_a_share_of_what_was_sent(q: Quality)
    ensures
        q.loss() is None <==> q.sent == 0,
        q.loss() matches Some(l) ==> l.out_of() == q.sent && l.missing() <= l.out_of(),
        q.loss() matches Some(l) ==> q.rtts_ns@.len() == 0 ==> l.missing() == l.out_of(),
{
    Loss::lemma_of(q.lost(), q.sent as nat);
}

/// A sum of round trips is as large as they allow.
proof fn lemma_total_bound(rtts: Seq<i64>)
    ensures
        -(rtts.len() * 0x8000_0000_0000_0000) <= total(rtts) <= rtts.len() * 0x8000_0000_0000_0000,
    decreases rtts.len(),
{
    if rtts.len() > 0 {
        lemma_total_bound(rtts.drop_last());
    }
}

/// A sum of differences is as large as the round trips allow.
proof fn lemma_wobble_bound(rtts: Seq<i64>)
    ensures
        wobble(rtts) <= rtts.len() * 0x1_0000_0000_0000_0000,
    decreases rtts.len(),
{
    if rtts.len() >= 2 {
        lemma_wobble_bound(rtts.drop_last());
    }
}

/// The sum of no round trips is nothing, and each one adds itself.
pub proof fn each_round_trip_counts_once(rtts: Seq<i64>, next: i64)
    ensures
        total(Seq::empty()) == 0,
        total(rtts.push(next)) == total(rtts) + next,
{
    assert(rtts.push(next).drop_last() =~= rtts);
}

/// A single round trip does not vary, and each one behind it adds how far it is
/// from the one before, up or down alike.
pub proof fn each_step_counts_once(rtts: Seq<i64>, next: i64)
    ensures
        rtts.len() < 2 ==> wobble(rtts) == 0,
        rtts.len() > 0 && rtts.last() <= next ==> wobble(rtts.push(next)) == wobble(rtts) + (next
            - rtts.last()),
        rtts.len() > 0 && rtts.last() >= next ==> wobble(rtts.push(next)) == wobble(rtts) + (
        rtts.last() - next),
{
    assert(rtts.push(next).drop_last() =~= rtts);
}

/// Every reply among the samples is kept, in order, and nothing else.
pub proof fn replies_are_what_came_back(samples: Seq<Probe>, next: Probe)
    ensures
        replies(Seq::empty()) == Seq::<i64>::empty(),
        next matches Probe::Up(t) ==> replies(samples.push(next)) == replies(samples).push(t),
        next == Probe::Timeout ==> replies(samples.push(next)) == replies(samples),
        replies(samples).len() <= samples.len(),
    decreases samples.len(),
{
    assert(samples.push(next).drop_last() =~= samples);
    if samples.len() > 0 {
        replies_are_what_came_back(samples.drop_last(), samples.last());
        assert(samples.drop_last().push(samples.last()) =~= samples);
    }
}

/// So many samples of a burst never came back that it matters: one in four.
pub open spec fn loses_a_quarter(q: Quality) -> bool {
    4 * (q.sent - q.rtts_ns@.len()) >= q.sent
}

/// The round trips of a burst differ from one to the next by `ms` milliseconds
/// or more in the mean.
pub open spec fn varies_by(q: Quality, ms: nat) -> bool {
    q.rtts_ns@.len() >= 2 && wobble(q.rtts_ns@) >= ms * 1_000_000 * (q.rtts_ns@.len() - 1)
}

/// The round trips of a burst take more than `ms` milliseconds in the mean.
pub open spec fn takes_more_than(q: Quality, ms: nat) -> bool {
    q.rtts_ns@.len() > 0 && total(q.rtts_ns@) > ms * 1_000_000 * q.rtts_ns@.len()
}

proof fn lemma_loss_reaches(q: Quality)
    requires
        0 < q.sent,
        q.rtts_ns@.len() <= q.sent,
    ensures
        q.lossy() <==> loses_a_quarter(q),
{
    Loss::lemma_of(q.lost(), q.sent as nat);
}

proof fn lemma_jitter_reaches(q: Quality, ms: u32)
    requires
        q.rtts_ns@.len() <= q.sent,
    ensures
        q.jittery(ms) <==> varies_by(q, ms as nat),
{
    let n = q.rtts_ns@.len();
    if n >= 2 {
        lemma_wobble_bound(q.rtts_ns@);
        assert(wobble(q.rtts_ns@) <= u128::MAX);
        Millis::lemma_of(wobble(q.rtts_ns@) as int, (n - 1) as nat);
        let m = (n - 1) as nat;
        assert(ms as nat * (m * 1_000_000) == ms as nat * 1_000_000 * m) by (nonlinear_arith);
    }
}

/// The mean of a burst is over a limit exactly when its round trips add up to
/// more than as many of the limit.
pub proof fn a_mean_is_slow_when_its_sum_is(q: Quality, ms: u32)
    requires
        q.rtts_ns@.len() <= q.sent,
    ensures
        q.mean_or_zero().exceeds(ms as nat) <==> takes_more_than(q, ms as nat),
        q.mean() is Some <==> q.rtts_ns@.len() > 0,
        q.rtts_ns@.len() > 0 ==> q.mean_or_zero().total() == total(q.rtts_ns@)
            && q.mean_or_zero().count() == q.rtts_ns@.len(),
        q.rtts_ns@.len() == 0 ==> q.mean_or_zero().total() == 0,
{
    let n = q.rtts_ns@.len();
    if n > 0 {
        lemma_total_bound(q.rtts_ns@);
        assert(-(n * 0x8000_0000_0000_0000) >= -u128::MAX);
        Millis::lemma_of(total(q.rtts_ns@), n);
        assert(ms as nat * (n * 1_000_000) == ms as nat * 1_000_000 * n) by (nonlinear_arith);
    } else {
        Millis::lemma_of(0, 1);
        assert(0 <= ms as nat * 1_000_000) by (nonlinear_arith);
    }
}

/// A burst is degraded exactly when a quarter of it was lost or its round trips
/// vary by the limit, and healthy otherwise; then there is nothing to complain
/// of.
pub proof fn a_burst_is_degraded_by_loss_or_jitter(q: Quality, warn_ms: u32)
    requires
        0 < q.sent,
        q.rtts_ns@.len() <= q.sent,
    ensures
        q.standing(warn_ms) == (if loses_a_quarter(q) || varies_by(q, warn_ms as nat) {
            Status::Warn
        } else {
            Status::Healthy
        }),
        q.grievance(warn_ms) is Some <==> loses_a_quarter(q) || varies_by(q, warn_ms as nat),
{
    lemma_loss_reaches(q);
    lemma_jitter_reaches(q, warn_ms);
}

/// The lines that a burst puts on a hop come behind those that it had: its loss,
/// if anything was sent, and its jitter, if two samples came back. Each is worth
/// a warning exactly when the burst is degraded by it, and the hop carries the
/// same numbers.
pub proof fn a_burst_is_shown_as_it_is_graded(hop: path::HopView, q: Quality, warn_ms: u32)
    requires
        0 < q.sent,
        q.rtts_ns@.len() <= q.sent,
    ensures
        ({
            let shown = with_quality(hop, q, warn_ms);
            let had = hop.metrics.len() as int;
            &&& shown.metrics.take(had) == hop.metrics
            &&& shown.metrics.len() == had + (if q.rtts_ns@.len() >= 2 {
                2int
            } else {
                1
            })
            &&& shown.metrics[had].label == "Loss"@
            &&& shown.metrics[had].status == Some(
                if loses_a_quarter(q) {
                    Status::Warn
                } else {
                    Status::Healthy
                },
            )
            &&& q.rtts_ns@.len() >= 2 ==> shown.metrics[had + 1].label == "Jitter"@
                && shown.metrics[had + 1].status == Some(
                if varies_by(q, warn_ms as nat) {
                    Status::Warn
                } else {
                    Status::Healthy
                },
            )
            &&& shown.loss_pct matches Some(l) && l.missing() == q.sent - q.rtts_ns@.len()
                && l.out_of() == q.sent
            &&& shown.jitter_ms is Some <==> q.rtts_ns@.len() >= 2
            &&& shown.jitter_ms matches Some(j) ==> j.total() == wobble(q.rtts_ns@) && j.count()
                == q.rtts_ns@.len() - 1
            &&& shown == (path::HopView {
                loss_pct: shown.loss_pct,
                jitter_ms: shown.jitter_ms,
                metrics: shown.metrics,
                ..hop
            })
        }),
{
    lemma_loss_reaches(q);
    lemma_jitter_reaches(q, warn_ms);
    Loss::lemma_of(q.lost(), q.sent as nat);
    if q.rtts_ns@.len() >= 2 {
        lemma_wobble_bound(q.rtts_ns@);
        assert(wobble(q.rtts_ns@) <= u128::MAX);
        Millis::lemma_of(wobble(q.rtts_ns@) as int, (q.rtts_ns@.len() - 1) as nat);
    }
    assert(with_quality(hop, q, warn_ms).metrics.take(hop.metrics.len() as int) =~= hop.metrics);
}

/// A number of milliseconds reads back from its text in seconds: the whole
/// seconds stand before the point, and three digits for the rest behind it.
pub proof fn seconds_read_back(ms: nat)
    ensures
        seconds_text(ms) == number::decimal(ms / 1000) + "."@ + three_digits(ms % 1000),
        number::digits_value(number::decimal(ms / 1000), 10) == Some(ms / 1000),
        number::digits_value(three_digits(ms % 1000), 10) == Some(ms % 1000),
        three_digits(ms % 1000).len() == 3,
{
    let n = ms % 1000;
    let d = number::decimal(n);
    number::a_numeral_reads_back(ms / 1000, 10);
    number::a_numeral_reads_back(n, 10);
    reveal_strlit("00");
    reveal_strlit("0");
    assert(seq!['0'] + (seq!['0'] + d) =~= "00"@ + d);
    assert(seq!['0'] + d =~= "0"@ + d);
    number::lemma_zero_in_front(d);
    number::lemma_zero_in_front(seq!['0'] + d);
    assert(vstd::arithmetic::power::pow(10, 2) == 100 && vstd::arithmetic::power::pow(10, 3) == 1000)
        by {
        reveal_with_fuel(vstd::arithmetic::power::pow, 4);
    }
    number::lemma_numeral_len(n, 10, 3);
    if n < 100 {
        number::lemma_numeral_len(n, 10, 2);
    }
    if n >= 10 {
        assert(d == number::numeral(n / 10, 10).push(number::digit(n % 10)));
        number::a_numeral_reads_back(n / 10, 10);
        if n >= 100 {
            assert(number::numeral(n / 10, 10) == number::numeral(n / 10 / 10, 10).push(
                number::digit(n / 10 % 10),
            ));
            number::a_numeral_reads_back(n / 10 / 10, 10);
        }
    }
}

/// What `ping` is told: how many echoes first, the target last; a time limit
/// exactly where the tool takes one, and a spacing exactly where there is more
/// than one echo to space.
pub proof fn a_ping_is_told_what_it_takes(
    addr: IpAddr,
    zone: Option<Seq<char>>,
    count: u32,
    interval_ms: u32,
    wait_secs: u32,
)
    ensures
        ({
            let args = ping_args(addr, zone, count, interval_ms, wait_secs);
            let limited: int = if addr is V4 {
                2
            } else {
                0
            };
            let spaced: int = if count > 1 {
                2
            } else {
                0
            };
            &&& args.len() == 3 + limited + spaced
            &&& args[0] == "-c"@ && args[1] == number::decimal(count as nat)
            &&& addr is V4 ==> args[2] == "-t"@ && args[3] == number::decimal(
                if wait_secs == 0 {
                    1
                } else {
                    wait_secs as nat
                },
            )
            &&& count > 1 ==> args[2 + limited] == "-i"@ && args[3 + limited] == seconds_text(
                interval_ms as nat,
            )
            &&& args.last() == (match (addr, zone) {
                (IpAddr::V6(_), Some(z)) => addr::ip_text(addr) + "%"@ + z,
                _ => addr::ip_text(addr),
            })
        }),
{
}

/// The tally reads back from the line that gives it, whatever follows.
pub proof fn a_tally_reads_back(n: u32, rest: Seq<char>)
    ensures
        transmitted(number::decimal(n as nat) + " packets transmitted"@ + rest) == Some(n),
{
    let d = number::decimal(n as nat);
    let p = " packets transmitted"@;
    let s = d + p + rest;
    number::a_numeral_reads_back(n as nat, 10);
    number::an_unsigned_numeral_reads_back(n);
    reveal_strlit(" packets transmitted");
    assert(s.subrange(d.len() as int, (d.len() + p.len()) as int) =~= p);
    assert forall|j: int| 0 <= j < d.len() implies !text::occurs_at(s, j, p) by {
        if text::occurs_at(s, j, p) {
            assert(s.subrange(j, j + p.len())[0] == s[j]);
            assert(s[j] == d[j] && number::is_digit(d[j]));
        }
    }
    assert(text::first_occurs_at(s, d.len() as int, p));
    text::lemma_first_unique(s, d.len() as int, p);
    assert(s.take(d.len() as int) =~= d);
    assert forall|j: int| 0 <= j < d.len() implies !text::is_space(#[trigger] d[j]) by {
        assert(number::is_digit(d[j]));
    }
    text::lemma_word_len(d, d.len() as int);
    assert(text::trim_start(d) == d);
    assert(d.take(d.len() as int) =~= d);
    assert(d.skip(d.len() as int) =~= Seq::<char>::empty());
    assert(text::words(Seq::<char>::empty()) =~= Seq::<Seq<char>>::empty());
    assert(text::words(d) =~= seq![d]);
}

/// A duplicate is no reply, and any other line that gives a time is one that
/// took as long as it says.
pub proof fn a_reply_took_what_its_line_says(
    line: Seq<char>,
    head: Seq<char>,
    n: i32,
    rest: Seq<char>,
)
    requires
        text::split_at_first(line, "time="@) == Some(
            (head, number::signed_decimal(n as int) + seq![' '] + rest),
        ),
    ensures
        text::contains(line, "(DUP!)"@) ==> reply_time(line) is None,
        !text::contains(line, "(DUP!)"@) ==> reply_time(line) == number::millionths_value(
            number::signed_decimal(n as int),
        ) && reply_time(line) is Some && reply_time(line)->Some_0 == n * 1_000_000,
{
    let w = number::signed_decimal(n as int);
    let t = w + seq![' '] + rest;
    number::a_whole_number_reads_in_millionths(n);
    if n < 0 {
        number::a_numeral_reads_back((-n) as nat, 10);
    } else {
        number::a_numeral_reads_back(n as nat, 10);
    }
    assert forall|j: int| 0 <= j < w.len() implies !text::is_space(#[trigger] t[j]) by {
        assert(t[j] == w[j]);
        if n < 0 {
            if j > 0 {
                assert(w[j] == number::decimal((-n) as nat)[j - 1]);
                assert(number::is_digit(number::decimal((-n) as nat)[j - 1]));
            }
        } else {
            assert(number::is_digit(number::decimal(n as nat)[j]));
        }
    }
    assert(t[w.len() as int] == ' ');
    text::lemma_first_word(t, w.len() as int);
    assert(t.take(w.len() as int) =~= w);
}

/// Every line that is a reply adds its time behind those before it, and no other
/// line adds any; of more replies than echoes, the first ones count.
pub proof fn replies_are_read_in_order(lines: Seq<Seq<char>>, line: Seq<char>, n: nat)
    ensures
        reply_times(lines.push(line)) == (match reply_time(line) {
            Some(t) => reply_times(lines).push(t),
            None => reply_times(lines),
        }),
        at_most(reply_times(lines), n).len() <= n,
        at_most(reply_times(lines), n).is_prefix_of(reply_times(lines)),
        reply_times(lines).len() <= n ==> at_most(reply_times(lines), n) == reply_times(lines),
        reply_times(lines).len() > n ==> at_most(reply_times(lines), n).len() == n,
{
    assert(lines.push(line).drop_last() =~= lines);
}

} // verus!
