//! Live TUI dashboard.
//!
//! What the dashboard holds, how it reacts to keys, ticks and probe results,
//! and what it shows. The connectivity chain re-probes on a fixed cadence so
//! the topology, verdict, and telemetry update in real time. Reading events
//! and drawing are up to the caller.

use crate::diagnose;
use crate::diagnose::{diagnose, Verdict};
use crate::engine;
use crate::model::path;
use crate::model::{Hop, HopId, Layer, Millis, Path, Status};
use crate::number;
use crate::platform;
use crate::probe::link;
use crate::render;
use crate::text;
use crate::wide::Balance;
use std::collections::VecDeque;
use vstd::prelude::*;

verus! {

broadcast use vstd::string::group_string_axioms;

/// Seconds between two sweeps.
pub const REPROBE_SECS: u64 = 4;

/// Milliseconds between two redraws.
pub const TICK_MS: u64 = 120;

/// How many round trips are remembered.
pub const HISTORY: usize = 40;

// ---- state ----

/// The dashboard's state.
#[derive(Debug)]
pub struct App {
    pub path: Path,
    pub verdict: Verdict,
    pub tick: usize,
    pub gw_hist: VecDeque<Millis>,
    pub wan_hist: VecDeque<Millis>,
    pub scanning: bool,
}

/// What the dashboard holds.
#[verifier::ext_equal]
pub struct AppView {
    pub hops: Seq<path::HopView>,
    pub verdict: diagnose::VerdictView,
    pub tick: usize,
    pub gateway: Seq<Millis>,
    pub wan: Seq<Millis>,
    pub scanning: bool,
}

impl View for App {
    type V = AppView;

    open spec fn view(&self) -> AppView {
        AppView {
            hops: self.path@,
            verdict: self.verdict@,
            tick: self.tick,
            gateway: self.gw_hist@,
            wan: self.wan_hist@,
            scanning: self.scanning,
        }
    }
}

/// A history with one more round trip, the oldest making room.
pub open spec fn remembered(hist: Seq<Millis>, v: Option<Millis>) -> Seq<Millis> {
    match v {
        Some(ms) => if hist.len() == HISTORY {
            hist.skip(1).push(ms)
        } else {
            hist.push(ms)
        },
        None => hist,
    }
}

/// The state after a hop has landed. A verdict is only reached once every hop
/// has settled.
pub open spec fn landed(app: AppView, hop: path::HopView) -> AppView {
    let hops = path::upserted(app.hops, hop);
    let timed = AppView {
        hops,
        gateway: if hop.id == HopId::Gateway {
            remembered(app.gateway, hop.latency_ms)
        } else {
            app.gateway
        },
        wan: if hop.id == HopId::Wan {
            remembered(app.wan, hop.latency_ms)
        } else {
            app.wan
        },
        ..app
    };
    if path::settled(hops) {
        AppView { verdict: diagnose::verdict_on(hops), scanning: false, ..timed }
    } else {
        timed
    }
}

/// A hop of every path, not only of some.
pub open spec fn in_chain(id: HopId) -> bool {
    id != HopId::Vpn && id != HopId::Uplink
}

/// A hop awaiting the next sweep. The host keeps its status.
pub open spec fn renewed_hop(h: path::HopView) -> path::HopView {
    if h.id == HopId::Host {
        h
    } else {
        path::HopView { status: Status::Pending, ..h }
    }
}

/// The hops awaiting the next sweep. Conditional ones are dropped: a tunnel
/// that disconnected between sweeps must not linger as a pending hop that never
/// resolves.
pub open spec fn renewed(hops: Seq<path::HopView>) -> Seq<path::HopView>
    decreases hops.len(),
{
    if hops.len() == 0 {
        seq![]
    } else if in_chain(hops.last().id) {
        renewed(hops.drop_last()).push(renewed_hop(hops.last()))
    } else {
        renewed(hops.drop_last())
    }
}

/// The state at the start of a sweep.
pub open spec fn restarted(app: AppView) -> AppView {
    AppView { hops: renewed(app.hops), scanning: true, ..app }
}

/// The dashboard before anything landed.
pub open spec fn fresh() -> AppView {
    AppView {
        hops: engine::skeleton_view(),
        verdict: diagnose::verdict_on(engine::skeleton_view()),
        tick: 0,
        gateway: seq![],
        wan: seq![],
        scanning: true,
    }
}

/// Remember a round trip, if there was one.
fn push(hist: &mut VecDeque<Millis>, v: Option<Millis>)
    ensures
        final(hist)@ == remembered(old(hist)@, v),
{
    if let Some(ms) = v {
        if hist.len() == HISTORY {
            hist.pop_front();
            assert(hist@ =~= old(hist)@.skip(1));
        }
        hist.push_back(ms);
    }
}

fn is_in_chain(id: HopId) -> (r: bool)
    ensures
        r == in_chain(id),
{
    match id {
        HopId::Vpn => false,
        HopId::Uplink => false,
        _ => true,
    }
}

fn renew(path: &mut Path)
    ensures
        final(path)@ == renewed(old(path)@),
{
    let ghost start = path@;
    let ghost mut k: int = 0;
    let mut i: usize = 0;
    assert(renewed(start.take(0)) + start.skip(0) =~= start);
    while i < path.hops.len()
        invariant
            0 <= k <= start.len(),
            i == renewed(start.take(k)).len(),
            path@ == renewed(start.take(k)) + start.skip(k),
        decreases start.len() - k,
    {
        let ghost before = path.hops@;
        let ghost done = renewed(start.take(k));
        let ghost joined = path@;
        assert forall|j: int| 0 <= j < before.len() implies before[j]@ == joined[j] by {}
        assert(joined.len() == before.len());
        assert forall|j: int| i <= j < joined.len() implies joined[j] == start[k + j - i] by {
            assert(joined[j] == start.skip(k)[j - i]);
        }
        assert(path@[i as int] == path.hops@[i as int]@);
        assert(path@[i as int] == start[k]);
        assert(start.take(k + 1).drop_last() == start.take(k));
        assert(start.skip(k).len() > 0);
        let id = path.hops[i].id;
        if is_in_chain(id) {
            if id != HopId::Host {
                let h = &mut path.hops[i];
                h.status = Status::Pending;
            }
            assert(path.hops@[i as int]@ == renewed_hop(start[k]));
            let ghost next = done.push(renewed_hop(start[k])) + start.skip(k + 1);
            assert forall|j: int| 0 <= j < before.len() implies path@[j] == next[j] by {
                if j != i {
                    assert(path.hops@[j] == before[j]);
                    assert(before[j]@ == joined[j]);
                }
                if j > i {
                    assert(joined[j] == start[k + j - i]);
                    assert(next[j] == start.skip(k + 1)[j - i - 1]);
                }
            }
            assert(path@ =~= next);
            i += 1;
        } else {
            path.hops.remove(i);
            let ghost next = done + start.skip(k + 1);
            assert forall|j: int| 0 <= j < path.hops@.len() implies path@[j] == next[j] by {
                if j < i {
                    assert(path.hops@[j] == before[j]);
                    assert(before[j]@ == joined[j]);
                } else {
                    assert(path.hops@[j] == before[j + 1]);
                    assert(before[j + 1]@ == joined[j + 1]);
                    assert(joined[j + 1] == start[k + j + 1 - i]);
                    assert(next[j] == start.skip(k + 1)[j - i]);
                }
            }
            assert(path@ =~= next);
        }
        proof {
            k = k + 1;
        }
    }
    assert(k == start.len());
    assert(start.take(k) =~= start);
    assert(path@ =~= renewed(start));
}

impl App {
    /// The dashboard before anything landed.
    pub fn new() -> (r: Self)
        ensures
            r@ == fresh(),
    {
        let path = engine::skeleton();
        let verdict = diagnose(&path);
        App {
            path,
            verdict,
            tick: 0,
            gw_hist: VecDeque::with_capacity(HISTORY),
            wan_hist: VecDeque::with_capacity(HISTORY),
            scanning: true,
        }
    }

    /// Take in a hop that landed.
    pub fn apply(&mut self, hop: Hop)
        ensures
            final(self)@ == landed(old(self)@, hop@),
    {
        match hop.id {
            HopId::Gateway => push(&mut self.gw_hist, hop.latency_ms),
            HopId::Wan => push(&mut self.wan_hist, hop.latency_ms),
            _ => {},
        }
        self.path.upsert(hop);
        if self.path.is_complete() {
            self.verdict = diagnose(&self.path);
            self.scanning = false;
        }
    }

    /// Make ready for the next sweep: drop conditional hops, which the sweep
    /// adds again only if they are still there, and reset the statuses of the
    /// others. Telemetry history is kept.
    pub fn restart(&mut self)
        ensures
            final(self)@ == restarted(old(self)@),
    {
        renew(&mut self.path);
        self.scanning = true;
    }
}

// ---- events ----

/// A key that was pressed.
#[derive(Debug, Clone, Copy, PartialEq, Eq, Structural)]
pub enum Key {
    Char(char),
    Escape,
    Other,
}

/// Something that happened.
#[derive(Debug)]
pub enum Event {
    /// A key was pressed.
    Pressed(Key),
    /// It is time to redraw.
    Tick,
    /// A probe reported.
    Landed(Hop),
    /// It is time for another sweep.
    Reprobe,
}

/// What is to be done about it.
#[derive(Debug, Clone, Copy, PartialEq, Eq, Structural)]
pub enum Reaction {
    /// Leave the dashboard.
    Quit,
    /// Start a sweep, in place of one that is still running.
    Sweep,
    /// Nothing but to redraw.
    Draw,
}

/// The reaction to an event.
pub open spec fn reaction_to(app: AppView, event: Event) -> Reaction {
    match event {
        Event::Pressed(Key::Char('q')) => Reaction::Quit,
        Event::Pressed(Key::Escape) => Reaction::Quit,
        Event::Pressed(Key::Char('r')) => Reaction::Sweep,
        Event::Reprobe => if app.scanning {
            Reaction::Draw
        } else {
            Reaction::Sweep
        },
        _ => Reaction::Draw,
    }
}

/// The state after an event.
pub open spec fn after(app: AppView, event: Event) -> AppView {
    match event {
        Event::Tick => AppView {
            tick: if app.tick < usize::MAX {
                (app.tick + 1) as usize
            } else {
                0
            },
            ..app
        },
        Event::Landed(hop) => landed(app, hop@),
        _ => if reaction_to(app, event) == Reaction::Sweep {
            restarted(app)
        } else {
            app
        },
    }
}

impl App {
    /// React to an event. The chain re-probes on its own only once the sweep
    /// before has finished; `r` re-probes at once.
    pub fn handle(&mut self, event: Event) -> (r: Reaction)
        ensures
            r == reaction_to(old(self)@, event),
            final(self)@ == after(old(self)@, event),
    {
        match event {
            Event::Pressed(key) => match key {
                Key::Char(c) => if c == 'q' {
                    Reaction::Quit
                } else if c == 'r' {
                    self.restart();
                    Reaction::Sweep
                } else {
                    Reaction::Draw
                },
                Key::Escape => Reaction::Quit,
                Key::Other => Reaction::Draw,
            },
            Event::Tick => {
                self.tick = if self.tick < usize::MAX {
                    self.tick + 1
                } else {
                    0
                };
                Reaction::Draw
            },
            Event::Landed(hop) => {
                self.apply(hop);
                Reaction::Draw
            },
            Event::Reprobe => if self.scanning {
                Reaction::Draw
            } else {
                self.restart();
                Reaction::Sweep
            },
        }
    }
}

// ---- what is shown ----

/// The frame of the spinner at a tick.
pub open spec fn frame(tick: usize) -> Seq<char> {
    let k = tick % 8;
    if k == 0 {
        "⠋"@
    } else if k == 1 {
        "⠙"@
    } else if k == 2 {
        "⠹"@
    } else if k == 3 {
        "⠸"@
    } else if k == 4 {
        "⠼"@
    } else if k == 5 {
        "⠴"@
    } else if k == 6 {
        "⠦"@
    } else {
        "⠧"@
    }
}

/// The frame of the spinner at a tick.
pub fn spinner(tick: usize) -> (r: &'static str)
    ensures
        r@ == frame(tick),
{
    match tick % 8 {
        0 => "⠋",
        1 => "⠙",
        2 => "⠹",
        3 => "⠸",
        4 => "⠼",
        5 => "⠴",
        6 => "⠦",
        _ => "⠧",
    }
}

/// The header's note on whether a sweep is running.
pub fn activity(app: &App) -> (r: String)
    ensures
        r@ == (if app.scanning {
            " "@ + frame(app.tick) + " scanning"@
        } else {
            " ✓ live"@
        }),
{
    if app.scanning {
        text::cat3(" ", spinner(app.tick), " scanning")
    } else {
        " ✓ live".to_string()
    }
}

/// The glyph on a hop's card: a pending one spins.
pub fn card_glyph(hop: &Hop, tick: usize) -> (r: &'static str)
    ensures
        r@ == (if hop.status == Status::Pending {
            frame(tick)
        } else {
            hop.status.mark()
        }),
{
    if hop.status == Status::Pending {
        spinner(tick)
    } else {
        hop.status.glyph()
    }
}

/// The word for a status on a card.
pub open spec fn card_word(st: Status) -> Seq<char> {
    match st {
        Status::Pending => "…"@,
        Status::Skipped => "skipped"@,
        Status::Healthy => "ok"@,
        Status::Warn => "warn"@,
        Status::Fail => "down"@,
    }
}

/// The one number that matters for this hop, for the card face.
pub fn hop_stat_line(hop: &Hop) -> (r: String)
    ensures
        r@ == (match hop.latency_ms {
            Some(ms) => ms.whole() + " ms"@,
            None => card_word(hop.status),
        }),
{
    if let Some(ms) = hop.latency_ms {
        return text::cat2(ms.whole_text().as_str(), " ms");
    }
    let word = match hop.status {
        Status::Pending => "…",
        Status::Skipped => "skipped",
        Status::Healthy => "ok",
        Status::Warn => "warn",
        Status::Fail => "down",
    };
    word.to_string()
}

/// A connector between two cards.
#[derive(Debug, Clone, Copy, PartialEq, Eq, Structural)]
pub struct Connector {
    /// The worse of the two statuses it joins.
    pub status: Status,
    /// It leads to the first broken hop.
    pub is_break: bool,
}

/// The connector in front of hop `i`.
pub open spec fn connector_to(hops: Seq<path::HopView>, i: int) -> Connector {
    Connector {
        status: hops[i - 1].status.worse(hops[i].status),
        is_break: render::first_broken(hops, i),
    }
}

/// The connectors between the cards, from left to right.
pub fn connectors(path: &Path) -> (r: Vec<Connector>)
    ensures
        r@.len() == (if path@.len() == 0 {
            0
        } else {
            path@.len() - 1
        }),
        forall|i: int| 0 <= i < r@.len() ==> r@[i] == connector_to(path@, i + 1),
{
    let mut out: Vec<Connector> = Vec::new();
    if path.hops.len() == 0 {
        return out;
    }
    let mut broke = path.hops[0].status == Status::Fail;
    let mut i: usize = 1;
    assert(path@.take(1).drop_last() =~= Seq::<path::HopView>::empty());
    proof {
        render::lemma_first_broken(Seq::<path::HopView>::empty(), path@.take(1));
    }
    while i < path.hops.len()
        invariant
            1 <= i <= path.hops@.len(),
            out@.len() == i - 1,
            broke == diagnose::any_with(path@.take(i as int), Status::Fail),
            forall|j: int| 0 <= j < out@.len() ==> out@[j] == connector_to(path@, j + 1),
        decreases path.hops@.len() - i,
    {
        assert(path@[i as int] == path.hops@[i as int]@);
        assert(path@[i - 1] == path.hops@[i - 1]@);
        let fails = path.hops[i].status == Status::Fail;
        let ghost now = path@.take(i + 1);
        proof {
            assert(now.drop_last() =~= path@.take(i as int));
            render::lemma_first_broken(path@.take(i as int), now);
            render::lemma_first_broken_so_far(path@, i + 1, i as int);
        }
        let c = Connector {
            status: path.hops[i - 1].status.max(path.hops[i].status),
            is_break: !broke && fails,
        };
        assert(c == connector_to(path@, i as int));
        out.push(c);
        if fails {
            broke = true;
        }
        i += 1;
    }
    out
}

/// The arrow of a connector.
pub fn arrow(is_break: bool) -> (r: &'static str)
    ensures
        r@ == (if is_break {
            "─╳─▶"@
        } else {
            "───▶"@
        }),
{
    if is_break {
        "─╳─▶"
    } else {
        "───▶"
    }
}

/// The tag of a verdict.
pub fn verdict_tag(st: Status) -> (r: &'static str)
    ensures
        r@ == (match st {
            Status::Healthy => " ALL GOOD "@,
            Status::Warn => " DEGRADED "@,
            Status::Pending => " SCANNING "@,
            Status::Skipped => " UNKNOWN "@,
            Status::Fail => " BROKEN "@,
        }),
{
    match st {
        Status::Healthy => " ALL GOOD ",
        Status::Warn => " DEGRADED ",
        Status::Pending => " SCANNING ",
        // Nothing measured is not the same as measured-and-broken.
        Status::Skipped => " UNKNOWN ",
        Status::Fail => " BROKEN ",
    }
}

/// A row of the path detail.
#[derive(Debug, Clone)]
pub struct Row {
    pub status: Status,
    pub title: String,
    pub summary: Option<String>,
}

/// What a row says.
#[verifier::ext_equal]
pub struct RowView {
    pub status: Status,
    pub title: Seq<char>,
    pub summary: Option<Seq<char>>,
}

impl View for Row {
    type V = RowView;

    open spec fn view(&self) -> RowView {
        RowView {
            status: self.status,
            title: self.title@,
            summary: path::opt_text(self.summary),
        }
    }
}

/// What several rows say.
pub open spec fn rows_view(rows: Seq<Row>) -> Seq<RowView> {
    rows.map_values(|r: Row| r@)
}

/// The rows on these hops, but for the host.
pub open spec fn rows_of(hops: Seq<path::HopView>) -> Seq<RowView>
    decreases hops.len(),
{
    if hops.len() == 0 {
        seq![]
    } else if hops.last().id == HopId::Host {
        rows_of(hops.drop_last())
    } else {
        rows_of(hops.drop_last()).push(
            RowView {
                status: hops.last().status,
                title: render::padded(hops.last().title, 9),
                summary: hops.last().summary,
            },
        )
    }
}

/// The rows of the path detail.
pub fn detail(path: &Path) -> (r: Vec<Row>)
    ensures
        rows_view(r@) == rows_of(path@),
{
    let mut out: Vec<Row> = Vec::new();
    let mut i: usize = 0;
    assert(rows_view(out@) =~= Seq::<RowView>::empty());
    while i < path.hops.len()
        invariant
            i <= path.hops@.len(),
            rows_view(out@) == rows_of(path@.take(i as int)),
        decreases path.hops@.len() - i,
    {
        assert(path@.take(i + 1).drop_last() == path@.take(i as int));
        assert(path@[i as int] == path.hops@[i as int]@);
        let hop = &path.hops[i];
        if hop.id != HopId::Host {
            let ghost before = rows_view(out@);
            let row = Row {
                status: hop.status,
                title: render::pad(hop.title.as_str(), 9),
                summary: path::copy_text(&hop.summary),
            };
            out.push(row);
            assert(rows_view(out@) =~= before.push(row@));
        }
        i += 1;
    }
    assert(path@.take(i as int) == path@);
    out
}

// ---- telemetry ----

/// The value of the first metric with a label.
pub open spec fn metric_value(metrics: Seq<path::MetricView>, label: Seq<char>) -> Option<Seq<char>>
    decreases metrics.len(),
{
    if metrics.len() == 0 {
        None
    } else if metrics[0].label == label {
        Some(metrics[0].value)
    } else {
        metric_value(metrics.skip(1), label)
    }
}

/// The signal strength that the link hop shows, in millionths of a dBm.
pub open spec fn signal(hops: Seq<path::HopView>) -> Option<i64> {
    match path::lookup(hops, HopId::Link) {
        Some(h) => match metric_value(h.metrics, "RSSI"@) {
            Some(v) => match text::first_word(v) {
                Some(w) => number::millionths_value(w),
                None => None,
            },
            None => None,
        },
        None => None,
    }
}

fn shown_rssi(hop: &Hop) -> (r: Option<i64>)
    ensures
        r == (match metric_value(hop@.metrics, "RSSI"@) {
            Some(v) => match text::first_word(v) {
                Some(w) => number::millionths_value(w),
                None => None,
            },
            None => None,
        }),
{
    let ghost all = hop@.metrics;
    let mut i: usize = 0;
    assert(all.skip(0) == all);
    while i < hop.metrics.len()
        invariant
            i <= hop.metrics@.len(),
            all == hop@.metrics,
            metric_value(all, "RSSI"@) == metric_value(all.skip(i as int), "RSSI"@),
        decreases hop.metrics@.len() - i,
    {
        assert(all[i as int] == hop.metrics@[i as int]@);
        assert(all.skip(i as int).skip(1) == all.skip(i + 1));
        let m = &hop.metrics[i];
        if text::str_eq(m.label.as_str(), "RSSI") {
            let chars = text::chars_of(m.value.as_str());
            return match text::word_of(chars.as_slice()) {
                Some(w) => number::read_millionths(w),
                None => None,
            };
        }
        i += 1;
    }
    None
}

/// The signal strength that the link hop shows, in millionths of a dBm.
pub fn rssi(path: &Path) -> (r: Option<i64>)
    ensures
        r == signal(path@),
{
    match path.get(HopId::Link) {
        Some(h) => shown_rssi(h),
        None => None,
    }
}

/// How full the signal gauge is, in parts of sixty million: empty at -90 dBm,
/// full at -30.
pub open spec fn gauge_of(rssi: Option<i64>) -> nat {
    match rssi {
        Some(r) => if r < -90_000_000 {
            0
        } else if r > -30_000_000 {
            60_000_000
        } else {
            (r + 90_000_000) as nat
        },
        None => 0,
    }
}

/// How full the signal gauge is, in parts of sixty million.
pub fn gauge(rssi: Option<i64>) -> (r: u32)
    ensures
        r == gauge_of(rssi),
        r <= 60_000_000,
{
    match rssi {
        Some(r) => if r < -90_000_000 {
            0
        } else if r > -30_000_000 {
            60_000_000
        } else {
            (r + 90_000_000) as u32
        },
        None => 0,
    }
}

/// How the gauge is colored: more than six tenths is healthy, more than
/// thirty-five hundredths is worth a warning.
pub fn gauge_status(filled: u32) -> (r: Status)
    ensures
        r == (if filled > 36_000_000 {
            Status::Healthy
        } else if filled > 21_000_000 {
            Status::Warn
        } else {
            Status::Fail
        }),
{
    if filled > 36_000_000 {
        Status::Healthy
    } else if filled > 21_000_000 {
        Status::Warn
    } else {
        Status::Fail
    }
}

/// The label on the gauge: the signal strength to no decimal places.
pub fn gauge_label(rssi: Option<i64>) -> (r: String)
    ensures
        r@ == "signal "@ + (match rssi {
            Some(r) => number::whole(r as int, 1_000_000) + " dBm"@,
            None => "—"@,
        }),
{
    let value = match rssi {
        Some(r) => text::cat2(number::whole_of(r, 1_000_000).as_str(), " dBm"),
        None => "—".to_string(),
    };
    text::cat2("signal ", value.as_str())
}

/// The lowest of these.
pub open spec fn lowest(v: Seq<Millis>) -> Millis
    decreases v.len(),
{
    if v.len() <= 1 {
        v[0]
    } else {
        let l = lowest(v.drop_last());
        if v.last().below(l) {
            v.last()
        } else {
            l
        }
    }
}

/// The highest of these.
pub open spec fn highest(v: Seq<Millis>) -> Millis
    decreases v.len(),
{
    if v.len() <= 1 {
        v[0]
    } else {
        let h = highest(v.drop_last());
        if h.below(v.last()) {
            v.last()
        } else {
            h
        }
    }
}

/// How far `v` stands above `lo`, as a numerator over the counts of `v`, `lo`
/// and `other` together.
pub open spec fn rise(v: Millis, lo: Millis, other: Millis) -> int {
    (v.total() * lo.count() - lo.total() * v.count()) * other.count()
}

/// How high a bar is, from 0 to 7: where the value stands between the lowest and
/// the highest, to the nearest step. Without a range it is in the middle.
pub open spec fn bar_height(v: Millis, lo: Millis, hi: Millis) -> int {
    if lo.below(hi) {
        (14 * rise(v, lo, hi) + rise(hi, lo, v)) / (2 * rise(hi, lo, v))
    } else {
        4
    }
}

/// The bar of a height.
pub open spec fn bar(height: int) -> char {
    if height == 0 {
        '▁'
    } else if height == 1 {
        '▂'
    } else if height == 2 {
        '▃'
    } else if height == 3 {
        '▄'
    } else if height == 4 {
        '▅'
    } else if height == 5 {
        '▆'
    } else if height == 6 {
        '▇'
    } else {
        '█'
    }
}

/// The bars of the last `width` values of a history, scaled on all of it.
pub open spec fn spark(hist: Seq<Millis>, width: nat) -> Seq<char> {
    let shown = if hist.len() > width {
        hist.skip(hist.len() - width)
    } else {
        hist
    };
    shown.map_values(|v: Millis| bar(bar_height(v, lowest(hist), highest(hist))))
}

/// Every value is shared over something.
pub open spec fn all_valid(v: Seq<Millis>) -> bool {
    forall|i: int| 0 <= i < v.len() ==> (#[trigger] v[i]).count() > 0
}

/// What is not above a value is not above one that is no lower.
proof fn lemma_not_above(a: Millis, b: Millis, c: Millis)
    requires
        a.count() > 0,
        b.count() > 0,
        c.count() > 0,
        !b.below(a),
        !c.below(b),
    ensures
        !c.below(a),
{
    let (x, p) = (a.total(), a.count());
    let (y, q) = (b.total(), b.count());
    let (z, r) = (c.total(), c.count());
    assert(z * p >= x * r) by (nonlinear_arith)
        requires
            y * p >= x * q,
            z * q >= y * r,
            p > 0,
            q > 0,
            r > 0,
    {
        assert((z * p) * q == (z * q) * p);
        assert((z * q) * p >= (y * r) * p);
        assert((y * r) * p == (y * p) * r);
        assert((y * p) * r >= (x * q) * r);
        assert((x * q) * r == (x * r) * q);
    }
}

/// The lowest and the highest are values of the history, and every other lies
/// between them.
proof fn lemma_range(v: Seq<Millis>, i: int)
    requires
        0 <= i < v.len(),
        all_valid(v),
    ensures
        !v[i].below(lowest(v)),
        !highest(v).below(v[i]),
        lowest(v).count() > 0,
        highest(v).count() > 0,
    decreases v.len(),
{
    assert(v[i].count() > 0);
    if v.len() > 1 {
        let before = v.drop_last();
        assert forall|j: int| 0 <= j < before.len() implies (#[trigger] before[j]).count() > 0 by {
            assert(v[j].count() > 0);
        }
        let last = v[v.len() - 1];
        assert(last.count() > 0);
        let l = lowest(before);
        let h = highest(before);
        if i < v.len() - 1 {
            lemma_range(before, i);
            if last.below(l) {
                lemma_not_above(last, l, v[i]);
            }
            if h.below(last) {
                lemma_not_above(v[i], h, last);
            }
        } else {
            lemma_range(before, 0);
        }
    }
}

/// Where a value stands between two others, in numerators over the same three
/// counts.
proof fn lemma_rise(v: Millis, lo: Millis, hi: Millis)
    requires
        v.count() > 0,
        lo.count() > 0,
        hi.count() > 0,
        !v.below(lo),
        !hi.below(v),
    ensures
        0 <= rise(v, lo, hi) <= rise(hi, lo, v),
        lo.below(hi) ==> rise(hi, lo, v) > 0,
        rise(v, lo, hi) == v.total() * lo.count() * hi.count() - lo.total() * v.count()
            * hi.count(),
        rise(hi, lo, v) == hi.total() * lo.count() * v.count() - lo.total() * v.count()
            * hi.count(),
{
    let (x, p) = (v.total(), v.count());
    let (y, q) = (lo.total(), lo.count());
    let (z, r) = (hi.total(), hi.count());
    assert((x * q - y * p) * r == x * q * r - y * p * r) by (nonlinear_arith);
    assert((z * q - y * r) * p == z * q * p - y * p * r) by (nonlinear_arith);
    assert((x * q - y * p) * r >= 0) by (nonlinear_arith)
        requires
            x * q >= y * p,
            r > 0,
    ;
    assert(x * q * r <= z * q * p) by (nonlinear_arith)
        requires
            z * p >= x * r,
            q > 0,
    ;
    if lo.below(hi) {
        assert((z * q - y * r) * p > 0) by (nonlinear_arith)
            requires
                y * r < z * q,
                p > 0,
        ;
    }
}

/// A height is what its two steps leave.
proof fn lemma_height(a: int, b: int, h: int)
    requires
        0 <= a <= b,
        b > 0,
        0 <= h <= 7,
        h == 0 || 14 * a >= (2 * h - 1) * b,
        h == 7 || 14 * a < (2 * h + 1) * b,
    ensures
        (14 * a + b) / (2 * b) == h,
{
    let rest = 14 * a + b - h * (2 * b);
    assert(0 <= rest < 2 * b) by (nonlinear_arith)
        requires
            rest == 14 * a + b - h * (2 * b),
            0 <= a <= b,
            b > 0,
            h == 0 || 14 * a >= (2 * h - 1) * b,
            h == 7 || 14 * a < (2 * h + 1) * b,
            0 <= h <= 7,
    ;
    assert(14 * a + b == h * (2 * b) + rest);
    vstd::arithmetic::div_mod::lemma_fundamental_div_mod_converse(14 * a + b, 2 * b, h, rest);
}

/// A bar is never higher than the highest.
pub proof fn bars_stay_in_range(hist: Seq<Millis>, i: int)
    requires
        0 <= i < hist.len(),
        all_valid(hist),
    ensures
        0 <= bar_height(hist[i], lowest(hist), highest(hist)) <= 7,
{
    lemma_range(hist, i);
    let lo = lowest(hist);
    let hi = highest(hist);
    lemma_rise(hist[i], lo, hi);
    let a = rise(hist[i], lo, hi);
    let b = rise(hi, lo, hist[i]);
    if lo.below(hi) {
        assert(0 <= (14 * a + b) / (2 * b) <= 7) by (nonlinear_arith)
            requires
                0 <= a <= b,
                b > 0,
        ;
    }
}

/// The height of a bar: the last of the seven steps that the value reaches.
fn height_of(v: &Millis, lo: &Millis, hi: &Millis) -> (r: u64)
    requires
        !v.below(*lo),
        !hi.below(*v),
    ensures
        r == bar_height(*v, *lo, *hi),
{
    if !lo.less_than(hi) {
        return 4;
    }
    let (p, q, t) = (v.over(), lo.over(), hi.over());
    // All three over the product of their counts.
    let value = Balance::of(v.is_negative(), v.nanos()).times(q).times(t);
    let floor = Balance::of(lo.is_negative(), lo.nanos()).times(p).times(t);
    let top = Balance::of(hi.is_negative(), hi.nanos()).times(q).times(p);
    let ghost a = rise(*v, *lo, *hi);
    let ghost b = rise(*hi, *lo, *v);
    proof {
        lemma_rise(*v, *lo, *hi);
        assert(a == value@ - floor@);
        assert(b == top@ - floor@);
    }
    let mut h: u64 = 0;
    while h < 7
        invariant
            h <= 7,
            a == value@ - floor@,
            b == top@ - floor@,
            0 <= a <= b,
            b > 0,
            b == rise(*hi, *lo, *v),
            a == rise(*v, *lo, *hi),
            lo.below(*hi),
            h == 0 || 14 * a >= (2 * h - 1) * b,
        decreases 7 - h,
    {
        let odd: u64 = 2 * h + 1;
        let reached = value.times(14).plus(&floor.times(odd));
        let needed = floor.times(14).plus(&top.times(odd));
        let ghost (x, y, z) = (value@, floor@, top@);
        assert(reached@ >= needed@ <==> 14 * a >= odd * b) by {
            assert(odd * b == odd * z - odd * y) by (nonlinear_arith)
                requires
                    b == z - y,
            ;
            assert(y * odd == odd * y) by (nonlinear_arith);
            assert(z * odd == odd * z) by (nonlinear_arith);
        }
        if !reached.at_least(&needed) {
            proof {
                lemma_height(a, b, h as int);
            }
            return h;
        }
        h += 1;
        assert(2 * h - 1 == odd);
    }
    proof {
        lemma_height(a, b, 7);
    }
    7
}

fn bar_of(height: u64) -> (r: char)
    ensures
        r == bar(height as int),
{
    match height {
        0 => '▁',
        1 => '▂',
        2 => '▃',
        3 => '▄',
        4 => '▅',
        5 => '▆',
        6 => '▇',
        _ => '█',
    }
}

/// Where the lowest and the highest of a history stand.
fn extent(hist: &VecDeque<Millis>) -> (r: (usize, usize))
    requires
        hist@.len() > 0,
    ensures
        r.0 < hist@.len(),
        r.1 < hist@.len(),
        hist@[r.0 as int] == lowest(hist@),
        hist@[r.1 as int] == highest(hist@),
        all_valid(hist@),
{
    let ghost all = hist@;
    let mut lo: usize = 0;
    let mut hi: usize = 0;
    let mut i: usize = 1;
    let _first: u64 = hist[0].over();
    assert(all.take(1)[0] == all[0]);
    while i < hist.len()
        invariant
            1 <= i <= hist@.len(),
            all == hist@,
            lo < i,
            hi < i,
            all[lo as int] == lowest(all.take(i as int)),
            all[hi as int] == highest(all.take(i as int)),
            forall|j: int| 0 <= j < i ==> (#[trigger] all[j]).count() > 0,
        decreases hist@.len() - i,
    {
        let ghost now = all.take(i + 1);
        assert(now.drop_last() == all.take(i as int));
        assert(now.last() == all[i as int]);
        let _count: u64 = hist[i].over();
        if hist[i].less_than(&hist[lo]) {
            lo = i;
        }
        if hist[hi].less_than(&hist[i]) {
            hi = i;
        }
        i += 1;
    }
    assert(all.take(i as int) == all);
    (lo, hi)
}

/// Unicode sparkline of a history, so we fully control scaling.
pub fn sparkline(hist: &VecDeque<Millis>, width: usize) -> (r: String)
    ensures
        r@ == spark(hist@, width as nat),
{
    let ghost all = hist@;
    let n: usize = hist.len();
    let ghost shown = spark(all, width as nat);
    let mut out: String = String::new();
    if n == 0 {
        assert(out@ =~= shown);
        return out;
    }
    let (lo, hi) = extent(hist);
    let from: usize = if n > width {
        n - width
    } else {
        0
    };
    let mut i: usize = from;
    assert(out@ =~= shown.take(0));
    while i < n
        invariant
            from <= i <= n,
            n == hist@.len(),
            all == hist@,
            all_valid(all),
            lo < n,
            hi < n,
            from == (if n > width {
                n - width
            } else {
                0
            }),
            shown == spark(all, width as nat),
            all[lo as int] == lowest(all),
            all[hi as int] == highest(all),
            out@ == shown.take(i - from),
        decreases n - i,
    {
        proof {
            lemma_range(all, i as int);
        }
        let height: u64 = height_of(&hist[i], &hist[lo], &hist[hi]);
        out.push(bar_of(height));
        i += 1;
        assert(shown[i - 1 - from] == bar(bar_height(all[i - 1], lowest(all), highest(all))));
        assert(shown.take(i - from) =~= shown.take(i - 1 - from).push(shown[i - 1 - from]));
    }
    assert(shown.take(n - from) =~= shown);
    out
}

/// The latest of a history, ` 12ms`, or nothing.
pub fn latest(hist: &VecDeque<Millis>) -> (r: String)
    ensures
        r@ == (if hist@.len() > 0 {
            " "@ + hist@.last().whole() + "ms"@
        } else {
            seq![]
        }),
{
    let n: usize = hist.len();
    if n > 0 {
        text::cat3(" ", hist[n - 1].whole_text().as_str(), "ms")
    } else {
        String::new()
    }
}

// ---- laws ----

/// A connector is crossed out exactly when it leads to a broken hop and no hop
/// before that is broken, so one at most is.
pub proof fn only_the_first_break_is_crossed_out(hops: Seq<path::HopView>, i: int, j: int)
    requires
        1 <= i < hops.len(),
        1 <= j < hops.len(),
    ensures
        connector_to(hops, i).is_break <==> hops[i].status == Status::Fail && !diagnose::any_with(
            hops.take(i),
            Status::Fail,
        ),
        connector_to(hops, i).is_break && connector_to(hops, j).is_break ==> i == j,
        hops[0].status == Status::Fail ==> !connector_to(hops, i).is_break,
{
    let now = hops.take(i + 1);
    assert(now.drop_last() =~= hops.take(i));
    render::lemma_first_broken(hops.take(i), now);
    render::lemma_first_broken_so_far(hops, i + 1, i);
}

/// A history never outgrows its bound, and always ends with the latest.
pub proof fn history_is_bounded(hist: Seq<Millis>, ms: Millis)
    requires
        hist.len() <= HISTORY,
    ensures
        remembered(hist, Some(ms)).len() <= HISTORY,
        remembered(hist, Some(ms)).last() == ms,
        hist.len() < HISTORY ==> remembered(hist, Some(ms)).drop_last() == hist,
        remembered(hist, None) == hist,
{
    if hist.len() < HISTORY {
        assert(remembered(hist, Some(ms)).drop_last() =~= hist);
    }
}

/// A new sweep waits only for hops of the chain, so none that may never come
/// back can hold it open; a verdict that was reached stays until the next.
pub proof fn a_restart_waits_only_for_the_chain(app: AppView, i: int)
    requires
        0 <= i < restarted(app).hops.len(),
    ensures
        in_chain(restarted(app).hops[i].id),
        restarted(app).hops[i].id != HopId::Host ==> restarted(app).hops[i].status
            == Status::Pending,
        restarted(app).verdict == app.verdict,
        restarted(app).gateway == app.gateway,
        restarted(app).wan == app.wan,
{
    lemma_renewed(app.hops, i);
}

proof fn lemma_renewed(hops: Seq<path::HopView>, i: int)
    requires
        0 <= i < renewed(hops).len(),
    ensures
        in_chain(renewed(hops)[i].id),
        renewed(hops)[i].id != HopId::Host ==> renewed(hops)[i].status == Status::Pending,
    decreases hops.len(),
{
    if hops.len() > 0 && i < renewed(hops.drop_last()).len() {
        lemma_renewed(hops.drop_last(), i);
    }
}

/// The chain is exactly the hops that a restart keeps.
pub proof fn the_chain_is_what_a_restart_keeps(id: HopId)
    ensures
        in_chain(id) <==> engine::CHAIN@.contains(id),
{
    let c = engine::CHAIN@;
    assert(c[0] == HopId::Host && c[1] == HopId::Link && c[2] == HopId::Gateway && c[3]
        == HopId::Wan && c[4] == HopId::Dns && c[5] == HopId::Captive);
}

proof fn lemma_no_such_metric(metrics: Seq<path::MetricView>, label: Seq<char>)
    requires
        forall|i: int| 0 <= i < metrics.len() ==> (#[trigger] metrics[i]).label != label,
    ensures
        metric_value(metrics, label) is None,
    decreases metrics.len(),
{
    if metrics.len() > 0 {
        let rest = metrics.skip(1);
        assert forall|i: int| 0 <= i < rest.len() implies (#[trigger] rest[i]).label != label by {
            assert(metrics[i + 1].label != label);
        }
        assert(metrics[0].label != label);
        lemma_no_such_metric(rest, label);
    }
}

/// The gauge reads the signal strength that the link probe wrote, whatever it
/// was, and nothing where it wrote none.
pub proof fn the_gauge_reads_what_the_link_wrote(
    hops: Seq<path::HopView>,
    title: Seq<char>,
    info: platform::LinkView,
)
    requires
        path::lookup(hops, HopId::Link) == Some(
            link::graded(path::blank(HopId::Link, Layer::Link, title), info),
        ),
    ensures
        signal(hops) == (match info.rssi_dbm {
            Some(r) => Some((r * 1_000_000) as i64),
            None => None,
        }),
{
    reveal_strlit("RSSI");
    reveal_strlit("Noise");
    reveal_strlit("SNR");
    reveal_strlit("Channel");
    reveal_strlit("PHY");
    reveal_strlit("Security");
    reveal_strlit("Tx Rate");
    reveal_strlit("SSID");
    let metrics = (path::lookup(hops, HopId::Link)->0).metrics;
    let label = "RSSI"@;
    match info.rssi_dbm {
        Some(r) => {
            let word = number::signed_decimal(r as int);
            let value = link::dbm(r);
            assert(metrics[0] == path::graded(label, value, link::standing(info)));
            number::a_whole_number_reads_in_millionths(r);
            number::a_numeral_reads_back(
                (if r < 0 {
                    -r
                } else {
                    r as int
                }) as nat,
                10,
            );
            reveal_strlit(" dBm");
            let n = word.len() as int;
            assert forall|j: int| 0 <= j < n implies !text::is_space(#[trigger] value[j]) by {
                assert(value[j] == word[j]);
                if r >= 0 {
                    assert(number::is_digit(number::decimal(r as nat)[j]));
                } else if j > 0 {
                    assert(number::is_digit(number::decimal((-r) as nat)[j - 1]));
                }
            }
            text::lemma_first_word(value, n);
            assert(value.take(n) =~= word);
        },
        None => {
            assert(label.len() == 4 && label[0] == 'R');
            let signals = link::signal_metrics(info);
            let radio = link::radio_metrics(info);
            let network = link::network_metrics(info);
            assert forall|i: int| 0 <= i < signals.len() implies (#[trigger] signals[i]).label
                != label by {
                assert(signals[i].label == "Noise"@ || signals[i].label == "SNR"@);
            }
            assert forall|i: int| 0 <= i < radio.len() implies (#[trigger] radio[i]).label
                != label by {
                assert(radio[i].label == "Channel"@ || radio[i].label == "PHY"@ || radio[i].label
                    == "Security"@);
            }
            assert forall|i: int| 0 <= i < network.len() implies (#[trigger] network[i]).label
                != label by {
                assert(network[i].label == "Tx Rate"@ || network[i].label == "SSID"@);
                assert("SSID"@[0] == 'S');
            }
            assert(metrics =~= signals + radio + network);
            lemma_no_such_metric(metrics, label);
        },
    }
}

/// What lands is taken in: the hop is there as it landed and no other changed;
/// its time is remembered exactly where it is the gateway's or the WAN's; and
/// the verdict follows from the path once all of it has settled, and until then
/// is the one before.
pub proof fn what_lands_is_taken_in(app: AppView, hop: path::HopView, other: HopId)
    ensures
        ({
            let now = landed(app, hop);
            &&& path::lookup(now.hops, hop.id) == Some(hop)
            &&& other != hop.id ==> path::lookup(now.hops, other) == path::lookup(app.hops, other)
            &&& hop.id != HopId::Gateway || hop.latency_ms is None ==> now.gateway == app.gateway
            &&& hop.id != HopId::Wan || hop.latency_ms is None ==> now.wan == app.wan
            &&& hop.id == HopId::Gateway && hop.latency_ms is Some ==> now.gateway.last()
                == hop.latency_ms->0
            &&& hop.id == HopId::Wan && hop.latency_ms is Some ==> now.wan.last()
                == hop.latency_ms->0
            &&& path::settled(now.hops) ==> !now.scanning && now.verdict == diagnose::verdict_on(
                now.hops,
            )
            &&& !path::settled(now.hops) ==> now.scanning == app.scanning && now.verdict
                == app.verdict
            &&& now.tick == app.tick
        }),
{
    path::upsert_then_get(app.hops, hop, other);
}

/// A full history drops its oldest time and keeps the others in order.
pub proof fn a_full_history_drops_its_oldest(hist: Seq<Millis>, ms: Millis)
    requires
        hist.len() == 40,
    ensures
        remembered(hist, Some(ms)).len() == 40,
        forall|i: int| 0 <= i < 39 ==> #[trigger] remembered(hist, Some(ms))[i] == hist[i + 1],
{
}

/// The dashboard is left on `q` and Escape alone, and sweeps anew on `r`, or
/// when it is time and no sweep is running; every other event only redraws.
pub proof fn keys_do_what_they_say(app: AppView, event: Event)
    ensures
        reaction_to(app, event) == Reaction::Quit <==> (event matches Event::Pressed(k) && (k
            == Key::Char('q') || k == Key::Escape)),
        reaction_to(app, event) == Reaction::Sweep <==> (event matches Event::Pressed(k) && k
            == Key::Char('r')) || (event is Reprobe && !app.scanning),
        reaction_to(app, event) == Reaction::Sweep ==> after(app, event) == restarted(app),
        event is Tick || event is Landed || reaction_to(app, event) == Reaction::Sweep || after(
            app,
            event,
        ) == app,
        event matches Event::Landed(hop) ==> after(app, event) == landed(app, hop@),
{
}

/// A restart keeps every hop of the chain under its name, awaiting its result,
/// but for the host, which stays as it is; and it drops the conditional ones.
pub proof fn a_restart_keeps_the_chain(hops: Seq<path::HopView>, next: path::HopView)
    ensures
        renewed(Seq::empty()) == Seq::<path::HopView>::empty(),
        next.id == HopId::Vpn || next.id == HopId::Uplink ==> renewed(hops.push(next)) == renewed(
            hops,
        ),
        next.id == HopId::Host ==> renewed(hops.push(next)) == renewed(hops).push(next),
        next.id != HopId::Vpn && next.id != HopId::Uplink && next.id != HopId::Host ==> renewed(
            hops.push(next),
        ) == renewed(hops).push(path::HopView { status: Status::Pending, ..next }),
{
    assert(hops.push(next).drop_last() =~= hops);
}

/// A connector shows the worse of the two hops that it joins.
pub proof fn a_connector_shows_the_worse_side(hops: Seq<path::HopView>, i: int)
    requires
        1 <= i < hops.len(),
    ensures
        connector_to(hops, i).status == hops[i - 1].status || connector_to(hops, i).status
            == hops[i].status,
        connector_to(hops, i).status.weight() >= hops[i - 1].status.weight(),
        connector_to(hops, i).status.weight() >= hops[i].status.weight(),
{
}

/// Every hop but the host has its row, in order, with its status and what it
/// says.
pub proof fn every_hop_but_the_host_has_its_row(hops: Seq<path::HopView>, next: path::HopView)
    ensures
        rows_of(Seq::empty()) == Seq::<RowView>::empty(),
        next.id == HopId::Host ==> rows_of(hops.push(next)) == rows_of(hops),
        next.id != HopId::Host ==> rows_of(hops.push(next)).drop_last() == rows_of(hops) && rows_of(
            hops.push(next),
        ).last().status == next.status && rows_of(hops.push(next)).last().summary == next.summary
            && text::starts_with(rows_of(hops.push(next)).last().title, next.title),
{
    assert(hops.push(next).drop_last() =~= hops);
    let title = render::padded(next.title, 9);
    assert(title.take(next.title.len() as int) =~= next.title);
    if next.id != HopId::Host {
        assert(rows_of(hops.push(next)).drop_last() =~= rows_of(hops));
    }
}

/// A stronger signal never empties the gauge. It is empty at -90 dBm and below,
/// full at -30 dBm and above, and fills evenly in between; without a signal it
/// is empty.
pub proof fn the_gauge_fills_with_the_signal(weak: i64, strong: i64)
    requires
        weak <= strong,
    ensures
        gauge_of(Some(weak)) <= gauge_of(Some(strong)) <= 60_000_000,
        gauge_of(Some(weak)) == 0 <==> weak <= -90_000_000,
        gauge_of(Some(weak)) == 60_000_000 <==> weak >= -30_000_000,
        -90_000_000 <= weak && strong <= -30_000_000 ==> gauge_of(Some(strong)) - gauge_of(
            Some(weak),
        ) == strong - weak,
        gauge_of(None) == 0,
{
}

/// The lowest and the highest of a history are in it, and nothing in it is lower
/// or higher.
pub proof fn the_extremes_are_in_the_history(hist: Seq<Millis>, i: int)
    requires
        all_valid(hist),
        0 <= i < hist.len(),
    ensures
        !hist[i].below(lowest(hist)),
        !highest(hist).below(hist[i]),
        hist.contains(lowest(hist)),
        hist.contains(highest(hist)),
{
    lemma_range(hist, i);
    lemma_extremes(hist);
}

proof fn lemma_extremes(hist: Seq<Millis>)
    requires
        hist.len() > 0,
    ensures
        hist.contains(lowest(hist)),
        hist.contains(highest(hist)),
    decreases hist.len(),
{
    if hist.len() == 1 {
        assert(hist[0] == lowest(hist));
    } else {
        let before = hist.drop_last();
        lemma_extremes(before);
        let a = choose|a: int| 0 <= a < before.len() && before[a] == lowest(before);
        let b = choose|b: int| 0 <= b < before.len() && before[b] == highest(before);
        assert(hist[a] == lowest(before) && hist[b] == highest(before));
        assert(hist[hist.len() - 1] == hist.last());
    }
}

/// Where times differ, the lowest has the lowest bar and the highest the
/// highest; where they do not, every bar is in the middle.
pub proof fn the_extremes_have_the_extreme_bars(lo: Millis, hi: Millis)
    requires
        lo.count() > 0,
        hi.count() > 0,
    ensures
        lo.below(hi) ==> bar_height(lo, lo, hi) == 0 && bar_height(hi, lo, hi) == 7,
        !lo.below(hi) ==> bar_height(lo, lo, hi) == 4,
{
    if lo.below(hi) {
        let (x, p) = (lo.total(), lo.count());
        let (y, q) = (hi.total(), hi.count());
        assert(x * p == p * x) by (nonlinear_arith);
        assert(rise(lo, lo, hi) == 0) by (nonlinear_arith)
            requires
                rise(lo, lo, hi) == (x * p - x * p) * q,
        ;
        assert((y * p - x * q) * p > 0) by (nonlinear_arith)
            requires
                x * q < y * p,
                p > 0,
        ;
        assert((y * p - x * q) * q > 0) by (nonlinear_arith)
            requires
                x * q < y * p,
                q > 0,
        ;
        let d = rise(hi, lo, lo);
        assert((2 * 0 + 1) * d == d) by (nonlinear_arith);
        lemma_height(0, d, 0);
        let b = rise(hi, lo, hi);
        assert(14 * b >= 13 * b && b > 0);
        lemma_height(b, b, 7);
    }
}

/// A value that stands lower has no higher a bar.
pub proof fn a_lower_value_has_no_higher_a_bar(v: Millis, w: Millis, lo: Millis, hi: Millis)
    requires
        v.count() > 0,
        v.count() == w.count(),
        lo.count() > 0,
        hi.count() > 0,
        lo.below(hi),
        v.total() <= w.total(),
    ensures
        bar_height(v, lo, hi) <= bar_height(w, lo, hi),
{
    let (x, p) = (v.total(), v.count());
    let y = w.total();
    let (z, q) = (lo.total(), lo.count());
    let (t, r) = (hi.total(), hi.count());
    let a = rise(v, lo, hi);
    let c = rise(w, lo, hi);
    let b = rise(hi, lo, v);
    assert(b == rise(hi, lo, w));
    assert((x * q - z * p) * r <= (y * q - z * p) * r) by (nonlinear_arith)
        requires
            x <= y,
            q > 0,
            r > 0,
    ;
    assert((t * q - z * r) * p > 0) by (nonlinear_arith)
        requires
            z * r < t * q,
            p > 0,
    ;
    vstd::arithmetic::div_mod::lemma_div_is_ordered(14 * a + b, 14 * c + b, 2 * b);
}

/// The bars tell every height from every other.
pub proof fn bars_are_distinct(a: int, b: int)
    requires
        0 <= a <= 7,
        0 <= b <= 7,
    ensures
        bar(a) == bar(b) <==> a == b,
        a < b ==> bar(a) < bar(b),
{
}

/// A sparkline has a bar for each time, but for the oldest where they do not
/// fit.
pub proof fn a_sparkline_shows_the_latest(hist: Seq<Millis>, width: nat, i: int)
    requires
        0 <= i < spark(hist, width).len(),
    ensures
        spark(hist, width).len() == (if hist.len() > width {
            width
        } else {
            hist.len()
        }),
        spark(hist, width)[i] == bar(
            bar_height(
                hist[hist.len() - spark(hist, width).len() + i],
                lowest(hist),
                highest(hist),
            ),
        ),
{
}

/// The frames of the spinner differ from one tick to the next, and come back
/// after eight.
pub proof fn the_spinner_turns(tick: usize)
    requires
        tick < usize::MAX - 8,
    ensures
        frame(tick) != frame((tick + 1) as usize),
        frame(tick) == frame((tick + 8) as usize),
{
    reveal_strlit("⠋");
    reveal_strlit("⠙");
    reveal_strlit("⠹");
    reveal_strlit("⠸");
    reveal_strlit("⠼");
    reveal_strlit("⠴");
    reveal_strlit("⠦");
    reveal_strlit("⠧");
    assert(frame(tick).len() == 1 && frame((tick + 1) as usize).len() == 1);
    assert(frame(tick)[0] != frame((tick + 1) as usize)[0]);
}

/// A restart goes back to scanning and loses nothing else: the verdict that was
/// reached, the clock and both histories stay. A new dashboard starts out
/// scanning, with every hop of the chain pending and no history.
pub proof fn a_restart_scans_again(app: AppView)
    ensures
        restarted(app).scanning,
        restarted(app).hops == renewed(app.hops),
        restarted(app).verdict == app.verdict,
        restarted(app).tick == app.tick,
        restarted(app).gateway == app.gateway,
        restarted(app).wan == app.wan,
        fresh().scanning,
        fresh().tick == 0,
        fresh().gateway.len() == 0,
        fresh().wan.len() == 0,
        fresh().hops == engine::skeleton_view(),
        fresh().verdict == diagnose::verdict_on(engine::skeleton_view()),
{
}

} // verus!
