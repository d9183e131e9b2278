//! One-shot text report: an ANSI topology diagram + verdict + per-hop detail.

use crate::diagnose;
use crate::diagnose::{Confidence, Verdict};
use crate::model::path;
use crate::model::{Hop, Metric, Path, Status};
use crate::text;
use vstd::prelude::*;

verus! {

broadcast use vstd::string::group_string_axioms;

// ---- what is written ----

/// The ANSI color of a status.
pub open spec fn color_of(st: Status) -> Seq<char> {
    match st {
        Status::Healthy => "32"@,
        Status::Warn => "33"@,
        Status::Fail => "31"@,
        Status::Pending => "36"@,
        Status::Skipped => "90"@,
    }
}

/// A text in a color, when colors are on.
pub open spec fn painted(on: bool, code: Seq<char>, s: Seq<char>) -> Seq<char> {
    if on {
        "\x1b["@ + code + "m"@ + s + "\x1b[0m"@
    } else {
        s
    }
}

/// A text in the color of a status.
pub open spec fn tinted(on: bool, st: Status, s: Seq<char>) -> Seq<char> {
    painted(on, color_of(st), s)
}

/// A dim text.
pub open spec fn dimmed(on: bool, s: Seq<char>) -> Seq<char> {
    painted(on, "2"@, s)
}

/// A bold text.
pub open spec fn emboldened(on: bool, s: Seq<char>) -> Seq<char> {
    painted(on, "1"@, s)
}

/// Hop `i` is the first broken one.
pub open spec fn first_broken(hops: Seq<path::HopView>, i: int) -> bool {
    &&& 0 <= i < hops.len()
    &&& hops[i].status == Status::Fail
    &&& forall|j: int| 0 <= j < i ==> (#[trigger] hops[j]).status != Status::Fail
}

/// A hop on the chain.
pub open spec fn node_text(on: bool, hop: path::HopView) -> Seq<char> {
    tinted(on, hop.status, hop.status.mark() + " "@ + hop.title)
}

/// What joins hop `i` to the hop before it: a connector in the worse of their
/// colors, or an explicit break in front of the first broken hop.
pub open spec fn connector_text(on: bool, hops: Seq<path::HopView>, i: int) -> Seq<char> {
    if first_broken(hops, i) {
        tinted(on, Status::Fail, " ─✗─ "@)
    } else {
        tinted(on, hops[i - 1].status.worse(hops[i].status), " ─── "@)
    }
}

/// The chain of nodes.
pub open spec fn chain_text(on: bool, hops: Seq<path::HopView>) -> Seq<char>
    decreases hops.len(),
{
    let i = hops.len() - 1;
    if i < 0 {
        "  "@
    } else if i == 0 {
        "  "@ + node_text(on, hops[0])
    } else {
        chain_text(on, hops.drop_last()) + connector_text(on, hops, i) + node_text(on, hops[i])
    }
}

/// The tag of a verdict.
pub open spec fn tag_of(st: Status) -> Seq<char> {
    match st {
        Status::Healthy => "  ALL GOOD "@,
        Status::Warn => "  DEGRADED "@,
        Status::Skipped => "  UNKNOWN  "@,
        Status::Pending => "  SCANNING "@,
        Status::Fail => "  BROKEN   "@,
    }
}

/// What the hop behind the verdict measured, when it recorded it.
pub open spec fn evidence_of(hops: Seq<path::HopView>, v: diagnose::VerdictView) -> Option<Seq<char>> {
    match v.source {
        Some(id) => match path::lookup(hops, id) {
            Some(h) => h.evidence,
            None => None,
        },
        None => None,
    }
}

/// How sure the verdict is, when it is not certain.
pub open spec fn hedge_of(c: Confidence) -> Seq<char> {
    match c {
        Confidence::Certain => ""@,
        Confidence::Likely => "  (likely cause)"@,
        Confidence::Guess => "  (best guess)"@,
    }
}

/// The headline and the cause.
pub open spec fn headline_text(on: bool, v: diagnose::VerdictView) -> Seq<char> {
    tinted(on, v.status, emboldened(on, tag_of(v.status))) + emboldened(
        on,
        v.status.mark() + " "@ + v.headline + "\n"@,
    ) + "            "@ + dimmed(on, v.cause) + "\n"@
}

/// What to do about it.
pub open spec fn fix_text(on: bool, fix: Option<Seq<char>>) -> Seq<char> {
    match fix {
        Some(f) => "            "@ + tinted(on, Status::Healthy, "→"@) + " "@ + f + "\n"@,
        None => seq![],
    }
}

/// What the claim rests on.
pub open spec fn evidence_text(on: bool, evidence: Option<Seq<char>>) -> Seq<char> {
    match evidence {
        Some(e) => "            "@ + dimmed(on, "evidence:"@) + " "@ + dimmed(on, e) + "\n"@,
        None => seq![],
    }
}

/// How sure the verdict is.
pub open spec fn confidence_text(on: bool, c: Confidence) -> Seq<char> {
    match c {
        Confidence::Certain => seq![],
        _ => dimmed(on, "           "@ + hedge_of(c) + "\n"@),
    }
}

/// The verdict.
pub open spec fn verdict_text(
    on: bool,
    hops: Seq<path::HopView>,
    v: diagnose::VerdictView,
) -> Seq<char> {
    headline_text(on, v) + fix_text(on, v.fix) + evidence_text(on, evidence_of(hops, v))
        + confidence_text(on, v.confidence)
}

/// `s` with spaces behind it, `width` long at least.
pub open spec fn padded(s: Seq<char>, width: nat) -> Seq<char> {
    if s.len() < width {
        s + Seq::new((width - s.len()) as nat, |i: int| ' ')
    } else {
        s
    }
}

/// A text, or nothing.
pub open spec fn or_nothing(o: Option<Seq<char>>) -> Seq<char> {
    match o {
        Some(s) => s,
        None => seq![],
    }
}

/// A metric's line.
pub open spec fn metric_text(on: bool, m: path::MetricView) -> Seq<char> {
    "      "@ + dimmed(on, m.label + ":"@) + " "@ + (match m.status {
        Some(st) => tinted(on, st, m.value),
        None => m.value,
    }) + "\n"@
}

/// The metrics' lines.
pub open spec fn metrics_text(on: bool, metrics: Seq<path::MetricView>) -> Seq<char>
    decreases metrics.len(),
{
    if metrics.len() == 0 {
        seq![]
    } else {
        metrics_text(on, metrics.drop_last()) + metric_text(on, metrics.last())
    }
}

/// A hop's own line, and its summary.
pub open spec fn hop_head(on: bool, h: path::HopView) -> Seq<char> {
    tinted(
        on,
        h.status,
        "  "@ + h.status.mark() + " "@ + padded(h.title, 9) + " "@ + or_nothing(h.subtitle),
    ) + "\n"@ + (match h.summary {
        Some(s) => "      "@ + dimmed(on, s) + "\n"@,
        None => seq![],
    })
}

/// A hop's method and metrics.
pub open spec fn hop_working(on: bool, h: path::HopView) -> Seq<char> {
    (match h.evidence {
        Some(e) => "      "@ + dimmed(on, "↳ "@ + e) + "\n"@,
        None => seq![],
    }) + metrics_text(on, h.metrics)
}

/// A hop's lines.
pub open spec fn hop_text(on: bool, verbose: bool, h: path::HopView) -> Seq<char> {
    if verbose {
        hop_head(on, h) + hop_working(on, h)
    } else {
        hop_head(on, h)
    }
}

/// The hops' lines.
pub open spec fn detail_text(on: bool, verbose: bool, hops: Seq<path::HopView>) -> Seq<char>
    decreases hops.len(),
{
    if hops.len() == 0 {
        seq![]
    } else {
        detail_text(on, verbose, hops.drop_last()) + hop_text(on, verbose, hops.last())
    }
}

/// The title of the report.
pub open spec fn banner(on: bool) -> Seq<char> {
    "\n"@ + emboldened(on, " wtfi "@) + dimmed(on, "· what the f*ck internet\n\n"@)
}

/// The whole report.
pub open spec fn report_text(
    hops: Seq<path::HopView>,
    v: diagnose::VerdictView,
    verbose: bool,
    on: bool,
) -> Seq<char> {
    banner(on) + chain_text(on, hops) + "\n\n"@ + verdict_text(on, hops, v) + "\n"@ + detail_text(
        on,
        verbose,
        hops,
    )
}

// ---- writing it ----

/// Minimal ANSI palette, toggleable for `--no-color` / non-TTY.
pub struct Palette {
    pub on: bool,
}

fn status_code(st: Status) -> (r: &'static str)
    ensures
        r@ == color_of(st),
{
    match st {
        Status::Healthy => "32",  // green
        Status::Warn => "33",  // yellow
        Status::Fail => "31",  // red
        Status::Pending => "36",  // cyan
        Status::Skipped => "90",  // bright black
    }
}

impl Palette {
    /// The text in a color, when colors are on.
    pub fn paint(&self, code: &str, s: &str) -> (r: String)
        ensures
            r@ == painted(self.on, code@, s@),
    {
        if self.on {
            text::cat5("\x1b[", code, "m", s, "\x1b[0m")
        } else {
            s.to_string()
        }
    }

    /// The text in the color of a status.
    pub fn status(&self, st: Status, s: &str) -> (r: String)
        ensures
            r@ == tinted(self.on, st, s@),
    {
        self.paint(status_code(st), s)
    }

    /// The text, dim.
    pub fn dim(&self, s: &str) -> (r: String)
        ensures
            r@ == dimmed(self.on, s@),
    {
        self.paint("2", s)
    }

    /// The text, bold.
    pub fn bold(&self, s: &str) -> (r: String)
        ensures
            r@ == emboldened(self.on, s@),
    {
        self.paint("1", s)
    }
}

/// Render the full report to a string.
pub fn report(path: &Path, verdict: &Verdict, verbose: bool, color: bool) -> (r: String)
    ensures
        r@ == report_text(path@, verdict@, verbose, color),
{
    let p = Palette { on: color };
    let head = text::cat3(
        "\n",
        p.bold(" wtfi ").as_str(),
        p.dim("· what the f*ck internet\n\n").as_str(),
    );
    let top = text::cat4(
        head.as_str(),
        topology(path, &p).as_str(),
        "\n\n",
        verdict_block(path, verdict, &p).as_str(),
    );
    text::cat3(top.as_str(), "\n", detail(path, &p, verbose).as_str())
}

/// The headline: a horizontal chain of nodes with the break marked.
fn topology(path: &Path, p: &Palette) -> (r: String)
    ensures
        r@ == chain_text(p.on, path@),
{
    let mut line: String = "  ".to_string();
    let mut broke = false;
    let mut i: usize = 0;
    assert(path@.take(0) =~= Seq::<path::HopView>::empty());
    while i < path.hops.len()
        invariant
            i <= path.hops@.len(),
            broke == diagnose::any_with(path@.take(i as int), Status::Fail),
            line@ == chain_text(p.on, path@.take(i as int)),
        decreases path.hops@.len() - i,
    {
        let ghost before = path@.take(i as int);
        let ghost now = path@.take(i + 1);
        assert(now.drop_last() == before);
        assert(now[i as int] == path.hops@[i as int]@);
        let hop = &path.hops[i];
        let fails = hop.status == Status::Fail;
        proof {
            lemma_first_broken(before, now);
        }
        if i > 0 {
            assert(now[i - 1] == path.hops@[i - 1]@);
            // The connector inherits the worse of the two adjacent statuses,
            // and turns into an explicit break glyph at the first failure.
            let sev = path.hops[i - 1].status.max(hop.status);
            let conn = if !broke && fails {
                p.status(Status::Fail, " ─✗─ ")
            } else {
                p.status(sev, " ─── ")
            };
            assert(conn@ == connector_text(p.on, now, i as int));
            line.append(conn.as_str());
        }
        let node = text::cat3(hop.status.glyph(), " ", hop.title.as_str());
        line.append(p.status(hop.status, node.as_str()).as_str());
        if fails {
            broke = true;
        }
        i += 1;
    }
    assert(path@.take(i as int) == path@);
    line
}

/// Whether the last hop is the first broken one, and whether any is, given the
/// hops before it.
pub proof fn lemma_first_broken(before: Seq<path::HopView>, now: Seq<path::HopView>)
    requires
        now.len() > 0,
        now.drop_last() == before,
    ensures
        first_broken(now, now.len() - 1) == (now.last().status == Status::Fail
            && !diagnose::any_with(before, Status::Fail)),
        diagnose::any_with(now, Status::Fail) == (diagnose::any_with(before, Status::Fail)
            || now.last().status == Status::Fail),
{
    let n = before.len() as int;
    assert(forall|j: int| 0 <= j < n ==> now[j] == before[j]);
    if diagnose::any_with(before, Status::Fail) {
        let j = choose|j: int| 0 <= j < n && (#[trigger] before[j]).status == Status::Fail;
        assert(now[j].status == Status::Fail);
    }
    if diagnose::any_with(now, Status::Fail) {
        let j = choose|j: int| 0 <= j <= n && (#[trigger] now[j]).status == Status::Fail;
        assert(j < n ==> before[j].status == Status::Fail);
    }
    if now.last().status == Status::Fail {
        assert(now[n].status == Status::Fail);
    }
}

/// Which hop is the first broken one shows as soon as it has come.
pub proof fn lemma_first_broken_so_far(hops: Seq<path::HopView>, n: int, i: int)
    requires
        i < n <= hops.len(),
    ensures
        first_broken(hops.take(n), i) == first_broken(hops, i),
{
    let so_far = hops.take(n);
    if first_broken(so_far, i) {
        assert forall|j: int| 0 <= j < i implies (#[trigger] hops[j]).status != Status::Fail by {
            assert(so_far[j].status != Status::Fail);
        }
    }
}

/// What the hop behind the verdict actually measured, when it recorded it.
fn verdict_evidence(path: &Path, v: &Verdict) -> (r: Option<String>)
    ensures
        path::opt_text(r) == evidence_of(path@, v@),
{
    match v.source {
        Some(id) => match path.get(id) {
            Some(h) => path::copy_text(&h.evidence),
            None => None,
        },
        None => None,
    }
}

fn headline(v: &Verdict, p: &Palette) -> (r: String)
    ensures
        r@ == headline_text(p.on, v@),
{
    let tag = match v.status {
        Status::Healthy => "  ALL GOOD ",
        Status::Warn => "  DEGRADED ",
        // Nothing measured is not the same as measured-and-broken.
        Status::Skipped => "  UNKNOWN  ",
        Status::Pending => "  SCANNING ",
        Status::Fail => "  BROKEN   ",
    };
    let line = text::cat4(v.status.glyph(), " ", v.headline.as_str(), "\n");
    text::cat5(
        p.status(v.status, p.bold(tag).as_str()).as_str(),
        p.bold(line.as_str()).as_str(),
        "            ",
        p.dim(v.cause.as_str()).as_str(),
        "\n",
    )
}

fn verdict_block(path: &Path, v: &Verdict, p: &Palette) -> (r: String)
    ensures
        r@ == verdict_text(p.on, path@, v@),
{
    let fix = match &v.fix {
        Some(f) => text::cat5(
            "            ",
            p.status(Status::Healthy, "→").as_str(),
            " ",
            f.as_str(),
            "\n",
        ),
        None => String::new(),
    };
    // What the claim rests on. Without it the reader has no way to tell a
    // thorough measurement from a single timed-out packet.
    let evidence = match verdict_evidence(path, v) {
        Some(e) => text::cat5(
            "            ",
            p.dim("evidence:").as_str(),
            " ",
            p.dim(e.as_str()).as_str(),
            "\n",
        ),
        None => String::new(),
    };
    let confidence = match v.confidence {
        Confidence::Certain => String::new(),
        Confidence::Likely => p.dim(
            text::cat3("           ", "  (likely cause)", "\n").as_str(),
        ),
        Confidence::Guess => p.dim(text::cat3("           ", "  (best guess)", "\n").as_str()),
    };
    text::cat4(headline(v, p).as_str(), fix.as_str(), evidence.as_str(), confidence.as_str())
}

/// Puts spaces behind a text.
pub fn pad(s: &str, width: usize) -> (r: String)
    ensures
        r@ == padded(s@, width as nat),
{
    let len: usize = text::chars_of(s).len();
    let mut out: String = s.to_string();
    let mut i: usize = len;
    while i < width
        invariant
            len == s@.len(),
            len <= i,
            i <= width || i == len,
            out@ == s@ + Seq::new((i - len) as nat, |k: int| ' '),
        decreases width - i,
    {
        out.push(' ');
        i += 1;
        assert(out@ =~= s@ + Seq::new((i - len) as nat, |k: int| ' '));
    }
    assert(out@ =~= padded(s@, width as nat));
    out
}

fn metric_line(m: &Metric, p: &Palette) -> (r: String)
    ensures
        r@ == metric_text(p.on, m@),
{
    let value = match m.status {
        Some(st) => p.status(st, m.value.as_str()),
        None => m.value.clone(),
    };
    text::cat5(
        "      ",
        p.dim(text::cat2(m.label.as_str(), ":").as_str()).as_str(),
        " ",
        value.as_str(),
        "\n",
    )
}

fn metric_lines(hop: &Hop, p: &Palette) -> (r: String)
    ensures
        r@ == metrics_text(p.on, hop@.metrics),
{
    let ghost all = hop@.metrics;
    let mut s: String = String::new();
    let mut i: usize = 0;
    while i < hop.metrics.len()
        invariant
            i <= hop.metrics@.len(),
            all == hop@.metrics,
            s@ == metrics_text(p.on, all.take(i as int)),
        decreases hop.metrics@.len() - i,
    {
        assert(all.take(i + 1).drop_last() == all.take(i as int));
        assert(all[i as int] == hop.metrics@[i as int]@);
        s.append(metric_line(&hop.metrics[i], p).as_str());
        i += 1;
    }
    assert(all.take(i as int) == all);
    s
}

fn hop_lines(hop: &Hop, p: &Palette, verbose: bool) -> (r: String)
    ensures
        r@ == hop_text(p.on, verbose, hop@),
{
    let subtitle = match &hop.subtitle {
        Some(s) => s.clone(),
        None => String::new(),
    };
    let head = text::cat5(
        text::cat2("  ", hop.status.glyph()).as_str(),
        " ",
        pad(hop.title.as_str(), 9).as_str(),
        " ",
        subtitle.as_str(),
    );
    let summary = match &hop.summary {
        Some(s) => text::cat3("      ", p.dim(s.as_str()).as_str(), "\n"),
        None => String::new(),
    };
    let top = text::cat3(p.status(hop.status, head.as_str()).as_str(), "\n", summary.as_str());
    if !verbose {
        return top;
    }
    // A metric means little without knowing how it was taken.
    let evidence = match &hop.evidence {
        Some(e) => text::cat3(
            "      ",
            p.dim(text::cat2("↳ ", e.as_str()).as_str()).as_str(),
            "\n",
        ),
        None => String::new(),
    };
    let working = text::cat2(evidence.as_str(), metric_lines(hop, p).as_str());
    text::cat2(top.as_str(), working.as_str())
}

fn detail(path: &Path, p: &Palette, verbose: bool) -> (r: String)
    ensures
        r@ == detail_text(p.on, verbose, path@),
{
    let mut s: String = String::new();
    let mut i: usize = 0;
    // The host hop is listed like any other: it carries this machine's address,
    // subnet and DHCP state, which is the first thing you want when the
    // question is "is it me?".
    while i < path.hops.len()
        invariant
            i <= path.hops@.len(),
            s@ == detail_text(p.on, verbose, path@.take(i as int)),
        decreases path.hops@.len() - i,
    {
        assert(path@.take(i + 1).drop_last() == path@.take(i as int));
        assert(path@[i as int] == path.hops@[i as int]@);
        s.append(hop_lines(&path.hops[i], p, verbose).as_str());
        i += 1;
    }
    assert(path@.take(i as int) == path@);
    s
}

// ---- laws ----

/// Free of the character that starts an ANSI escape.
pub open spec fn clean(s: Seq<char>) -> bool {
    forall|i: int| 0 <= i < s.len() ==> s[i] != '\u{1b}'
}

/// An optional text is clean.
pub open spec fn clean_opt(o: Option<Seq<char>>) -> bool {
    o matches Some(s) ==> clean(s)
}

/// Every text of a hop is clean.
pub open spec fn clean_hop(h: path::HopView) -> bool {
    &&& clean(h.title)
    &&& clean_opt(h.subtitle)
    &&& clean_opt(h.summary)
    &&& clean_opt(h.evidence)
    &&& clean_metrics(h.metrics)
}

/// Every text of these metrics is clean.
pub open spec fn clean_metrics(m: Seq<path::MetricView>) -> bool {
    forall|i: int| 0 <= i < m.len() ==> clean((#[trigger] m[i]).label) && clean(m[i].value)
}

/// Every text of these hops is clean.
pub open spec fn clean_hops(hops: Seq<path::HopView>) -> bool {
    forall|i: int| 0 <= i < hops.len() ==> clean_hop(#[trigger] hops[i])
}

/// Every text of a verdict is clean.
pub open spec fn clean_verdict(v: diagnose::VerdictView) -> bool {
    clean(v.headline) && clean(v.cause) && clean_opt(v.fix)
}

broadcast proof fn lemma_clean_both(a: Seq<char>, b: Seq<char>)
    requires
        clean(a),
        clean(b),
    ensures
        #[trigger] clean(a + b),
{
    assert forall|i: int| 0 <= i < (a + b).len() implies (a + b)[i] != '\u{1b}' by {
        if i < a.len() {
            assert(a[i] != '\u{1b}');
        } else {
            assert(b[i - a.len()] != '\u{1b}');
        }
    }
}

proof fn lemma_literals_clean()
    ensures
        clean("  "@),
        clean(" ─✗─ "@),
        clean(" ─── "@),
        clean(" "@),
        clean("…"@),
        clean("–"@),
        clean("✓"@),
        clean("!"@),
        clean("✗"@),
        clean("  ALL GOOD "@),
        clean("  DEGRADED "@),
        clean("  UNKNOWN  "@),
        clean("  SCANNING "@),
        clean("  BROKEN   "@),
        clean("\n"@),
        clean("            "@),
        clean("→"@),
        clean("evidence:"@),
        clean("           "@),
        clean("  (likely cause)"@),
        clean("  (best guess)"@),
        clean("      "@),
        clean(":"@),
        clean("↳ "@),
        clean(" wtfi "@),
        clean("· what the f*ck internet\n\n"@),
        clean("\n\n"@),
{
    reveal_strlit("  ");
    reveal_strlit(" ─✗─ ");
    reveal_strlit(" ─── ");
    reveal_strlit(" ");
    reveal_strlit("…");
    reveal_strlit("–");
    reveal_strlit("✓");
    reveal_strlit("!");
    reveal_strlit("✗");
    reveal_strlit("  ALL GOOD ");
    reveal_strlit("  DEGRADED ");
    reveal_strlit("  UNKNOWN  ");
    reveal_strlit("  SCANNING ");
    reveal_strlit("  BROKEN   ");
    reveal_strlit("\n");
    reveal_strlit("            ");
    reveal_strlit("→");
    reveal_strlit("evidence:");
    reveal_strlit("           ");
    reveal_strlit("  (likely cause)");
    reveal_strlit("  (best guess)");
    reveal_strlit("      ");
    reveal_strlit(":");
    reveal_strlit("↳ ");
    reveal_strlit(" wtfi ");
    reveal_strlit("· what the f*ck internet\n\n");
    reveal_strlit("\n\n");
}

proof fn lemma_chain_clean(hops: Seq<path::HopView>)
    requires
        clean_hops(hops),
    ensures
        clean(chain_text(false, hops)),
    decreases hops.len(),
{
    broadcast use lemma_clean_both;

    lemma_literals_clean();
    if hops.len() > 0 {
        assert forall|i: int| 0 <= i < hops.drop_last().len() implies clean_hop(
            #[trigger] hops.drop_last()[i],
        ) by {
            assert(clean_hop(hops[i]));
        }
        lemma_chain_clean(hops.drop_last());
        assert(clean_hop(hops[hops.len() - 1]));
        assert(clean(hops.last().status.mark()));
    }
}

proof fn lemma_metrics_clean(metrics: Seq<path::MetricView>)
    requires
        clean_metrics(metrics),
    ensures
        clean(metrics_text(false, metrics)),
    decreases metrics.len(),
{
    broadcast use lemma_clean_both;

    lemma_literals_clean();
    if metrics.len() > 0 {
        assert forall|i: int| 0 <= i < metrics.drop_last().len() implies clean(
            (#[trigger] metrics.drop_last()[i]).label,
        ) && clean(metrics.drop_last()[i].value) by {
            assert(clean(metrics[i].label));
        }
        lemma_metrics_clean(metrics.drop_last());
        let m = metrics[metrics.len() - 1];
        assert(clean(m.label) && clean(m.value));
        assert(clean(metric_text(false, m)));
    }
}

proof fn lemma_hop_clean(h: path::HopView, verbose: bool)
    requires
        clean_hop(h),
    ensures
        clean(hop_text(false, verbose, h)),
{
    broadcast use lemma_clean_both;

    lemma_literals_clean();
    lemma_metrics_clean(h.metrics);
    assert(clean(padded(h.title, 9)));
    assert(clean(h.status.mark()));
    assert(clean(or_nothing(h.subtitle)));
    assert(clean(hop_head(false, h)));
    assert(clean(hop_working(false, h)));
}

proof fn lemma_detail_clean(hops: Seq<path::HopView>, verbose: bool)
    requires
        clean_hops(hops),
    ensures
        clean(detail_text(false, verbose, hops)),
    decreases hops.len(),
{
    if hops.len() > 0 {
        assert forall|i: int| 0 <= i < hops.drop_last().len() implies clean_hop(
            #[trigger] hops.drop_last()[i],
        ) by {
            assert(clean_hop(hops[i]));
        }
        lemma_detail_clean(hops.drop_last(), verbose);
        assert(clean_hop(hops[hops.len() - 1]));
        lemma_hop_clean(hops.last(), verbose);
        lemma_clean_both(
            detail_text(false, verbose, hops.drop_last()),
            hop_text(false, verbose, hops.last()),
        );
    }
}

proof fn lemma_verdict_clean(hops: Seq<path::HopView>, v: diagnose::VerdictView)
    requires
        clean_hops(hops),
        clean_verdict(v),
    ensures
        clean(verdict_text(false, hops, v)),
{
    broadcast use lemma_clean_both;

    lemma_literals_clean();
    if let Some(id) = v.source {
        path::lemma_index_of_id_holds(hops, id);
        if let Some(h) = path::lookup(hops, id) {
            assert(clean_hop(hops[path::index_of_id(hops, id)]));
        }
    }
    assert(clean_opt(evidence_of(hops, v)));
    assert(clean(v.status.mark()));
    assert(clean(tag_of(v.status)));
    assert(clean(headline_text(false, v)));
    assert(clean(fix_text(false, v.fix)));
    assert(clean(evidence_text(false, evidence_of(hops, v))));
    assert(clean(confidence_text(false, v.confidence)));
}

/// With colors off the report holds no ANSI escape, unless a text that it
/// quotes does.
pub proof fn without_colors_there_are_no_escapes(
    hops: Seq<path::HopView>,
    v: diagnose::VerdictView,
    verbose: bool,
)
    requires
        clean_hops(hops),
        clean_verdict(v),
    ensures
        clean(report_text(hops, v, verbose, false)),
{
    broadcast use lemma_clean_both;

    lemma_literals_clean();
    lemma_chain_clean(hops);
    lemma_verdict_clean(hops, v);
    lemma_detail_clean(hops, verbose);
    assert(clean(banner(false)));
}

/// No title holds the glyph of a break.
pub open spec fn titles_unmarked(hops: Seq<path::HopView>) -> bool {
    forall|i: int, j: int|
        0 <= i < hops.len() && 0 <= j < hops[i].title.len() ==> #[trigger] hops[i].title[j] != '✗'
}

/// What the chain of fewer hops says, the chain of more begins with.
proof fn lemma_chain_grows(on: bool, hops: Seq<path::HopView>, n: int)
    requires
        0 <= n <= hops.len(),
    ensures
        chain_text(on, hops.take(n)).len() <= chain_text(on, hops).len(),
        chain_text(on, hops).take(chain_text(on, hops.take(n)).len() as int) == chain_text(
            on,
            hops.take(n),
        ),
    decreases hops.len(),
{
    let part = chain_text(on, hops.take(n));
    if n == hops.len() {
        assert(hops.take(n) =~= hops);
        assert(part.take(part.len() as int) =~= part);
    } else {
        let fewer = hops.drop_last();
        lemma_chain_grows(on, fewer, n);
        assert(fewer.take(n) =~= hops.take(n));
        if fewer.len() == 0 {
            assert(fewer =~= Seq::<path::HopView>::empty());
        }
        let shorter = chain_text(on, fewer);
        let whole = chain_text(on, hops);
        assert(whole.take(shorter.len() as int) =~= shorter);
        assert(whole.take(part.len() as int) =~= shorter.take(part.len() as int));
    }
}

/// Every hop is on the chain, in order: the chain up to it ends with its node.
pub proof fn every_hop_is_on_the_chain(on: bool, hops: Seq<path::HopView>, i: int)
    requires
        0 <= i < hops.len(),
    ensures
        chain_text(on, hops).take(chain_text(on, hops.take(i + 1)).len() as int) == chain_text(
            on,
            hops.take(i + 1),
        ),
        text::ends_with(chain_text(on, hops.take(i + 1)), node_text(on, hops[i])),
        chain_text(on, hops.take(i)).len() < chain_text(on, hops.take(i + 1)).len(),
{
    lemma_chain_grows(on, hops, i + 1);
    let now = hops.take(i + 1);
    let node = node_text(on, hops[i]);
    let s = chain_text(on, now);
    assert(now.drop_last() =~= hops.take(i));
    assert(now[i] == hops[i]);
    lemma_one_glyph(hops[i].status);
    assert(node.len() > 0);
    if i == 0 {
        assert(hops.take(i) =~= Seq::<path::HopView>::empty());
    }
    assert(s.skip(s.len() - node.len()) =~= node);
}

/// A status is marked with one glyph.
proof fn lemma_one_glyph(st: Status)
    ensures
        st.mark().len() == 1,
{
    reveal_strlit("…");
    reveal_strlit("–");
    reveal_strlit("✓");
    reveal_strlit("!");
    reveal_strlit("✗");
}

/// Position `p` holds the glyph of a break behind a dash.
spec fn crossed(s: Seq<char>, p: int) -> bool {
    0 < p < s.len() && s[p] == '✗' && s[p - 1] == '─'
}

/// A node holds the glyph of a break in front at most.
proof fn lemma_node_unmarked(hop: path::HopView, p: int)
    requires
        forall|j: int| 0 <= j < hop.title.len() ==> hop.title[j] != '✗',
        0 < p < node_text(false, hop).len(),
    ensures
        node_text(false, hop)[p] != '✗',
{
    reveal_strlit(" ");
    lemma_one_glyph(hop.status);
    if p > 1 {
        assert(node_text(false, hop)[p] == hop.title[p - 2]);
    }
}

/// The chain holds a crossed dash in the connector to the first broken hop, and
/// nowhere else.
proof fn lemma_crossed(hops: Seq<path::HopView>, p: int)
    requires
        titles_unmarked(hops),
    ensures
        crossed(chain_text(false, hops), p) <==> exists|k: int|
            0 < k && #[trigger] first_broken(hops, k) && p == chain_text(false, hops.take(k)).len()
                + 2,
    decreases hops.len(),
{
    reveal_strlit("  ");
    reveal_strlit(" ─✗─ ");
    reveal_strlit(" ─── ");
    let s = chain_text(false, hops);
    let n = hops.len() - 1;
    if n < 0 {
        assert(!crossed(s, p));
    } else if n == 0 {
        assert(forall|j: int| 0 <= j < hops[0].title.len() ==> hops[0].title[j] != '✗');
        let node = node_text(false, hops[0]);
        if 2 < p < s.len() {
            lemma_node_unmarked(hops[0], p - 2);
            assert(s[p] == node[p - 2]);
        }
        assert(!crossed(s, p));
    } else {
        let fewer = hops.drop_last();
        let shorter = chain_text(false, fewer);
        let joint = connector_text(false, hops, n);
        let node = node_text(false, hops[n]);
        assert(s == shorter + joint + node);
        assert forall|i: int, j: int|
            0 <= i < fewer.len() && 0 <= j < fewer[i].title.len() implies #[trigger] fewer[i].title[j]
            != '✗' by {
            assert(hops[i].title[j] != '✗');
        }
        lemma_crossed(fewer, p);
        assert(forall|j: int| 0 <= j < hops[n].title.len() ==> hops[n].title[j] != '✗');
        assert(hops.take(n) =~= fewer);
        assert forall|k: int| 0 < k < n implies #[trigger] first_broken(fewer, k) == first_broken(
            hops,
            k,
        ) && fewer.take(k) == hops.take(k) by {
            lemma_first_broken_so_far(hops, n, k);
            assert(fewer.take(k) =~= hops.take(k));
        }
        let at = shorter.len() as int;
        assert(joint.len() == 5);
        if p < at {
            assert(crossed(s, p) == crossed(shorter, p));
        } else if p < at + 5 {
            if p > 0 {
                assert(s[p] == joint[p - at]);
                assert(p > at ==> s[p - 1] == joint[p - at - 1]);
            }
            assert(crossed(s, p) <==> first_broken(hops, n) && p == at + 2);
        } else if p < s.len() {
            if p == at + 5 {
                assert(s[p - 1] == joint[4]);
            } else {
                lemma_node_unmarked(hops[n], p - at - 5);
                assert(s[p] == node[p - at - 5]);
            }
            assert(!crossed(s, p));
        }
        // Of two broken hops one is not the first, so the joint is the only one.
        if crossed(shorter, p) {
            let k = choose|k: int|
                0 < k && #[trigger] first_broken(fewer, k) && p == chain_text(
                    false,
                    fewer.take(k),
                ).len() + 2;
            assert(first_broken(hops, k));
        }
        if exists|k: int|
            0 < k && #[trigger] first_broken(hops, k) && p == chain_text(
                false,
                hops.take(k),
            ).len() + 2 {
            let k = choose|k: int|
                0 < k && #[trigger] first_broken(hops, k) && p == chain_text(
                    false,
                    hops.take(k),
                ).len() + 2;
            if k < n {
                assert(first_broken(fewer, k));
                lemma_chain_grows(false, fewer, k);
            }
        }
    }
}

/// The break is marked where it happens: in front of the first broken hop, and
/// nowhere else. Where the chain begins with that hop there is nothing to mark.
pub proof fn the_break_is_marked_where_it_happens(hops: Seq<path::HopView>, k: int)
    requires
        first_broken(hops, k),
        titles_unmarked(hops),
    ensures
        forall|i: int|
            #[trigger] text::occurs_at(chain_text(false, hops), i, " ─✗─ "@) <==> k > 0 && i
                == chain_text(false, hops.take(k)).len(),
        k > 0 ==> text::occurs_at(
            chain_text(false, hops),
            chain_text(false, hops.take(k)).len() as int + 5,
            node_text(false, hops[k]),
        ),
{
    reveal_strlit(" ─✗─ ");
    let s = chain_text(false, hops);
    let mark = " ─✗─ "@;
    let at = chain_text(false, hops.take(k)).len() as int;
    if k > 0 {
        let now = hops.take(k + 1);
        lemma_chain_grows(false, hops, k + 1);
        assert(now.drop_last() =~= hops.take(k));
        lemma_first_broken_so_far(hops, k + 1, k);
        assert(connector_text(false, now, k) == mark);
        let part = chain_text(false, now);
        assert(s.take(part.len() as int) == part);
        assert(s.subrange(at, at + 5) =~= mark) by {
            assert forall|j: int| at <= j < at + 5 implies s[j] == mark[j - at] by {
                assert(s.take(part.len() as int)[j] == part[j]);
            }
        }
        let node = node_text(false, hops[k]);
        assert(s.subrange(at + 5, at + 5 + node.len()) =~= node) by {
            assert forall|j: int| at + 5 <= j < at + 5 + node.len() implies s[j] == node[j - at
                - 5] by {
                assert(s.take(part.len() as int)[j] == part[j]);
            }
        }
    }
    assert forall|i: int| #[trigger] text::occurs_at(s, i, mark) implies k > 0 && i == at by {
        lemma_crossed(hops, i + 2);
        assert(s.subrange(i, i + 5)[2] == '✗');
        assert(s.subrange(i, i + 5)[1] == '─');
        assert(crossed(s, i + 2));
        let other = choose|j: int|
            0 < j && #[trigger] first_broken(hops, j) && i + 2 == chain_text(
                false,
                hops.take(j),
            ).len() + 2;
        assert(other == k);
    }
}

/// Where no hop is broken, no break is marked.
pub proof fn an_unbroken_chain_has_no_mark(hops: Seq<path::HopView>, i: int)
    requires
        !diagnose::any_with(hops, Status::Fail),
        titles_unmarked(hops),
    ensures
        !text::occurs_at(chain_text(false, hops), i, " ─✗─ "@),
{
    let s = chain_text(false, hops);
    if text::occurs_at(s, i, " ─✗─ "@) {
        reveal_strlit(" ─✗─ ");
        assert(s.subrange(i, i + 5)[2] == '✗');
        assert(s.subrange(i, i + 5)[1] == '─');
        lemma_crossed(hops, i + 2);
        assert(crossed(s, i + 2));
        let k = choose|k: int|
            0 < k && #[trigger] first_broken(hops, k) && i + 2 == chain_text(
                false,
                hops.take(k),
            ).len() + 2;
        assert(hops[k].status == Status::Fail);
    }
}

/// How many decimal digits a text begins with.
pub open spec fn digit_run(s: Seq<char>) -> nat
    decreases s.len(),
{
    if s.len() > 0 && '0' <= s[0] <= '9' {
        1 + digit_run(s.skip(1))
    } else {
        0
    }
}

/// How long the ANSI color escape is that a text begins with: `\x1b[`, digits,
/// and an `m`. Zero where it begins with none.
pub open spec fn escape_len(s: Seq<char>) -> nat {
    if s.len() >= 2 && s[0] == '\u{1b}' && s[1] == '[' {
        let n = digit_run(s.skip(2));
        if n > 0 && n + 2 < s.len() && s[n as int + 2] == 'm' {
            n + 3
        } else {
            0
        }
    } else {
        0
    }
}

/// A text with every ANSI color escape left out.
pub open spec fn stripped(s: Seq<char>) -> Seq<char>
    decreases s.len(),
{
    if s.len() == 0 {
        s
    } else if escape_len(s) > 0 {
        stripped(s.skip(escape_len(s) as int))
    } else {
        seq![s[0]] + stripped(s.skip(1))
    }
}

/// Without its escapes `colored` is `plain`, whatever follows it.
#[verifier::opaque]
spec fn shows(colored: Seq<char>, plain: Seq<char>) -> bool {
    forall|rest: Seq<char>| #[trigger] stripped(colored + rest) == plain + stripped(rest)
}

broadcast proof fn lemma_shows_both(
    a: Seq<char>,
    b: Seq<char>,
    plain_a: Seq<char>,
    plain_b: Seq<char>,
)
    requires
        shows(a, plain_a),
        shows(b, plain_b),
    ensures
        #[trigger] shows(a + b, plain_a + plain_b),
{
    reveal(shows);
    assert forall|rest: Seq<char>| #[trigger] stripped((a + b) + rest) == (plain_a + plain_b)
        + stripped(rest) by {
        assert((a + b) + rest =~= a + (b + rest));
        assert(stripped(a + (b + rest)) == plain_a + stripped(b + rest));
        assert((plain_a + plain_b) + stripped(rest) =~= plain_a + (plain_b + stripped(rest)));
    }
}

/// A text without escapes shows as it is.
broadcast proof fn lemma_shows_clean(s: Seq<char>)
    requires
        clean(s),
    ensures
        #[trigger] shows(s, s),
    decreases s.len(),
{
    reveal(shows);
    if s.len() == 0 {
        assert forall|rest: Seq<char>| #[trigger] stripped(s + rest) == s + stripped(rest) by {
            assert(s + rest =~= rest);
            assert(s + stripped(rest) =~= stripped(rest));
        }
    } else {
        let tail = s.skip(1);
        assert forall|i: int| 0 <= i < tail.len() implies tail[i] != '\u{1b}' by {
            assert(s[i + 1] != '\u{1b}');
        }
        lemma_shows_clean(tail);
        assert(shows(tail, tail));
        assert forall|rest: Seq<char>| #[trigger] stripped(s + rest) == s + stripped(rest) by {
            assert((s + rest)[0] == s[0]);
            assert((s + rest).skip(1) =~= tail + rest);
            assert(stripped(tail + rest) == tail + stripped(rest));
            assert(seq![s[0]] + (tail + stripped(rest)) =~= s + stripped(rest));
        }
    }
}

proof fn lemma_digit_run(code: Seq<char>, rest: Seq<char>)
    requires
        forall|i: int| 0 <= i < code.len() ==> '0' <= #[trigger] code[i] <= '9',
        rest.len() > 0,
        !('0' <= rest[0] <= '9'),
    ensures
        digit_run(code + rest) == code.len(),
    decreases code.len(),
{
    if code.len() == 0 {
        assert(code + rest =~= rest);
    } else {
        let tail = code.skip(1);
        assert forall|i: int| 0 <= i < tail.len() implies '0' <= #[trigger] tail[i] <= '9' by {
            assert('0' <= code[i + 1] <= '9');
        }
        lemma_digit_run(tail, rest);
        assert((code + rest)[0] == code[0]);
        assert((code + rest).skip(1) =~= tail + rest);
    }
}

/// An escape shows as nothing.
proof fn lemma_shows_escape(code: Seq<char>)
    requires
        code.len() > 0,
        forall|i: int| 0 <= i < code.len() ==> '0' <= #[trigger] code[i] <= '9',
    ensures
        shows("\x1b["@ + code + "m"@, Seq::<char>::empty()),
{
    reveal(shows);
    reveal_strlit("\x1b[");
    reveal_strlit("m");
    let escape = "\x1b["@ + code + "m"@;
    assert forall|rest: Seq<char>| #[trigger] stripped(escape + rest) == Seq::<char>::empty()
        + stripped(rest) by {
        let s = escape + rest;
        let tail = "m"@ + rest;
        assert(s.skip(2) =~= code + tail);
        assert(tail[0] == 'm');
        lemma_digit_run(code, tail);
        assert(s[0] == '\u{1b}' && s[1] == '[');
        assert(s[code.len() as int + 2] == 'm');
        assert(escape_len(s) == escape.len());
        assert(s.skip(escape.len() as int) =~= rest);
        assert(Seq::<char>::empty() + stripped(rest) =~= stripped(rest));
    }
}

/// A painted text shows what it would without paint.
proof fn lemma_shows_painted(code: Seq<char>, s: Seq<char>, plain: Seq<char>)
    requires
        code.len() > 0,
        forall|i: int| 0 <= i < code.len() ==> '0' <= #[trigger] code[i] <= '9',
        shows(s, plain),
    ensures
        shows(painted(true, code, s), plain),
{
    reveal_strlit("0");
    let none = Seq::<char>::empty();
    let open = "\x1b["@ + code + "m"@;
    let close = "\x1b["@ + "0"@ + "m"@;
    lemma_shows_escape(code);
    lemma_shows_escape("0"@);
    lemma_shows_both(open, s, none, plain);
    lemma_shows_both(open + s, close, none + plain, none);
    assert(none + plain + none =~= plain);
    assert(close =~= "\x1b[0m"@) by {
        reveal_strlit("\x1b[");
        reveal_strlit("m");
        reveal_strlit("\x1b[0m");
    }
    assert(painted(true, code, s) =~= open + s + close);
}

broadcast proof fn lemma_shows_tinted(st: Status, s: Seq<char>, plain: Seq<char>)
    requires
        shows(s, plain),
    ensures
        #[trigger] shows(tinted(true, st, s), tinted(false, st, plain)),
{
    reveal_strlit("32");
    reveal_strlit("33");
    reveal_strlit("31");
    reveal_strlit("36");
    reveal_strlit("90");
    lemma_shows_painted(color_of(st), s, plain);
}

broadcast proof fn lemma_shows_dimmed(s: Seq<char>, plain: Seq<char>)
    requires
        shows(s, plain),
    ensures
        #[trigger] shows(dimmed(true, s), dimmed(false, plain)),
{
    reveal_strlit("2");
    lemma_shows_painted("2"@, s, plain);
}

broadcast proof fn lemma_shows_emboldened(s: Seq<char>, plain: Seq<char>)
    requires
        shows(s, plain),
    ensures
        #[trigger] shows(emboldened(true, s), emboldened(false, plain)),
{
    reveal_strlit("1");
    lemma_shows_painted("1"@, s, plain);
}

broadcast group group_shows {
    lemma_clean_both,
    lemma_shows_both,
    lemma_shows_clean,
    lemma_shows_tinted,
    lemma_shows_dimmed,
    lemma_shows_emboldened,
}

proof fn lemma_node_shows(h: path::HopView)
    requires
        clean_hop(h),
    ensures
        shows(node_text(true, h), node_text(false, h)),
{
    broadcast use group_shows;

    lemma_literals_clean();
    assert(clean(h.status.mark()));
    let s = h.status.mark() + " "@ + h.title;
    assert(shows(s, s));
}

proof fn lemma_chain_shows(hops: Seq<path::HopView>)
    requires
        clean_hops(hops),
    ensures
        shows(chain_text(true, hops), chain_text(false, hops)),
    decreases hops.len(),
{
    broadcast use group_shows;

    lemma_literals_clean();
    let n = hops.len() - 1;
    if n < 0 {
        assert(shows("  "@, "  "@));
    } else {
        assert(clean_hop(hops[n]));
        lemma_node_shows(hops[n]);
        if n == 0 {
            assert(shows("  "@, "  "@));
        } else {
            assert forall|i: int| 0 <= i < hops.drop_last().len() implies clean_hop(
                #[trigger] hops.drop_last()[i],
            ) by {
                assert(clean_hop(hops[i]));
            }
            lemma_chain_shows(hops.drop_last());
            assert(shows(" ─✗─ "@, " ─✗─ "@));
            assert(shows(" ─── "@, " ─── "@));
            assert(shows(connector_text(true, hops, n), connector_text(false, hops, n)));
        }
    }
}

proof fn lemma_metric_shows(m: path::MetricView)
    requires
        clean(m.label),
        clean(m.value),
    ensures
        shows(metric_text(true, m), metric_text(false, m)),
{
    broadcast use group_shows;

    lemma_literals_clean();
    assert(shows("      "@, "      "@));
    assert(shows(m.label + ":"@, m.label + ":"@));
    assert(shows(" "@, " "@));
    assert(shows("\n"@, "\n"@));
    assert(shows(m.value, m.value));
}

proof fn lemma_metrics_show(metrics: Seq<path::MetricView>)
    requires
        clean_metrics(metrics),
    ensures
        shows(metrics_text(true, metrics), metrics_text(false, metrics)),
    decreases metrics.len(),
{
    broadcast use group_shows;

    if metrics.len() == 0 {
        assert(shows(Seq::<char>::empty(), Seq::<char>::empty()));
    } else {
        assert forall|i: int| 0 <= i < metrics.drop_last().len() implies clean(
            (#[trigger] metrics.drop_last()[i]).label,
        ) && clean(metrics.drop_last()[i].value) by {
            assert(clean(metrics[i].label));
        }
        lemma_metrics_show(metrics.drop_last());
        assert(clean(metrics[metrics.len() - 1].label));
        lemma_metric_shows(metrics.last());
    }
}

proof fn lemma_hop_shows(h: path::HopView, verbose: bool)
    requires
        clean_hop(h),
    ensures
        shows(hop_text(true, verbose, h), hop_text(false, verbose, h)),
{
    broadcast use group_shows;

    lemma_literals_clean();
    lemma_metrics_show(h.metrics);
    let none = Seq::<char>::empty();
    assert(shows(none, none));
    assert(shows("\n"@, "\n"@));
    assert(shows("      "@, "      "@));
    assert(clean(padded(h.title, 9)));
    assert(clean(h.status.mark()));
    assert(clean(or_nothing(h.subtitle)));
    let head = "  "@ + h.status.mark() + " "@ + padded(h.title, 9) + " "@ + or_nothing(h.subtitle);
    assert(shows(head, head));
    if let Some(s) = h.summary {
        assert(shows(s, s));
    }
    assert(shows(hop_head(true, h), hop_head(false, h)));
    if let Some(e) = h.evidence {
        assert(shows("↳ "@ + e, "↳ "@ + e));
    }
    assert(shows(hop_working(true, h), hop_working(false, h)));
}

proof fn lemma_detail_shows(hops: Seq<path::HopView>, verbose: bool)
    requires
        clean_hops(hops),
    ensures
        shows(detail_text(true, verbose, hops), detail_text(false, verbose, hops)),
    decreases hops.len(),
{
    broadcast use group_shows;

    if hops.len() == 0 {
        assert(shows(Seq::<char>::empty(), Seq::<char>::empty()));
    } else {
        assert forall|i: int| 0 <= i < hops.drop_last().len() implies clean_hop(
            #[trigger] hops.drop_last()[i],
        ) by {
            assert(clean_hop(hops[i]));
        }
        lemma_detail_shows(hops.drop_last(), verbose);
        assert(clean_hop(hops[hops.len() - 1]));
        lemma_hop_shows(hops.last(), verbose);
    }
}

proof fn lemma_verdict_shows(hops: Seq<path::HopView>, v: diagnose::VerdictView)
    requires
        clean_hops(hops),
        clean_verdict(v),
    ensures
        shows(verdict_text(true, hops, v), verdict_text(false, hops, v)),
{
    broadcast use group_shows;

    lemma_literals_clean();
    if let Some(id) = v.source {
        path::lemma_index_of_id_holds(hops, id);
        if let Some(h) = path::lookup(hops, id) {
            assert(clean_hop(hops[path::index_of_id(hops, id)]));
        }
    }
    let none = Seq::<char>::empty();
    let deep = "            "@;
    assert(shows(none, none));
    assert(shows("\n"@, "\n"@));
    assert(shows(" "@, " "@));
    assert(shows(deep, deep));
    assert(clean(v.status.mark()));
    assert(shows(tag_of(v.status), tag_of(v.status)));
    let line = v.status.mark() + " "@ + v.headline + "\n"@;
    assert(shows(line, line));
    assert(shows(v.cause, v.cause));
    assert(shows(headline_text(true, v), headline_text(false, v)));
    assert(shows("→"@, "→"@));
    if let Some(f) = v.fix {
        assert(shows(f, f));
    }
    assert(shows(fix_text(true, v.fix), fix_text(false, v.fix)));
    let evidence = evidence_of(hops, v);
    assert(clean_opt(evidence));
    assert(shows("evidence:"@, "evidence:"@));
    if let Some(e) = evidence {
        assert(shows(e, e));
    }
    assert(shows(evidence_text(true, evidence), evidence_text(false, evidence)));
    if v.confidence != Confidence::Certain {
        let hedge = "           "@ + hedge_of(v.confidence) + "\n"@;
        assert(clean(hedge_of(v.confidence)));
        assert(shows(hedge, hedge));
    }
    assert(shows(confidence_text(true, v.confidence), confidence_text(false, v.confidence)));
}

/// Colors change no text: with every escape left out, the colored report is the
/// plain one, which is never empty.
pub proof fn colors_change_no_text(
    hops: Seq<path::HopView>,
    v: diagnose::VerdictView,
    verbose: bool,
)
    requires
        clean_hops(hops),
        clean_verdict(v),
    ensures
        stripped(report_text(hops, v, verbose, true)) == report_text(hops, v, verbose, false),
        report_text(hops, v, verbose, false).len() > 0,
{
    broadcast use group_shows;

    lemma_literals_clean();
    lemma_chain_shows(hops);
    lemma_verdict_shows(hops, v);
    lemma_detail_shows(hops, verbose);
    assert(shows("\n"@, "\n"@));
    assert(shows("\n\n"@, "\n\n"@));
    assert(shows(" wtfi "@, " wtfi "@));
    let motto = "· what the f*ck internet\n\n"@;
    assert(shows(motto, motto));
    assert(shows(banner(true), banner(false)));
    let colored = report_text(hops, v, verbose, true);
    let plain = report_text(hops, v, verbose, false);
    assert(shows(colored, plain));
    reveal(shows);
    let none = Seq::<char>::empty();
    assert(stripped(colored + none) == plain + stripped(none));
    assert(colored + none =~= colored);
    assert(plain + stripped(none) =~= plain);
    reveal_strlit("\n\n");
}

/// Where the verdict begins in a report without colors: behind the banner and
/// the chain, and a blank line.
pub open spec fn verdict_at(hops: Seq<path::HopView>) -> int {
    banner(false).len() as int + chain_text(false, hops).len() + 2
}

/// The tags tell every status from every other, and are of one length.
pub proof fn tags_are_distinct(a: Status, b: Status)
    ensures
        tag_of(a) == tag_of(b) <==> a == b,
        tag_of(a).len() == 11,
        tag_of(a) == "  ALL GOOD "@ <==> a == Status::Healthy,
        tag_of(a) == "  DEGRADED "@ <==> a == Status::Warn,
        tag_of(a) == "  BROKEN   "@ <==> a == Status::Fail,
        tag_of(a) == "  UNKNOWN  "@ <==> a == Status::Skipped,
        tag_of(a) == "  SCANNING "@ <==> a == Status::Pending,
{
    reveal_strlit("  ALL GOOD ");
    reveal_strlit("  DEGRADED ");
    reveal_strlit("  UNKNOWN  ");
    reveal_strlit("  SCANNING ");
    reveal_strlit("  BROKEN   ");
    assert("  ALL GOOD "@[2] == 'A' && "  DEGRADED "@[2] == 'D' && "  BROKEN   "@[2] == 'B');
    assert("  UNKNOWN  "@[2] == 'U' && "  SCANNING "@[2] == 'S');
    assert(tag_of(a) == tag_of(b) ==> tag_of(a)[2] == tag_of(b)[2]);
}

/// What stands somewhere stands there whatever follows.
proof fn lemma_stays(a: Seq<char>, b: Seq<char>, i: int, p: Seq<char>)
    requires
        text::occurs_at(a, i, p),
    ensures
        text::occurs_at(a + b, i, p),
{
    assert((a + b).subrange(i, i + p.len()) =~= a.subrange(i, i + p.len()));
}

/// What stands somewhere stands further on behind another text.
proof fn lemma_shifts(a: Seq<char>, b: Seq<char>, i: int, p: Seq<char>)
    requires
        text::occurs_at(b, i, p),
    ensures
        text::occurs_at(a + b, a.len() + i, p),
{
    assert((a + b).subrange(a.len() + i, a.len() + i + p.len()) =~= b.subrange(i, i + p.len()));
}

/// What stands in front of the headline stands in front of the verdict.
proof fn lemma_opens(
    hops: Seq<path::HopView>,
    v: diagnose::VerdictView,
    verbose: bool,
    i: int,
    p: Seq<char>,
)
    requires
        text::occurs_at(
            tag_of(v.status) + (v.status.mark() + " "@ + v.headline + "\n"@),
            i,
            p,
        ),
    ensures
        text::occurs_at(report_text(hops, v, verbose, false), verdict_at(hops) + i, p),
{
    let opening = tag_of(v.status) + (v.status.mark() + " "@ + v.headline + "\n"@);
    let deep = "            "@;
    let head = headline_text(false, v);
    let fix = fix_text(false, v.fix);
    let told = evidence_text(false, evidence_of(hops, v));
    let sure = confidence_text(false, v.confidence);
    lemma_stays(opening, deep, i, p);
    lemma_stays(opening + deep, v.cause, i, p);
    lemma_stays(opening + deep + v.cause, "\n"@, i, p);
    lemma_stays(head, fix, i, p);
    lemma_stays(head + fix, told, i, p);
    lemma_stays(head + fix + told, sure, i, p);
    let front = banner(false) + chain_text(false, hops) + "\n\n"@;
    let block = verdict_text(false, hops, v);
    reveal_strlit("\n\n");
    assert(front.len() == verdict_at(hops));
    lemma_shifts(front, block, i, p);
    lemma_stays(front + block, "\n"@, verdict_at(hops) + i, p);
    lemma_stays(
        front + block + "\n"@,
        detail_text(false, verbose, hops),
        verdict_at(hops) + i,
        p,
    );
}

/// Of two texts of one length only one stands at a place.
proof fn lemma_one_stands(s: Seq<char>, at: int, a: Seq<char>, b: Seq<char>)
    requires
        text::occurs_at(s, at, a),
        a.len() == b.len(),
    ensures
        text::occurs_at(s, at, b) <==> a == b,
{
}

/// The verdict opens with the tag of its status, then its glyph and its
/// headline: a report says that all is good there exactly when the verdict is
/// healthy, and that something is broken exactly when it is.
pub proof fn the_verdict_opens_with_its_status(
    hops: Seq<path::HopView>,
    v: diagnose::VerdictView,
    verbose: bool,
)
    ensures
        ({
            let s = report_text(hops, v, verbose, false);
            let at = verdict_at(hops);
            &&& text::occurs_at(s, at, "  ALL GOOD "@) <==> v.status == Status::Healthy
            &&& text::occurs_at(s, at, "  DEGRADED "@) <==> v.status == Status::Warn
            &&& text::occurs_at(s, at, "  BROKEN   "@) <==> v.status == Status::Fail
            &&& text::occurs_at(s, at, "  UNKNOWN  "@) <==> v.status == Status::Skipped
            &&& text::occurs_at(s, at, "  SCANNING "@) <==> v.status == Status::Pending
            &&& text::occurs_at(s, at + 11, v.status.mark() + " "@ + v.headline + "\n"@)
        }),
{
    let s = report_text(hops, v, verbose, false);
    let at = verdict_at(hops);
    let tag = tag_of(v.status);
    let line = v.status.mark() + " "@ + v.headline + "\n"@;
    tags_are_distinct(v.status, v.status);
    tags_are_distinct(Status::Healthy, v.status);
    tags_are_distinct(Status::Warn, v.status);
    tags_are_distinct(Status::Fail, v.status);
    tags_are_distinct(Status::Skipped, v.status);
    tags_are_distinct(Status::Pending, v.status);
    assert((tag + line).subrange(0, 11) =~= tag);
    assert((tag + line).subrange(11, 11 + line.len() as int) =~= line);
    lemma_opens(hops, v, verbose, 0, tag);
    lemma_opens(hops, v, verbose, 11, line);
    lemma_one_stands(s, at, tag, tag_of(Status::Healthy));
    lemma_one_stands(s, at, tag, tag_of(Status::Warn));
    lemma_one_stands(s, at, tag, tag_of(Status::Fail));
    lemma_one_stands(s, at, tag, tag_of(Status::Skipped));
    lemma_one_stands(s, at, tag, tag_of(Status::Pending));
}

/// A report tells the cause, what to do where there is something, what the hop
/// behind the verdict measured where it recorded that, and every hop's title
/// and summary.
pub proof fn a_report_leaves_nothing_out(
    hops: Seq<path::HopView>,
    v: diagnose::VerdictView,
    verbose: bool,
    i: int,
)
    requires
        path::distinct(hops),
        0 <= i < hops.len(),
    ensures
        ({
            let s = report_text(hops, v, verbose, false);
            &&& text::contains(s, v.headline)
            &&& text::contains(s, v.cause)
            &&& v.fix matches Some(f) ==> text::contains(s, f)
            &&& v.source == Some(hops[i].id) ==> (hops[i].evidence matches Some(e)
                ==> text::contains(s, e))
            &&& text::contains(s, hops[i].title)
            &&& hops[i].summary matches Some(t) ==> text::contains(s, t)
            &&& hops[i].subtitle matches Some(t) ==> text::contains(s, t)
        }),
{
    let block = verdict_text(false, hops, v);
    lemma_block_holds(hops, v, i);
    lemma_hop_holds(hops[i], verbose);
    lemma_report_holds_block(hops, v, verbose, v.headline);
    lemma_report_holds_block(hops, v, verbose, v.cause);
    if let Some(f) = v.fix {
        lemma_report_holds_block(hops, v, verbose, f);
    }
    if let Some(e) = hops[i].evidence {
        lemma_report_holds_block(hops, v, verbose, e);
    }
    lemma_report_holds_hop(hops, v, verbose, i, hops[i].title);
    if let Some(t) = hops[i].summary {
        lemma_report_holds_hop(hops, v, verbose, i, t);
    }
    if let Some(t) = hops[i].subtitle {
        lemma_report_holds_hop(hops, v, verbose, i, t);
    }
}

/// In a verbose report every hop's method and every line of it is told.
pub proof fn a_verbose_report_tells_every_line(
    hops: Seq<path::HopView>,
    v: diagnose::VerdictView,
    i: int,
    k: int,
)
    requires
        0 <= i < hops.len(),
    ensures
        ({
            let s = report_text(hops, v, true, false);
            &&& hops[i].evidence matches Some(e) ==> text::contains(s, e)
            &&& 0 <= k < hops[i].metrics.len() ==> text::contains(s, hops[i].metrics[k].label)
                && text::contains(s, hops[i].metrics[k].value)
        }),
{
    let h = hops[i];
    let own = hop_text(false, true, h);
    let working = hop_working(false, h);
    let lines = metrics_text(false, h.metrics);
    if let Some(e) = h.evidence {
        let arrowed = "↳ "@ + e;
        lemma_in_right("↳ "@, e, e);
        lemma_in_right("      "@, arrowed, e);
        lemma_in_left("      "@ + arrowed, "\n"@, e);
        lemma_in_left("      "@ + arrowed + "\n"@, lines, e);
        lemma_in_right(hop_head(false, h), working, e);
        lemma_report_holds_hop(hops, v, true, i, e);
    }
    if 0 <= k < h.metrics.len() {
        let m = h.metrics[k];
        lemma_metrics_hold(h.metrics, k);
        let method = match h.evidence {
            Some(e) => "      "@ + dimmed(false, "↳ "@ + e) + "\n"@,
            None => seq![],
        };
        assert(working == method + lines);
        lemma_in_right(method, lines, m.label);
        lemma_in_right(method, lines, m.value);
        lemma_in_right(hop_head(false, h), working, m.label);
        lemma_in_right(hop_head(false, h), working, m.value);
        lemma_report_holds_hop(hops, v, true, i, m.label);
        lemma_report_holds_hop(hops, v, true, i, m.value);
    }
}

proof fn lemma_in_itself(s: Seq<char>)
    ensures
        text::contains(s, s),
{
    assert(s.subrange(0, s.len() as int) =~= s);
    assert(text::occurs_at(s, 0, s));
}

/// What stands in the first of two texts stands in both.
proof fn lemma_in_left(a: Seq<char>, b: Seq<char>, p: Seq<char>)
    requires
        text::contains(a, p) || a == p,
    ensures
        text::contains(a + b, p),
{
    lemma_in_itself(p);
    let none = Seq::<char>::empty();
    text::lemma_contains_through(none, a, b, p);
    assert(none + a + b =~= a + b);
}

/// What stands in the second of two texts stands in both.
proof fn lemma_in_right(a: Seq<char>, b: Seq<char>, p: Seq<char>)
    requires
        text::contains(b, p) || b == p,
    ensures
        text::contains(a + b, p),
{
    lemma_in_itself(p);
    let none = Seq::<char>::empty();
    text::lemma_contains_through(a, b, none, p);
    assert(a + b + none =~= a + b);
}

proof fn lemma_report_holds_block(
    hops: Seq<path::HopView>,
    v: diagnose::VerdictView,
    verbose: bool,
    p: Seq<char>,
)
    ensures
        text::contains(verdict_text(false, hops, v), p) ==> text::contains(
            report_text(hops, v, verbose, false),
            p,
        ),
{
    let front = banner(false) + chain_text(false, hops) + "\n\n"@;
    let block = verdict_text(false, hops, v);
    if text::contains(block, p) {
        lemma_in_right(front, block, p);
        lemma_in_left(front + block, "\n"@, p);
        lemma_in_left(front + block + "\n"@, detail_text(false, verbose, hops), p);
    }
}

proof fn lemma_report_holds_hop(
    hops: Seq<path::HopView>,
    v: diagnose::VerdictView,
    verbose: bool,
    i: int,
    p: Seq<char>,
)
    requires
        0 <= i < hops.len(),
        text::contains(hop_text(false, verbose, hops[i]), p),
    ensures
        text::contains(report_text(hops, v, verbose, false), p),
{
    lemma_detail_holds(hops, verbose, i, p);
    lemma_in_right(
        banner(false) + chain_text(false, hops) + "\n\n"@ + verdict_text(false, hops, v) + "\n"@,
        detail_text(false, verbose, hops),
        p,
    );
}

proof fn lemma_block_holds(hops: Seq<path::HopView>, v: diagnose::VerdictView, i: int)
    requires
        path::distinct(hops),
        0 <= i < hops.len(),
    ensures
        ({
            let s = verdict_text(false, hops, v);
            &&& text::contains(s, v.headline)
            &&& text::contains(s, v.cause)
            &&& v.fix matches Some(f) ==> text::contains(s, f)
            &&& v.source == Some(hops[i].id) ==> (hops[i].evidence matches Some(e)
                ==> text::contains(s, e))
        }),
{
    let deep = "            "@;
    let head = headline_text(false, v);
    let fix = fix_text(false, v.fix);
    let told = evidence_text(false, evidence_of(hops, v));
    let sure = confidence_text(false, v.confidence);
    let tag = tag_of(v.status);
    let front = v.status.mark() + " "@;
    lemma_in_right(front, v.headline, v.headline);
    lemma_in_left(front + v.headline, "\n"@, v.headline);
    let line = front + v.headline + "\n"@;
    lemma_in_right(tag, line, v.headline);
    lemma_in_left(tag + line, deep, v.headline);
    lemma_in_left(tag + line + deep, v.cause, v.headline);
    lemma_in_left(tag + line + deep + v.cause, "\n"@, v.headline);
    lemma_in_right(tag + line + deep, v.cause, v.cause);
    lemma_in_left(tag + line + deep + v.cause, "\n"@, v.cause);
    assert(head == tag + line + deep + v.cause + "\n"@);
    lemma_in_left(head, fix, v.headline);
    lemma_in_left(head + fix, told, v.headline);
    lemma_in_left(head + fix + told, sure, v.headline);
    lemma_in_left(head, fix, v.cause);
    lemma_in_left(head + fix, told, v.cause);
    lemma_in_left(head + fix + told, sure, v.cause);
    if let Some(f) = v.fix {
        lemma_in_right(deep + "→"@ + " "@, f, f);
        lemma_in_left(deep + "→"@ + " "@ + f, "\n"@, f);
        lemma_in_right(head, fix, f);
        lemma_in_left(head + fix, told, f);
        lemma_in_left(head + fix + told, sure, f);
    }
    if let Some(e) = hops[i].evidence {
        if v.source == Some(hops[i].id) {
            path::lemma_index_of_id_holds(hops, hops[i].id);
            assert(path::index_of_id(hops, hops[i].id) == i);
            lemma_in_right(deep + "evidence:"@ + " "@, e, e);
            lemma_in_left(deep + "evidence:"@ + " "@ + e, "\n"@, e);
            lemma_in_right(head + fix, told, e);
            lemma_in_left(head + fix + told, sure, e);
        }
    }
}

proof fn lemma_detail_holds(hops: Seq<path::HopView>, verbose: bool, i: int, p: Seq<char>)
    requires
        0 <= i < hops.len(),
        text::contains(hop_text(false, verbose, hops[i]), p),
    ensures
        text::contains(detail_text(false, verbose, hops), p),
    decreases hops.len(),
{
    let fewer = hops.drop_last();
    let before = detail_text(false, verbose, fewer);
    let last = hop_text(false, verbose, hops.last());
    if i == fewer.len() {
        lemma_in_right(before, last, p);
    } else {
        assert(fewer[i] == hops[i]);
        lemma_detail_holds(fewer, verbose, i, p);
        lemma_in_left(before, last, p);
    }
}

proof fn lemma_metrics_hold(metrics: Seq<path::MetricView>, k: int)
    requires
        0 <= k < metrics.len(),
    ensures
        text::contains(metrics_text(false, metrics), metrics[k].label),
        text::contains(metrics_text(false, metrics), metrics[k].value),
    decreases metrics.len(),
{
    let fewer = metrics.drop_last();
    let before = metrics_text(false, fewer);
    let m = metrics[k];
    let last = metric_text(false, metrics.last());
    if k == fewer.len() {
        let named = "      "@ + (m.label + ":"@);
        lemma_in_left(m.label, ":"@, m.label);
        lemma_in_right("      "@, m.label + ":"@, m.label);
        lemma_in_left(named, " "@, m.label);
        lemma_in_left(named + " "@, m.value, m.label);
        lemma_in_left(named + " "@ + m.value, "\n"@, m.label);
        lemma_in_right(named + " "@, m.value, m.value);
        lemma_in_left(named + " "@ + m.value, "\n"@, m.value);
        lemma_in_right(before, last, m.label);
        lemma_in_right(before, last, m.value);
    } else {
        assert(fewer[k] == metrics[k]);
        lemma_metrics_hold(fewer, k);
        lemma_in_left(before, last, m.label);
        lemma_in_left(before, last, m.value);
    }
}

proof fn lemma_hop_holds(h: path::HopView, verbose: bool)
    ensures
        text::contains(hop_text(false, verbose, h), h.title),
        h.summary matches Some(t) ==> text::contains(hop_text(false, verbose, h), t),
        h.subtitle matches Some(t) ==> text::contains(hop_text(false, verbose, h), t),
{
    let head = hop_head(false, h);
    let marked = "  "@ + h.status.mark() + " "@;
    let title = padded(h.title, 9);
    let sub = or_nothing(h.subtitle);
    let told = match h.summary {
        Some(s) => "      "@ + dimmed(false, s) + "\n"@,
        None => seq![],
    };
    let line = marked + title + " "@ + sub;
    assert(head == line + "\n"@ + told);
    lemma_in_left(h.title, title.skip(h.title.len() as int), h.title);
    assert(h.title + title.skip(h.title.len() as int) =~= title);
    lemma_in_right(marked, title, h.title);
    lemma_in_left(marked + title, " "@, h.title);
    lemma_in_left(marked + title + " "@, sub, h.title);
    lemma_in_left(line, "\n"@, h.title);
    lemma_in_left(line + "\n"@, told, h.title);
    lemma_in_left(head, hop_working(false, h), h.title);
    if let Some(t) = h.subtitle {
        lemma_in_right(marked + title + " "@, sub, t);
        lemma_in_left(line, "\n"@, t);
        lemma_in_left(line + "\n"@, told, t);
        lemma_in_left(head, hop_working(false, h), t);
    }
    if let Some(t) = h.summary {
        lemma_in_right("      "@, t, t);
        lemma_in_left("      "@ + t, "\n"@, t);
        lemma_in_right(line + "\n"@, told, t);
        lemma_in_left(head, hop_working(false, h), t);
    }
}

/// How sure a verdict is, is said behind everything else exactly when it is not
/// certain, in words that differ for what is likely and what is a guess.
pub proof fn a_verdict_hedges_unless_it_is_certain(
    on: bool,
    hops: Seq<path::HopView>,
    v: diagnose::VerdictView,
)
    ensures
        ({
            let sure = verdict_text(
                on,
                hops,
                diagnose::VerdictView { confidence: Confidence::Certain, ..v },
            );
            let likely = verdict_text(
                on,
                hops,
                diagnose::VerdictView { confidence: Confidence::Likely, ..v },
            );
            let guess = verdict_text(
                on,
                hops,
                diagnose::VerdictView { confidence: Confidence::Guess, ..v },
            );
            &&& likely == sure + dimmed(on, "           "@ + "  (likely cause)"@ + "\n"@)
            &&& guess == sure + dimmed(on, "           "@ + "  (best guess)"@ + "\n"@)
        }),
{
    let sure = diagnose::VerdictView { confidence: Confidence::Certain, ..v };
    let likely = diagnose::VerdictView { confidence: Confidence::Likely, ..v };
    let guess = diagnose::VerdictView { confidence: Confidence::Guess, ..v };
    let front = headline_text(on, v) + fix_text(on, v.fix) + evidence_text(
        on,
        evidence_of(hops, v),
    );
    assert(verdict_text(on, hops, sure) =~= front);
    assert(verdict_text(on, hops, likely) =~= front + dimmed(
        on,
        "           "@ + "  (likely cause)"@ + "\n"@,
    ));
    assert(verdict_text(on, hops, guess) =~= front + dimmed(
        on,
        "           "@ + "  (best guess)"@ + "\n"@,
    ));
}

/// The colors tell every status from every other: green is healthy, yellow
/// degraded and red broken.
pub proof fn colors_are_distinct(a: Status, b: Status)
    ensures
        color_of(a) == color_of(b) <==> a == b,
        color_of(a) == "32"@ <==> a == Status::Healthy,
        color_of(a) == "33"@ <==> a == Status::Warn,
        color_of(a) == "31"@ <==> a == Status::Fail,
{
    reveal_strlit("32");
    reveal_strlit("33");
    reveal_strlit("31");
    reveal_strlit("36");
    reveal_strlit("90");
    assert(color_of(a)[0] == color_of(a)[0] && color_of(a)[1] == color_of(a)[1]);
    assert(color_of(a) == color_of(b) ==> color_of(a)[0] == color_of(b)[0] && color_of(a)[1]
        == color_of(b)[1]);
    assert("32"@[1] == '2' && "33"@[1] == '3' && "31"@[1] == '1');
}

/// A hop shows in the color of its status, and what joins two hops shows in the
/// color of the worse of them: red where either is broken, and else yellow where
/// either is degraded.
pub proof fn the_chain_shows_what_is_worst(hops: Seq<path::HopView>, i: int)
    requires
        0 < i < hops.len(),
    ensures
        ({
            let a = hops[i - 1].status;
            let b = hops[i].status;
            let joint = connector_text(true, hops, i);
            &&& a == Status::Fail || b == Status::Fail ==> text::starts_with(joint, "\x1b["@ + "31"@ + "m"@)
            &&& a != Status::Fail && b != Status::Fail && (a == Status::Warn || b == Status::Warn)
                ==> text::starts_with(joint, "\x1b["@ + "33"@ + "m"@)
            &&& a == Status::Healthy && b == Status::Healthy ==> text::starts_with(
                joint,
                "\x1b["@ + "32"@ + "m"@,
            )
            &&& text::starts_with(node_text(true, hops[i]), "\x1b["@ + color_of(b) + "m"@)
        }),
{
    lemma_painted_front("31"@, " ─✗─ "@);
    lemma_painted_front("31"@, " ─── "@);
    lemma_painted_front("33"@, " ─── "@);
    lemma_painted_front("32"@, " ─── "@);
    lemma_painted_front(
        color_of(hops[i].status),
        hops[i].status.mark() + " "@ + hops[i].title,
    );
}

proof fn lemma_painted_front(code: Seq<char>, s: Seq<char>)
    ensures
        text::starts_with(painted(true, code, s), "\x1b["@ + code + "m"@),
{
    let front = "\x1b["@ + code + "m"@;
    assert(painted(true, code, s).take(front.len() as int) =~= front);
}

} // verus!
