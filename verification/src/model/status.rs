//! Probe outcome status with an ordered severity.

use std::cmp::Ordering;
use vstd::prelude::*;

verus! {

/// Outcome of a single probe / hop.
#[derive(Debug, Clone, Copy, PartialEq, Eq, Structural)]
pub enum Status {
    /// Not yet run (live dashboard shows a spinner).
    Pending,
    /// Deliberately not run on this platform / config.
    Skipped,
    /// Healthy.
    Healthy,
    /// Working but degraded (weak signal, slow DNS, IPv6 down…).
    Warn,
    /// Broken — this is where connectivity dies.
    Fail,
}

impl Status {
    /// Higher is worse; what has no outcome weighs nothing.
    pub open spec fn weight(self) -> u8 {
        match self {
            Status::Pending => 0,
            Status::Skipped => 0,
            Status::Healthy => 1,
            Status::Warn => 2,
            Status::Fail => 3,
        }
    }

    /// Higher = worse. Used to find the first/worst break in the path.
    pub fn severity(self) -> (r: u8)
        ensures
            r == self.weight(),
    {
        match self {
            Status::Pending => 0,
            Status::Skipped => 0,
            Status::Healthy => 1,
            Status::Warn => 2,
            Status::Fail => 3,
        }
    }

    /// The glyph of a status.
    pub open spec fn mark(self) -> Seq<char> {
        match self {
            Status::Pending => "…"@,
            Status::Skipped => "–"@,
            Status::Healthy => "✓"@,
            Status::Warn => "!"@,
            Status::Fail => "✗"@,
        }
    }

    /// A single glyph for compact rendering.
    pub fn glyph(self) -> (r: &'static str)
        ensures
            r@ == self.mark(),
    {
        match self {
            Status::Pending => "…",
            Status::Skipped => "–",
            Status::Healthy => "✓",
            Status::Warn => "!",
            Status::Fail => "✗",
        }
    }

    /// Whether the probe has settled. `Skipped` counts as settled — otherwise
    /// an outage (which legitimately skips downstream hops) would leave the
    /// live dashboard stuck on "scanning" and never render a verdict.
    pub fn is_terminal(self) -> (r: bool)
        ensures
            r == (self != Status::Pending),
    {
        match self {
            Status::Pending => false,
            _ => true,
        }
    }

    /// The worse of two statuses; between equally bad ones, the second.
    pub open spec fn worse(self, other: Status) -> Status {
        if other.weight() < self.weight() {
            self
        } else {
            other
        }
    }

    /// The worse of two statuses; between equally bad ones, the second.
    pub fn max(self, other: Status) -> (r: Status)
        ensures
            r == self.worse(other),
    {
        if other.severity() < self.severity() {
            self
        } else {
            other
        }
    }
}

/// Statuses are ordered by severity alone.
impl PartialOrd for Status {
    fn partial_cmp(&self, other: &Self) -> (r: Option<Ordering>) {
        let a: u8 = self.severity();
        let b: u8 = other.severity();
        if a < b {
            Some(Ordering::Less)
        } else if a == b {
            Some(Ordering::Equal)
        } else {
            Some(Ordering::Greater)
        }
    }
}

impl vstd::std_specs::cmp::PartialOrdSpecImpl for Status {
    open spec fn obeys_partial_cmp_spec() -> bool {
        true
    }

    open spec fn partial_cmp_spec(&self, other: &Self) -> Option<Ordering> {
        if self.weight() < other.weight() {
            Some(Ordering::Less)
        } else if self.weight() == other.weight() {
            Some(Ordering::Equal)
        } else {
            Some(Ordering::Greater)
        }
    }
}

// ---- laws ----

/// Nothing is worse than a break, then comes a degradation, then health; what
/// has no outcome weighs least, whichever way it has none.
pub proof fn a_break_is_worst()
    ensures
        Status::Fail.weight() > Status::Warn.weight(),
        Status::Warn.weight() > Status::Healthy.weight(),
        Status::Healthy.weight() > Status::Skipped.weight(),
        Status::Skipped.weight() == Status::Pending.weight(),
{
}

/// The worse of two is one of them, and no better than either.
pub proof fn the_worse_is_no_better_than_either(a: Status, b: Status)
    ensures
        a.worse(b) == a || a.worse(b) == b,
        a.worse(b).weight() >= a.weight(),
        a.worse(b).weight() >= b.weight(),
        a == Status::Fail || b == Status::Fail ==> a.worse(b) == Status::Fail,
        a == Status::Warn && b != Status::Fail ==> a.worse(b) == Status::Warn,
        b == Status::Warn && a != Status::Fail ==> a.worse(b) == Status::Warn,
{
}

/// The glyphs tell every status from every other, and each is one character.
pub proof fn glyphs_are_distinct(a: Status, b: Status)
    ensures
        a.mark() == b.mark() <==> a == b,
        a.mark().len() == 1,
        a.mark()[0] == '✗' <==> a == Status::Fail,
        a.mark()[0] == '✓' <==> a == Status::Healthy,
        a.mark()[0] == '!' <==> a == Status::Warn,
{
    reveal_strlit("…");
    reveal_strlit("–");
    reveal_strlit("✓");
    reveal_strlit("!");
    reveal_strlit("✗");
    assert(a.mark() == b.mark() ==> a.mark()[0] == b.mark()[0]);
}

} // verus!
