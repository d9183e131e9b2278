//! Command-line surface.

use crate::engine;
use crate::model::Status;
use vstd::prelude::*;

verus! {

/// What The F*ck Internet — pinpoint exactly where your connection dies.
#[derive(Debug, Clone, Copy, PartialEq, Eq, Structural)]
pub struct Cli {
    /// Live dashboard: re-probe continuously and watch the path in real time.
    pub watch: bool,
    /// Emit the diagnosis as JSON instead of a human report.
    pub json: bool,
    /// Show every metric for every hop, not just the summary.
    pub verbose: bool,
    /// Disable ANSI color in the text report.
    pub no_color: bool,
    /// Give up on the whole sweep after this many seconds and report what
    /// landed. Individual probes are bounded well below this already; raise it
    /// only on a network so slow that whole probes are timing out.
    pub timeout_secs: u64,
}

impl Default for Cli {
    fn default() -> (r: Self)
        ensures
            r == (Cli {
                watch: false,
                json: false,
                verbose: false,
                no_color: false,
                timeout_secs: engine::SWEEP_DEADLINE,
            }),
    {
        Cli {
            watch: false,
            json: false,
            verbose: false,
            no_color: false,
            timeout_secs: engine::SWEEP_DEADLINE,
        }
    }
}

/// What a run puts out.
#[derive(Debug, Clone, Copy, PartialEq, Eq, Structural)]
pub enum Output {
    /// The live dashboard.
    Dashboard,
    /// JSON text.
    Json,
    /// The text report.
    Report { verbose: bool, color: bool },
}

impl Cli {
    /// The sweep ceiling in seconds, floored at one second so `--timeout 0`
    /// can't turn every run into an instant "nothing was measured".
    pub fn sweep_deadline(&self) -> (r: u64)
        ensures
            r == (if self.timeout_secs == 0 {
                1
            } else {
                self.timeout_secs
            }),
    {
        if self.timeout_secs == 0 {
            1
        } else {
            self.timeout_secs
        }
    }

    /// What this run puts out. Colors need a terminal to show them, and so does
    /// the dashboard: without one it comes down to a single verbose report.
    pub fn output(&self, terminal: bool) -> (r: Output)
        ensures
            r == (if self.watch && terminal {
                Output::Dashboard
            } else if self.watch {
                Output::Report { verbose: true, color: false }
            } else if self.json {
                Output::Json
            } else {
                Output::Report { verbose: self.verbose, color: !self.no_color && terminal }
            }),
    {
        if self.watch {
            if terminal {
                Output::Dashboard
            } else {
                Output::Report { verbose: true, color: false }
            }
        } else if self.json {
            Output::Json
        } else {
            Output::Report { verbose: self.verbose, color: !self.no_color && terminal }
        }
    }
}

/// The exit code for a verdict's status.
pub open spec fn code_for(st: Status) -> i32 {
    match st {
        Status::Healthy => 0,
        Status::Warn => 1,
        Status::Fail => 2,
        Status::Pending => 2,
        Status::Skipped => 4,
    }
}

/// The exit code reflects health, so scripts can branch on it: 0 all good, 1
/// degraded, 2 broken, 4 when nothing was measured.
pub fn exit_code(st: Status) -> (r: i32)
    ensures
        r == code_for(st),
{
    match st {
        Status::Healthy => 0,
        Status::Warn => 1,
        Status::Fail => 2,
        Status::Pending => 2,
        Status::Skipped => 4,
    }
}

// ---- laws ----

/// Settled verdicts with different statuses exit with different codes, so the
/// code says as much as the status does.
pub proof fn exit_codes_tell_verdicts_apart(a: Status, b: Status)
    requires
        a != Status::Pending,
        b != Status::Pending,
    ensures
        code_for(a) == code_for(b) <==> a == b,
{
}

/// A run exits with zero exactly when all is good, with one when something is
/// degraded, with two when something is broken or the scan never ended, and with
/// four when nothing was measured.
pub proof fn the_exit_code_is_the_health(st: Status)
    ensures
        code_for(st) == 0 <==> st == Status::Healthy,
        code_for(st) == 1 <==> st == Status::Warn,
        code_for(st) == 2 <==> st == Status::Fail || st == Status::Pending,
        code_for(st) == 4 <==> st == Status::Skipped,
{
}

} // verus!
