//! Memory utilization.

use vstd::prelude::*;
use vstd::view::View as _;

use crate::bar::{error_runs, Button, Health, View};
use crate::markup::{bracket_runs, plain, Markup, RunView};
use crate::text::str_eq;
use crate::units::{
    error_view, probe_error_text, Cycle, Posture, ProbeError, Reaction, RestorableCycle,
};

verus! {

broadcast use vstd::string::group_string_axioms;

/// The process with the largest resident set among those read: of several
/// equally large, the last one read; none when no process was read.
pub fn worst_process(rss: &[u64]) -> (r: Option<usize>)
    ensures
        (r is None) <==> rss@.len() == 0,
        r matches Some(i) ==> {
            &&& i < rss@.len()
            &&& forall|j: int| 0 <= j < rss@.len() ==> rss@[j] <= rss@[i as int]
            &&& forall|j: int| i < j < rss@.len() ==> rss@[j] < rss@[i as int]
        },
{
    let mut best: Option<usize> = None;
    let mut k: usize = 0;
    while k < rss.len()
        invariant
            k <= rss@.len(),
            (best is None) <==> k == 0,
            best matches Some(i) ==> {
                &&& i < k
                &&& forall|j: int| 0 <= j < k ==> rss@[j] <= rss@[i as int]
                &&& forall|j: int| i < j < k ==> rss@[j] < rss@[i as int]
            },
        decreases rss@.len() - k,
    {
        best = match best {
            Some(i) if rss[i] > rss[k] => Some(i),
            _ => Some(k),
        };
        k = k + 1;
    }
    best
}

/// Whether totals or the largest process are shown.
#[derive(Debug, Clone, Copy, PartialEq, Eq, Structural)]
pub enum Mode {
    Totals,
    WorstProcess,
}

impl Cycle for Mode {
    open spec fn inv(&self) -> bool {
        true
    }

    open spec fn period(&self) -> nat {
        2
    }

    open spec fn position(&self) -> nat {
        match self {
            Mode::Totals => 0,
            Mode::WorstProcess => 1,
        }
    }

    open spec fn same_frame(&self, other: &Self) -> bool {
        true
    }

    open spec fn step(self) -> Self {
        match self {
            Mode::Totals => Mode::WorstProcess,
            Mode::WorstProcess => Mode::Totals,
        }
    }

    proof fn lemma_step(s: Self) {
    }

    proof fn lemma_frame(a: Self, b: Self, c: Self) {
    }

    proof fn lemma_position_determines(a: Self, b: Self) {
    }

    fn advance(&mut self) {
        *self = match *self {
            Mode::Totals => Mode::WorstProcess,
            Mode::WorstProcess => Mode::Totals,
        };
    }
}

impl RestorableCycle for Mode {
    open spec fn point_name(&self) -> Seq<char> {
        match self {
            Mode::Totals => "Totals"@,
            Mode::WorstProcess => "WorstProcess"@,
        }
    }

    proof fn lemma_name_determines(a: Self, b: Self) {
        reveal_strlit("Totals");
        reveal_strlit("WorstProcess");
        match (a, b) {
            (Mode::Totals, Mode::Totals) => {},
            (Mode::Totals, Mode::WorstProcess) => { assert("Totals"@.len() != "WorstProcess"@.len()); },
            (Mode::WorstProcess, Mode::Totals) => { assert("WorstProcess"@.len() != "Totals"@.len()); },
            (Mode::WorstProcess, Mode::WorstProcess) => {},
        }
    }

    fn point(&self) -> (p: &'static str) {
        match self {
            Mode::Totals => "Totals",
            Mode::WorstProcess => "WorstProcess",
        }
    }

    fn has_point(&self, point: &str) -> (found: bool) {
        let found = str_eq(point, "Totals") || str_eq(point, "WorstProcess");
        proof {
            if point@ == "Totals"@ {
                assert(Mode::Totals.point_name() == point@);
            }
            if point@ == "WorstProcess"@ {
                assert(Mode::WorstProcess.point_name() == point@);
            }
            assert forall|s: Self| #[trigger] s.point_name() != point@ || found by {
                match s {
                    Mode::Totals => {},
                    Mode::WorstProcess => {},
                }
            }
        }
        found
    }

    fn seek(&mut self, point: &str) -> (found: bool) {
        if str_eq(point, "Totals") {
            *self = Mode::Totals;
            assert(self.point_name() == point@);
            return true;
        }
        if str_eq(point, "WorstProcess") {
            *self = Mode::WorstProcess;
            assert(self.point_name() == point@);
            return true;
        }
        proof {
            assert forall|s: Self| #[trigger] s.point_name() != point@ by {
                match s {
                    Mode::Totals => {},
                    Mode::WorstProcess => {},
                }
            }
        }
        false
    }
}

/// The memory unit: which of totals and largest process it shows.
#[derive(Debug)]
pub struct Model {
    pub mode: Mode,
}

/// What a probe reads.
#[derive(Debug, Clone, Copy, PartialEq, Eq, Structural)]
pub enum Request {
    Totals,
    WorstProcess,
}

/// A probe result. The figures in GiB and percent are already rendered
/// with their colors.
#[derive(Debug)]
pub enum Sample {
    Totals { used_gib: Markup, used_percent: Markup },
    WorstProcess { name: String, rss_gib: Markup },
}

/// What the unit shows for a probe result.
pub open spec fn sample_runs(s: Sample) -> Seq<RunView> {
    plain("mem "@) + bracket_runs(
        match s {
            Sample::Totals { used_gib, used_percent } => plain("used "@) + used_gib@ + plain(" GiB ("@)
                + used_percent@ + plain("%)"@),
            Sample::WorstProcess { name, rss_gib } => plain("worst "@) + plain(name@) + plain(": "@)
                + rss_gib@ + plain(" GiB rss"@),
        },
    )
}

impl Model {
    pub fn new() -> (m: Model)
        ensures
            m.mode == Mode::Totals,
    {
        Model { mode: Mode::Totals }
    }

    pub fn request(&self) -> (r: Request)
        ensures
            r == (match self.mode {
                Mode::Totals => Request::Totals,
                Mode::WorstProcess => Request::WorstProcess,
            }),
    {
        match self.mode {
            Mode::Totals => Request::Totals,
            Mode::WorstProcess => Request::WorstProcess,
        }
    }

    /// Shows a probe result, or its error.
    pub fn apply(reply: Result<Sample, ProbeError>) -> (v: View)
        ensures
            match reply {
                Ok(s) => v.body@ == sample_runs(s) && v.health == Health::Healthy,
                Err(e) => v.body@ == error_runs("mem"@, probe_error_text(e)) && v.health
                    == Health::Error,
            },
    {
        match reply {
            Ok(Sample::Totals { used_gib, used_percent }) => {
                let ghost (g, p) = (used_gib@, used_percent@);
                let inner = Markup::text("used ").append(used_gib).append(Markup::text(" GiB (")).append(
                    used_percent,
                ).append(Markup::text("%)"));
                let body = Markup::text("mem ").append(Markup::bracketed(inner));
                assert(body@ =~= plain("mem "@) + bracket_runs(
                    plain("used "@) + g + plain(" GiB ("@) + p + plain("%)"@),
                ));
                View::ok(body)
            },
            Ok(Sample::WorstProcess { name, rss_gib }) => {
                let ghost (n, r) = (name@, rss_gib@);
                let inner = Markup::text("worst ").append(Markup::owned(name)).append(
                    Markup::text(": "),
                ).append(rss_gib).append(Markup::text(" GiB rss"));
                let body = Markup::text("mem ").append(Markup::bracketed(inner));
                assert(body@ =~= plain("mem "@) + bracket_runs(
                    plain("worst "@) + plain(n) + plain(": "@) + r + plain(" GiB rss"@),
                ));
                View::ok(body)
            },
            Err(error) => error_view("mem", error),
        }
    }

    /// Any button switches between totals and the largest process.
    pub fn click(&mut self, _button: Button) -> (r: Reaction)
        ensures
            final(self).mode == old(self).mode.step(),
            r is Refresh,
    {
        self.mode.advance();
        Reaction::refresh()
    }

    pub fn posture(&self) -> (p: Posture)
        ensures
            p@ == seq![self.mode.point_name()],
    {
        Posture::from_cycle(&self.mode)
    }

    pub fn restore(&mut self, posture: &Posture) -> (applied: bool)
        ensures
            (applied, final(self).mode) == crate::units::restored_cycle(posture@, old(self).mode),
    {
        posture.restore_cycle(&mut self.mode)
    }
}

} // verus!
