//! Local time and uptime.

use vstd::prelude::*;
use vstd::view::View as _;

use crate::bar::{error_runs, Button, Health, View};
use crate::display::{duration_text, format_duration};
use crate::markup::{bracket_runs, join_runs, plain, views, Markup, RunView};
use crate::text::str_eq;
use crate::units::{
    error_view, probe_error_text, Cycle, Posture, ProbeError, Reaction, RestorableCycle,
};

verus! {

broadcast use vstd::string::group_string_axioms;

/// Whether the clock or the uptime is shown.
#[derive(Debug, Clone, Copy, PartialEq, Eq, Structural)]
pub enum Mode {
    DateTime,
    Uptime,
}

impl Cycle for Mode {
    open spec fn inv(&self) -> bool {
        true
    }

    open spec fn period(&self) -> nat {
        2
    }

    open spec fn position(&self) -> nat {
        match self {
            Mode::DateTime => 0,
            Mode::Uptime => 1,
        }
    }

    open spec fn same_frame(&self, other: &Self) -> bool {
        true
    }

    open spec fn step(self) -> Self {
        match self {
            Mode::DateTime => Mode::Uptime,
            Mode::Uptime => Mode::DateTime,
        }
    }

    proof fn lemma_step(s: Self) {
    }

    proof fn lemma_frame(a: Self, b: Self, c: Self) {
    }

    proof fn lemma_position_determines(a: Self, b: Self) {
    }

    fn advance(&mut self) {
        *self = match *self {
            Mode::DateTime => Mode::Uptime,
            Mode::Uptime => Mode::DateTime,
        };
    }
}

impl RestorableCycle for Mode {
    open spec fn point_name(&self) -> Seq<char> {
        match self {
            Mode::DateTime => "DateTime"@,
            Mode::Uptime => "Uptime"@,
        }
    }

    proof fn lemma_name_determines(a: Self, b: Self) {
        reveal_strlit("DateTime");
        reveal_strlit("Uptime");
        match (a, b) {
            (Mode::DateTime, Mode::DateTime) => {},
            (Mode::DateTime, Mode::Uptime) => { assert("DateTime"@.len() != "Uptime"@.len()); },
            (Mode::Uptime, Mode::DateTime) => { assert("Uptime"@.len() != "DateTime"@.len()); },
            (Mode::Uptime, Mode::Uptime) => {},
        }
    }

    fn point(&self) -> (p: &'static str) {
        match self {
            Mode::DateTime => "DateTime",
            Mode::Uptime => "Uptime",
        }
    }

    fn has_point(&self, point: &str) -> (found: bool) {
        let found = str_eq(point, "DateTime") || str_eq(point, "Uptime");
        proof {
            if point@ == "DateTime"@ {
                assert(Mode::DateTime.point_name() == point@);
            }
            if point@ == "Uptime"@ {
                assert(Mode::Uptime.point_name() == point@);
            }
            assert forall|s: Self| #[trigger] s.point_name() != point@ || found by {
                match s {
                    Mode::DateTime => {},
                    Mode::Uptime => {},
                }
            }
        }
        found
    }

    fn seek(&mut self, point: &str) -> (found: bool) {
        if str_eq(point, "DateTime") {
            *self = Mode::DateTime;
            assert(self.point_name() == point@);
            return true;
        }
        if str_eq(point, "Uptime") {
            *self = Mode::Uptime;
            assert(self.point_name() == point@);
            return true;
        }
        proof {
            assert forall|s: Self| #[trigger] s.point_name() != point@ by {
                match s {
                    Mode::DateTime => {},
                    Mode::Uptime => {},
                }
            }
        }
        false
    }
}

/// Whether chrono's strftime parser reports an error item anywhere in the
/// format.
pub uninterp spec fn strftime_rejects(format: Seq<char>) -> bool;

/// Wraps `chrono::format::StrftimeItems::new` and scans the items it
/// yields: the contract claims that the answer depends on the format alone.
#[verifier::external_body]
fn strftime_is_invalid(format: &str) -> (invalid: bool)
    ensures
        invalid == strftime_rejects(format@),
{
    chrono::format::StrftimeItems::new(format).any(|item| matches!(item, chrono::format::Item::Error))
}

/// The unit's settings: the strftime format of the clock.
#[derive(Debug)]
pub struct Config {
    pub format: String,
}

/// The clock unit: its format and which of clock and uptime it shows.
#[derive(Debug)]
pub struct Model {
    pub format: String,
    pub mode: Mode,
}

/// What a probe reads: the local time in a format, or the uptime.
#[derive(Debug)]
pub enum Request {
    DateTime(String),
    Uptime,
}

/// A probe result: the formatted local time, or the uptime in seconds
/// with the three load averages already rendered with their colors.
#[derive(Debug)]
pub enum Sample {
    DateTime(String),
    Uptime { seconds: u64, loads: Vec<Markup> },
}

/// What the unit shows for a probe result.
pub open spec fn sample_runs(s: Sample) -> Seq<RunView> {
    match s {
        Sample::DateTime(t) => plain(t@),
        Sample::Uptime { seconds, loads } => plain("uptime "@) + bracket_runs(plain(duration_text(seconds as nat)))
            + plain(" load "@) + bracket_runs(join_runs(plain("/"@), views(loads@))),
    }
}

impl Model {
    /// A clock with a valid strftime format; any other is refused.
    pub fn new(config: Config) -> (r: Result<Model, String>)
        ensures
            match r {
                Ok(m) => !strftime_rejects(config.format@) && m.format@ == config.format@ && m.mode
                    == Mode::DateTime,
                Err(e) => strftime_rejects(config.format@) && e@ == "invalid strftime format"@,
            },
    {
        if strftime_is_invalid(config.format.as_str()) {
            return Err("invalid strftime format".to_owned());
        }
        Ok(Model { format: config.format, mode: Mode::DateTime })
    }

    /// The clock asks for its format, the uptime for nothing.
    pub fn request(&self) -> (r: Request)
        ensures
            match self.mode {
                Mode::DateTime => r matches Request::DateTime(f) && f@ == self.format@,
                Mode::Uptime => r is Uptime,
            },
    {
        match self.mode {
            Mode::DateTime => Request::DateTime(self.format.clone()),
            Mode::Uptime => Request::Uptime,
        }
    }

    /// Shows a probe result, or its error.
    pub fn apply(&self, reply: Result<Sample, ProbeError>) -> (v: View)
        ensures
            match reply {
                Ok(s) => v.body@ == sample_runs(s) && v.health == Health::Healthy,
                Err(e) => v.body@ == error_runs("time"@, probe_error_text(e)) && v.health
                    == Health::Error,
            },
    {
        match reply {
            Ok(Sample::DateTime(text)) => View::ok(Markup::owned(text)),
            Ok(Sample::Uptime { seconds, loads }) => {
                let ghost parts = loads@;
                let body = Markup::text("uptime ").append(
                    Markup::bracketed(Markup::owned(format_duration(seconds))),
                ).append(Markup::text(" load ")).append(Markup::bracketed(Markup::join("/", loads)));
                assert(body@ =~= plain("uptime "@) + bracket_runs(plain(duration_text(seconds as nat)))
                    + plain(" load "@) + bracket_runs(join_runs(plain("/"@), views(parts))));
                View::ok(body)
            },
            Err(error) => error_view("time", error),
        }
    }

    /// Any button switches between clock and uptime and asks for a probe.
    pub fn click(&mut self, _button: Button) -> (r: Reaction)
        ensures
            final(self).mode == old(self).mode.step(),
            final(self).format == old(self).format,
            r is Refresh,
    {
        self.mode.advance();
        Reaction::refresh()
    }

    pub fn posture(&self) -> (p: Posture)
        ensures
            p@ == seq![self.mode.point_name()],
    {
        Posture::from_cycle(&self.mode)
    }

    pub fn restore(&mut self, posture: &Posture) -> (applied: bool)
        ensures
            (applied, final(self).mode) == crate::units::restored_cycle(posture@, old(self).mode),
            final(self).format == old(self).format,
    {
        posture.restore_cycle(&mut self.mode)
    }
}

} // verus!
