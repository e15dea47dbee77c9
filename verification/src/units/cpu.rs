//! CPU utilization from `/proc/stat` counters.

use vstd::prelude::*;
use vstd::view::View as _;

use crate::bar::{error_runs, loading_runs, Button, Health, View};
use crate::color::{violet, Rgb8};
use crate::display::{color_by_share, percent, percent_of, share_color};
use crate::markup::{bracket_runs, plain, Markup, RunView};
use crate::text::{dec_width, push_aligned_wide};
use crate::units::{error_view, probe_error_text};
use crate::parse::{
    first_line_spec,
    decode_text, first_line, int_error_message, int_error_text, parse_u64, parse_u64_spec,
    split_whitespace, split_ws, IntError,
};
use crate::text::{push_str, str_eq};
use crate::units::{Cycle, Posture, ProbeError, Reaction, RestorableCycle};
use vstd::utf8::{decode_utf8, valid_utf8};

verus! {

broadcast use vstd::string::group_string_axioms;

/// Whether load is shown whole or split into user and kernel time.
#[derive(Debug, Clone, Copy, PartialEq, Eq, Structural)]
pub enum Mode {
    Combined,
    Breakdown,
}

impl Cycle for Mode {
    open spec fn inv(&self) -> bool {
        true
    }

    open spec fn period(&self) -> nat {
        2
    }

    open spec fn position(&self) -> nat {
        match self {
            Mode::Combined => 0,
            Mode::Breakdown => 1,
        }
    }

    open spec fn same_frame(&self, other: &Self) -> bool {
        true
    }

    open spec fn step(self) -> Self {
        match self {
            Mode::Combined => Mode::Breakdown,
            Mode::Breakdown => Mode::Combined,
        }
    }

    proof fn lemma_step(s: Self) {
    }

    proof fn lemma_frame(a: Self, b: Self, c: Self) {
    }

    proof fn lemma_position_determines(a: Self, b: Self) {
    }

    fn advance(&mut self) {
        *self = match *self {
            Mode::Combined => Mode::Breakdown,
            Mode::Breakdown => Mode::Combined,
        };
    }
}

impl RestorableCycle for Mode {
    open spec fn point_name(&self) -> Seq<char> {
        match self {
            Mode::Combined => "Combined"@,
            Mode::Breakdown => "Breakdown"@,
        }
    }

    proof fn lemma_name_determines(a: Self, b: Self) {
        reveal_strlit("Combined");
        reveal_strlit("Breakdown");
        match (a, b) {
            (Mode::Combined, Mode::Combined) => {},
            (Mode::Combined, Mode::Breakdown) => { assert("Combined"@.len() != "Breakdown"@.len()); },
            (Mode::Breakdown, Mode::Combined) => { assert("Breakdown"@.len() != "Combined"@.len()); },
            (Mode::Breakdown, Mode::Breakdown) => {},
        }
    }

    fn point(&self) -> (p: &'static str) {
        match self {
            Mode::Combined => "Combined",
            Mode::Breakdown => "Breakdown",
        }
    }

    fn has_point(&self, point: &str) -> (found: bool) {
        let found = str_eq(point, "Combined") || str_eq(point, "Breakdown");
        proof {
            if point@ == "Combined"@ {
                assert(Mode::Combined.point_name() == point@);
            }
            if point@ == "Breakdown"@ {
                assert(Mode::Breakdown.point_name() == point@);
            }
            assert forall|s: Self| #[trigger] s.point_name() != point@ || found by {
                match s {
                    Mode::Combined => {},
                    Mode::Breakdown => {},
                }
            }
        }
        found
    }

    fn seek(&mut self, point: &str) -> (found: bool) {
        if str_eq(point, "Combined") {
            *self = Mode::Combined;
            assert(self.point_name() == point@);
            return true;
        }
        if str_eq(point, "Breakdown") {
            *self = Mode::Breakdown;
            assert(self.point_name() == point@);
            return true;
        }
        proof {
            assert forall|s: Self| #[trigger] s.point_name() != point@ by {
                match s {
                    Mode::Combined => {},
                    Mode::Breakdown => {},
                }
            }
        }
        false
    }
}

/// Whether a hardware sensor measures the processor: the first word of its
/// label names one of the CPU temperature drivers (`coretemp`, `k10temp`).
pub open spec fn cpu_sensor(label: Seq<char>) -> bool {
    let words = split_ws(label);
    words.len() > 0 && (words[0] == "coretemp"@ || words[0] == "k10temp"@)
}

/// Tells the processor's temperature sensors by their labels.
pub fn is_cpu_sensor(label: &str) -> (cpu: bool)
    ensures
        cpu == cpu_sensor(label@),
{
    let chars = crate::units::bat::chars_of(label);
    let words = split_whitespace(chars.as_slice());
    if words.len() == 0 {
        return false;
    }
    let first = &words[0];
    let coretemp = chars_equal(first.as_slice(), "coretemp");
    let k10temp = chars_equal(first.as_slice(), "k10temp");
    proof {
        reveal_strlit("coretemp");
        reveal_strlit("k10temp");
    }
    coretemp || k10temp
}

fn chars_equal(a: &[char], b: &str) -> (same: bool)
    ensures
        same == (a@ == b@),
{
    let cs = crate::units::bat::chars_of(b);
    if a.len() != cs.len() {
        return false;
    }
    let mut k: usize = 0;
    while k < a.len()
        invariant
            k <= a@.len() == cs@.len(),
            cs@ == b@,
            forall|j: int| 0 <= j < k ==> a@[j] == cs@[j],
        decreases a@.len() - k,
    {
        if a[k] != cs[k] {
            return false;
        }
        k = k + 1;
    }
    assert(a@ =~= b@);
    true
}

/// The unit takes no settings.
#[derive(Debug, Clone, Copy)]
pub struct Config {}

/// Cumulative CPU time counters of the aggregate `cpu` row, in jiffies.
#[derive(Debug, Clone, Copy, PartialEq, Eq, Structural)]
pub struct CpuTimes {
    pub total: u64,
    pub busy: u64,
    pub user: u64,
    pub kernel: u64,
}

/// The counters read from the first eight fields of the `cpu` row: user,
/// nice, system, idle, iowait, irq, softirq, steal. Guest time is already
/// inside user time and is not added again.
pub open spec fn times_of(v: Seq<u64>) -> CpuTimes {
    let total = v[0].wrapping_add(v[1]).wrapping_add(v[2]).wrapping_add(v[3]).wrapping_add(
        v[4],
    ).wrapping_add(v[5]).wrapping_add(v[6]).wrapping_add(v[7]);
    let idle = v[3].saturating_add(v[4]);
    CpuTimes {
        total,
        busy: total.saturating_sub(idle),
        user: v[0].saturating_add(v[1]),
        kernel: v[2].saturating_add(v[5]).saturating_add(v[6]),
    }
}

/// Every field read as a decimal, or the first failure.
pub open spec fn parse_all(fields: Seq<Seq<char>>) -> Result<Seq<u64>, IntError>
    decreases fields.len(),
{
    if fields.len() == 0 {
        Ok(Seq::empty())
    } else {
        match parse_u64_spec(fields[0]) {
            Err(e) => Err(e),
            Ok(v) => match parse_all(fields.drop_first()) {
                Ok(vs) => Ok(seq![v] + vs),
                Err(e) => Err(e),
            },
        }
    }
}

/// What `/proc/stat` yields: the counters of its first line, or the message
/// of the first problem.
pub open spec fn cpu_times_spec(stat: Seq<u8>) -> Result<CpuTimes, Seq<char>> {
    let line = if valid_utf8(stat) {
        crate::parse::first_line_spec(decode_utf8(stat))
    } else {
        None
    };
    match line {
        None => Err("invalid /proc/stat encoding"@),
        Some(line) => {
            let fields = split_ws(line);
            let counters = if fields.len() == 0 {
                fields
            } else {
                fields.drop_first()
            };
            match parse_all(counters) {
                Err(e) => Err("invalid /proc/stat counter: "@ + int_error_text(e)),
                Ok(v) => if v.len() < 8 {
                    Err("short /proc/stat cpu row"@)
                } else {
                    Ok(times_of(v))
                },
            }
        },
    }
}

/// Whether a probe result agrees with a specified result.
pub open spec fn agrees<T>(r: Result<T, ProbeError>, s: Result<T, Seq<char>>) -> bool {
    match (r, s) {
        (Ok(a), Ok(b)) => a == b,
        (Err(ProbeError::Unit(m)), Err(t)) => m@ == t,
        _ => false,
    }
}

/// Reads the aggregate CPU counters from the contents of `/proc/stat`.
#[verifier::loop_isolation(false)]
pub fn parse_times(stat: &[u8]) -> (r: Result<CpuTimes, ProbeError>)
    ensures
        agrees(r, cpu_times_spec(stat@)),
{
    let text = match decode_text(stat) {
        Ok(text) => text,
        Err(_) => {
            return Err(ProbeError::Unit("invalid /proc/stat encoding".to_owned()));
        },
    };
    let line = match first_line(text.as_slice()) {
        Some(line) => line,
        None => {
            return Err(ProbeError::Unit("invalid /proc/stat encoding".to_owned()));
        },
    };
    let mut fields = split_whitespace(line.as_slice());
    let ghost all = fields@.map_values(|f: Vec<char>| f@);
    if fields.len() > 0 {
        fields.remove(0);
    }
    let ghost counters = fields@.map_values(|f: Vec<char>| f@);
    assert(counters =~= if all.len() == 0 { all } else { all.drop_first() });
    let mut values: Vec<u64> = Vec::new();
    let n = fields.len();
    proof {
        assert(counters.skip(0) =~= counters);
        match parse_all(counters) {
            Ok(r) => {
                assert(values@ + r =~= r);
            },
            Err(_) => {},
        }
    }
    for i in 0..n
        invariant
            n == fields@.len(),
            counters == fields@.map_values(|f: Vec<char>| f@),
            parse_all(counters) == match parse_all(counters.skip(i as int)) {
                Ok(rest) => Ok(values@ + rest),
                Err(e) => Err(e),
            },
    {
        proof {
            assert(counters.skip(i as int)[0] == fields@[i as int]@);
            assert(counters.skip(i as int).drop_first() =~= counters.skip(i + 1));
        }
        match parse_u64(fields[i].as_slice()) {
            Ok(v) => {
                let ghost before = values@;
                values.push(v);
                proof {
                    match parse_all(counters.skip(i + 1)) {
                        Ok(rest) => {
                            assert(before + (seq![v] + rest) =~= values@ + rest);
                        },
                        Err(_) => {},
                    }
                }
            },
            Err(e) => {
                proof {
                    assert(counters.skip(i as int).len() > 0);
                    assert(parse_all(counters.skip(i as int)) == Err::<Seq<u64>, IntError>(e));
                }
                let mut message = String::new();
                push_str(&mut message, "invalid /proc/stat counter: ");
                let detail = int_error_message(e);
                push_str(&mut message, detail.as_str());
                proof {
                    assert(parse_all(counters) == Err::<Seq<u64>, IntError>(e));
                    assert(first_line_spec(decode_utf8(stat@)) == Some(line@));
                    assert(split_ws(line@) == all);
                    assert(message@ == "invalid /proc/stat counter: "@ + int_error_text(e));
                }
                return Err(ProbeError::Unit(message));
            },
        }
    }
    proof {
        assert(counters.skip(n as int) =~= Seq::<Seq<char>>::empty());
        assert(values@ + Seq::<u64>::empty() =~= values@);
    }
    if values.len() < 8 {
        return Err(ProbeError::Unit("short /proc/stat cpu row".to_owned()));
    }
    let total = values[0].wrapping_add(values[1]).wrapping_add(values[2]).wrapping_add(
        values[3],
    ).wrapping_add(values[4]).wrapping_add(values[5]).wrapping_add(values[6]).wrapping_add(
        values[7],
    );
    let idle = values[3].saturating_add(values[4]);
    Ok(
        CpuTimes {
            total,
            busy: total.saturating_sub(idle),
            user: values[0].saturating_add(values[1]),
            kernel: values[2].saturating_add(values[5]).saturating_add(values[6]),
        },
    )
}

/// The counter differences between two consecutive samples.
#[derive(Debug, Clone, Copy, PartialEq, Eq, Structural)]
pub struct CpuDelta {
    pub elapsed: u64,
    pub busy: u64,
    pub user: u64,
    pub kernel: u64,
}

/// A probe result: the counters, and the package temperature already
/// rendered with its color when a sensor was found.
#[derive(Debug)]
pub struct Sample {
    pub times: CpuTimes,
    pub temperature: Option<Markup>,
}

/// The differences between two samples.
pub open spec fn delta_of(p: CpuTimes, t: CpuTimes) -> CpuDelta {
    CpuDelta {
        elapsed: t.total.saturating_sub(p.total),
        busy: t.busy.saturating_sub(p.busy),
        user: t.user.saturating_sub(p.user),
        kernel: t.kernel.saturating_sub(p.kernel),
    }
}

/// A share of the elapsed time: a whole percentage right-aligned in three
/// columns, colored by the exact share.
pub open spec fn share_runs(part: u64, whole: u64) -> Seq<RunView> {
    seq![(dec_width(percent_of(part as nat, whole as nat), 3) + "%"@, Some(share_color(part as nat, whole as nat)))]
}

/// The load part of the display.
pub open spec fn load_runs(mode: Mode, d: CpuDelta) -> Seq<RunView> {
    match mode {
        Mode::Combined => plain("load "@) + share_runs(d.busy, d.elapsed),
        Mode::Breakdown => plain("u "@) + share_runs(d.user, d.elapsed) + plain(" k "@) + share_runs(d.kernel, d.elapsed),
    }
}

/// The temperature part of the display.
pub open spec fn temperature_runs(t: Option<Markup>) -> Seq<RunView> {
    match t {
        None => seq![("unk"@, Some(violet()))],
        Some(m) => m@ + plain(" C"@),
    }
}

/// The whole display for a pair of samples.
pub open spec fn cpu_runs(mode: Mode, d: CpuDelta, t: Option<Markup>) -> Seq<RunView> {
    plain("cpu "@) + bracket_runs(load_runs(mode, d)) + plain(" "@) + bracket_runs(plain("temp "@) + temperature_runs(t))
}

fn share_markup(part: u64, whole: u64) -> (m: Markup)
    ensures
        m@ == share_runs(part, whole),
{
    let mut text = String::new();
    push_aligned_wide(&mut text, percent(part, whole), 3, ' ');
    push_str(&mut text, "%");
    let m = Markup::owned(text).fg(color_by_share(part, whole));
    assert(m@ =~= share_runs(part, whole));
    m
}

/// Durable reducer state: the display mode and the previous counters.
#[derive(Debug)]
pub struct Model {
    pub mode: Mode,
    pub previous: Option<CpuTimes>,
}

/// The probe needs no input.
#[derive(Debug, Clone, Copy)]
pub struct Request;

impl Model {
    pub fn new(_config: Config) -> (m: Model)
        ensures
            m.mode == Mode::Combined,
            m.previous is None,
    {
        Model { mode: Mode::Combined, previous: None }
    }

    pub fn request() -> Request {
        Request
    }

    /// Records a new sample; the differences from the previous one, if
    /// there was one.
    pub fn observe(&mut self, times: CpuTimes) -> (delta: Option<CpuDelta>)
        ensures
            final(self).previous == Some(times),
            final(self).mode == old(self).mode,
            match old(self).previous {
                None => delta is None,
                Some(p) => delta == Some(
                    CpuDelta {
                        elapsed: times.total.saturating_sub(p.total),
                        busy: times.busy.saturating_sub(p.busy),
                        user: times.user.saturating_sub(p.user),
                        kernel: times.kernel.saturating_sub(p.kernel),
                    },
                ),
            },
    {
        let previous = self.previous;
        self.previous = Some(times);
        match previous {
            None => None,
            Some(p) => Some(
                CpuDelta {
                    elapsed: times.total.saturating_sub(p.total),
                    busy: times.busy.saturating_sub(p.busy),
                    user: times.user.saturating_sub(p.user),
                    kernel: times.kernel.saturating_sub(p.kernel),
                },
            ),
        }
    }

    /// Renders a sample against the previous one; the first sample only
    /// loads, and a failed probe keeps the previous counters.
    pub fn apply(&mut self, reply: Result<Sample, ProbeError>) -> (v: View)
        ensures
            final(self).mode == old(self).mode,
            match reply {
                Err(e) => final(self).previous == old(self).previous && v.body@ == error_runs(
                    "cpu"@,
                    probe_error_text(e),
                ) && v.health == Health::Error,
                Ok(s) => final(self).previous == Some(s.times) && match old(self).previous {
                    None => v.body@ == loading_runs("cpu"@) && v.health == Health::Degraded,
                    Some(p) => v.body@ == cpu_runs(old(self).mode, delta_of(p, s.times), s.temperature)
                        && v.health == Health::Healthy,
                },
            },
    {
        let sample = match reply {
            Ok(sample) => sample,
            Err(error) => return error_view("cpu", error),
        };
        let delta = match self.observe(sample.times) {
            Some(d) => d,
            None => return View::loading("cpu"),
        };
        let load = match self.mode {
            Mode::Combined => Markup::text("load ").append(share_markup(delta.busy, delta.elapsed)),
            Mode::Breakdown => Markup::text("u ").append(share_markup(delta.user, delta.elapsed)).append(
                Markup::text(" k "),
            ).append(share_markup(delta.kernel, delta.elapsed)),
        };
        let temperature = match sample.temperature {
            None => Markup::text("unk").fg(violet()),
            Some(m) => m.append(Markup::text(" C")),
        };
        let body = Markup::text("cpu ").append(Markup::bracketed(load)).append(Markup::text(" ")).append(
            Markup::bracketed(Markup::text("temp ").append(temperature)),
        );
        proof {
            assert(load@ =~= load_runs(old(self).mode, delta));
        }
        assert(body@ =~= cpu_runs(old(self).mode, delta, sample.temperature));
        View::ok(body)
    }

    /// Any button switches between the combined and the split display.
    pub fn click(&mut self, _button: Button) -> (r: Reaction)
        ensures
            final(self).mode == old(self).mode.step(),
            final(self).previous == old(self).previous,
            r is Refresh,
    {
        self.mode.advance();
        Reaction::refresh()
    }

    pub fn posture(&self) -> (p: Posture)
        ensures
            p@ == seq![self.mode.point_name()],
    {
        Posture::from_cycle(&self.mode)
    }

    pub fn restore(&mut self, posture: &Posture) -> (applied: bool)
        ensures
            (applied, final(self).mode) == crate::units::restored_cycle(posture@, old(self).mode),
            final(self).previous == old(self).previous,
    {
        posture.restore_cycle(&mut self.mode)
    }
}

/// Between two samples, the breakdown view shows after `u ` the user time
/// and after ` k ` the kernel time, each as the whole percentage of the
/// elapsed time nearest to the counters' differences (off by at most half a
/// point), colored by that exact share; the combined view shows the busy
/// time in the same way after `load `.
pub proof fn lemma_cpu_view_reads_the_counters(p: CpuTimes, t: CpuTimes, temperature: Option<Markup>)
    ensures
        ({
            let elapsed = if t.total >= p.total { t.total - p.total } else { 0 };
            let user = if t.user >= p.user { t.user - p.user } else { 0 };
            let kernel = if t.kernel >= p.kernel { t.kernel - p.kernel } else { 0 };
            let busy = if t.busy >= p.busy { t.busy - p.busy } else { 0 };
            &&& cpu_runs(Mode::Breakdown, delta_of(p, t), temperature).take(7) == seq![
                ("cpu "@, None::<Rgb8>),
                ("["@, None::<Rgb8>),
                ("u "@, None::<Rgb8>),
                (dec_width(percent_of(user as nat, elapsed as nat), 3) + "%"@, Some(share_color(user as nat, elapsed as nat))),
                (" k "@, None::<Rgb8>),
                (dec_width(percent_of(kernel as nat, elapsed as nat), 3) + "%"@, Some(share_color(kernel as nat, elapsed as nat))),
                ("]"@, None::<Rgb8>),
            ]
            &&& cpu_runs(Mode::Combined, delta_of(p, t), temperature).take(5) == seq![
                ("cpu "@, None::<Rgb8>),
                ("["@, None::<Rgb8>),
                ("load "@, None::<Rgb8>),
                (dec_width(percent_of(busy as nat, elapsed as nat), 3) + "%"@, Some(share_color(busy as nat, elapsed as nat))),
                ("]"@, None::<Rgb8>),
            ]
            &&& elapsed > 0 ==> {
                &&& 2 * percent_of(user as nat, elapsed as nat) * elapsed <= 200 * user + elapsed
                &&& 200 * user <= 2 * percent_of(user as nat, elapsed as nat) * elapsed + elapsed
                &&& 2 * percent_of(kernel as nat, elapsed as nat) * elapsed <= 200 * kernel + elapsed
                &&& 200 * kernel <= 2 * percent_of(kernel as nat, elapsed as nat) * elapsed + elapsed
            }
        }),
{
    let d = delta_of(p, t);
    assert(cpu_runs(Mode::Breakdown, d, temperature).take(7) =~= seq![
        ("cpu "@, None::<Rgb8>),
        ("["@, None::<Rgb8>),
        ("u "@, None::<Rgb8>),
        (dec_width(percent_of(d.user as nat, d.elapsed as nat), 3) + "%"@, Some(share_color(d.user as nat, d.elapsed as nat))),
        (" k "@, None::<Rgb8>),
        (dec_width(percent_of(d.kernel as nat, d.elapsed as nat), 3) + "%"@, Some(share_color(d.kernel as nat, d.elapsed as nat))),
        ("]"@, None::<Rgb8>),
    ]);
    assert(cpu_runs(Mode::Combined, d, temperature).take(5) =~= seq![
        ("cpu "@, None::<Rgb8>),
        ("["@, None::<Rgb8>),
        ("load "@, None::<Rgb8>),
        (dec_width(percent_of(d.busy as nat, d.elapsed as nat), 3) + "%"@, Some(share_color(d.busy as nat, d.elapsed as nat))),
        ("]"@, None::<Rgb8>),
    ]);
    if d.elapsed > 0 {
        crate::display::lemma_percent_is_nearest(d.user as nat, d.elapsed as nat);
        crate::display::lemma_percent_is_nearest(d.kernel as nat, d.elapsed as nat);
    }
}

} // verus!
