//! Interface throughput and ping latency.

use std::collections::VecDeque;

use vstd::prelude::*;
use vstd::view::View as _;

use crate::bar::{error_runs, loading_runs, Button, Health, View};
use crate::color::{green, orange, violet};
use crate::markup::{bracket_runs, plain, Markup, RunView};
use crate::parse::{split_whitespace, split_ws};
use crate::text::{contains_char, push_char, push_str, str_eq};
use crate::parse::read_counter;
use crate::units::{
    error_view, positive_duration, probe_error_text, duration_fault, Cycle, Posture, ProbeError, Reaction, RestorableCycle,
    Setting,
};

verus! {

broadcast use vstd::string::group_string_axioms;

/// Whether throughput or latency is shown.
#[derive(Debug, Clone, Copy, PartialEq, Eq, Structural)]
pub enum Mode {
    Bandwidth,
    Ping,
}

impl Cycle for Mode {
    open spec fn inv(&self) -> bool {
        true
    }

    open spec fn period(&self) -> nat {
        2
    }

    open spec fn position(&self) -> nat {
        match self {
            Mode::Bandwidth => 0,
            Mode::Ping => 1,
        }
    }

    open spec fn same_frame(&self, other: &Self) -> bool {
        true
    }

    open spec fn step(self) -> Self {
        match self {
            Mode::Bandwidth => Mode::Ping,
            Mode::Ping => Mode::Bandwidth,
        }
    }

    proof fn lemma_step(s: Self) {
    }

    proof fn lemma_frame(a: Self, b: Self, c: Self) {
    }

    proof fn lemma_position_determines(a: Self, b: Self) {
    }

    fn advance(&mut self) {
        *self = match *self {
            Mode::Bandwidth => Mode::Ping,
            Mode::Ping => Mode::Bandwidth,
        };
    }
}

impl RestorableCycle for Mode {
    open spec fn point_name(&self) -> Seq<char> {
        match self {
            Mode::Bandwidth => "Bandwidth"@,
            Mode::Ping => "Ping"@,
        }
    }

    proof fn lemma_name_determines(a: Self, b: Self) {
        reveal_strlit("Bandwidth");
        reveal_strlit("Ping");
        match (a, b) {
            (Mode::Bandwidth, Mode::Bandwidth) => {},
            (Mode::Bandwidth, Mode::Ping) => { assert("Bandwidth"@.len() != "Ping"@.len()); },
            (Mode::Ping, Mode::Bandwidth) => { assert("Ping"@.len() != "Bandwidth"@.len()); },
            (Mode::Ping, Mode::Ping) => {},
        }
    }

    fn point(&self) -> (p: &'static str) {
        match self {
            Mode::Bandwidth => "Bandwidth",
            Mode::Ping => "Ping",
        }
    }

    fn has_point(&self, point: &str) -> (found: bool) {
        let found = str_eq(point, "Bandwidth") || str_eq(point, "Ping");
        proof {
            if point@ == "Bandwidth"@ {
                assert(Mode::Bandwidth.point_name() == point@);
            }
            if point@ == "Ping"@ {
                assert(Mode::Ping.point_name() == point@);
            }
            assert forall|s: Self| #[trigger] s.point_name() != point@ || found by {
                match s {
                    Mode::Bandwidth => {},
                    Mode::Ping => {},
                }
            }
        }
        found
    }

    fn seek(&mut self, point: &str) -> (found: bool) {
        if str_eq(point, "Bandwidth") {
            *self = Mode::Bandwidth;
            assert(self.point_name() == point@);
            return true;
        }
        if str_eq(point, "Ping") {
            *self = Mode::Ping;
            assert(self.point_name() == point@);
            return true;
        }
        proof {
            assert forall|s: Self| #[trigger] s.point_name() != point@ by {
                match s {
                    Mode::Bandwidth => {},
                    Mode::Ping => {},
                }
            }
        }
        false
    }
}

/// Whether `time=` starts at index `i` of a line.
pub open spec fn time_at(line: Seq<char>, i: int) -> bool {
    0 <= i && i + 5 <= line.len() && line.subrange(i, i + 5) == seq!['t', 'i', 'm', 'e', '=']
}

/// The first index from `i` on where `time=` starts.
pub open spec fn time_from(line: Seq<char>, i: int) -> Option<int>
    decreases line.len() - i,
{
    if i < 0 || i + 5 > line.len() {
        None
    } else if time_at(line, i) {
        Some(i)
    } else {
        time_from(line, i + 1)
    }
}

/// The reading on one line of ping's output: the first word after the
/// first `time=`.
pub open spec fn line_time(line: Seq<char>) -> Option<Seq<char>> {
    match time_from(line, 0) {
        Some(i) => {
            let fields = split_ws(line.skip(i + 5));
            if fields.len() == 0 {
                None
            } else {
                Some(fields[0])
            }
        },
        None => None,
    }
}

fn line_time_of(line: &Vec<char>) -> (r: Option<Vec<char>>)
    ensures
        match r {
            Some(t) => line_time(line@) == Some(t@),
            None => line_time(line@) is None,
        },
{
    let n = line.len();
    let mut i: usize = 0;
    let mut found = false;
    while n >= 5 && i <= n - 5
        invariant
            n == line@.len(),
            time_from(line@, 0) == time_from(line@, i as int),
            found ==> time_at(line@, i as int),
        ensures
            found || !(n >= 5 && i <= n - 5),
            time_from(line@, 0) == time_from(line@, i as int),
            found ==> time_at(line@, i as int),
        decreases n - i,
    {
        if line[i] == 't' && line[i + 1] == 'i' && line[i + 2] == 'm' && line[i + 3] == 'e' && line[i + 4]
            == '=' {
            assert(line@.subrange(i as int, i + 5) =~= seq!['t', 'i', 'm', 'e', '=']);
            found = true;
            break;
        }
        assert(!time_at(line@, i as int));
        i = i + 1;
    }
    if !found {
        assert(time_from(line@, i as int) is None);
        return None;
    }
    let mut rest: Vec<char> = Vec::new();
    let mut k = i + 5;
    while k < n
        invariant
            i + 5 <= k <= n == line@.len(),
            rest@ == line@.subrange(i + 5, k as int),
        decreases n - k,
    {
        rest.push(line[k]);
        k = k + 1;
        assert(rest@ =~= line@.subrange(i + 5, k as int));
    }
    assert(rest@ =~= line@.skip(i + 5));
    let fields = split_whitespace(rest.as_slice());
    if fields.len() == 0 {
        assert(split_ws(line@.skip(i + 5)).len() == 0);
        return None;
    }
    assert(fields@[0]@ == split_ws(line@.skip(i + 5))[0]);
    Some(fields[0].clone())
}

/// The state of reading ping's output line by line: the line read so far
/// and the readings of the lines before it.
pub open spec fn ping_scan(t: Seq<char>) -> (Seq<char>, Seq<Seq<char>>)
    decreases t.len(),
{
    if t.len() == 0 {
        (Seq::empty(), Seq::empty())
    } else {
        let (line, found) = ping_scan(t.drop_last());
        let c = t.last();
        if c == '\n' {
            let body = if line.len() > 0 && line.last() == '\r' {
                line.drop_last()
            } else {
                line
            };
            (Seq::empty(), match line_time(body) {
                Some(w) => found.push(w),
                None => found,
            })
        } else {
            (line.push(c), found)
        }
    }
}

/// The readings that `ping -n -c 1` reports, in the order of the lines
/// (as `str::lines` splits them) that carry one: the first word after each
/// line's first `time=`.
pub open spec fn ping_readings(t: Seq<char>) -> Seq<Seq<char>> {
    let (line, found) = ping_scan(t);
    match line_time(line) {
        Some(w) => found.push(w),
        None => found,
    }
}

/// Picks the round-trip time readings out of ping's output; the first that
/// is a number is the latency.
pub fn ping_times(output: &str) -> (r: Vec<String>)
    ensures
        r@.len() == ping_readings(output@).len(),
        forall|k: int| 0 <= k < r@.len() ==> #[trigger] r@[k]@ == ping_readings(output@)[k],
{
    let n = output.unicode_len();
    let mut line: Vec<char> = Vec::new();
    let mut found: Vec<Vec<char>> = Vec::new();
    let mut i: usize = 0;
    while i < n
        invariant
            n == output@.len(),
            i <= n,
            line@ == ping_scan(output@.take(i as int)).0,
            found@.len() == ping_scan(output@.take(i as int)).1.len(),
            forall|k: int| 0 <= k < found@.len() ==> #[trigger] found@[k]@ == ping_scan(output@.take(i as int)).1[k],
        decreases n - i,
    {
        proof {
            assert(output@.take((i + 1) as int).drop_last() =~= output@.take(i as int));
        }
        let c = output.get_char(i);
        if c == '\n' {
            let k = line.len();
            if k > 0 && line[k - 1] == '\r' {
                line.pop();
            }
            match line_time_of(&line) {
                Some(w) => found.push(w),
                None => {},
            }
            line = Vec::new();
            proof {
                assert(line@ =~= Seq::<char>::empty());
            }
        } else {
            line.push(c);
        }
        i = i + 1;
    }
    proof {
        assert(output@.take(n as int) =~= output@);
    }
    match line_time_of(&line) {
        Some(w) => found.push(w),
        None => {},
    }
    let mut r: Vec<String> = Vec::new();
    for k in 0..found.len()
        invariant
            r@.len() == k,
            forall|j: int| 0 <= j < k ==> #[trigger] r@[j]@ == found@[j]@,
    {
        r.push(string_of(found[k].as_slice()));
    }
    r
}

fn string_of(cs: &[char]) -> (s: String)
    ensures
        s@ == cs@,
{
    let mut s = String::new();
    for i in 0..cs.len()
        invariant
            s@ == cs@.take(i as int),
    {
        push_char(&mut s, cs[i]);
        assert(s@ =~= cs@.take((i + 1) as int));
    }
    assert(cs@.take(cs@.len() as int) =~= cs@);
    s
}

/// The number of lost pings in a window.
pub open spec fn losses(w: Seq<Option<u64>>) -> nat
    decreases w.len(),
{
    if w.len() == 0 {
        0
    } else {
        losses(w.drop_last()) + if w.last() is None {
            1nat
        } else {
            0nat
        }
    }
}

/// The median and the median absolute deviation of the replies' latencies,
/// each rendered in milliseconds with its color.
#[derive(Debug)]
pub struct Spread {
    pub median: Markup,
    pub deviation: Markup,
}

/// The latency part of a ping view: `no replies` when every ping of the
/// window was lost.
pub open spec fn latency_runs(w: Seq<Option<u64>>, spread: Option<Spread>) -> Seq<RunView> {
    match spread {
        Some(sp) => if losses(w) < w.len() {
            bracket_runs(plain("med "@) + sp.median@ + plain(" mad "@) + sp.deviation@ + plain(" ms"@))
        } else {
            seq![("no replies"@, Some(orange()))]
        },
        None => seq![("no replies"@, Some(orange()))],
    }
}

/// The loss part of a ping view: the share of lost pings, already rendered
/// in percent, when some were lost.
pub open spec fn loss_runs(w: Seq<Option<u64>>, loss: Seq<char>) -> Seq<RunView> {
    if losses(w) == 0 {
        seq![("no loss"@, Some(green()))]
    } else {
        seq![(loss + "% loss"@, Some(orange()))]
    }
}

/// The ping view of a window of readings (`None` for a lost ping).
pub open spec fn ping_view(prefix: Seq<char>, w: Seq<Option<u64>>, spread: Option<Spread>, loss: Seq<char>) -> (Seq<RunView>, Health) {
    if w.len() < 2 {
        (plain(prefix) + seq![("loading"@, Some(violet()))], Health::Degraded)
    } else {
        (
            plain(prefix) + latency_runs(w, spread) + plain(" "@) + bracket_runs(loss_runs(w, loss)),
            if losses(w) == 0 {
                Health::Healthy
            } else {
                Health::Degraded
            },
        )
    }
}

/// The window after a new ping: the oldest one leaves a full window.
pub open spec fn slide(w: Seq<Option<u64>>, window: nat, latency: Option<u64>) -> Seq<Option<u64>> {
    (if w.len() >= window {
        w.drop_first()
    } else {
        w
    }).push(latency)
}

fn count_losses(w: &VecDeque<Option<u64>>) -> (lost: u64)
    requires
        w@.len() <= 1024,
    ensures
        lost == losses(w@),
        lost <= w@.len(),
{
    let mut lost: u64 = 0;
    for i in 0..w.len()
        invariant
            lost == losses(w@.take(i as int)),
            lost <= i,
            w@.len() <= 1024,
    {
        proof {
            assert(w@.take((i + 1) as int).drop_last() =~= w@.take(i as int));
        }
        if w[i].is_none() {
            lost = lost + 1;
        }
    }
    proof {
        assert(w@.take(w@.len() as int) =~= w@);
    }
    lost
}


/// The unit's settings.
#[derive(Debug)]
pub struct Config {
    pub interface: String,
    pub ping_server: String,
    pub ping_window: usize,
    pub smoothing: Setting,
}

/// Why a configuration is refused, in the order the checks are made.
pub open spec fn config_fault(c: Config) -> Option<Seq<char>> {
    if c.interface@.len() == 0 || c.interface@.contains('/') {
        Some("interface must be one nonempty path component"@)
    } else if c.ping_server@.len() == 0 {
        Some("ping_server must not be empty"@)
    } else if c.ping_window < 2 {
        Some("ping_window must be at least 2"@)
    } else if c.ping_window > 1024 {
        Some("ping_window cannot exceed 1024"@)
    } else {
        duration_fault("smoothing_window_sec"@, c.smoothing)
    }
}

/// The network unit: the interface, the ping target and window, the
/// smoothing of rates, the mode, the window of recent pings (each the bits
/// of its latency as a binary float, none for a lost ping), and the epoch
/// of the bandwidth baseline (a new epoch discards the previous counters
/// and smoothed rates).
#[derive(Debug)]
pub struct Model {
    pub interface: String,
    pub ping_server: String,
    pub ping_window: usize,
    pub smoothing: u128,
    pub mode: Mode,
    pub pings: VecDeque<Option<u64>>,
    pub epoch: u64,
}

/// What a probe reads: interface counters under a baseline epoch, or one
/// ping, with the window of earlier readings that its statistics are taken
/// over and the window's size.
#[derive(Debug)]
pub enum Request {
    Bandwidth { interface: String, epoch: u64 },
    Ping { server: String, window: Vec<Option<u64>>, size: usize },
}

/// Smoothed transfer rates, already rendered with their units and colors.
#[derive(Debug)]
pub struct Rates {
    pub up: Markup,
    pub down: Markup,
}

/// One ping: its latency in milliseconds as the bits of a binary float
/// (none when it was lost), and, over the window that it joins, the spread
/// of the replies and the share of lost pings in percent, rendered as text.
#[derive(Debug)]
pub struct Ping {
    pub latency: Option<u64>,
    pub spread: Option<Spread>,
    pub loss: String,
}

/// A probe result: rates (none for the first counters of an epoch), a
/// link without carrier, or one ping.
#[derive(Debug)]
pub enum Sample {
    Bandwidth(Option<Rates>),
    Down,
    Ping(Ping),
}

/// The label of the unit.
pub open spec fn label(interface: Seq<char>) -> Seq<char> {
    "net "@ + interface
}

/// The prefix of the ping view.
pub open spec fn ping_prefix(interface: Seq<char>, server: Seq<char>) -> Seq<char> {
    "net "@ + interface + " [ping "@ + server + "] "@
}

/// The bandwidth view.
pub open spec fn rates_runs(interface: Seq<char>, r: Rates) -> Seq<RunView> {
    plain(label(interface) + " "@) + bracket_runs(plain("u "@) + r.up@) + plain(" "@) + bracket_runs(
        plain("d "@) + r.down@,
    )
}

/// Reads the carrier flag and the two byte counters of an interface: no
/// carrier is a down link.
pub fn bandwidth_sample(carrier: &[u8], received: &[u8], transmitted: &[u8]) -> (r: Result<Option<(u64, u64)>, ProbeError>)
    ensures
        match (counter_value_of(carrier@), counter_value_of(received@), counter_value_of(transmitted@)) {
            (None, _, _) => r matches Err(ProbeError::Unit(m)) && m@ == "invalid network counter"@,
            (Some(0), _, _) => r == Ok::<Option<(u64, u64)>, ProbeError>(None),
            (Some(_), Some(rx), Some(tx)) => r == Ok::<Option<(u64, u64)>, ProbeError>(Some((rx, tx))),
            _ => r matches Err(ProbeError::Unit(m)) && m@ == "invalid network counter"@,
        },
{
    let flag = read_counter(carrier);
    match flag {
        None => return Err(ProbeError::Unit("invalid network counter".to_owned())),
        Some(f) => {
            if f == 0 {
                return Ok(None);
            }
        },
    }
    match (read_counter(received), read_counter(transmitted)) {
        (Some(rx), Some(tx)) => Ok(Some((rx, tx))),
        _ => Err(ProbeError::Unit("invalid network counter".to_owned())),
    }
}

/// The value of a counter file.
pub open spec fn counter_value_of(bytes: Seq<u8>) -> Option<u64> {
    crate::parse::counter_value(bytes)
}

impl Model {
    pub open spec fn wf(&self) -> bool {
        &&& 2 <= self.ping_window <= 1024
        &&& self.pings@.len() <= self.ping_window
    }

    /// A unit for a valid configuration; the first fault is the error.
    pub fn new(config: Config) -> (r: Result<Model, String>)
        ensures
            match r {
                Ok(m) => config_fault(config) is None && m.wf() && m.interface@ == config.interface@
                    && m.ping_server@ == config.ping_server@ && m.ping_window == config.ping_window
                    && config.smoothing == Setting::Nanos(m.smoothing) && m.mode == Mode::Bandwidth
                    && m.pings@.len() == 0,
                Err(e) => config_fault(config) == Some(e@),
            },
    {
        if config.interface.as_str().unicode_len() == 0 || contains_char(config.interface.as_str(), '/') {
            return Err("interface must be one nonempty path component".to_owned());
        }
        if config.ping_server.as_str().unicode_len() == 0 {
            return Err("ping_server must not be empty".to_owned());
        }
        if config.ping_window < 2 {
            return Err("ping_window must be at least 2".to_owned());
        }
        if config.ping_window > 1024 {
            return Err("ping_window cannot exceed 1024".to_owned());
        }
        let smoothing = positive_duration("smoothing_window_sec", config.smoothing)?;
        Ok(Model {
            interface: config.interface,
            ping_server: config.ping_server,
            ping_window: config.ping_window,
            smoothing,
            mode: Mode::Bandwidth,
            pings: VecDeque::new(),
            epoch: 0,
        })
    }

    /// Counters in bandwidth mode, a ping in ping mode.
    pub fn request(&self) -> (r: Request)
        ensures
            match self.mode {
                Mode::Bandwidth => r matches Request::Bandwidth { interface, epoch } && interface@
                    == self.interface@ && epoch == self.epoch,
                Mode::Ping => r matches Request::Ping { server, window, size } && server@ == self.ping_server@
                    && window@ == self.pings@ && size == self.ping_window,
            },
    {
        match self.mode {
            Mode::Bandwidth => Request::Bandwidth { interface: self.interface.clone(), epoch: self.epoch },
            Mode::Ping => {
                let mut window: Vec<Option<u64>> = Vec::new();
                for i in 0..self.pings.len()
                    invariant
                        window@ == self.pings@.take(i as int),
                {
                    window.push(self.pings[i]);
                    assert(window@ =~= self.pings@.take((i + 1) as int));
                }
                assert(self.pings@.take(self.pings@.len() as int) =~= self.pings@);
                Request::Ping { server: self.ping_server.clone(), window, size: self.ping_window }
            },
        }
    }

    fn label_text(&self) -> (s: String)
        ensures
            s@ == label(self.interface@),
    {
        let mut s = String::new();
        push_str(&mut s, "net ");
        push_str(&mut s, self.interface.as_str());
        s
    }

    fn render_ping(&mut self, ping: Ping) -> (v: View)
        requires
            old(self).wf(),
        ensures
            final(self).wf(),
            final(self).pings@ == slide(old(self).pings@, old(self).ping_window as nat, ping.latency),
            final(self).interface == old(self).interface,
            final(self).ping_server == old(self).ping_server,
            final(self).ping_window == old(self).ping_window,
            final(self).smoothing == old(self).smoothing,
            final(self).mode == old(self).mode,
            final(self).epoch == old(self).epoch,
            (v.body@, v.health) == ping_view(
                ping_prefix(old(self).interface@, old(self).ping_server@),
                final(self).pings@,
                ping.spread,
                ping.loss@,
            ),
    {
        let Ping { latency, spread, loss } = ping;
        if self.pings.len() >= self.ping_window {
            let _ = self.pings.pop_front();
        }
        self.pings.push_back(latency);
        assert(self.pings@ =~= slide(old(self).pings@, old(self).ping_window as nat, latency));
        let mut head = String::new();
        push_str(&mut head, "net ");
        push_str(&mut head, self.interface.as_str());
        push_str(&mut head, " [ping ");
        push_str(&mut head, self.ping_server.as_str());
        push_str(&mut head, "] ");
        let prefix = Markup::owned(head);
        if self.pings.len() < 2 {
            return View::new(prefix.append(Markup::text("loading").fg(violet())), Health::Degraded);
        }
        let lost = count_losses(&self.pings);
        let replies = (lost as usize) < self.pings.len();
        let ghost sp = spread;
        let latency_part = if replies {
            match spread {
                Some(Spread { median, deviation }) => Markup::bracketed(
                    Markup::text("med ").append(median).append(Markup::text(" mad ")).append(deviation).append(
                        Markup::text(" ms"),
                    ),
                ),
                None => Markup::text("no replies").fg(orange()),
            }
        } else {
            Markup::text("no replies").fg(orange())
        };
        assert(latency_part@ =~= latency_runs(self.pings@, sp));
        let loss_part = if lost == 0 {
            Markup::text("no loss").fg(green())
        } else {
            let mut text = loss;
            push_str(&mut text, "% loss");
            Markup::owned(text).fg(orange())
        };
        let health = if lost == 0 {
            Health::Healthy
        } else {
            Health::Degraded
        };
        View::new(
            prefix.append(latency_part).append(Markup::text(" ")).append(Markup::bracketed(loss_part)),
            health,
        )
    }

    /// Shows a probe result. A link without carrier and a failed probe show
    /// their error and start a new bandwidth baseline.
    pub fn apply(&mut self, reply: Result<Sample, ProbeError>) -> (v: View)
        requires
            old(self).wf(),
        ensures
            final(self).wf(),
            final(self).interface == old(self).interface,
            final(self).ping_server == old(self).ping_server,
            final(self).ping_window == old(self).ping_window,
            final(self).smoothing == old(self).smoothing,
            final(self).mode == old(self).mode,
            match reply {
                Ok(Sample::Bandwidth(None)) => final(self).pings == old(self).pings && final(self).epoch
                    == old(self).epoch && v.body@ == loading_runs(label(old(self).interface@))
                    && v.health == Health::Degraded,
                Ok(Sample::Bandwidth(Some(r))) => final(self).pings == old(self).pings && final(self).epoch
                    == old(self).epoch && v.body@ == rates_runs(old(self).interface@, r) && v.health
                    == Health::Healthy,
                Ok(Sample::Down) => final(self).pings == old(self).pings && final(self).epoch
                    == old(self).epoch.wrapping_add(1) && v.body@ == error_runs(
                    label(old(self).interface@),
                    "down"@,
                ) && v.health == Health::Error,
                Ok(Sample::Ping(p)) => final(self).epoch == old(self).epoch && final(self).pings@
                    == slide(old(self).pings@, old(self).ping_window as nat, p.latency) && (v.body@, v.health)
                    == ping_view(
                    ping_prefix(old(self).interface@, old(self).ping_server@),
                    final(self).pings@,
                    p.spread,
                    p.loss@,
                ),
                Err(e) => final(self).pings == old(self).pings && final(self).epoch
                    == old(self).epoch.wrapping_add(1) && v.body@ == error_runs(
                    label(old(self).interface@),
                    probe_error_text(e),
                ) && v.health == Health::Error,
            },
    {
        match reply {
            Ok(Sample::Bandwidth(None)) => View::loading(self.label_text().as_str()),
            Ok(Sample::Bandwidth(Some(rates))) => {
                let ghost r = rates;
                let mut head = self.label_text();
                push_str(&mut head, " ");
                let body = Markup::owned(head).append(
                    Markup::bracketed(Markup::text("u ").append(rates.up)),
                ).append(Markup::text(" ")).append(
                    Markup::bracketed(Markup::text("d ").append(rates.down)),
                );
                assert(body@ =~= rates_runs(old(self).interface@, r));
                View::ok(body)
            },
            Ok(Sample::Down) => {
                self.epoch = self.epoch.wrapping_add(1);
                View::error(self.label_text().as_str(), "down")
            },
            Ok(Sample::Ping(ping)) => self.render_ping(ping),
            Err(error) => {
                self.epoch = self.epoch.wrapping_add(1);
                error_view(self.label_text().as_str(), error)
            },
        }
    }

    /// Any button switches between bandwidth and ping; back on bandwidth,
    /// the ping window is emptied and a new baseline begins.
    pub fn click(&mut self, _button: Button) -> (r: Reaction)
        requires
            old(self).wf(),
        ensures
            final(self).wf(),
            final(self).mode == old(self).mode.step(),
            final(self).interface == old(self).interface,
            final(self).ping_server == old(self).ping_server,
            final(self).ping_window == old(self).ping_window,
            final(self).smoothing == old(self).smoothing,
            final(self).mode == Mode::Bandwidth ==> final(self).pings@.len() == 0 && final(self).epoch
                == old(self).epoch.wrapping_add(1),
            final(self).mode == Mode::Ping ==> final(self).pings == old(self).pings && final(self).epoch
                == old(self).epoch,
            r is Refresh,
    {
        self.mode.advance();
        if self.mode == Mode::Bandwidth {
            self.pings = VecDeque::new();
            self.epoch = self.epoch.wrapping_add(1);
        }
        Reaction::refresh()
    }

    pub fn posture(&self) -> (p: Posture)
        ensures
            p@ == seq![self.mode.point_name()],
    {
        Posture::from_cycle(&self.mode)
    }

    pub fn restore(&mut self, posture: &Posture) -> (applied: bool)
        requires
            old(self).wf(),
        ensures
            final(self).wf(),
            (applied, final(self).mode) == crate::units::restored_cycle(posture@, old(self).mode),
            final(self).pings == old(self).pings,
            final(self).epoch == old(self).epoch,
            final(self).interface == old(self).interface,
            final(self).ping_server == old(self).ping_server,
            final(self).ping_window == old(self).ping_window,
            final(self).smoothing == old(self).smoothing,
    {
        posture.restore_cycle(&mut self.mode)
    }
}

} // verus!
