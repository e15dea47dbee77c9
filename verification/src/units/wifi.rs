//! Wireless signal and network name.

use vstd::prelude::*;
use vstd::view::View as _;
use vstd::utf8::{decode_utf8, valid_utf8};

use crate::bar::{error_runs, Button, Health, View};
use crate::color::{brown, green, red, violet, Rgb8};
use crate::display::{color_by_percent_remaining, remaining_color};
use crate::markup::{bracket_runs, plain, Markup, RunView};
use crate::parse::decode_text;
use crate::text::{dec_width, push_aligned, push_str, str_eq};
use crate::units::{
    error_view, probe_error_text, Cycle, Posture, ProbeError, Reaction, RestorableCycle,
};

verus! {

broadcast use vstd::string::group_string_axioms;

/// Whether the network name is shown.
#[derive(Debug, Clone, Copy, PartialEq, Eq, Structural)]
pub enum Mode {
    ShowSsid,
    HideSsid,
}

impl Cycle for Mode {
    open spec fn inv(&self) -> bool {
        true
    }

    open spec fn period(&self) -> nat {
        2
    }

    open spec fn position(&self) -> nat {
        match self {
            Mode::ShowSsid => 0,
            Mode::HideSsid => 1,
        }
    }

    open spec fn same_frame(&self, other: &Self) -> bool {
        true
    }

    open spec fn step(self) -> Self {
        match self {
            Mode::ShowSsid => Mode::HideSsid,
            Mode::HideSsid => Mode::ShowSsid,
        }
    }

    proof fn lemma_step(s: Self) {
    }

    proof fn lemma_frame(a: Self, b: Self, c: Self) {
    }

    proof fn lemma_position_determines(a: Self, b: Self) {
    }

    fn advance(&mut self) {
        *self = match *self {
            Mode::ShowSsid => Mode::HideSsid,
            Mode::HideSsid => Mode::ShowSsid,
        };
    }
}

impl RestorableCycle for Mode {
    open spec fn point_name(&self) -> Seq<char> {
        match self {
            Mode::ShowSsid => "ShowSsid"@,
            Mode::HideSsid => "HideSsid"@,
        }
    }

    proof fn lemma_name_determines(a: Self, b: Self) {
        reveal_strlit("ShowSsid");
        reveal_strlit("HideSsid");
        match (a, b) {
            (Mode::ShowSsid, Mode::ShowSsid) => {},
            (Mode::ShowSsid, Mode::HideSsid) => { assert("ShowSsid"@[0] != "HideSsid"@[0]); },
            (Mode::HideSsid, Mode::ShowSsid) => { assert("HideSsid"@[0] != "ShowSsid"@[0]); },
            (Mode::HideSsid, Mode::HideSsid) => {},
        }
    }

    fn point(&self) -> (p: &'static str) {
        match self {
            Mode::ShowSsid => "ShowSsid",
            Mode::HideSsid => "HideSsid",
        }
    }

    fn has_point(&self, point: &str) -> (found: bool) {
        let found = str_eq(point, "ShowSsid") || str_eq(point, "HideSsid");
        proof {
            if point@ == "ShowSsid"@ {
                assert(Mode::ShowSsid.point_name() == point@);
            }
            if point@ == "HideSsid"@ {
                assert(Mode::HideSsid.point_name() == point@);
            }
            assert forall|s: Self| #[trigger] s.point_name() != point@ || found by {
                match s {
                    Mode::ShowSsid => {},
                    Mode::HideSsid => {},
                }
            }
        }
        found
    }

    fn seek(&mut self, point: &str) -> (found: bool) {
        if str_eq(point, "ShowSsid") {
            *self = Mode::ShowSsid;
            assert(self.point_name() == point@);
            return true;
        }
        if str_eq(point, "HideSsid") {
            *self = Mode::HideSsid;
            assert(self.point_name() == point@);
            return true;
        }
        proof {
            assert forall|s: Self| #[trigger] s.point_name() != point@ by {
                match s {
                    Mode::ShowSsid => {},
                    Mode::HideSsid => {},
                }
            }
        }
        false
    }
}

/// The wireless unit: its interface and whether the SSID is shown.
#[derive(Debug)]
pub struct Model {
    pub interface: String,
    pub mode: Mode,
}

/// The interface that a probe reads.
#[derive(Debug)]
pub struct Request {
    pub interface: String,
}

/// What netlink reports of the interface.
#[derive(Debug)]
pub enum Sample {
    NoNetlink,
    Gone,
    Down,
    Connected { ssid: String, signal: u8 },
}

/// What the unit shows for a probe result.
pub open spec fn sample_view(s: Sample, interface: Seq<char>, mode: Mode) -> (Seq<RunView>, Health) {
    match s {
        Sample::NoNetlink => (plain("wifi "@) + seq![("no netlink"@, Some(violet()))], Health::Degraded),
        Sample::Gone => (plain("wifi "@ + interface + " "@) + seq![("gone"@, Some(brown()))], Health::Error),
        Sample::Down => (plain("wifi "@) + seq![("down"@, Some(red()))], Health::Error),
        Sample::Connected { ssid, signal } => (
            plain("wifi"@) + match mode {
                Mode::ShowSsid => plain(" "@) + bracket_runs(seq![(ssid@, Some(green()))]) + plain(" "@),
                Mode::HideSsid => plain(" "@),
            } + seq![(dec_width(signal as nat, 2) + "%"@, Some(remaining_color(signal as int)))],
            Health::Healthy,
        ),
    }
}

impl Model {
    /// A unit for a named interface; an empty name is refused.
    pub fn new(interface: String) -> (r: Result<Model, String>)
        ensures
            match r {
                Ok(m) => interface@.len() > 0 && m.interface@ == interface@ && m.mode == Mode::ShowSsid,
                Err(e) => interface@.len() == 0 && e@ == "interface must not be empty"@,
            },
    {
        if interface.as_str().unicode_len() == 0 {
            return Err("interface must not be empty".to_owned());
        }
        Ok(Model { interface, mode: Mode::ShowSsid })
    }

    pub fn request(&self) -> (r: Request)
        ensures
            r.interface@ == self.interface@,
    {
        Request { interface: self.interface.clone() }
    }

    /// Shows what netlink reported, or the probe's error.
    pub fn apply(&self, reply: Result<Sample, ProbeError>) -> (v: View)
        ensures
            match reply {
                Ok(s) => (v.body@, v.health) == sample_view(s, self.interface@, self.mode),
                Err(e) => v.body@ == error_runs("wifi"@, probe_error_text(e)) && v.health
                    == Health::Error,
            },
    {
        match reply {
            Ok(Sample::NoNetlink) => View::new(
                Markup::text("wifi ").append(Markup::text("no netlink").fg(violet())),
                Health::Degraded,
            ),
            Ok(Sample::Gone) => {
                let mut head = String::new();
                push_str(&mut head, "wifi ");
                push_str(&mut head, self.interface.as_str());
                push_str(&mut head, " ");
                View::new(Markup::owned(head).append(Markup::text("gone").fg(brown())), Health::Error)
            },
            Ok(Sample::Down) => View::new(
                Markup::text("wifi ").append(Markup::text("down").fg(red())),
                Health::Error,
            ),
            Ok(Sample::Connected { ssid, signal }) => {
                let ghost name = ssid@;
                let middle = match self.mode {
                    Mode::ShowSsid => Markup::text(" ").append(
                        Markup::bracketed(Markup::owned(ssid).fg(green())),
                    ).append(Markup::text(" ")),
                    Mode::HideSsid => Markup::text(" "),
                };
                let mut strength = String::new();
                push_aligned(&mut strength, signal as u64, 2, ' ');
                push_str(&mut strength, "%");
                let body = Markup::text("wifi").append(middle).append(
                    Markup::owned(strength).fg(color_by_percent_remaining(signal as u64)),
                );
                assert(body@ =~= plain("wifi"@) + match self.mode {
                    Mode::ShowSsid => plain(" "@) + bracket_runs(seq![(name, Some(green()))]) + plain(" "@),
                    Mode::HideSsid => plain(" "@),
                } + seq![(dec_width(signal as nat, 2) + "%"@, Some(remaining_color(signal as int)))]);
                View::ok(body)
            },
            Err(error) => error_view("wifi", error),
        }
    }

    /// Any button shows or hides the SSID and asks for a probe.
    pub fn click(&mut self, _button: Button) -> (r: Reaction)
        ensures
            final(self).mode == old(self).mode.step(),
            final(self).interface == old(self).interface,
            r is Refresh,
    {
        self.mode.advance();
        Reaction::refresh()
    }

    pub fn posture(&self) -> (p: Posture)
        ensures
            p@ == seq![self.mode.point_name()],
    {
        Posture::from_cycle(&self.mode)
    }

    pub fn restore(&mut self, posture: &Posture) -> (applied: bool)
        ensures
            (applied, final(self).mode) == crate::units::restored_cycle(posture@, old(self).mode),
            final(self).interface == old(self).interface,
    {
        posture.restore_cycle(&mut self.mode)
    }
}

/// The signal quality of a station: -80 dBm and below is none, -30 dBm
/// and above is full, linear in between.
pub open spec fn signal_quality(dbm: int) -> int {
    let q = 2 * (dbm + 80);
    if q < 0 {
        0
    } else if q > 100 {
        100
    } else {
        q
    }
}

/// The signal quality in percent of a station's signal in dBm.
pub fn signal_percent(dbm: i8) -> (p: u8)
    ensures
        p == signal_quality(dbm as int),
{
    let q: i16 = 2 * (dbm as i16 + 80);
    if q < 0 {
        0
    } else if q > 100 {
        100
    } else {
        q as u8
    }
}

/// The bytes of a netlink string without its terminating NUL.
pub open spec fn strip_nul(bytes: Seq<u8>) -> Seq<u8> {
    if bytes.len() > 0 && bytes.last() == 0 {
        bytes.drop_last()
    } else {
        bytes
    }
}

/// A netlink string as text: a trailing NUL dropped, and nothing unless
/// the rest is UTF-8.
pub fn decode_nul_string(bytes: &[u8]) -> (s: Option<String>)
    ensures
        match s {
            Some(t) => valid_utf8(strip_nul(bytes@)) && t@ == decode_utf8(strip_nul(bytes@)),
            None => !valid_utf8(strip_nul(bytes@)),
        },
{
    let n = bytes.len();
    let end = if n > 0 && bytes[n - 1] == 0 {
        n - 1
    } else {
        n
    };
    let mut body: Vec<u8> = Vec::new();
    for i in 0..end
        invariant
            end <= n == bytes@.len(),
            body@ == bytes@.take(i as int),
    {
        body.push(bytes[i]);
        assert(body@ =~= bytes@.take((i + 1) as int));
    }
    assert(body@ =~= strip_nul(bytes@));
    match decode_text(body.as_slice()) {
        Ok(chars) => {
            let mut t = String::new();
            for i in 0..chars.len()
                invariant
                    t@ == chars@.take(i as int),
            {
                crate::text::push_char(&mut t, chars[i]);
                assert(t@ =~= chars@.take((i + 1) as int));
            }
            assert(chars@.take(chars@.len() as int) =~= chars@);
            Some(t)
        },
        Err(_) => None,
    }
}

/// Whether an interface name, as text, is the wanted one.
pub open spec fn names(name: Option<Vec<u8>>, wanted: Seq<char>) -> bool {
    match name {
        Some(b) => valid_utf8(strip_nul(b@)) && decode_utf8(strip_nul(b@)) == wanted,
        None => false,
    }
}

/// The first interface whose name, as text, is the configured one.
pub fn select_interface(names_list: &Vec<Option<Vec<u8>>>, wanted: &str) -> (r: Option<usize>)
    ensures
        r matches Some(i) ==> i < names_list@.len() && names(names_list@[i as int], wanted@),
        r matches Some(i) ==> forall|j: int| 0 <= j < i ==> !names(#[trigger] names_list@[j], wanted@),
        (r is None) ==> forall|j: int| 0 <= j < names_list@.len() ==> !names(#[trigger] names_list@[j], wanted@),
{
    for i in 0..names_list.len()
        invariant
            forall|j: int| 0 <= j < i ==> !names(#[trigger] names_list@[j], wanted@),
    {
        match &names_list[i] {
            Some(bytes) => match decode_nul_string(bytes.as_slice()) {
                Some(name) => {
                    if str_eq(name.as_str(), wanted) {
                        return Some(i);
                    }
                },
                None => {},
            },
            None => {},
        }
    }
    None
}

/// The sample of a station: its SSID as text (`?` when absent or not
/// UTF-8) and its signal quality (none when the signal is unknown).
pub fn station_sample(ssid: Option<Vec<u8>>, signal_dbm: Option<i8>) -> (s: Sample)
    ensures
        s matches Sample::Connected { ssid: name, signal } && signal == signal_quality(
            match signal_dbm {
                Some(d) => d as int,
                None => -127,
            },
        ) && name@ == (match ssid {
            Some(b) => if valid_utf8(strip_nul(b@)) {
                decode_utf8(strip_nul(b@))
            } else {
                "?"@
            },
            None => "?"@,
        }),
{
    let dbm = match signal_dbm {
        Some(d) => d,
        None => -127,
    };
    let name = match ssid {
        Some(bytes) => match decode_nul_string(bytes.as_slice()) {
            Some(t) => t,
            None => "?".to_owned(),
        },
        None => "?".to_owned(),
    };
    Sample::Connected { ssid: name, signal: signal_percent(dbm) }
}

/// Signal quality is linear from -80 dBm to -30 dBm: two points per dBm,
/// none at or below -80 dBm and full only from -30 dBm on. It never falls
/// as the signal grows stronger.
pub proof fn lemma_signal_quality_is_linear(d: int, e: int)
    ensures
        -80 <= d <= -30 ==> signal_quality(d) == 2 * (d + 80),
        d <= -80 ==> signal_quality(d) == 0,
        d >= -30 ==> signal_quality(d) == 100,
        d < -30 ==> signal_quality(d) < 100,
        0 <= signal_quality(d) <= 100,
        d <= e ==> signal_quality(d) <= signal_quality(e),
        -80 <= d < e <= -30 ==> signal_quality(e) - signal_quality(d) == 2 * (e - d),
{
}

} // verus!
