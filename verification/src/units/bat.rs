//! Battery: charge, power and time remaining.

use vstd::prelude::*;
use vstd::view::View as _;
use vstd::utf8::{decode_utf8, valid_utf8};

use crate::bar::{error_runs, Button, Health, View};
use crate::color::{blue, cyan, green, orange, violet, Rgb8};
use crate::markup::{bracket_runs, plain, Markup, RunView};
use crate::parse::{decode_text, lines, lines_of, trim, trim_spec, utf8_error_text};
use crate::text::{dec, dec_zeros, push_aligned, push_decimal, push_str, str_eq};
use crate::units::{
    duration_fault, error_view, positive_duration, probe_error_text, Cycle, Posture, ProbeError,
    Reaction, RestorableCycle, Setting,
};

verus! {

broadcast use vstd::string::group_string_axioms;

/// Which capacity the charge is a fraction of.
#[derive(Debug, Clone, Copy, PartialEq, Eq, Structural)]
pub enum Mode {
    CurrentCapacity,
    DesignCapacity,
}

impl Cycle for Mode {
    open spec fn inv(&self) -> bool {
        true
    }

    open spec fn period(&self) -> nat {
        2
    }

    open spec fn position(&self) -> nat {
        match self {
            Mode::CurrentCapacity => 0,
            Mode::DesignCapacity => 1,
        }
    }

    open spec fn same_frame(&self, other: &Self) -> bool {
        true
    }

    open spec fn step(self) -> Self {
        match self {
            Mode::CurrentCapacity => Mode::DesignCapacity,
            Mode::DesignCapacity => Mode::CurrentCapacity,
        }
    }

    proof fn lemma_step(s: Self) {
    }

    proof fn lemma_frame(a: Self, b: Self, c: Self) {
    }

    proof fn lemma_position_determines(a: Self, b: Self) {
    }

    fn advance(&mut self) {
        *self = match *self {
            Mode::CurrentCapacity => Mode::DesignCapacity,
            Mode::DesignCapacity => Mode::CurrentCapacity,
        };
    }
}

impl RestorableCycle for Mode {
    open spec fn point_name(&self) -> Seq<char> {
        match self {
            Mode::CurrentCapacity => "CurrentCapacity"@,
            Mode::DesignCapacity => "DesignCapacity"@,
        }
    }

    proof fn lemma_name_determines(a: Self, b: Self) {
        reveal_strlit("CurrentCapacity");
        reveal_strlit("DesignCapacity");
        match (a, b) {
            (Mode::CurrentCapacity, Mode::CurrentCapacity) => {},
            (Mode::CurrentCapacity, Mode::DesignCapacity) => { assert("CurrentCapacity"@.len() != "DesignCapacity"@.len()); },
            (Mode::DesignCapacity, Mode::CurrentCapacity) => { assert("DesignCapacity"@.len() != "CurrentCapacity"@.len()); },
            (Mode::DesignCapacity, Mode::DesignCapacity) => {},
        }
    }

    fn point(&self) -> (p: &'static str) {
        match self {
            Mode::CurrentCapacity => "CurrentCapacity",
            Mode::DesignCapacity => "DesignCapacity",
        }
    }

    fn has_point(&self, point: &str) -> (found: bool) {
        let found = str_eq(point, "CurrentCapacity") || str_eq(point, "DesignCapacity");
        proof {
            if point@ == "CurrentCapacity"@ {
                assert(Mode::CurrentCapacity.point_name() == point@);
            }
            if point@ == "DesignCapacity"@ {
                assert(Mode::DesignCapacity.point_name() == point@);
            }
            assert forall|s: Self| #[trigger] s.point_name() != point@ || found by {
                match s {
                    Mode::CurrentCapacity => {},
                    Mode::DesignCapacity => {},
                }
            }
        }
        found
    }

    fn seek(&mut self, point: &str) -> (found: bool) {
        if str_eq(point, "CurrentCapacity") {
            *self = Mode::CurrentCapacity;
            assert(self.point_name() == point@);
            return true;
        }
        if str_eq(point, "DesignCapacity") {
            *self = Mode::DesignCapacity;
            assert(self.point_name() == point@);
            return true;
        }
        proof {
            assert forall|s: Self| #[trigger] s.point_name() != point@ by {
                match s {
                    Mode::CurrentCapacity => {},
                    Mode::DesignCapacity => {},
                }
            }
        }
        false
    }
}

/// The unit's settings.
#[derive(Debug)]
pub struct Config {
    pub bat_id: u64,
    pub power_smoothing: Setting,
}

/// The battery unit: which battery, where its uevent file is, which
/// capacity the charge is shown against, and the smoothing of its power.
#[derive(Debug)]
pub struct Model {
    pub id: u64,
    pub path: String,
    pub mode: Mode,
    pub smoothing: u128,
}

/// The uevent file that a probe reads, and the capacity to show against.
#[derive(Debug)]
pub struct Request {
    pub path: String,
    pub mode: Mode,
}

/// The charging state of a battery.
#[derive(Debug, Clone, Copy, PartialEq, Eq, Structural)]
pub enum Status {
    Charging,
    Discharging,
    Full,
    Balanced,
    Unknown,
}

/// The uevent file of battery `id`.
pub open spec fn uevent_path(id: u64) -> Seq<char> {
    "/sys/class/power_supply/BAT"@ + dec(id as nat) + "/uevent"@
}

/// ASCII letters in lower case, other characters unchanged.
pub open spec fn ascii_lower(s: Seq<char>) -> Seq<char> {
    s.map_values(|c: char| if 'A' <= c && c <= 'Z' { ((c as u32) + 32) as char } else { c })
}

/// The status that a uevent `STATUS` value names, in any ASCII case.
pub open spec fn status_of(raw: Option<Seq<char>>) -> Status {
    match raw {
        Some(r) => if ascii_lower(r) == "charging"@ {
            Status::Charging
        } else if ascii_lower(r) == "discharging"@ {
            Status::Discharging
        } else if ascii_lower(r) == "full"@ {
            Status::Full
        } else {
            Status::Unknown
        },
        None => Status::Unknown,
    }
}

/// The runs of a status: three letters in its color.
pub open spec fn status_runs(s: Status) -> Seq<RunView> {
    match s {
        Status::Discharging => seq![("DIS"@, Some(orange()))],
        Status::Charging => seq![("CHR"@, Some(green()))],
        Status::Full => seq![("FUL"@, Some(cyan()))],
        Status::Balanced => seq![("BAL"@, Some(blue()))],
        Status::Unknown => seq![("UNK"@, Some(violet()))],
    }
}

impl Status {
    /// The status that a uevent `STATUS` value names.
    pub fn parse(raw: Option<&str>) -> (s: Status)
        ensures
            s == status_of(match raw {
                Some(r) => Some(r@),
                None => None,
            }),
    {
        match raw {
            None => Status::Unknown,
            Some(r) => {
                let mut lower = String::new();
                let n = r.unicode_len();
                for i in 0..n
                    invariant
                        n == r@.len(),
                        lower@ == ascii_lower(r@).take(i as int),
                {
                    let c = r.get_char(i);
                    let l = if 'A' <= c && c <= 'Z' {
                        ((c as u32) + 32) as u8 as char
                    } else {
                        c
                    };
                    crate::text::push_char(&mut lower, l);
                    assert(lower@ =~= ascii_lower(r@).take((i + 1) as int));
                }
                assert(lower@ =~= ascii_lower(r@));
                if str_eq(lower.as_str(), "charging") {
                    Status::Charging
                } else if str_eq(lower.as_str(), "discharging") {
                    Status::Discharging
                } else if str_eq(lower.as_str(), "full") {
                    Status::Full
                } else {
                    Status::Unknown
                }
            },
        }
    }

    /// An unknown status at negligible power is a balanced battery.
    pub fn settle(self, negligible_power: bool) -> (s: Status)
        ensures
            s == (if self == Status::Unknown && negligible_power {
                Status::Balanced
            } else {
                self
            }),
    {
        if self == Status::Unknown && negligible_power {
            Status::Balanced
        } else {
            self
        }
    }

    pub fn markup(self) -> (m: Markup)
        ensures
            m@ == status_runs(self),
    {
        match self {
            Status::Discharging => Markup::text("DIS").fg(orange()),
            Status::Charging => Markup::text("CHR").fg(green()),
            Status::Full => Markup::text("FUL").fg(cyan()),
            Status::Balanced => Markup::text("BAL").fg(blue()),
            Status::Unknown => Markup::text("UNK").fg(violet()),
        }
    }
}

/// One battery reading: the charge percentage already rendered with its
/// color, the settled status, the smoothed power already rendered, and the
/// minutes until full or empty when they are known.
#[derive(Debug)]
pub struct Reading {
    pub percent: Markup,
    pub status: Status,
    pub power: String,
    pub remaining_minutes: Option<u64>,
}

/// Minutes as hours and minutes, each in two digits.
pub open spec fn clock_text(minutes: nat) -> Seq<char> {
    dec_zeros(minutes / 60, 2) + ":"@ + dec_zeros(minutes % 60, 2)
}

/// What the unit shows for a reading.
pub open spec fn reading_runs(mode: Mode, r: Reading) -> Seq<RunView> {
    let capacity = r.percent@ + plain("%"@);
    plain("bat "@) + match mode {
        Mode::CurrentCapacity => bracket_runs(capacity),
        Mode::DesignCapacity => plain("<"@) + capacity + plain(">"@),
    } + plain(" "@) + status_runs(r.status) + plain(" "@ + r.power@ + " W "@) + bracket_runs(
        plain(
            match r.remaining_minutes {
                Some(m) => clock_text(m as nat),
                None => "--:--"@,
            } + " rem"@,
        ),
    )
}

impl Model {
    /// A unit for battery `bat_id`, if its smoothing is a valid duration.
    pub fn new(config: Config) -> (r: Result<Model, String>)
        ensures
            match r {
                Ok(m) => duration_fault("power_smoothing_sec"@, config.power_smoothing) is None && m.id
                    == config.bat_id && m.path@ == uevent_path(config.bat_id) && m.mode
                    == Mode::CurrentCapacity && config.power_smoothing == Setting::Nanos(m.smoothing),
                Err(e) => duration_fault("power_smoothing_sec"@, config.power_smoothing) == Some(e@),
            },
    {
        let smoothing = positive_duration("power_smoothing_sec", config.power_smoothing)?;
        let mut path = String::new();
        push_str(&mut path, "/sys/class/power_supply/BAT");
        push_decimal(&mut path, config.bat_id);
        push_str(&mut path, "/uevent");
        assert(path@ =~= uevent_path(config.bat_id));
        Ok(Model { id: config.bat_id, path, mode: Mode::CurrentCapacity, smoothing })
    }

    pub fn request(&self) -> (r: Request)
        ensures
            r.path@ == self.path@,
            r.mode == self.mode,
    {
        Request { path: self.path.clone(), mode: self.mode }
    }

    /// Shows a reading against the capacity of the current mode, or the
    /// probe's error.
    pub fn apply(&self, reply: Result<Reading, ProbeError>) -> (v: View)
        ensures
            match reply {
                Ok(r) => v.body@ == reading_runs(self.mode, r) && v.health == Health::Healthy,
                Err(e) => v.body@ == error_runs("bat"@ + dec(self.id as nat), probe_error_text(e))
                    && v.health == Health::Error,
            },
    {
        match reply {
            Ok(r) => {
                let ghost rv = r;
                let capacity = r.percent.append(Markup::text("%"));
                let mode = self.mode;
                let framed = match mode {
                    Mode::CurrentCapacity => Markup::bracketed(capacity),
                    Mode::DesignCapacity => Markup::delimited("<", capacity, ">"),
                };
                let mut power = String::new();
                push_str(&mut power, " ");
                push_str(&mut power, r.power.as_str());
                push_str(&mut power, " W ");
                let mut rem = String::new();
                match r.remaining_minutes {
                    Some(m) => {
                        push_aligned(&mut rem, m / 60, 2, '0');
                        push_str(&mut rem, ":");
                        push_aligned(&mut rem, m % 60, 2, '0');
                    },
                    None => push_str(&mut rem, "--:--"),
                }
                push_str(&mut rem, " rem");
                let body = Markup::text("bat ").append(framed).append(Markup::text(" ")).append(
                    r.status.markup(),
                ).append(Markup::owned(power)).append(Markup::bracketed(Markup::owned(rem)));
                assert(body@ =~= reading_runs(mode, rv));
                View::ok(body)
            },
            Err(error) => {
                let mut label = String::new();
                push_str(&mut label, "bat");
                push_decimal(&mut label, self.id);
                error_view(label.as_str(), error)
            },
        }
    }

    /// Any button switches the capacity and asks for a probe.
    pub fn click(&mut self, _button: Button) -> (r: Reaction)
        ensures
            final(self).mode == old(self).mode.step(),
            final(self).id == old(self).id,
            final(self).path == old(self).path,
            final(self).smoothing == old(self).smoothing,
            r is Refresh,
    {
        self.mode.advance();
        Reaction::refresh()
    }

    pub fn posture(&self) -> (p: Posture)
        ensures
            p@ == seq![self.mode.point_name()],
    {
        Posture::from_cycle(&self.mode)
    }

    pub fn restore(&mut self, posture: &Posture) -> (applied: bool)
        ensures
            (applied, final(self).mode) == crate::units::restored_cycle(posture@, old(self).mode),
            final(self).id == old(self).id,
            final(self).path == old(self).path,
            final(self).smoothing == old(self).smoothing,
    {
        posture.restore_cycle(&mut self.mode)
    }
}

/// The first `=` of a line, if it has one.
pub open spec fn eq_index(line: Seq<char>) -> Option<int> {
    if exists|i: int| 0 <= i < line.len() && line[i] == '=' {
        Some(choose|i: int| 0 <= i < line.len() && line[i] == '=' && forall|j: int| 0 <= j < i ==> line[j] != '=')
    } else {
        None
    }
}

/// A uevent key without its `POWER_SUPPLY_` prefix.
pub open spec fn bare_key(key: Seq<char>) -> Seq<char> {
    if key.len() >= 13 && key.take(13) == "POWER_SUPPLY_"@ {
        key.skip(13)
    } else {
        key
    }
}

/// The `KEY=value` entries of uevent lines, keys without their prefix, in
/// order; lines without `=` are skipped.
pub open spec fn entries_of(ls: Seq<Seq<char>>) -> Seq<(Seq<char>, Seq<char>)>
    decreases ls.len(),
{
    if ls.len() == 0 {
        Seq::empty()
    } else {
        let prev = entries_of(ls.drop_last());
        let line = ls.last();
        match eq_index(line) {
            Some(i) => prev.push((bare_key(line.take(i)), line.skip(i + 1))),
            None => prev,
        }
    }
}

/// The value of the last entry with a key.
pub open spec fn last_value(es: Seq<(Seq<char>, Seq<char>)>, key: Seq<char>) -> Option<Seq<char>>
    decreases es.len(),
{
    if es.len() == 0 {
        None
    } else if es.last().0 == key {
        Some(es.last().1)
    } else {
        last_value(es.drop_last(), key)
    }
}

/// The entries of a uevent file, or why it is not text.
pub open spec fn uevent_entries(bytes: Seq<u8>) -> Result<Seq<(Seq<char>, Seq<char>)>, Seq<char>> {
    if valid_utf8(bytes) {
        Ok(entries_of(lines_of(decode_utf8(bytes))))
    } else {
        Err("invalid uevent encoding: "@ + utf8_error_text(bytes))
    }
}

/// The parsed entries of a uevent file.
#[derive(Debug)]
pub struct Uevent {
    pub entries: Vec<(String, String)>,
}

/// The view of parsed entries.
pub open spec fn entry_views(es: Seq<(String, String)>) -> Seq<(Seq<char>, Seq<char>)> {
    es.map_values(|e: (String, String)| (e.0@, e.1@))
}

fn chars_to_string(cs: &[char]) -> (s: String)
    ensures
        s@ == cs@,
{
    let mut s = String::new();
    for i in 0..cs.len()
        invariant
            s@ == cs@.take(i as int),
    {
        crate::text::push_char(&mut s, cs[i]);
        assert(s@ =~= cs@.take((i + 1) as int));
    }
    assert(cs@.take(cs@.len() as int) =~= cs@);
    s
}

fn entry_of(line: &Vec<char>) -> (e: Option<(String, String)>)
    ensures
        match eq_index(line@) {
            Some(i) => e matches Some(p) && p.0@ == bare_key(line@.take(i)) && p.1@ == line@.skip(i + 1),
            None => e is None,
        },
{
    let n = line.len();
    let mut i: usize = 0;
    while i < n && line[i] != '='
        invariant
            n == line@.len(),
            i <= n,
            forall|j: int| 0 <= j < i ==> line@[j] != '=',
        decreases n - i,
    {
        i = i + 1;
    }
    if i == n {
        return None;
    }
    proof {
        let k = choose|k: int| 0 <= k < line@.len() && line@[k] == '=' && forall|j: int| 0 <= j < k ==> line@[j] != '=';
        assert(line@[i as int] == '=');
        if k < i {
        } else if k > i {
        }
        assert(k == i);
    }
    let mut key: Vec<char> = Vec::new();
    for j in 0..i
        invariant
            i < n == line@.len(),
            key@ == line@.take(j as int),
    {
        key.push(line[j]);
        assert(key@ =~= line@.take((j + 1) as int));
    }
    let mut value: Vec<char> = Vec::new();
    let mut j = i + 1;
    while j < n
        invariant
            i < j <= n == line@.len(),
            value@ == line@.subrange(i + 1, j as int),
        decreases n - j,
    {
        value.push(line[j]);
        j = j + 1;
        assert(value@ =~= line@.subrange(i + 1, j as int));
    }
    assert(value@ =~= line@.skip(i + 1));
    let prefixed = key.len() >= 13 && key[0] == 'P' && key[1] == 'O' && key[2] == 'W' && key[3] == 'E'
        && key[4] == 'R' && key[5] == '_' && key[6] == 'S' && key[7] == 'U' && key[8] == 'P' && key[9]
        == 'P' && key[10] == 'L' && key[11] == 'Y' && key[12] == '_';
    proof {
        reveal_strlit("POWER_SUPPLY_");
        if key@.len() >= 13 {
            let p = key@.take(13);
            let w = "POWER_SUPPLY_"@;
            if prefixed {
                assert(p =~= w);
            } else if p == w {
                assert(p[0] == w[0] && p[1] == w[1] && p[2] == w[2] && p[3] == w[3] && p[4] == w[4]);
                assert(p[5] == w[5] && p[6] == w[6] && p[7] == w[7] && p[8] == w[8] && p[9] == w[9]);
                assert(p[10] == w[10] && p[11] == w[11] && p[12] == w[12]);
            }
        }
    }
    let bare = if prefixed {
        let mut b: Vec<char> = Vec::new();
        let mut k: usize = 13;
        while k < key.len()
            invariant
                13 <= k <= key@.len(),
                b@ == key@.subrange(13, k as int),
            decreases key@.len() - k,
        {
            b.push(key[k]);
            k = k + 1;
            assert(b@ =~= key@.subrange(13, k as int));
        }
        assert(b@ =~= key@.skip(13));
        b
    } else {
        key
    };
    Some((chars_to_string(bare.as_slice()), chars_to_string(value.as_slice())))
}

impl Uevent {
    /// Parses a uevent file into its entries.
    pub fn parse(bytes: &[u8]) -> (r: Result<Uevent, ProbeError>)
        ensures
            match uevent_entries(bytes@) {
                Ok(es) => r matches Ok(u) && entry_views(u.entries@) == es,
                Err(m) => r matches Err(ProbeError::Unit(t)) && t@ == m,
            },
    {
        let chars = match decode_text(bytes) {
            Ok(c) => c,
            Err(message) => {
                let mut m = String::new();
                push_str(&mut m, "invalid uevent encoding: ");
                push_str(&mut m, message.as_str());
                return Err(ProbeError::Unit(m));
            },
        };
        let ls = lines(chars.as_slice());
        let ghost all = ls@.map_values(|l: Vec<char>| l@);
        let mut entries: Vec<(String, String)> = Vec::new();
        for i in 0..ls.len()
            invariant
                all == ls@.map_values(|l: Vec<char>| l@),
                entry_views(entries@) == entries_of(all.take(i as int)),
        {
            proof {
                assert(all.take((i + 1) as int).drop_last() =~= all.take(i as int));
                assert(all.take((i + 1) as int).last() == ls@[i as int]@);
            }
            let ghost before = entries@;
            match entry_of(&ls[i]) {
                Some(e) => {
                    entries.push(e);
                    assert(entry_views(entries@) =~= entry_views(before).push((e.0@, e.1@)));
                },
                None => {},
            }
        }
        assert(all.take(all.len() as int) =~= all);
        Ok(Uevent { entries })
    }

    /// The value of the last entry with a key.
    pub fn get(&self, key: &str) -> (v: Option<String>)
        ensures
            match last_value(entry_views(self.entries@), key@) {
                Some(t) => v matches Some(s) && s@ == t,
                None => v is None,
            },
    {
        let mut k = self.entries.len();
        assert(self.entries@.take(k as int) =~= self.entries@);
        while k > 0
            invariant
                k <= self.entries@.len(),
                last_value(entry_views(self.entries@), key@) == last_value(entry_views(self.entries@.take(k as int)), key@),
            decreases k,
        {
            proof {
                assert(entry_views(self.entries@.take(k as int)).drop_last() =~= entry_views(self.entries@.take(k - 1)));
            }
            if str_eq(self.entries[k - 1].0.as_str(), key) {
                return Some(self.entries[k - 1].1.clone());
            }
            k = k - 1;
        }
        None
    }

    /// The trimmed value of the last entry with a key.
    pub fn value(&self, key: &str) -> (v: Option<String>)
        ensures
            match last_value(entry_views(self.entries@), key@) {
                Some(t) => v matches Some(s) && s@ == trim_spec(t),
                None => v is None,
            },
    {
        match self.get(key) {
            Some(raw) => {
                let chars = crate::units::bat::chars_of(raw.as_str());
                let t = trim(chars.as_slice());
                Some(chars_to_string(t.as_slice()))
            },
            None => None,
        }
    }

    /// Whether the battery is present: the `PRESENT` value is not `0`;
    /// none when it is not reported.
    pub fn present(&self) -> (p: Option<bool>)
        ensures
            match last_value(entry_views(self.entries@), "PRESENT"@) {
                Some(t) => p == Some(trim_spec(t) != "0"@),
                None => p is None,
            },
    {
        match self.value("PRESENT") {
            Some(v) => Some(!str_eq(v.as_str(), "0")),
            None => None,
        }
    }
}

/// The characters of a string.
pub fn chars_of(s: &str) -> (cs: Vec<char>)
    ensures
        cs@ == s@,
{
    let n = s.unicode_len();
    let mut cs: Vec<char> = Vec::new();
    for i in 0..n
        invariant
            n == s@.len(),
            cs@ == s@.take(i as int),
    {
        cs.push(s.get_char(i));
        assert(cs@ =~= s@.take((i + 1) as int));
    }
    assert(cs@ =~= s@);
    cs
}

} // verus!
