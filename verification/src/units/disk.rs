//! Block-device throughput.

use vstd::prelude::*;
use vstd::view::View as _;
use vstd::utf8::{decode_utf8, valid_utf8};

use crate::bar::{error_runs, loading_runs, Button, Health, View};
use crate::color::{blue, orange, Rgb8};
use crate::markup::{bracket_runs, plain, Markup, RunView};
use crate::parse::{
    counter_value, decode_text, int_error_message, int_error_text, parse_u64, parse_u64_spec,
    read_counter, split_whitespace, split_ws, utf8_error_text,
};
use crate::text::{contains_char, push_str};
use crate::units::{duration_fault, error_view, positive_duration, probe_error_text, ProbeError, Reaction, Setting};

verus! {

broadcast use vstd::string::group_string_axioms;

/// How the device is named: by kernel name, partition label or partition
/// UUID.
#[derive(Debug)]
pub enum Selector {
    Name(String),
    PartLabel(String),
    PartUuid(String),
}

/// The text of a selector.
pub open spec fn selector_text(s: Selector) -> Seq<char> {
    match s {
        Selector::Name(v) => v@,
        Selector::PartLabel(v) => v@,
        Selector::PartUuid(v) => v@,
    }
}

impl Selector {
    /// The selector of the one key that is set; none set and more than one
    /// set are refused.
    pub fn from_keys(disk: Option<String>, partlabel: Option<String>, partuuid: Option<String>) -> (r: Result<Selector, String>)
        ensures
            match (disk, partlabel, partuuid) {
                (Some(v), None, None) => r matches Ok(Selector::Name(s)) && s@ == v@,
                (None, Some(v), None) => r matches Ok(Selector::PartLabel(s)) && s@ == v@,
                (None, None, Some(v)) => r matches Ok(Selector::PartUuid(s)) && s@ == v@,
                (None, None, None) => r matches Err(e) && e@ == "set exactly one of disk, partlabel, or partuuid"@,
                _ => r matches Err(e) && e@ == "disk selectors are mutually exclusive"@,
            },
    {
        match (disk, partlabel, partuuid) {
            (Some(v), None, None) => Ok(Selector::Name(v)),
            (None, Some(v), None) => Ok(Selector::PartLabel(v)),
            (None, None, Some(v)) => Ok(Selector::PartUuid(v)),
            (None, None, None) => Err("set exactly one of disk, partlabel, or partuuid".to_owned()),
            _ => Err("disk selectors are mutually exclusive".to_owned()),
        }
    }

    /// The text of the selector.
    pub fn value(&self) -> (s: String)
        ensures
            s@ == selector_text(*self),
    {
        match self {
            Selector::Name(v) => v.clone(),
            Selector::PartLabel(v) => v.clone(),
            Selector::PartUuid(v) => v.clone(),
        }
    }

    /// A copy of the selector.
    pub fn duplicate(&self) -> (s: Selector)
        ensures
            selector_text(s) == selector_text(*self),
            (s is Name) == (*self is Name),
            (s is PartLabel) == (*self is PartLabel),
            (s is PartUuid) == (*self is PartUuid),
    {
        match self {
            Selector::Name(v) => Selector::Name(v.clone()),
            Selector::PartLabel(v) => Selector::PartLabel(v.clone()),
            Selector::PartUuid(v) => Selector::PartUuid(v.clone()),
        }
    }
}

/// The unit's settings. Whether each reference peak is a finite number
/// above one is decided where the numbers are read.
#[derive(Debug)]
pub struct Config {
    pub selector: Selector,
    pub smoothing: Setting,
    pub write_peak_valid: bool,
    pub read_peak_valid: bool,
}

/// Why a configuration is refused, in the order the checks are made.
pub open spec fn config_fault(c: Config) -> Option<Seq<char>> {
    let label = selector_text(c.selector);
    if label.len() == 0 || label.contains('/') {
        Some("disk selector must be one nonempty path component"@)
    } else if duration_fault("smoothing_sec"@, c.smoothing) is Some {
        duration_fault("smoothing_sec"@, c.smoothing)
    } else if !c.write_peak_valid {
        Some("write_peak_ref must be finite and greater than one"@)
    } else if !c.read_peak_valid {
        Some("read_peak_ref must be finite and greater than one"@)
    } else {
        None
    }
}

/// The disk unit: its selector, the label it shows, and the smoothing of
/// its rates.
#[derive(Debug)]
pub struct Model {
    pub selector: Selector,
    pub label: String,
    pub smoothing: u128,
}

/// The selector that a probe resolves.
#[derive(Debug)]
pub struct Request {
    pub selector: Selector,
}

/// The eight-level bar of a rate, and a space for none.
pub open spec fn bar_glyph(level: u8) -> Seq<char> {
    if level == 0 {
        " "@
    } else if level == 1 {
        "\u{2581}"@
    } else if level == 2 {
        "\u{2582}"@
    } else if level == 3 {
        "\u{2583}"@
    } else if level == 4 {
        "\u{2584}"@
    } else if level == 5 {
        "\u{2585}"@
    } else if level == 6 {
        "\u{2586}"@
    } else if level == 7 {
        "\u{2587}"@
    } else {
        "\u{2588}"@
    }
}

fn glyph(level: u8) -> (s: &'static str)
    ensures
        s@ == bar_glyph(level),
{
    if level == 0 {
        " "
    } else if level == 1 {
        "\u{2581}"
    } else if level == 2 {
        "\u{2582}"
    } else if level == 3 {
        "\u{2583}"
    } else if level == 4 {
        "\u{2584}"
    } else if level == 5 {
        "\u{2585}"
    } else if level == 6 {
        "\u{2586}"
    } else if level == 7 {
        "\u{2587}"
    } else {
        "\u{2588}"
    }
}

/// The view of two bar levels: read in blue, then write in orange.
pub open spec fn bars_runs(label: Seq<char>, read: u8, write: u8) -> Seq<RunView> {
    plain("disk "@ + label + " "@) + bracket_runs(seq![(bar_glyph(read), Some(blue())), (bar_glyph(write), Some(orange()))])
}

impl Model {
    /// A unit for a valid configuration; the first fault is the error.
    pub fn new(config: Config) -> (r: Result<Model, String>)
        ensures
            match r {
                Ok(m) => config_fault(config) is None && m.label@ == selector_text(config.selector)
                    && selector_text(m.selector) == selector_text(config.selector) && config.smoothing
                    == Setting::Nanos(m.smoothing),
                Err(e) => config_fault(config) == Some(e@),
            },
    {
        let label = config.selector.value();
        if label.as_str().unicode_len() == 0 || contains_char(label.as_str(), '/') {
            return Err("disk selector must be one nonempty path component".to_owned());
        }
        let smoothing = positive_duration("smoothing_sec", config.smoothing)?;
        if !config.write_peak_valid {
            return Err("write_peak_ref must be finite and greater than one".to_owned());
        }
        if !config.read_peak_valid {
            return Err("read_peak_ref must be finite and greater than one".to_owned());
        }
        Ok(Model { selector: config.selector, label, smoothing })
    }

    pub fn request(&self) -> (r: Request)
        ensures
            selector_text(r.selector) == selector_text(self.selector),
    {
        Request { selector: self.selector.duplicate() }
    }

    fn label_text(&self) -> (s: String)
        ensures
            s@ == "disk "@ + self.label@,
    {
        let mut s = String::new();
        push_str(&mut s, "disk ");
        push_str(&mut s, self.label.as_str());
        s
    }

    /// Shows the bar levels of the smoothed read and write rates (none for
    /// the first counters), or the probe's error.
    pub fn apply(&self, reply: Result<Option<(u8, u8)>, ProbeError>) -> (v: View)
        ensures
            match reply {
                Ok(None) => v.body@ == loading_runs("disk "@ + self.label@) && v.health == Health::Degraded,
                Ok(Some((read, write))) => v.body@ == bars_runs(self.label@, read, write) && v.health
                    == Health::Healthy,
                Err(e) => v.body@ == error_runs("disk "@ + self.label@, probe_error_text(e)) && v.health
                    == Health::Error,
            },
    {
        match reply {
            Ok(None) => View::loading(self.label_text().as_str()),
            Ok(Some((read, write))) => {
                let mut head = self.label_text();
                push_str(&mut head, " ");
                let body = Markup::owned(head).append(
                    Markup::bracketed(Markup::text(glyph(read)).fg(blue()).append(Markup::text(glyph(write)).fg(orange()))),
                );
                assert(body@ =~= bars_runs(self.label@, read, write));
                View::ok(body)
            },
            Err(error) => error_view(self.label_text().as_str(), error),
        }
    }

    /// Clicks do nothing.
    pub fn click(_button: Button) -> (r: Reaction)
        ensures
            r is Inert,
    {
        Reaction::inert()
    }
}

/// The read and written sector counts of a `/sys/block/*/stat` row: its
/// third and seventh fields.
pub open spec fn stat_fields(bytes: Seq<u8>) -> Result<(u64, u64), Seq<char>> {
    if !valid_utf8(bytes) {
        Err("invalid disk stat encoding: "@ + utf8_error_text(bytes))
    } else {
        let f = split_ws(decode_utf8(bytes));
        if f.len() < 3 {
            Err("short disk stat row"@)
        } else {
            match parse_u64_spec(f[2]) {
                Err(e) => Err("invalid disk read counter: "@ + int_error_text(e)),
                Ok(read) => if f.len() < 7 {
                    Err("short disk stat row"@)
                } else {
                    match parse_u64_spec(f[6]) {
                        Err(e) => Err("invalid disk write counter: "@ + int_error_text(e)),
                        Ok(written) => Ok((read, written)),
                    }
                },
            }
        }
    }
}

fn unit_error(prefix: &str, detail: &str) -> (e: ProbeError)
    ensures
        e matches ProbeError::Unit(m) && m@ == prefix@ + detail@,
{
    let mut m = String::new();
    push_str(&mut m, prefix);
    push_str(&mut m, detail);
    ProbeError::Unit(m)
}

/// Reads the sector counts of a stat row.
pub fn parse_stat(bytes: &[u8]) -> (r: Result<(u64, u64), ProbeError>)
    ensures
        match stat_fields(bytes@) {
            Ok(v) => r == Ok::<(u64, u64), ProbeError>(v),
            Err(m) => r matches Err(ProbeError::Unit(t)) && t@ == m,
        },
{
    let chars = match decode_text(bytes) {
        Ok(c) => c,
        Err(message) => return Err(unit_error("invalid disk stat encoding: ", message.as_str())),
    };
    let fields = split_whitespace(chars.as_slice());
    proof {
        assert(fields@.map_values(|f: Vec<char>| f@) == split_ws(decode_utf8(bytes@)));
    }
    if fields.len() < 3 {
        return Err(ProbeError::Unit("short disk stat row".to_owned()));
    }
    assert(fields@[2]@ == split_ws(decode_utf8(bytes@))[2]);
    let read = match parse_u64(fields[2].as_slice()) {
        Ok(v) => v,
        Err(e) => return Err(unit_error("invalid disk read counter: ", int_error_message(e).as_str())),
    };
    if fields.len() < 7 {
        return Err(ProbeError::Unit("short disk stat row".to_owned()));
    }
    assert(fields@[6]@ == split_ws(decode_utf8(bytes@))[6]);
    let written = match parse_u64(fields[6].as_slice()) {
        Ok(v) => v,
        Err(e) => return Err(unit_error("invalid disk write counter: ", int_error_message(e).as_str())),
    };
    Ok((read, written))
}

/// The byte counters of a device from its stat row and its logical block
/// size: the size is read first, then the row, and a product that does not
/// fit in 64 bits is an error.
pub open spec fn disk_counters(stat: Seq<u8>, sector_size: Seq<u8>) -> Result<(u64, u64), Seq<char>> {
    match counter_value(sector_size) {
        None => Err("invalid disk sector size"@),
        Some(size) => match stat_fields(stat) {
            Err(m) => Err(m),
            Ok((read, written)) => if read * size > u64::MAX {
                Err("disk read counter overflow"@)
            } else if written * size > u64::MAX {
                Err("disk write counter overflow"@)
            } else {
                Ok(((read * size) as u64, (written * size) as u64))
            },
        },
    }
}

/// Reads the byte counters of a device.
pub fn read_counters(stat: &[u8], sector_size: &[u8]) -> (r: Result<(u64, u64), ProbeError>)
    ensures
        match disk_counters(stat@, sector_size@) {
            Ok(v) => r == Ok::<(u64, u64), ProbeError>(v),
            Err(m) => r matches Err(ProbeError::Unit(t)) && t@ == m,
        },
{
    let size = match read_counter(sector_size) {
        Some(s) => s,
        None => return Err(ProbeError::Unit("invalid disk sector size".to_owned())),
    };
    let (read, written) = parse_stat(stat)?;
    let read_bytes = match read.checked_mul(size) {
        Some(v) => v,
        None => return Err(ProbeError::Unit("disk read counter overflow".to_owned())),
    };
    let written_bytes = match written.checked_mul(size) {
        Some(v) => v,
        None => return Err(ProbeError::Unit("disk write counter overflow".to_owned())),
    };
    Ok((read_bytes, written_bytes))
}

} // verus!
