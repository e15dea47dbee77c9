//! Views, health, mouse buttons and the i3bar block that carries a view.

use vstd::prelude::*;
use vstd::view::View as _;

use crate::color::{dark_grey, hex_text, red, violet, yellow, Rgb8};
use crate::markup::{render, Markup, RunView};
use crate::text::{push_repeat, push_str, repeat};

verus! {

/// How a unit is doing; it selects the border of its block.
#[derive(Debug, Clone, Copy, PartialEq, Eq, Structural)]
pub enum Health {
    Healthy,
    Degraded,
    Error,
}

/// The severity order of health: `Ok` < `Degraded` < `Error`.
pub open spec fn health_rank(h: Health) -> nat {
    match h {
        Health::Healthy => 0,
        Health::Degraded => 1,
        Health::Error => 2,
    }
}

/// The border color of a health.
pub open spec fn border_color(h: Health) -> Rgb8 {
    match h {
        Health::Healthy => dark_grey(),
        Health::Degraded => yellow(),
        Health::Error => red(),
    }
}

impl Health {
    /// The border color that i3bar draws around the block.
    pub fn border(self) -> (c: Rgb8)
        ensures
            c == border_color(self),
    {
        match self {
            Health::Healthy => dark_grey(),
            Health::Degraded => yellow(),
            Health::Error => red(),
        }
    }

    /// The more severe of two healths.
    pub fn worst(self, other: Health) -> (h: Health)
        ensures
            health_rank(h) == if health_rank(self) >= health_rank(other) {
                health_rank(self)
            } else {
                health_rank(other)
            },
            h == self || h == other,
    {
        let a: u8 = match self {
            Health::Healthy => 0,
            Health::Degraded => 1,
            Health::Error => 2,
        };
        let b: u8 = match other {
            Health::Healthy => 0,
            Health::Degraded => 1,
            Health::Error => 2,
        };
        if a >= b {
            self
        } else {
            other
        }
    }
}

/// Markup paired with the health that colors its border.
#[derive(Debug)]
pub struct View {
    pub body: Markup,
    pub health: Health,
}

/// The runs of `label` followed by a space and a violet `loading`.
pub open spec fn loading_runs(label: Seq<char>) -> Seq<RunView> {
    seq![(label + " "@, None::<Rgb8>), ("loading"@, Some(violet()))]
}

/// The runs of `label: ` followed by the message in red.
pub open spec fn error_runs(label: Seq<char>, message: Seq<char>) -> Seq<RunView> {
    seq![(label + ": "@, None::<Rgb8>), (message, Some(red()))]
}

fn suffixed(label: &str, suffix: &str) -> (s: String)
    ensures
        s@ == label@ + suffix@,
{
    let mut s = String::new();
    push_str(&mut s, label);
    push_str(&mut s, suffix);
    assert(s@ =~= label@ + suffix@);
    s
}

impl View {
    pub fn new(body: Markup, health: Health) -> (v: Self)
        ensures
            v.body@ == body@,
            v.health == health,
    {
        View { body, health }
    }

    /// A healthy view.
    pub fn ok(body: Markup) -> (v: Self)
        ensures
            v.body@ == body@,
            v.health == Health::Healthy,
    {
        View::new(body, Health::Healthy)
    }

    /// The degraded placeholder shown before a unit's first sample.
    pub fn loading(label: &str) -> (v: Self)
        ensures
            v.body@ == loading_runs(label@),
            v.health == Health::Degraded,
    {
        let head = suffixed(label, " ");
        let body = Markup::owned(head).append(Markup::text("loading").fg(violet()));
        assert(body@ =~= loading_runs(label@));
        View::new(body, Health::Degraded)
    }

    /// An error view: the label, a colon and the message in red.
    pub fn error(label: &str, message: &str) -> (v: Self)
        ensures
            v.body@ == error_runs(label@, message@),
            v.health == Health::Error,
    {
        let head = suffixed(label, ": ");
        let body = Markup::owned(head).append(Markup::text(message).fg(red()));
        assert(body@ =~= error_runs(label@, message@));
        View::new(body, Health::Error)
    }

    /// Whether two views show the same markup with the same health.
    pub fn same(&self, other: &View) -> (eq: bool)
        ensures
            eq == (self.body@ == other.body@ && self.health == other.health),
    {
        self.body.same(&other.body) && self.health == other.health
    }

    /// A copy of the view.
    pub fn duplicate(&self) -> (v: View)
        ensures
            v.body@ == self.body@,
            v.health == self.health,
    {
        View { body: self.body.clone(), health: self.health }
    }
}

/// A mouse button as i3bar reports it.
#[derive(Debug, Clone, Copy, PartialEq, Eq, Structural)]
pub enum Button {
    Left,
    Middle,
    Right,
    Other(u8),
}

/// The button that an i3bar button number names.
pub open spec fn button_of(code: u8) -> Button {
    if code == 1 {
        Button::Left
    } else if code == 2 {
        Button::Middle
    } else if code == 3 {
        Button::Right
    } else {
        Button::Other(code)
    }
}

impl Button {
    /// The button that an i3bar button number names.
    pub fn from_code(code: u8) -> (b: Button)
        ensures
            b == button_of(code),
    {
        match code {
            1 => Button::Left,
            2 => Button::Middle,
            3 => Button::Right,
            other => Button::Other(other),
        }
    }
}

/// A click event from i3bar: the block name and the button number.
#[derive(Debug)]
pub struct I3Click {
    pub name: String,
    pub button: u8,
}

impl I3Click {
    pub fn button(self) -> (b: Button)
        ensures
            b == button_of(self.button),
    {
        Button::from_code(self.button)
    }
}

/// One block of the i3bar protocol, exactly as it is emitted.
#[derive(Debug)]
pub struct I3Block {
    pub full_text: String,
    pub name: String,
    pub markup: String,
    pub border: String,
    pub separator: bool,
    pub separator_block_width: u8,
}

impl I3Block {
    /// Whether this is the block for a view: its Pango text padded with
    /// `padding` spaces on each side, Pango markup, the border of its
    /// health, and no separator.
    pub open spec fn shows(&self, name: Seq<char>, padding: u8, view: View) -> bool {
        &&& self.full_text@ == repeat(' ', padding as nat) + render(view.body@) + repeat(' ', padding as nat)
        &&& self.name@ == name
        &&& self.markup@ == "pango"@
        &&& self.border@ == hex_text(border_color(view.health))
        &&& !self.separator
        &&& self.separator_block_width == 0
    }

    /// The block for a view.
    pub fn new(name: &str, padding: u8, view: &View) -> (b: Self)
        ensures
            b.shows(name@, padding, *view),
    {
        let mut full_text = String::new();
        push_repeat(&mut full_text, ' ', padding as usize);
        let body = view.body.to_string();
        push_str(&mut full_text, body.as_str());
        push_repeat(&mut full_text, ' ', padding as usize);
        assert(full_text@ =~= repeat(' ', padding as nat) + render(view.body@) + repeat(
            ' ',
            padding as nat,
        ));
        I3Block {
            full_text,
            name: name.to_owned(),
            markup: "pango".to_owned(),
            border: view.health.border().to_hex(),
            separator: false,
            separator_block_width: 0,
        }
    }
}

} // verus!
