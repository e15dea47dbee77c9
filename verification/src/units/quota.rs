//! Anthropic, Codex and OpenRouter quota telemetry.

use vstd::prelude::*;

use vstd::view::View as _;

use crate::bar::{Button, Health, View};
use crate::color::{grey, violet, Rgb8};
use crate::display::{color_by_percent_remaining, remaining_color};
use crate::markup::{bracket_runs, join_runs, views, Markup, RunView};
use crate::text::{dec_width, decimal_width, push_str, str_eq};
use crate::units::{
    error_view, Cycle, FiniteCycle, MouseOrbit, Posture, ProbeError, Reaction, RestorableCycle,
};

verus! {

broadcast use vstd::string::group_string_axioms;

/// Whether remaining quantities or reset windows are shown.
#[derive(Debug, Clone, Copy, PartialEq, Eq, Structural)]
pub enum Facet {
    Remaining,
    Resets,
}

impl Cycle for Facet {
    open spec fn inv(&self) -> bool {
        true
    }

    open spec fn period(&self) -> nat {
        2
    }

    open spec fn position(&self) -> nat {
        match self {
            Facet::Remaining => 0,
            Facet::Resets => 1,
        }
    }

    open spec fn same_frame(&self, other: &Self) -> bool {
        true
    }

    open spec fn step(self) -> Self {
        match self {
            Facet::Remaining => Facet::Resets,
            Facet::Resets => Facet::Remaining,
        }
    }

    proof fn lemma_step(s: Self) {
    }

    proof fn lemma_frame(a: Self, b: Self, c: Self) {
    }

    proof fn lemma_position_determines(a: Self, b: Self) {
    }

    fn advance(&mut self) {
        *self = match *self {
            Facet::Remaining => Facet::Resets,
            Facet::Resets => Facet::Remaining,
        };
    }
}

impl RestorableCycle for Facet {
    open spec fn point_name(&self) -> Seq<char> {
        match self {
            Facet::Remaining => "Remaining"@,
            Facet::Resets => "Resets"@,
        }
    }

    proof fn lemma_name_determines(a: Self, b: Self) {
        reveal_strlit("Remaining");
        reveal_strlit("Resets");
        match (a, b) {
            (Facet::Remaining, Facet::Remaining) => {},
            (Facet::Remaining, Facet::Resets) => { assert("Remaining"@.len() != "Resets"@.len()); },
            (Facet::Resets, Facet::Remaining) => { assert("Resets"@.len() != "Remaining"@.len()); },
            (Facet::Resets, Facet::Resets) => {},
        }
    }

    fn point(&self) -> (p: &'static str) {
        match self {
            Facet::Remaining => "Remaining",
            Facet::Resets => "Resets",
        }
    }

    fn has_point(&self, point: &str) -> (found: bool) {
        let found = str_eq(point, "Remaining") || str_eq(point, "Resets");
        proof {
            if point@ == "Remaining"@ {
                assert(Facet::Remaining.point_name() == point@);
            }
            if point@ == "Resets"@ {
                assert(Facet::Resets.point_name() == point@);
            }
            assert forall|s: Self| #[trigger] s.point_name() != point@ || found by {
                match s {
                    Facet::Remaining => {},
                    Facet::Resets => {},
                }
            }
        }
        found
    }

    fn seek(&mut self, point: &str) -> (found: bool) {
        if str_eq(point, "Remaining") {
            *self = Facet::Remaining;
            assert(self.point_name() == point@);
            return true;
        }
        if str_eq(point, "Resets") {
            *self = Facet::Resets;
            assert(self.point_name() == point@);
            return true;
        }
        proof {
            assert forall|s: Self| #[trigger] s.point_name() != point@ by {
                match s {
                    Facet::Remaining => {},
                    Facet::Resets => {},
                }
            }
        }
        false
    }
}
/// A quota source.
#[derive(Debug, Clone, Copy, PartialEq, Eq, Structural)]
pub enum Provider {
    Anthropic,
    Codex,
    OpenRouter,
}

/// The configuration name of a source.
pub open spec fn provider_name(p: Provider) -> Seq<char> {
    match p {
        Provider::Anthropic => "anthropic"@,
        Provider::Codex => "codex"@,
        Provider::OpenRouter => "openrouter"@,
    }
}

/// The two-letter mark of a source in the bar.
pub open spec fn provider_sigil(p: Provider) -> Seq<char> {
    match p {
        Provider::Anthropic => "cc"@,
        Provider::Codex => "cx"@,
        Provider::OpenRouter => "or"@,
    }
}

impl Provider {
    pub fn name(self) -> (s: &'static str)
        ensures
            s@ == provider_name(self),
    {
        match self {
            Provider::Anthropic => "anthropic",
            Provider::Codex => "codex",
            Provider::OpenRouter => "openrouter",
        }
    }

    pub fn sigil(self) -> (s: &'static str)
        ensures
            s@ == provider_sigil(self),
    {
        match self {
            Provider::Anthropic => "cc",
            Provider::Codex => "cx",
            Provider::OpenRouter => "or",
        }
    }
}

proof fn lemma_provider_names_distinct(a: Provider, b: Provider)
    requires
        provider_name(a) == provider_name(b),
    ensures
        a == b,
{
    reveal_strlit("anthropic");
    reveal_strlit("codex");
    reveal_strlit("openrouter");
    match (a, b) {
        (Provider::Anthropic, Provider::Codex) => { assert("anthropic"@[1] != "codex"@[1]); },
        (Provider::Codex, Provider::Anthropic) => { assert("anthropic"@[1] != "codex"@[1]); },
        (Provider::Anthropic, Provider::OpenRouter) => { assert("anthropic"@.len() != "openrouter"@.len()); },
        (Provider::OpenRouter, Provider::Anthropic) => { assert("anthropic"@.len() != "openrouter"@.len()); },
        (Provider::Codex, Provider::OpenRouter) => { assert("codex"@.len() != "openrouter"@.len()); },
        (Provider::OpenRouter, Provider::Codex) => { assert("codex"@.len() != "openrouter"@.len()); },
        _ => {},
    }
}

/// One configured source; OpenRouter reads its key from a file.
#[derive(Debug)]
pub enum ProviderConfig {
    Anthropic,
    Codex,
    OpenRouter { token_file: String },
}

/// The source that a configuration names.
pub open spec fn source_of(c: ProviderConfig) -> Provider {
    match c {
        ProviderConfig::Anthropic => Provider::Anthropic,
        ProviderConfig::Codex => Provider::Codex,
        ProviderConfig::OpenRouter { .. } => Provider::OpenRouter,
    }
}

/// Whether a path is absolute on Linux: it begins at the root.
pub open spec fn is_absolute(path: Seq<char>) -> bool {
    path.len() > 0 && path[0] == '/'
}

impl ProviderConfig {
    pub fn provider(&self) -> (p: Provider)
        ensures
            p == source_of(*self),
    {
        match self {
            ProviderConfig::Anthropic => Provider::Anthropic,
            ProviderConfig::Codex => Provider::Codex,
            ProviderConfig::OpenRouter { .. } => Provider::OpenRouter,
        }
    }

    pub fn duplicate(&self) -> (c: ProviderConfig)
        ensures
            c == *self,
    {
        match self {
            ProviderConfig::Anthropic => ProviderConfig::Anthropic,
            ProviderConfig::Codex => ProviderConfig::Codex,
            ProviderConfig::OpenRouter { token_file } => ProviderConfig::OpenRouter {
                token_file: token_file.clone(),
            },
        }
    }
}

/// The first configuration fault at or after index `i`, checking each
/// entry for an earlier duplicate and then for a relative key path.
pub open spec fn provider_fault(ps: Seq<ProviderConfig>, i: nat) -> Option<Seq<char>>
    decreases ps.len() - i,
{
    if i >= ps.len() {
        None
    } else if exists|j: int| 0 <= j < i && source_of(ps[j]) == source_of(ps[i as int]) {
        Some("duplicate quota provider `"@ + provider_name(source_of(ps[i as int])) + "`"@)
    } else if ps[i as int] matches ProviderConfig::OpenRouter { token_file } && !is_absolute(
        token_file@,
    ) {
        Some("OpenRouter token_file must be an absolute path"@)
    } else {
        provider_fault(ps, i + 1)
    }
}

/// Why a provider list is rejected, if it is.
pub open spec fn providers_error(ps: Seq<ProviderConfig>) -> Option<Seq<char>> {
    if ps.len() == 0 {
        Some("quota provider set cannot be empty"@)
    } else {
        provider_fault(ps, 0)
    }
}

proof fn lemma_no_fault(ps: Seq<ProviderConfig>, i: nat)
    requires
        provider_fault(ps, i) is None,
    ensures
        forall|k: int, j: int|
            i <= k < ps.len() && 0 <= j < k ==> source_of(ps[j]) != source_of(ps[k]),
        forall|k: int|
            i <= k < ps.len() ==> (#[trigger] ps[k] matches ProviderConfig::OpenRouter {
                token_file,
            } ==> is_absolute(token_file@)),
    decreases ps.len() - i,
{
    if i < ps.len() {
        lemma_no_fault(ps, i + 1);
    }
}

/// The configured quota sources: a nonempty cycle in configuration order,
/// without duplicates, whose OpenRouter key path is absolute.
#[derive(Debug)]
pub struct Providers {
    pub cycle: FiniteCycle<ProviderConfig>,
}

/// The configured sources in order.
pub open spec fn configured(p: Providers) -> Seq<Provider> {
    p.cycle.spec_points().map_values(|c: ProviderConfig| source_of(c))
}

impl Providers {
    pub open spec fn wf(&self) -> bool {
        &&& self.cycle.inv()
        &&& forall|i: int, j: int|
            0 <= i < self.cycle.spec_points().len() && 0 <= j < self.cycle.spec_points().len()
                && i != j ==> source_of(self.cycle.spec_points()[i]) != source_of(
                self.cycle.spec_points()[j],
            )
        &&& forall|i: int|
            0 <= i < self.cycle.spec_points().len() ==> (
            #[trigger] self.cycle.spec_points()[i] matches ProviderConfig::OpenRouter { token_file }
                ==> is_absolute(token_file@))
    }

    /// The source in focus.
    pub open spec fn focused(&self) -> Provider {
        source_of(self.cycle.spec_points()[self.cycle.spec_focus() as int])
    }

    /// Validates a provider list; the first is in focus.
    #[verifier::loop_isolation(false)]
    pub fn new(providers: Vec<ProviderConfig>) -> (r: Result<Providers, String>)
        ensures
            match r {
                Ok(p) => providers_error(providers@) is None && p.wf() && p.cycle.spec_points()
                    == providers@ && p.cycle.spec_focus() == 0,
                Err(m) => providers_error(providers@) == Some(m@),
            },
    {
        let ghost all = providers@;
        let mut providers = providers;
        if providers.len() == 0 {
            return Err("quota provider set cannot be empty".to_owned());
        }
        let first = providers.remove(0);
        let cycle = FiniteCycle::new(first, providers);
        assert(cycle.spec_points() =~= all);
        let n = cycle.points().len();
        let mut index: usize = 0;
        while index < n
            invariant
                n == all.len(),
                cycle.spec_points() == all,
                index <= n,
                provider_fault(all, 0) == provider_fault(all, index as nat),
            decreases n - index,
        {
            let points = cycle.points();
            let here = points[index].provider();
            let mut j: usize = 0;
            while j < index
                invariant
                    points@ == all,
                    index < n == all.len(),
                    j <= index,
                    here == source_of(all[index as int]),
                    forall|k: int| 0 <= k < j ==> source_of(all[k]) != here,
                decreases index - j,
            {
                if points[j].provider() == here {
                    assert(source_of(all[j as int]) == source_of(all[index as int]));
                    let mut m = String::new();
                    push_str(&mut m, "duplicate quota provider `");
                    push_str(&mut m, here.name());
                    push_str(&mut m, "`");
                    proof {
                        assert(exists|j: int| 0 <= j < index && source_of(all[j]) == source_of(all[index as int]));
                        assert(provider_fault(all, index as nat) == Some(m@));
                        assert(providers_error(all) == Some(m@));
                    }
                    return Err(m);
                }
                j = j + 1;
            }
            match &points[index] {
                ProviderConfig::OpenRouter { token_file } => {
                    let path = token_file.as_str();
                    let absolute = path.unicode_len() > 0 && path.get_char(0) == '/';
                    assert(absolute == is_absolute(token_file@));
                    if !absolute {
                        assert(!exists|j: int| 0 <= j < index && source_of(all[j]) == source_of(all[index as int]));
                        return Err("OpenRouter token_file must be an absolute path".to_owned());
                    }
                },
                _ => {},
            }
            index = index + 1;
        }
        proof {
            lemma_no_fault(all, 0);
        }
        Ok(Providers { cycle })
    }

    /// The default sources: Anthropic, then Codex.
    pub fn default_set() -> (p: Providers)
        ensures
            p.wf(),
            configured(p) == seq![Provider::Anthropic, Provider::Codex],
            p.cycle.spec_focus() == 0,
    {
        let mut rest = Vec::new();
        rest.push(ProviderConfig::Codex);
        let cycle = FiniteCycle::new(ProviderConfig::Anthropic, rest);
        let p = Providers { cycle };
        assert(configured(p) =~= seq![Provider::Anthropic, Provider::Codex]);
        p
    }

    /// The source in focus.
    pub fn selected(&self) -> (p: Provider)
        requires
            self.wf(),
        ensures
            p == self.focused(),
    {
        self.cycle.focus().provider()
    }

    /// Whether a source is configured.
    pub fn contains(&self, provider: Provider) -> (found: bool)
        ensures
            found == configured(*self).contains(provider),
    {
        let points = self.cycle.points();
        let n = points.len();
        for i in 0..n
            invariant
                n == points@.len(),
                points@ == self.cycle.spec_points(),
                forall|k: int| 0 <= k < i ==> source_of(points@[k]) != provider,
        {
            if points[i].provider() == provider {
                assert(configured(*self)[i as int] == provider);
                return true;
            }
        }
        proof {
            if configured(*self).contains(provider) {
                let k = choose|k: int| 0 <= k < configured(*self).len() && configured(*self)[k] == provider;
                assert(source_of(points@[k]) == provider);
            }
        }
        false
    }

    /// The key path of the OpenRouter source, if it is configured.
    pub fn openrouter_token_file(&self) -> (path: Option<String>)
        ensures
            match path {
                Some(f) => exists|i: int|
                    0 <= i < self.cycle.spec_points().len() && self.cycle.spec_points()[i]
                        == ProviderConfig::OpenRouter { token_file: f },
                None => !configured(*self).contains(Provider::OpenRouter),
            },
    {
        let points = self.cycle.points();
        let n = points.len();
        for i in 0..n
            invariant
                n == points@.len(),
                points@ == self.cycle.spec_points(),
                forall|k: int| 0 <= k < i ==> source_of(points@[k]) != Provider::OpenRouter,
        {
            match &points[i] {
                ProviderConfig::OpenRouter { token_file } => {
                    return Some(token_file.clone());
                },
                _ => {},
            }
        }
        proof {
            if configured(*self).contains(Provider::OpenRouter) {
                let k = choose|k: int| 0 <= k < configured(*self).len() && configured(*self)[k] == Provider::OpenRouter;
                assert(source_of(points@[k]) == Provider::OpenRouter);
            }
        }
        None
    }

    /// The configured sources in order.
    pub fn providers(&self) -> (v: Vec<Provider>)
        ensures
            v@ == configured(*self),
    {
        let points = self.cycle.points();
        let n = points.len();
        let mut v: Vec<Provider> = Vec::new();
        for i in 0..n
            invariant
                n == points@.len(),
                points@ == self.cycle.spec_points(),
                v@ == configured(*self).take(i as int),
        {
            v.push(points[i].provider());
            assert(v@ =~= configured(*self).take(i + 1));
        }
        assert(configured(*self).take(n as int) =~= configured(*self));
        v
    }

    /// A copy with the same sources and the same focus.
    pub fn duplicate(&self) -> (p: Providers)
        requires
            self.wf(),
        ensures
            p.wf(),
            p.cycle.spec_points() == self.cycle.spec_points(),
            p.cycle.spec_focus() == self.cycle.spec_focus(),
    {
        let points = self.cycle.points();
        let n = points.len();
        let first = points[0].duplicate();
        let mut rest: Vec<ProviderConfig> = Vec::new();
        for i in 1..n
            invariant
                n == points@.len(),
                points@ == self.cycle.spec_points(),
                rest@ == points@.subrange(1, i as int),
        {
            rest.push(points[i].duplicate());
            assert(rest@ =~= points@.subrange(1, i + 1));
        }
        let mut cycle = FiniteCycle::new(first, rest);
        assert(cycle.spec_points() =~= self.cycle.spec_points());
        cycle.seek_index(self.cycle.focus_index());
        Providers { cycle }
    }
}

/// The index of the first configured source with the given name.
fn find_provider(points: &[ProviderConfig], name: &str) -> (r: Option<usize>)
    ensures
        match r {
            Some(i) => i < points@.len() && provider_name(source_of(points@[i as int])) == name@,
            None => forall|k: int| 0 <= k < points@.len() ==> provider_name(source_of(points@[k])) != name@,
        },
{
    let n = points.len();
    for i in 0..n
        invariant
            n == points@.len(),
            forall|k: int| 0 <= k < i ==> provider_name(source_of(points@[k])) != name@,
    {
        if str_eq(points[i].provider().name(), name) {
            return Some(i);
        }
    }
    None
}

impl Cycle for Providers {
    open spec fn inv(&self) -> bool {
        self.wf()
    }

    open spec fn period(&self) -> nat {
        self.cycle.period()
    }

    open spec fn position(&self) -> nat {
        self.cycle.position()
    }

    open spec fn same_frame(&self, other: &Self) -> bool {
        self.cycle.same_frame(&other.cycle)
    }

    open spec fn step(self) -> Self {
        Providers { cycle: self.cycle.step() }
    }

    proof fn lemma_step(s: Self) {
        FiniteCycle::<ProviderConfig>::lemma_step(s.cycle);
        FiniteCycle::<ProviderConfig>::lemma_same_points(s.cycle.step(), s.cycle);
    }

    proof fn lemma_frame(a: Self, b: Self, c: Self) {
        FiniteCycle::<ProviderConfig>::lemma_frame(a.cycle, b.cycle, c.cycle);
    }

    proof fn lemma_position_determines(a: Self, b: Self) {
        FiniteCycle::<ProviderConfig>::lemma_position_determines(a.cycle, b.cycle);
    }

    fn advance(&mut self) {
        self.cycle.advance();
    }
}

impl RestorableCycle for Providers {
    open spec fn point_name(&self) -> Seq<char> {
        provider_name(self.focused())
    }

    proof fn lemma_name_determines(a: Self, b: Self) {
        FiniteCycle::<ProviderConfig>::lemma_same_points(a.cycle, b.cycle);
        lemma_provider_names_distinct(a.focused(), b.focused());
        FiniteCycle::<ProviderConfig>::lemma_position_determines(a.cycle, b.cycle);
    }

    fn point(&self) -> (p: &'static str) {
        self.selected().name()
    }

    fn has_point(&self, point: &str) -> (found: bool) {
        let points = self.cycle.points();
        let n = points.len();
        for i in 0..n
            invariant
                n == points@.len(),
                points@ == self.cycle.spec_points(),
                self.wf(),
                forall|k: int| 0 <= k < i ==> provider_name(source_of(points@[k])) != point@,
        {
            if str_eq(points[i].provider().name(), point) {
                proof {
                    let s = Providers { cycle: self.cycle.refocused(i as nat) };
                    FiniteCycle::<ProviderConfig>::lemma_refocused(self.cycle, i as nat);
                    assert(s.inv() && s.same_frame(self) && s.point_name() == point@);
                }
                return true;
            }
        }
        proof {
            assert forall|s: Self| #[trigger] s.point_name() != point@ || !(s.inv() && s.same_frame(self)) by {
                if s.inv() && s.same_frame(self) {
                    FiniteCycle::<ProviderConfig>::lemma_same_points(s.cycle, self.cycle);
                    assert(provider_name(source_of(points@[s.cycle.spec_focus() as int])) != point@);
                }
            }
        }
        false
    }

    fn seek(&mut self, point: &str) -> (found: bool) {
        let ghost before = *self;
        let target = find_provider(self.cycle.points(), point);
        match target {
            None => {
                proof {
                    assert(*self == before);
                    assert forall|s: Self| #[trigger] s.point_name() != point@ || !(s.inv() && s.same_frame(&before)) by {
                        if s.inv() && s.same_frame(&before) {
                            FiniteCycle::<ProviderConfig>::lemma_same_points(s.cycle, before.cycle);
                            assert(provider_name(source_of(before.cycle.spec_points()[s.cycle.spec_focus() as int])) != point@);
                        }
                    }
                    assert(!exists|s: Self| #![trigger s.point_name()] s.inv() && s.same_frame(old(self)) && s.point_name() == point@);
                }
                false
            },
            Some(index) => {
                proof {
                    FiniteCycle::<ProviderConfig>::lemma_refocused(self.cycle, index as nat);
                }
                self.cycle.seek_index(index);
                proof {
                    FiniteCycle::<ProviderConfig>::lemma_same_points(self.cycle, before.cycle);
                    FiniteCycle::<ProviderConfig>::lemma_frame(self.cycle, before.cycle, before.cycle);
                    assert(self.cycle.spec_points() == before.cycle.spec_points());
                    assert(self.wf());
                    assert(self.point_name() == point@);
                    assert(self.same_frame(&before));
                }
                true
            },
        }
    }
}

/// The window that a limit resets over.
#[derive(Debug, Clone, Copy, PartialEq, Eq, Structural)]
pub enum Window {
    FiveHours,
    Week,
}

pub open spec fn window_label(w: Window) -> Seq<char> {
    match w {
        Window::FiveHours => "5h"@,
        Window::Week => "1w"@,
    }
}

impl Window {
    pub fn label(self) -> (s: &'static str)
        ensures
            s@ == window_label(self),
    {
        match self {
            Window::FiveHours => "5h",
            Window::Week => "1w",
        }
    }
}

/// A remaining quantity: a whole percentage, or a dollar balance whose text
/// and color were fixed when it was read.
#[derive(Debug)]
pub enum Quantity {
    Percent(u8),
    Dollars { text: String, color: Rgb8 },
}

/// The runs of a remaining quantity.
pub open spec fn quantity_runs(q: Quantity) -> Seq<RunView> {
    match q {
        Quantity::Percent(r) => seq![
            (dec_width(r as nat, 3) + "%"@, Some(remaining_color(r as int))),
        ],
        Quantity::Dollars { text, color } => seq![(text@, Some(color))],
    }
}

impl Quantity {
    pub fn markup(&self) -> (m: Markup)
        ensures
            m@ == quantity_runs(*self),
    {
        match self {
            Quantity::Percent(r) => {
                let mut text = decimal_width(*r as u64, 3);
                push_str(&mut text, "%");
                let m = Markup::owned(text).fg(color_by_percent_remaining(*r as u64));
                assert(m@ =~= quantity_runs(*self));
                m
            },
            Quantity::Dollars { text, color } => {
                let m = Markup::text(text.as_str()).fg(*color);
                assert(m@ =~= quantity_runs(*self));
                m
            },
        }
    }
}

/// One limit of a source: its window, what remains, and when it resets,
/// both as an epoch second and as the local wall-clock text to show.
#[derive(Debug)]
pub struct Limit {
    pub window: Option<Window>,
    pub remaining: Quantity,
    pub resets_at: Option<i64>,
    pub reset_label: Option<String>,
}

/// The runs that name a window before its quantity.
pub open spec fn window_prefix(w: Option<Window>) -> Seq<RunView> {
    match w {
        Some(w) => seq![(window_label(w), Some(grey())), (" "@, None::<Rgb8>)],
        None => Seq::empty(),
    }
}

/// The remaining projection of a limit: `[5h  42%]`.
pub open spec fn remaining_runs(l: Limit) -> Seq<RunView> {
    bracket_runs(window_prefix(l.window) + quantity_runs(l.remaining))
}

/// The reset projection of a limit: `[5h@Mon 04-20 13:00]`, or `--` when
/// the reset time is unknown.
pub open spec fn reset_runs(l: Limit) -> Seq<RunView> {
    let label = match l.window {
        Some(w) => window_label(w),
        None => Seq::empty(),
    };
    let tail = match l.reset_label {
        Some(t) => seq![(t@, None::<Rgb8>)],
        None => seq![("--"@, Some(violet()))],
    };
    bracket_runs(seq![(label + "@"@, Some(grey()))] + tail)
}

/// The limits that have a window, in order.
pub open spec fn windowed(limits: Seq<Limit>) -> Seq<Limit>
    decreases limits.len(),
{
    if limits.len() == 0 {
        Seq::empty()
    } else if limits.last().window is Some {
        windowed(limits.drop_last()).push(limits.last())
    } else {
        windowed(limits.drop_last())
    }
}

/// The runs of a snapshot under one facet.
pub open spec fn snapshot_runs(limits: Seq<Limit>, facet: Facet) -> Seq<RunView> {
    match facet {
        Facet::Remaining => if limits.len() == 0 {
            bracket_runs(seq![("no quota"@, Some(violet()))])
        } else {
            join_runs(seq![(" "@, None::<Rgb8>)], limits.map_values(|l: Limit| remaining_runs(l)))
        },
        Facet::Resets => if windowed(limits).len() == 0 {
            bracket_runs(seq![("no reset"@, Some(grey()))])
        } else {
            join_runs(
                seq![(" "@, None::<Rgb8>)],
                windowed(limits).map_values(|l: Limit| reset_runs(l)),
            )
        },
    }
}

fn render_remaining(limit: &Limit) -> (m: Markup)
    ensures
        m@ == remaining_runs(*limit),
{
    let window = match limit.window {
        Some(w) => Markup::text(w.label()).fg(grey()).append(Markup::text(" ")),
        None => Markup::empty(),
    };
    assert(window@ =~= window_prefix(limit.window));
    Markup::bracketed(window.append(limit.remaining.markup()))
}

fn render_reset(limit: &Limit) -> (m: Markup)
    ensures
        m@ == reset_runs(*limit),
{
    let mut head = String::new();
    match limit.window {
        Some(w) => push_str(&mut head, w.label()),
        None => {},
    }
    push_str(&mut head, "@");
    let tail = match &limit.reset_label {
        Some(t) => Markup::text(t.as_str()),
        None => Markup::text("--").fg(violet()),
    };
    let m = Markup::bracketed(Markup::owned(head).fg(grey()).append(tail));
    assert(m@ =~= reset_runs(*limit));
    m
}

/// What one source reported at one moment.
#[derive(Debug)]
pub struct Snapshot {
    /// Nanoseconds since the Unix epoch.
    pub captured_at: i128,
    pub limits: Vec<Limit>,
}

/// The projection of a snapshot under one facet.
pub fn render_snapshot(snapshot: &Snapshot, facet: Facet) -> (m: Markup)
    ensures
        m@ == snapshot_runs(snapshot.limits@, facet),
{
    let limits = &snapshot.limits;
    let n = limits.len();
    match facet {
        Facet::Remaining => {
            if n == 0 {
                return Markup::bracketed(Markup::text("no quota").fg(violet()));
            }
            let mut parts: Vec<Markup> = Vec::new();
            for i in 0..n
                invariant
                    n == limits@.len(),
                    views(parts@) == limits@.take(i as int).map_values(|l: Limit| remaining_runs(l)),
            {
                let ghost before = views(parts@);
                let part = render_remaining(&limits[i]);
                parts.push(part);
                assert(views(parts@) =~= before.push(remaining_runs(limits@[i as int])));
                assert(limits@.take(i + 1) =~= limits@.take(i as int).push(limits@[i as int]));
                assert(views(parts@) =~= limits@.take(i + 1).map_values(|l: Limit| remaining_runs(l)));
            }
            assert(limits@.take(n as int) =~= limits@);
            Markup::join(" ", parts)
        },
        Facet::Resets => {
            let mut parts: Vec<Markup> = Vec::new();
            for i in 0..n
                invariant
                    n == limits@.len(),
                    views(parts@) == windowed(limits@.take(i as int)).map_values(|l: Limit| reset_runs(l)),
            {
                assert(limits@.take(i + 1).drop_last() =~= limits@.take(i as int));
                let ghost before = views(parts@);
                assert(limits@.take(i + 1).last() == limits@[i as int]);
                if limits[i].window.is_some() {
                    let part = render_reset(&limits[i]);
                    parts.push(part);
                    assert(views(parts@) =~= before.push(reset_runs(limits@[i as int])));
                } else {
                    assert(views(parts@) =~= before);
                }
                assert(views(parts@) =~= windowed(limits@.take(i + 1)).map_values(|l: Limit| reset_runs(l)));
            }
            assert(limits@.take(n as int) =~= limits@);
            if parts.len() == 0 {
                return Markup::bracketed(Markup::text("no reset").fg(grey()));
            }
            Markup::join(" ", parts)
        },
    }
}

/// What a source yielded: a snapshot, or why there is none.
pub type Feed = Result<Snapshot, ProbeError>;

/// The feeds of one probe, one slot per source.
#[derive(Debug)]
pub struct Sample {
    pub anthropic: Option<Feed>,
    pub codex: Option<Feed>,
    pub openrouter: Option<Feed>,
}

pub open spec fn feed_of(s: Sample, p: Provider) -> Option<Feed> {
    match p {
        Provider::Anthropic => s.anthropic,
        Provider::Codex => s.codex,
        Provider::OpenRouter => s.openrouter,
    }
}

impl Sample {
    pub fn feed(&self, p: Provider) -> (f: &Option<Feed>)
        ensures
            *f == feed_of(*self, p),
    {
        match p {
            Provider::Anthropic => &self.anthropic,
            Provider::Codex => &self.codex,
            Provider::OpenRouter => &self.openrouter,
        }
    }
}

/// A fresh feed wins; otherwise the last good snapshot survives a failure.
pub open spec fn merge_feed(old: Option<Feed>, new: Option<Feed>) -> Option<Feed> {
    if new matches Some(Ok(_)) {
        new
    } else if old matches Some(Ok(_)) {
        old
    } else {
        new
    }
}

fn merge(old: Option<Feed>, new: Option<Feed>) -> (f: Option<Feed>)
    ensures
        f == merge_feed(old, new),
{
    match new {
        Some(Ok(snapshot)) => Some(Ok(snapshot)),
        new => match old {
            Some(Ok(snapshot)) => Some(Ok(snapshot)),
            _ => new,
        },
    }
}

/// How current a source is.
#[derive(Debug, Clone, Copy, PartialEq, Eq, Structural)]
pub enum SourceState {
    Fresh,
    Stale,
    Expired,
    Missing,
}

/// The age of a snapshot at `now`, zero when it lies in the future.
pub open spec fn age(captured_at: i128, now: i128) -> int {
    if now >= captured_at {
        now - captured_at
    } else {
        0
    }
}

/// How current a source's latest good snapshot is.
pub open spec fn source_state(s: Sample, p: Provider, now: i128, stale_after: u128, error_after: u128) -> SourceState {
    match feed_of(s, p) {
        Some(Ok(snapshot)) => {
            let a = age(snapshot.captured_at, now);
            if a > error_after {
                SourceState::Expired
            } else if a > stale_after {
                SourceState::Stale
            } else {
                SourceState::Fresh
            }
        },
        _ => SourceState::Missing,
    }
}

/// The health of a set of sources: any expired one, or all missing, is an
/// error; any stale or missing one degrades; otherwise healthy.
pub open spec fn health_of(states: Seq<SourceState>) -> Health {
    if exists|i: int| 0 <= i < states.len() && states[i] == SourceState::Expired {
        Health::Error
    } else if forall|i: int| 0 <= i < states.len() ==> states[i] == SourceState::Missing {
        Health::Error
    } else if exists|i: int|
        0 <= i < states.len() && (states[i] == SourceState::Stale || states[i]
            == SourceState::Missing) {
        Health::Degraded
    } else {
        Health::Healthy
    }
}

/// Settings of the unit; the ages are in nanoseconds.
#[derive(Debug)]
pub struct Config {
    pub label: String,
    pub providers: Providers,
    pub stale_after: u128,
    pub error_after: u128,
}

/// Durable reducer state: the label, the two mode axes, the age limits and
/// the merged latest sample.
#[derive(Debug)]
pub struct Model {
    pub label: String,
    pub modes: MouseOrbit<Facet, Providers>,
    pub stale_after: u128,
    pub error_after: u128,
    pub latest: Option<Sample>,
}

/// The owned input of one probe: every configured source.
#[derive(Debug)]
pub struct Request {
    pub providers: Providers,
}

impl Model {
    pub open spec fn wf(&self) -> bool {
        self.modes.inv()
    }

    /// The source states of the configured sources at `now`.
    pub open spec fn states(&self, s: Sample, now: i128) -> Seq<SourceState> {
        configured(self.modes.right).map_values(
            |p: Provider| source_state(s, p, now, self.stale_after, self.error_after),
        )
    }

    /// The runs of the current projection of a sample.
    pub open spec fn projection(&self, s: Sample) -> Seq<RunView> {
        let p = self.modes.right.focused();
        seq![
            (self.label@ + " "@, None::<Rgb8>),
            (provider_sigil(p), Some(grey())),
            (" "@, None::<Rgb8>),
        ] + match feed_of(s, p) {
            Some(Ok(snapshot)) => snapshot_runs(snapshot.limits@, self.modes.left),
            _ => bracket_runs(seq![("unavailable"@, Some(violet()))]),
        }
    }

    /// Validates the settings.
    pub fn new(config: Config) -> (r: Result<Model, String>)
        requires
            config.providers.wf(),
        ensures
            match r {
                Ok(m) => config.label@.len() > 0 && config.error_after > config.stale_after
                    && m.wf() && m.label == config.label && m.modes.left == Facet::Remaining
                    && configured(m.modes.right) == configured(config.providers)
                    && m.modes.right.cycle.spec_focus() == config.providers.cycle.spec_focus()
                    && m.stale_after == config.stale_after && m.error_after == config.error_after
                    && m.latest is None,
                Err(e) => if config.label@.len() == 0 {
                    e@ == "quota label must not be empty"@
                } else {
                    config.error_after <= config.stale_after
                        && e@ == "quota ages must be finite and error_after_sec must exceed stale_after_sec"@
                },
            },
    {
        if config.label.as_str().unicode_len() == 0 {
            return Err("quota label must not be empty".to_owned());
        }
        if config.error_after <= config.stale_after {
            return Err(
                "quota ages must be finite and error_after_sec must exceed stale_after_sec".to_owned(),
            );
        }
        Ok(
            Model {
                label: config.label,
                modes: MouseOrbit::new(Facet::Remaining, config.providers),
                stale_after: config.stale_after,
                error_after: config.error_after,
                latest: None,
            },
        )
    }

    /// Every configured source, whatever is in focus.
    pub fn request(&self) -> (r: Request)
        requires
            self.wf(),
        ensures
            r.providers.wf(),
            r.providers.cycle.spec_points() == self.modes.right.cycle.spec_points(),
    {
        Request { providers: self.modes.right.duplicate() }
    }

    fn source_state(&self, sample: &Sample, p: Provider, now: i128) -> (st: SourceState)
        ensures
            st == source_state(*sample, p, now, self.stale_after, self.error_after),
    {
        match sample.feed(p) {
            Some(Ok(snapshot)) => {
                let cap = snapshot.captured_at;
                let a: u128 = if now < cap {
                    0
                } else if cap >= 0 || now < 0 {
                    (now - cap) as u128
                } else {
                    (now as u128) + ((-(cap + 1)) as u128) + 1
                };
                assert(a == age(cap, now));
                if a > self.error_after {
                    SourceState::Expired
                } else if a > self.stale_after {
                    SourceState::Stale
                } else {
                    SourceState::Fresh
                }
            },
            _ => SourceState::Missing,
        }
    }

    /// The health of a sample at `now`.
    pub fn health(&self, sample: &Sample, now: i128) -> (h: Health)
        ensures
            h == health_of(self.states(*sample, now)),
    {
        let providers = self.modes.right.providers();
        let ghost states = self.states(*sample, now);
        let n = providers.len();
        let mut all_missing = true;
        let mut degraded = false;
        for i in 0..n
            invariant
                n == providers@.len(),
                providers@ == configured(self.modes.right),
                states == self.states(*sample, now),
                forall|k: int| 0 <= k < i ==> states[k] != SourceState::Expired,
                all_missing == forall|k: int| 0 <= k < i ==> states[k] == SourceState::Missing,
                degraded == exists|k: int|
                    0 <= k < i && (states[k] == SourceState::Stale || states[k]
                        == SourceState::Missing),
        {
            let st = self.source_state(sample, providers[i], now);
            assert(st == states[i as int]);
            match st {
                SourceState::Expired => {
                    return Health::Error;
                },
                SourceState::Fresh => {
                    all_missing = false;
                },
                SourceState::Stale => {
                    all_missing = false;
                    degraded = true;
                },
                SourceState::Missing => {
                    degraded = true;
                },
            }
        }
        if all_missing {
            Health::Error
        } else if degraded {
            Health::Degraded
        } else {
            Health::Healthy
        }
    }

    /// The view of the latest sample under the current coordinates.
    pub fn render(&self, now: i128) -> (v: View)
        requires
            self.wf(),
        ensures
            match self.latest {
                None => v.body@ == crate::bar::loading_runs(self.label@) && v.health
                    == Health::Degraded,
                Some(s) => v.body@ == self.projection(s) && v.health == health_of(
                    self.states(s, now),
                ),
            },
    {
        match &self.latest {
            None => View::loading(self.label.as_str()),
            Some(sample) => {
                let provider = self.modes.right.selected();
                let mut head = String::new();
                push_str(&mut head, self.label.as_str());
                push_str(&mut head, " ");
                let prefix = Markup::owned(head).append(Markup::text(provider.sigil()).fg(grey())).append(
                    Markup::text(" "),
                );
                let payload = match sample.feed(provider) {
                    Some(Ok(snapshot)) => render_snapshot(snapshot, self.modes.left),
                    _ => Markup::bracketed(Markup::text("unavailable").fg(violet())),
                };
                let body = prefix.append(payload);
                assert(body@ =~= self.projection(*sample));
                View::new(body, self.health(sample, now))
            },
        }
    }

    /// Takes a probe result. A source that failed keeps its last good
    /// snapshot; a failed probe changes nothing and shows its error.
    pub fn apply(&mut self, reply: Result<Sample, ProbeError>, now: i128) -> (v: View)
        requires
            old(self).wf(),
        ensures
            final(self).wf(),
            final(self).label == old(self).label,
            final(self).modes == old(self).modes,
            final(self).stale_after == old(self).stale_after,
            final(self).error_after == old(self).error_after,
            match reply {
                Ok(new) => {
                    &&& final(self).latest matches Some(s)
                    &&& forall|p: Provider| #[trigger] feed_of(s, p) == merge_feed(
                        match old(self).latest {
                            Some(o) => feed_of(o, p),
                            None => None,
                        },
                        feed_of(new, p),
                    )
                    &&& v.body@ == final(self).projection(s)
                    &&& v.health == health_of(final(self).states(s, now))
                },
                Err(e) => final(self).latest == old(self).latest && v.body@
                    == crate::bar::error_runs(old(self).label@, crate::units::probe_error_text(e))
                    && v.health == Health::Error,
            },
    {
        match reply {
            Ok(sample) => {
                let previous = self.latest.take();
                let merged = match previous {
                    Some(old) => Sample {
                        anthropic: merge(old.anthropic, sample.anthropic),
                        codex: merge(old.codex, sample.codex),
                        openrouter: merge(old.openrouter, sample.openrouter),
                    },
                    None => Sample {
                        anthropic: merge(None, sample.anthropic),
                        codex: merge(None, sample.codex),
                        openrouter: merge(None, sample.openrouter),
                    },
                };
                self.latest = Some(merged);
                proof {
                    let s = self.latest.unwrap();
                    assert forall|p: Provider| #[trigger] feed_of(s, p) == merge_feed(
                        match old(self).latest {
                            Some(o) => feed_of(o, p),
                            None => None,
                        },
                        feed_of(sample, p),
                    ) by {
                        match p {
                            Provider::Anthropic => {},
                            Provider::Codex => {},
                            Provider::OpenRouter => {},
                        }
                    }
                }
                self.render(now)
            },
            Err(error) => error_view(self.label.as_str(), error),
        }
    }

    /// Left and right clicks change the projection of the data already held
    /// and never ask for I/O; the middle button asks for fresh data; any
    /// other button does nothing.
    pub fn click(&mut self, button: Button, now: i128) -> (r: Reaction)
        requires
            old(self).wf(),
        ensures
            final(self).wf(),
            final(self).label == old(self).label,
            final(self).latest == old(self).latest,
            final(self).stale_after == old(self).stale_after,
            final(self).error_after == old(self).error_after,
            button == Button::Middle ==> r is Refresh && final(self).modes == old(self).modes,
            (button == Button::Left || button == Button::Right) ==> final(self).modes
                == crate::units::act_spec(old(self).modes, button) && match r {
                Reaction::Publish(v) => match final(self).latest {
                    None => v.body@ == crate::bar::loading_runs(final(self).label@) && v.health
                        == Health::Degraded,
                    Some(s) => v.body@ == final(self).projection(s) && v.health == health_of(
                        final(self).states(s, now),
                    ),
                },
                _ => false,
            },
            (button is Other) ==> r is Inert && final(self).modes == old(self).modes,
    {
        if button == Button::Middle {
            return Reaction::refresh();
        }
        if self.modes.act(button) {
            Reaction::publish(self.render(now))
        } else {
            Reaction::inert()
        }
    }

    pub fn posture(&self) -> (p: Posture)
        requires
            self.wf(),
        ensures
            p@ == seq![self.modes.left.point_name(), self.modes.right.point_name()],
    {
        Posture::from_orbit(&self.modes)
    }

    pub fn restore(&mut self, posture: &Posture) -> (applied: bool)
        requires
            old(self).wf(),
        ensures
            final(self).wf(),
            (applied, final(self).modes) == crate::units::restored_orbit(posture@, old(self).modes),
            final(self).latest == old(self).latest,
            final(self).label == old(self).label,
    {
        posture.restore_orbit(&mut self.modes)
    }
}

/// One Anthropic window as the cache stores it.
#[derive(Debug, Clone, Copy, PartialEq, Eq, Structural)]
pub struct AnthropicLimit {
    pub remaining_percent: u8,
    pub resets_at: Option<i64>,
}

impl AnthropicLimit {
    /// The window with `used` percent spent.
    pub fn from_used(used: u8, resets_at: Option<i64>) -> (l: AnthropicLimit)
        ensures
            l.remaining_percent == 100u8.saturating_sub(used),
            l.resets_at == resets_at,
    {
        AnthropicLimit { remaining_percent: 100u8.saturating_sub(used), resets_at }
    }
}

/// The Anthropic limits captured from one status-line payload.
#[derive(Debug, Clone, Copy, PartialEq, Eq, Structural)]
pub struct AnthropicQuota {
    /// Nanoseconds since the Unix epoch.
    pub captured_at: i128,
    pub five_hour: Option<AnthropicLimit>,
    pub weekly: Option<AnthropicLimit>,
}

/// The limits of a Anthropic quota: the five-hour window, then the week.
pub open spec fn anthropic_limits(q: AnthropicQuota, five_label: Option<String>, week_label: Option<String>) -> Seq<Limit> {
    let five = match q.five_hour {
        Some(l) => seq![
            Limit {
                window: Some(Window::FiveHours),
                remaining: Quantity::Percent(l.remaining_percent),
                resets_at: l.resets_at,
                reset_label: five_label,
            },
        ],
        None => Seq::empty(),
    };
    let week = match q.weekly {
        Some(l) => seq![
            Limit {
                window: Some(Window::Week),
                remaining: Quantity::Percent(l.remaining_percent),
                resets_at: l.resets_at,
                reset_label: week_label,
            },
        ],
        None => Seq::empty(),
    };
    five + week
}

impl AnthropicQuota {
    /// A quota when at least one window is known.
    pub fn from_windows(captured_at: i128, five_hour: Option<AnthropicLimit>, weekly: Option<AnthropicLimit>) -> (q: Option<AnthropicQuota>)
        ensures
            q is Some <==> (five_hour is Some || weekly is Some),
            q matches Some(q) ==> q == (AnthropicQuota { captured_at, five_hour, weekly }),
    {
        if five_hour.is_some() || weekly.is_some() {
            Some(AnthropicQuota { captured_at, five_hour, weekly })
        } else {
            None
        }
    }

    /// The canonical limits, with the local reset texts to show.
    pub fn snapshot(&self, five_label: Option<String>, week_label: Option<String>) -> (s: Snapshot)
        ensures
            s.captured_at == self.captured_at,
            s.limits@ == anthropic_limits(*self, five_label, week_label),
    {
        let mut limits: Vec<Limit> = Vec::new();
        match self.five_hour {
            Some(l) => limits.push(
                Limit {
                    window: Some(Window::FiveHours),
                    remaining: Quantity::Percent(l.remaining_percent),
                    resets_at: l.resets_at,
                    reset_label: five_label,
                },
            ),
            None => {},
        }
        match self.weekly {
            Some(l) => limits.push(
                Limit {
                    window: Some(Window::Week),
                    remaining: Quantity::Percent(l.remaining_percent),
                    resets_at: l.resets_at,
                    reset_label: week_label,
                },
            ),
            None => {},
        }
        assert(limits@ =~= anthropic_limits(*self, five_label, week_label));
        Snapshot { captured_at: self.captured_at, limits }
    }
}

/// The feed of a cached Anthropic quota: a cache without limits is an error.
pub fn cached_feed(quota: AnthropicQuota, five_label: Option<String>, week_label: Option<String>) -> (f: Feed)
    ensures
        match f {
            Ok(s) => (quota.five_hour is Some || quota.weekly is Some) && s.captured_at
                == quota.captured_at && s.limits@ == anthropic_limits(quota, five_label, week_label),
            Err(ProbeError::Unit(m)) => quota.five_hour is None && quota.weekly is None && m@
                == "Anthropic quota cache contains no limits"@,
            _ => false,
        },
{
    if quota.five_hour.is_none() && quota.weekly.is_none() {
        return Err(ProbeError::Unit("Anthropic quota cache contains no limits".to_owned()));
    }
    Ok(quota.snapshot(five_label, week_label))
}

/// `5h  88%`-style text of one window.
pub open spec fn window_text(label: Seq<char>, remaining: u8) -> Seq<char> {
    label + " "@ + dec_width(remaining as nat, 3) + "%"@
}

/// The summary that the Anthropic status line prints: the known windows after
/// `cc`, or else the remaining context window, or nothing.
pub open spec fn anthropic_statusline_text(quota: Option<AnthropicQuota>, context_remaining: Option<u8>) -> Seq<char> {
    match quota {
        Some(q) => {
            let parts = match (q.five_hour, q.weekly) {
                (Some(f), Some(w)) => window_text("5h"@, f.remaining_percent) + " "@ + window_text(
                    "1w"@,
                    w.remaining_percent,
                ),
                (Some(f), None) => window_text("5h"@, f.remaining_percent),
                (None, Some(w)) => window_text("1w"@, w.remaining_percent),
                (None, None) => Seq::empty(),
            };
            "cc "@ + parts
        },
        None => match context_remaining {
            Some(r) => "ctx "@ + dec_width(r as nat, 3) + "%"@,
            None => Seq::empty(),
        },
    }
}

fn push_window(s: &mut String, label: &str, remaining: u8)
    ensures
        final(s)@ == old(s)@ + window_text(label@, remaining),
{
    push_str(s, label);
    push_str(s, " ");
    let digits = decimal_width(remaining as u64, 3);
    push_str(s, digits.as_str());
    push_str(s, "%");
    assert(final(s)@ =~= old(s)@ + window_text(label@, remaining));
}

/// The text printed by the Anthropic status-line helper.
pub fn render_anthropic_statusline(quota: Option<&AnthropicQuota>, context_remaining: Option<u8>) -> (s: String)
    ensures
        s@ == anthropic_statusline_text(
            match quota {
                Some(q) => Some(*q),
                None => None,
            },
            context_remaining,
        ),
{
    let mut s = String::new();
    match quota {
        Some(q) => {
            push_str(&mut s, "cc ");
            match (q.five_hour, q.weekly) {
                (Some(f), Some(w)) => {
                    push_window(&mut s, "5h", f.remaining_percent);
                    push_str(&mut s, " ");
                    push_window(&mut s, "1w", w.remaining_percent);
                },
                (Some(f), None) => push_window(&mut s, "5h", f.remaining_percent),
                (None, Some(w)) => push_window(&mut s, "1w", w.remaining_percent),
                (None, None) => {},
            }
        },
        None => match context_remaining {
            Some(r) => {
                push_str(&mut s, "ctx ");
                let digits = decimal_width(r as u64, 3);
                push_str(&mut s, digits.as_str());
                push_str(&mut s, "%");
            },
            None => {},
        },
    }
    assert(s@ =~= anthropic_statusline_text(
        match quota {
            Some(q) => Some(*q),
            None => None,
        },
        context_remaining,
    ));
    s
}

/// Whether a byte is ASCII whitespace as `u8::is_ascii_whitespace` defines
/// it: space, tab, line feed, form feed, carriage return.
pub open spec fn is_ascii_ws(b: u8) -> bool {
    b == 0x20 || b == 0x09 || b == 0x0A || b == 0x0C || b == 0x0D
}

/// An incremental scanner for the end of one JSON object: it skips leading
/// whitespace and anything before the first `{`, tracks nesting depth, and
/// ignores braces inside strings (with backslash escapes).
#[derive(Debug, Default, Clone, Copy, PartialEq, Eq, Structural)]
pub struct JsonBoundary {
    pub started: bool,
    pub string: bool,
    pub escape: bool,
    pub depth: usize,
}

/// The scanner after one byte, and whether that byte closed the object.
pub open spec fn boundary_step(s: JsonBoundary, b: u8) -> (JsonBoundary, bool) {
    if !s.started {
        if !is_ascii_ws(b) && b == 0x7B {
            (JsonBoundary { started: true, depth: 1, ..s }, false)
        } else {
            (s, false)
        }
    } else if s.string {
        if s.escape {
            (JsonBoundary { escape: false, ..s }, false)
        } else if b == 0x5C {
            (JsonBoundary { escape: true, ..s }, false)
        } else if b == 0x22 {
            (JsonBoundary { string: false, ..s }, false)
        } else {
            (s, false)
        }
    } else if b == 0x22 {
        (JsonBoundary { string: true, ..s }, false)
    } else if b == 0x7B {
        (JsonBoundary { depth: (s.depth + 1) as usize, ..s }, false)
    } else if b == 0x7D {
        let d = s.depth.saturating_sub(1);
        (JsonBoundary { depth: d, ..s }, d == 0)
    } else {
        (s, false)
    }
}

/// The scanner before any byte.
pub open spec fn fresh_boundary() -> JsonBoundary {
    JsonBoundary { started: false, string: false, escape: false, depth: 0 }
}

impl JsonBoundary {
    pub fn new() -> (b: JsonBoundary)
        ensures
            b == fresh_boundary(),
    {
        JsonBoundary { started: false, string: false, escape: false, depth: 0 }
    }

    /// Consumes one byte; true when it closes the outermost object.
    pub fn push(&mut self, byte: u8) -> (closed: bool)
        requires
            old(self).depth < usize::MAX,
        ensures
            (*final(self), closed) == boundary_step(*old(self), byte),
    {
        if !self.started {
            if byte == 0x20 || byte == 0x09 || byte == 0x0A || byte == 0x0C || byte == 0x0D {
                return false;
            }
            if byte == 0x7B {
                self.started = true;
                self.depth = 1;
            }
            return false;
        }
        if self.string {
            if self.escape {
                self.escape = false;
            } else if byte == 0x5C {
                self.escape = true;
            } else if byte == 0x22 {
                self.string = false;
            }
            return false;
        }
        if byte == 0x22 {
            self.string = true;
        } else if byte == 0x7B {
            self.depth = self.depth + 1;
        } else if byte == 0x7D {
            self.depth = self.depth.saturating_sub(1);
            return self.depth == 0;
        }
        false
    }
}

/// Where a scan from position `i` in state `s` first closes the object, when
/// every byte is fed to the incremental scanner.
pub open spec fn boundary_close(raw: Seq<u8>, i: nat, s: JsonBoundary) -> Option<nat>
    decreases raw.len() - i,
{
    if i >= raw.len() {
        None
    } else {
        let (next, closed) = boundary_step(s, raw[i as int]);
        if closed {
            Some(i + 1)
        } else {
            boundary_close(raw, i + 1, next)
        }
    }
}

/// Where the first JSON object of `raw` ends (one past its closing brace),
/// reading from position `i` in state `s`: none when the first
/// non-whitespace byte is not `{` or the object never closes.
pub open spec fn object_close(raw: Seq<u8>, i: nat, s: JsonBoundary) -> Option<nat>
    decreases raw.len() - i,
{
    if i >= raw.len() {
        None
    } else if !s.started && !is_ascii_ws(raw[i as int]) && raw[i as int] != 0x7B {
        None
    } else {
        let (next, closed) = boundary_step(s, raw[i as int]);
        if closed {
            Some(i + 1)
        } else {
            object_close(raw, i + 1, next)
        }
    }
}

/// The length of the first JSON object of `raw`, leading whitespace
/// included; none when `raw` does not start with one complete object.
pub fn json_object_end(raw: &[u8]) -> (end: Option<usize>)
    ensures
        end matches Some(k) ==> object_close(raw@, 0, fresh_boundary()) == Some(k as nat),
        end is None ==> object_close(raw@, 0, fresh_boundary()) is None,
{
    let mut state = JsonBoundary::new();
    let n = raw.len();
    let mut i: usize = 0;
    while i < n
        invariant
            n == raw@.len(),
            i <= n,
            state.depth <= i,
            object_close(raw@, 0, fresh_boundary()) == object_close(raw@, i as nat, state),
        decreases n - i,
    {
        let byte = raw[i];
        if !state.started && !(byte == 0x20 || byte == 0x09 || byte == 0x0A || byte == 0x0C
            || byte == 0x0D) && byte != 0x7B {
            return None;
        }
        let closed = state.push(byte);
        if closed {
            return Some(i + 1);
        }
        i = i + 1;
    }
    None
}

proof fn lemma_boundary_agrees(raw: Seq<u8>, i: nat, s: JsonBoundary)
    requires
        s.started || forall|j: int|
            i <= j < raw.len() ==> (is_ascii_ws(raw[j]) || raw[j] == 0x7B) || exists|k: int|
                i <= k < j && raw[k] == 0x7B,
    ensures
        object_close(raw, i, s) == boundary_close(raw, i, s),
    decreases raw.len() - i,
{
    if i < raw.len() {
        let (next, closed) = boundary_step(s, raw[i as int]);
        if !closed {
            if !next.started {
                assert forall|j: int| i + 1 <= j < raw.len() implies (is_ascii_ws(raw[j]) || raw[j] == 0x7B) || exists|k: int|
                    i + 1 <= k < j && raw[k] == 0x7B by {
                    if !(is_ascii_ws(raw[j]) || raw[j] == 0x7B) {
                        let k = choose|k: int| i <= k < j && raw[k] == 0x7B;
                        assert(k != i);
                    }
                }
            }
            lemma_boundary_agrees(raw, i + 1, next);
        }
    }
}

/// The incremental scanner and the whole-buffer scan agree: on input whose
/// first non-whitespace byte opens an object, feeding bytes one at a time
/// closes at exactly the end that `json_object_end` reports.
pub proof fn lemma_scanners_agree(raw: Seq<u8>, k: int)
    requires
        0 <= k < raw.len(),
        raw[k] == 0x7B,
        forall|j: int| 0 <= j < k ==> is_ascii_ws(raw[j]),
    ensures
        object_close(raw, 0, fresh_boundary()) == boundary_close(raw, 0, fresh_boundary()),
{
    lemma_boundary_agrees(raw, 0, fresh_boundary());
}

/// Wherever the whole-buffer scan finds an object end, the incremental
/// scanner finds the same one.
pub proof fn lemma_object_end_is_boundary(raw: Seq<u8>, i: nat, s: JsonBoundary)
    requires
        object_close(raw, i, s) is Some,
    ensures
        boundary_close(raw, i, s) == object_close(raw, i, s),
    decreases raw.len() - i,
{
    if i < raw.len() {
        let (next, closed) = boundary_step(s, raw[i as int]);
        if !closed {
            lemma_object_end_is_boundary(raw, i + 1, next);
        }
    }
}


/// The most that the statusline command reads from its input.
pub open spec fn statusline_limit() -> nat {
    1_048_576
}

/// What reading one more byte of statusline input gave.
#[derive(Debug, Clone, Copy, PartialEq, Eq, Structural)]
pub enum Intake {
    /// The object is not closed yet and there is room for more.
    More,
    /// The byte closed the outermost object.
    Complete,
    /// The limit is reached without a closed object.
    Full,
}

/// Reads the statusline input byte by byte up to the end of its first JSON
/// object, within a limit.
#[derive(Debug)]
pub struct StatuslineReader {
    pub raw: Vec<u8>,
    pub boundary: JsonBoundary,
}

impl StatuslineReader {
    pub open spec fn wf(&self) -> bool {
        &&& self.raw@.len() < statusline_limit()
        &&& self.boundary.depth <= self.raw@.len()
        &&& (self.boundary, self.raw@.len()) == scan_from(self.raw@)
    }

    /// Nothing read yet.
    pub fn new() -> (r: StatuslineReader)
        ensures
            r.wf(),
            r.raw@.len() == 0,
    {
        let r = StatuslineReader { raw: Vec::new(), boundary: JsonBoundary::new() };
        assert(r.raw@ =~= Seq::<u8>::empty());
        r
    }

    /// Takes one byte. The bytes read so far stay in `raw`; reading stops at
    /// the byte that closes the first object, or at the limit.
    pub fn accept(&mut self, byte: u8) -> (r: Intake)
        requires
            old(self).wf(),
        ensures
            final(self).raw@ == old(self).raw@.push(byte),
            final(self).boundary == boundary_step(old(self).boundary, byte).0,
            r == Intake::Complete <==> boundary_step(old(self).boundary, byte).1,
            r == Intake::Full <==> !boundary_step(old(self).boundary, byte).1 && final(self).raw@.len()
                == statusline_limit(),
            r == Intake::More ==> final(self).wf(),
    {
        let ghost before = self.raw@;
        self.raw.push(byte);
        let closed = self.boundary.push(byte);
        proof {
            assert(self.raw@.drop_last() =~= before);
        }
        if closed {
            Intake::Complete
        } else if self.raw.len() >= 1_048_576 {
            Intake::Full
        } else {
            Intake::More
        }
    }
}

/// The scanner after a byte string, and how many bytes it read.
pub open spec fn scan_from(raw: Seq<u8>) -> (JsonBoundary, nat)
    decreases raw.len(),
{
    if raw.len() == 0 {
        (fresh_boundary(), 0)
    } else {
        let (b, n) = scan_from(raw.drop_last());
        (boundary_step(b, raw.last()).0, n + 1)
    }
}

/// The error of statusline input that ends, or runs past the limit,
/// before its first object is closed.
pub fn statusline_incomplete() -> (s: String)
    ensures
        s@ == "Anthropic statusline input is incomplete or exceeds 1048576 bytes"@,
{
    "Anthropic statusline input is incomplete or exceeds 1048576 bytes".to_owned()
}


/// The OpenRouter key file: at most 16 KiB of UTF-8 whose text, without
/// surrounding whitespace, is the key.
pub open spec fn token_of(raw: Seq<u8>) -> Result<Seq<char>, Seq<char>> {
    if raw.len() > 16384 {
        Err("OpenRouter token exceeds 16384 bytes"@)
    } else if !vstd::utf8::valid_utf8(raw) {
        Err("OpenRouter token is not UTF-8"@)
    } else {
        let t = crate::parse::trim_spec(vstd::utf8::decode_utf8(raw));
        if t.len() == 0 {
            Err("OpenRouter token is empty"@)
        } else {
            Ok(t)
        }
    }
}

/// Reads the OpenRouter key from the bytes of its file.
pub fn openrouter_token(raw: &[u8]) -> (r: Result<String, ProbeError>)
    ensures
        match token_of(raw@) {
            Ok(t) => r matches Ok(s) && s@ == t,
            Err(m) => r matches Err(ProbeError::Unit(e)) && e@ == m,
        },
{
    if raw.len() > 16384 {
        return Err(ProbeError::Unit("OpenRouter token exceeds 16384 bytes".to_owned()));
    }
    let chars = match crate::parse::decode_text(raw) {
        Ok(c) => c,
        Err(_) => return Err(ProbeError::Unit("OpenRouter token is not UTF-8".to_owned())),
    };
    let t = crate::parse::trim(chars.as_slice());
    if t.len() == 0 {
        return Err(ProbeError::Unit("OpenRouter token is empty".to_owned()));
    }
    let mut s = String::new();
    for i in 0..t.len()
        invariant
            s@ == t@.take(i as int),
    {
        crate::text::push_char(&mut s, t[i]);
        assert(s@ =~= t@.take((i + 1) as int));
    }
    assert(t@.take(t@.len() as int) =~= t@);
    Ok(s)
}


/// What to do with one line that the Codex app-server wrote while a call
/// waits for its answer.
#[derive(Debug)]
pub enum RpcStep {
    /// The line answers another call: read on.
    Skip,
    /// The line carries the call's result.
    Answered,
    /// The line answers the call without a result.
    Failed(ProbeError),
}

/// The step for a line with id `id` (none when it has no numeric id), when
/// the call waits for `expected`: a result wins over a fault, and a line
/// with neither is an error.
pub open spec fn rpc_step_spec(expected: u64, id: Option<u64>, has_result: bool, fault: Option<(i64, Seq<char>)>) -> Option<Option<Seq<char>>> {
    if id != Some(expected) {
        None
    } else if has_result {
        Some(None)
    } else {
        match fault {
            Some((code, message)) => Some(Some("Codex RPC "@ + crate::text::signed_dec(code as int) + ": "@ + message)),
            None => Some(Some("Codex RPC omitted its result"@)),
        }
    }
}

/// Decides what a line of the app-server's output means for the call.
pub fn rpc_step(expected: u64, id: Option<u64>, has_result: bool, fault: Option<(i64, String)>) -> (step: RpcStep)
    ensures
        match rpc_step_spec(
            expected,
            id,
            has_result,
            match fault {
                Some((c, m)) => Some((c, m@)),
                None => None,
            },
        ) {
            None => step is Skip,
            Some(None) => step is Answered,
            Some(Some(t)) => step matches RpcStep::Failed(ProbeError::Unit(m)) && m@ == t,
        },
{
    if id != Some(expected) {
        return RpcStep::Skip;
    }
    if has_result {
        return RpcStep::Answered;
    }
    match fault {
        Some((code, message)) => {
            let mut text = String::new();
            push_str(&mut text, "Codex RPC ");
            crate::text::push_signed(&mut text, code);
            push_str(&mut text, ": ");
            push_str(&mut text, message.as_str());
            RpcStep::Failed(ProbeError::Unit(text))
        },
        None => RpcStep::Failed(ProbeError::Unit("Codex RPC omitted its result".to_owned())),
    }
}

/// One rate-limit window as the Codex app-server reports it: its length in
/// minutes, the share used as a whole percent (none when it was no finite
/// number), when it resets and the local text of that moment.
#[derive(Debug)]
pub struct CodexWindow {
    pub minutes: Option<u64>,
    pub used_percent: Option<u8>,
    pub resets_at: Option<i64>,
    pub reset_label: Option<String>,
}

/// The two windows of a Codex rate-limit snapshot.
#[derive(Debug)]
pub struct CodexSnapshot {
    pub primary: Option<CodexWindow>,
    pub secondary: Option<CodexWindow>,
}

/// The length of the weekly window, in minutes.
pub open spec fn week_minutes() -> u64 {
    10080
}

/// The weekly window of a snapshot: the first of its windows that lasts a
/// week.
pub open spec fn weekly_window(s: CodexSnapshot) -> Option<CodexWindow> {
    if s.primary matches Some(w) && w.minutes == Some(week_minutes()) {
        s.primary
    } else if s.secondary matches Some(w) && w.minutes == Some(week_minutes()) {
        s.secondary
    } else {
        None
    }
}

/// The feed of a Codex answer: the snapshot of the `codex` limit when the
/// answer has one, else the general one; its weekly window as the one limit,
/// with the share that remains.
pub open spec fn codex_feed_spec(captured_at: i128, by_limit: Option<CodexSnapshot>, general: Option<CodexSnapshot>) -> Result<(i128, Limit), Seq<char>> {
    let chosen = if by_limit is Some { by_limit } else { general };
    match chosen {
        None => Err("Codex returned no rate-limit snapshot"@),
        Some(s) => match weekly_window(s) {
            None => Err("Codex returned no weekly rate limit"@),
            Some(w) => match w.used_percent {
                None => Err("Codex returned an invalid weekly percentage"@),
                Some(used) => Ok((captured_at, Limit {
                    window: Some(Window::Week),
                    remaining: Quantity::Percent(100u8.saturating_sub(used)),
                    resets_at: w.resets_at,
                    reset_label: w.reset_label,
                })),
            },
        },
    }
}

fn weekly_of(snapshot: CodexSnapshot) -> (w: Option<CodexWindow>)
    ensures
        w == weekly_window(snapshot),
{
    let CodexSnapshot { primary, secondary } = snapshot;
    let primary_is_week = match &primary {
        Some(w) => w.minutes == Some(10080u64),
        None => false,
    };
    if primary_is_week {
        return primary;
    }
    let secondary_is_week = match &secondary {
        Some(w) => w.minutes == Some(10080u64),
        None => false,
    };
    if secondary_is_week {
        secondary
    } else {
        None
    }
}

/// The feed of a Codex answer: `by_limit` is the snapshot that the answer
/// keys by the `codex` limit, `general` the one it gives for all limits.
pub fn codex_feed(captured_at: i128, by_limit: Option<CodexSnapshot>, general: Option<CodexSnapshot>) -> (f: Feed)
    ensures
        match codex_feed_spec(captured_at, by_limit, general) {
            Ok((at, limit)) => f matches Ok(s) && s.captured_at == at && s.limits@ == seq![limit],
            Err(m) => f matches Err(ProbeError::Unit(e)) && e@ == m,
        },
{
    let chosen = match by_limit {
        Some(s) => Some(s),
        None => general,
    };
    let snapshot = match chosen {
        Some(s) => s,
        None => return Err(ProbeError::Unit("Codex returned no rate-limit snapshot".to_owned())),
    };
    let weekly = match weekly_of(snapshot) {
        Some(w) => w,
        None => return Err(ProbeError::Unit("Codex returned no weekly rate limit".to_owned())),
    };
    let used = match weekly.used_percent {
        Some(u) => u,
        None => return Err(ProbeError::Unit("Codex returned an invalid weekly percentage".to_owned())),
    };
    let mut limits: Vec<Limit> = Vec::new();
    limits.push(Limit {
        window: Some(Window::Week),
        remaining: Quantity::Percent(100u8.saturating_sub(used)),
        resets_at: weekly.resets_at,
        reset_label: weekly.reset_label,
    });
    assert(limits@ =~= seq![limits@[0]]);
    Ok(Snapshot { captured_at, limits })
}

/// A saved quota posture comes back on any quota unit whose providers
/// include the saved one, whatever its other providers and their order: the
/// same projection, the saved provider selected, and the unit's own provider
/// list kept. (A posture whose provider the unit lacks is refused and
/// changes nothing: `lemma_refused_posture_keeps_modes`.)
pub proof fn lemma_quota_posture_restores(saved: Model, fresh: Model, j: int)
    requires
        saved.wf(),
        fresh.wf(),
        0 <= j < fresh.modes.right.cycle.spec_points().len(),
        source_of(fresh.modes.right.cycle.spec_points()[j]) == saved.modes.right.focused(),
    ensures
        ({
            let (applied, modes) = crate::units::restored_orbit(
                seq![saved.modes.left.point_name(), saved.modes.right.point_name()],
                fresh.modes,
            );
            &&& applied
            &&& modes.inv()
            &&& modes.left == saved.modes.left
            &&& modes.right.focused() == saved.modes.right.focused()
            &&& modes.right.same_frame(&fresh.modes.right)
            &&& modes.right.point_name() == saved.modes.right.point_name()
        }),
{
    crate::units::lemma_posture_round_trip(saved.modes.left, fresh.modes.left);
    let name = saved.modes.right.point_name();
    let f = fresh.modes.right;
    FiniteCycle::<ProviderConfig>::lemma_refocused(f.cycle, j as nat);
    let w = Providers { cycle: f.cycle.refocused(j as nat) };
    assert(w.inv() && w.same_frame(&f) && w.point_name() == name);
    assert(crate::units::can_seek(f, name));
    let s = crate::units::sought(f, name);
    assert(s.inv() && s.same_frame(&f) && s.point_name() == name);
    lemma_provider_names_distinct(s.focused(), saved.modes.right.focused());
}

} // verus!
