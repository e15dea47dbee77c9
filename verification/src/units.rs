//! The closed unit algebra: cyclic mode axes, their product under the two
//! mouse generators, named postures that survive restarts, and the
//! reactions that a click produces.

use vstd::prelude::*;
use vstd::view::View as _;

use crate::bar::{error_runs, Button, View};
use crate::text::{push_decimal, push_str};

pub mod bat;
pub mod cpu;
pub mod disk;
pub mod mem;
pub mod net;
pub mod quota;
pub mod time;
pub mod weather;
pub mod wifi;

verus! {

broadcast use vstd::string::group_string_axioms;

/// `n` successive steps of a cycle.
pub open spec fn iterate<C: Cycle>(c: C, n: nat) -> C
    decreases n,
{
    if n == 0 {
        c
    } else {
        iterate(c.step(), (n - 1) as nat)
    }
}

/// A finite cyclic mode axis: `advance` moves to the successor, and after
/// `period` advances every point is back where it started.
pub trait Cycle: Sized {
    /// Well-formedness of a point of the axis.
    spec fn inv(&self) -> bool;

    /// The number of points on the axis.
    spec fn period(&self) -> nat;

    /// The index of the point on its axis.
    spec fn position(&self) -> nat;

    /// Whether two points lie on the same axis (for a configured axis: the
    /// same configuration).
    spec fn same_frame(&self, other: &Self) -> bool;

    /// The successor of a point.
    spec fn step(self) -> Self;

    proof fn lemma_step(s: Self)
        requires
            s.inv(),
        ensures
            s.step().inv(),
            s.period() > 0,
            s.position() < s.period(),
            s.step().position() == (s.position() + 1) % s.period(),
            s.step().same_frame(&s),
    ;

    proof fn lemma_frame(a: Self, b: Self, c: Self)
        ensures
            a.same_frame(&a),
            a.same_frame(&b) ==> b.same_frame(&a),
            a.same_frame(&b) && b.same_frame(&c) ==> a.same_frame(&c),
            a.same_frame(&b) ==> a.period() == b.period(),
    ;

    /// A point is determined by its axis and its index.
    proof fn lemma_position_determines(a: Self, b: Self)
        requires
            a.inv(),
            b.inv(),
            a.same_frame(&b),
            a.position() == b.position(),
        ensures
            a == b,
    ;

    fn advance(&mut self)
        requires
            old(self).inv(),
        ensures
            *final(self) == old(self).step(),
    ;
}

proof fn lemma_iterate<C: Cycle>(s: C, k: nat)
    requires
        s.inv(),
    ensures
        iterate(s, k).inv(),
        iterate(s, k).same_frame(&s),
        iterate(s, k).position() == (s.position() + k) % s.period(),
    decreases k,
{
    C::lemma_step(s);
    C::lemma_frame(s, s, s);
    if k == 0 {
        vstd::arithmetic::div_mod::lemma_small_mod(s.position(), s.period());
    } else {
        let t = s.step();
        lemma_iterate(t, (k - 1) as nat);
        let it = iterate(t, (k - 1) as nat);
        C::lemma_frame(it, t, s);
        C::lemma_frame(t, s, s);
        let n = s.period() as int;
        vstd::arithmetic::div_mod::lemma_add_mod_noop(s.position() + 1int, k - 1, n);
        vstd::arithmetic::div_mod::lemma_add_mod_noop(t.position() as int, k - 1, n);
        vstd::arithmetic::div_mod::lemma_mod_twice(s.position() + 1int, n);
        vstd::arithmetic::div_mod::lemma_mod_twice(k - 1, n);
    }
}

/// After as many advances as the axis has points, every point is back.
pub proof fn lemma_cycle_period<C: Cycle>(s: C)
    requires
        s.inv(),
    ensures
        iterate(s, s.period()) == s,
{
    C::lemma_step(s);
    lemma_iterate(s, s.period());
    let n = s.period() as int;
    vstd::arithmetic::div_mod::lemma_add_mod_noop(s.position() as int, n, n);
    vstd::arithmetic::div_mod::lemma_mod_self_0(n);
    vstd::arithmetic::div_mod::lemma_small_mod(s.position(), s.period());
    C::lemma_position_determines(iterate(s, s.period()), s);
}

/// A cyclic axis whose points have names, so that a point can be saved and
/// sought again after a restart.
pub trait RestorableCycle: Cycle {
    /// The name of a point.
    spec fn point_name(&self) -> Seq<char>;

    /// Names are unique on an axis.
    proof fn lemma_name_determines(a: Self, b: Self)
        requires
            a.inv(),
            b.inv(),
            a.same_frame(&b),
            a.point_name() == b.point_name(),
        ensures
            a == b,
    ;

    fn point(&self) -> (p: &'static str)
        requires
            self.inv(),
        ensures
            p@ == self.point_name(),
    ;

    fn has_point(&self, point: &str) -> (found: bool)
        requires
            self.inv(),
        ensures
            found == exists|s: Self|
                #![trigger s.point_name()]
                s.inv() && s.same_frame(self) && s.point_name() == point@,
    ;

    fn seek(&mut self, point: &str) -> (found: bool)
        requires
            old(self).inv(),
        ensures
            final(self).inv(),
            final(self).same_frame(old(self)),
            found <==> exists|s: Self|
                #![trigger s.point_name()]
                s.inv() && s.same_frame(old(self)) && s.point_name() == point@,
            found ==> final(self).point_name() == point@,
            !found ==> *final(self) == *old(self),
    ;
}

/// The point of an axis with a given name, when there is one.
pub open spec fn sought<C: RestorableCycle>(c: C, name: Seq<char>) -> C {
    if exists|s: C| #![trigger s.point_name()] s.inv() && s.same_frame(&c) && s.point_name() == name {
        choose|s: C| #![trigger s.point_name()] s.inv() && s.same_frame(&c) && s.point_name() == name
    } else {
        c
    }
}

/// Whether some point of the axis has the name.
pub open spec fn can_seek<C: RestorableCycle>(c: C, name: Seq<char>) -> bool {
    exists|s: C| #![trigger s.point_name()] s.inv() && s.same_frame(&c) && s.point_name() == name
}

proof fn lemma_seek_is_sought<C: RestorableCycle>(before: C, after: C, name: Seq<char>, found: bool)
    requires
        before.inv(),
        after.inv(),
        after.same_frame(&before),
        found <==> can_seek(before, name),
        found ==> after.point_name() == name,
        !found ==> after == before,
    ensures
        after == sought(before, name),
{
    if found {
        assert(can_seek(before, name));
        let s = sought(before, name);
        assert(s.inv() && s.same_frame(&before) && s.point_name() == name);
        C::lemma_frame(after, before, s);
        C::lemma_frame(s, before, after);
        assert(after.same_frame(&s));
        C::lemma_name_determines(after, s);
    }
}

/// A structurally nonempty, configuration-driven cyclic axis.
#[derive(Debug)]
pub struct FiniteCycle<T> {
    points: Vec<T>,
    focus: usize,
}

impl<T> FiniteCycle<T> {
    /// The configured points, in order.
    pub closed spec fn spec_points(&self) -> Seq<T> {
        self.points@
    }

    /// The index of the focused point.
    pub closed spec fn spec_focus(&self) -> nat {
        self.focus as nat
    }

    /// Whether two cycles run over the very same configured points.
    pub closed spec fn same_points(&self, other: &Self) -> bool {
        self.points == other.points
    }

    /// The same cycle focused on another index.
    pub closed spec fn refocused(self, i: nat) -> Self {
        FiniteCycle { points: self.points, focus: i as usize }
    }

    pub proof fn lemma_refocused(c: Self, i: nat)
        requires
            c.inv(),
            i < c.spec_points().len(),
        ensures
            c.refocused(i).same_points(&c),
            c.refocused(i).spec_points() == c.spec_points(),
            c.refocused(i).spec_focus() == i,
            c.refocused(i).inv(),
    {
    }

    /// Cycles over the same points have the same point sequence.
    pub proof fn lemma_same_points(a: Self, b: Self)
        requires
            a.same_points(&b),
        ensures
            a.spec_points() == b.spec_points(),
    {
    }

    /// A cycle over `first` and then `rest`, focused on `first`.
    pub fn new(first: T, rest: Vec<T>) -> (c: Self)
        ensures
            c.inv(),
            c.spec_points() == seq![first] + rest@,
            c.spec_focus() == 0,
    {
        let mut points = Vec::new();
        points.push(first);
        let mut rest = rest;
        points.append(&mut rest);
        let _ = points.len();
        FiniteCycle { points, focus: 0 }
    }

    /// The focused point.
    pub fn focus(&self) -> (t: &T)
        requires
            self.inv(),
        ensures
            *t == self.spec_points()[self.spec_focus() as int],
    {
        &self.points[self.focus]
    }

    /// The index of the focused point.
    pub fn focus_index(&self) -> (i: usize)
        ensures
            i == self.spec_focus(),
    {
        self.focus
    }

    /// All configured points, in order.
    pub fn points(&self) -> (p: &[T])
        ensures
            p@ == self.spec_points(),
    {
        self.points.as_slice()
    }

    /// Focuses the first point that satisfies `predicate`; reports whether
    /// there was one, and leaves the focus where it was if not.
    pub fn seek<F: Fn(&T) -> bool>(&mut self, predicate: F) -> (found: bool)
        requires
            old(self).inv(),
            forall|i: int| 0 <= i < old(self).spec_points().len() ==> call_requires(predicate, (&old(self).spec_points()[i],)),
        ensures
            final(self).inv(),
            final(self).spec_points() == old(self).spec_points(),
            final(self).same_points(old(self)),
            found ==> call_ensures(predicate, (&final(self).spec_points()[final(self).spec_focus() as int],), true),
            found ==> forall|j: int| 0 <= j < final(self).spec_focus() ==> call_ensures(predicate, (&old(self).spec_points()[j],), false),
            !found ==> *final(self) == *old(self),
            !found ==> forall|j: int| 0 <= j < old(self).spec_points().len() ==> call_ensures(predicate, (&old(self).spec_points()[j],), false),
    {
        let n = self.points.len();
        let mut i: usize = 0;
        while i < n
            invariant
                n == self.points@.len(),
                i <= n,
                *self == *old(self),
                forall|k: int| 0 <= k < n ==> call_requires(predicate, (&self.points@[k],)),
                forall|j: int| 0 <= j < i ==> call_ensures(predicate, (&self.points@[j],), false),
            decreases n - i,
        {
            if predicate(&self.points[i]) {
                self.focus = i;
                return true;
            }
            i = i + 1;
        }
        false
    }

    /// Focuses the point at `index`.
    pub fn seek_index(&mut self, index: usize)
        requires
            old(self).inv(),
            index < old(self).spec_points().len(),
        ensures
            final(self).inv(),
            final(self).spec_points() == old(self).spec_points(),
            final(self).same_points(old(self)),
            final(self).spec_focus() == index,
            *final(self) == old(self).refocused(index as nat),
    {
        self.focus = index;
    }
}

impl<T> Cycle for FiniteCycle<T> {
    open spec fn inv(&self) -> bool {
        self.spec_focus() < self.spec_points().len() <= usize::MAX
    }

    open spec fn period(&self) -> nat {
        self.spec_points().len()
    }

    open spec fn position(&self) -> nat {
        self.spec_focus()
    }

    open spec fn same_frame(&self, other: &Self) -> bool {
        self.same_points(other)
    }

    closed spec fn step(self) -> Self {
        FiniteCycle {
            points: self.points,
            focus: if self.focus + 1 < self.points@.len() {
                (self.focus + 1) as usize
            } else {
                0
            },
        }
    }

    proof fn lemma_step(s: Self) {
        let n = s.points@.len() as int;
        if s.focus + 1 < n {
            vstd::arithmetic::div_mod::lemma_small_mod((s.focus + 1) as nat, n as nat);
        } else {
            vstd::arithmetic::div_mod::lemma_mod_self_0(n);
        }
    }

    proof fn lemma_frame(a: Self, b: Self, c: Self) {
    }

    proof fn lemma_position_determines(a: Self, b: Self) {
    }

    fn advance(&mut self) {
        let n = self.points.len();
        if self.focus + 1 < n {
            self.focus = self.focus + 1;
        } else {
            self.focus = 0;
        }
    }
}

/// The product of two cyclic mode axes: left click advances the left axis,
/// right click the right one, and every other button is the identity.
#[derive(Debug, Clone, Copy, PartialEq, Eq)]
pub struct MouseOrbit<L, R> {
    pub left: L,
    pub right: R,
}

/// The orbit after one click.
pub open spec fn act_spec<L: Cycle, R: Cycle>(o: MouseOrbit<L, R>, button: crate::bar::Button) -> MouseOrbit<L, R> {
    match button {
        crate::bar::Button::Left => MouseOrbit { left: o.left.step(), right: o.right },
        crate::bar::Button::Right => MouseOrbit { left: o.left, right: o.right.step() },
        _ => o,
    }
}

impl<L: Cycle, R: Cycle> MouseOrbit<L, R> {
    pub open spec fn inv(&self) -> bool {
        self.left.inv() && self.right.inv()
    }

    pub fn new(left: L, right: R) -> (o: Self)
        ensures
            o.left == left,
            o.right == right,
    {
        MouseOrbit { left, right }
    }

    pub fn left(&self) -> (l: &L)
        ensures
            *l == self.left,
    {
        &self.left
    }

    pub fn right(&self) -> (r: &R)
        ensures
            *r == self.right,
    {
        &self.right
    }

    /// Applies one click; reports whether the orbit moved.
    pub fn act(&mut self, button: crate::bar::Button) -> (moved: bool)
        requires
            old(self).inv(),
        ensures
            *final(self) == act_spec(*old(self), button),
            final(self).inv(),
            moved == (button == crate::bar::Button::Left || button == crate::bar::Button::Right),
    {
        proof {
            L::lemma_step(self.left);
            R::lemma_step(self.right);
        }
        match button {
            crate::bar::Button::Left => {
                self.left.advance();
                true
            },
            crate::bar::Button::Right => {
                self.right.advance();
                true
            },
            _ => false,
        }
    }
}

/// `n` successive clicks of one button.
pub open spec fn clicks<L: Cycle, R: Cycle>(o: MouseOrbit<L, R>, button: crate::bar::Button, n: nat) -> MouseOrbit<L, R>
    decreases n,
{
    if n == 0 {
        o
    } else {
        clicks(act_spec(o, button), button, (n - 1) as nat)
    }
}

proof fn lemma_left_clicks<L: Cycle, R: Cycle>(o: MouseOrbit<L, R>, n: nat)
    ensures
        clicks(o, crate::bar::Button::Left, n) == (MouseOrbit { left: iterate(o.left, n), right: o.right }),
    decreases n,
{
    if n > 0 {
        lemma_left_clicks(act_spec(o, crate::bar::Button::Left), (n - 1) as nat);
    }
}

proof fn lemma_right_clicks<L: Cycle, R: Cycle>(o: MouseOrbit<L, R>, n: nat)
    ensures
        clicks(o, crate::bar::Button::Right, n) == (MouseOrbit { left: o.left, right: iterate(o.right, n) }),
    decreases n,
{
    if n > 0 {
        lemma_right_clicks(act_spec(o, crate::bar::Button::Right), (n - 1) as nat);
    }
}

/// The mouse action is the product `C_m x C_n` of the two axes: the two
/// generators commute, every button but left and right is the identity,
/// and each generator returns to the start after as many clicks as its
/// axis has points (for two binary axes: the Klein four-group, each
/// generator its own inverse).
pub proof fn lemma_orbit_is_a_product<L: Cycle, R: Cycle>(o: MouseOrbit<L, R>, other: u8)
    requires
        o.inv(),
    ensures
        act_spec(act_spec(o, crate::bar::Button::Left), crate::bar::Button::Right) == act_spec(
            act_spec(o, crate::bar::Button::Right),
            crate::bar::Button::Left,
        ),
        act_spec(o, crate::bar::Button::Middle) == o,
        act_spec(o, crate::bar::Button::Other(other)) == o,
        clicks(o, crate::bar::Button::Left, o.left.period()) == o,
        clicks(o, crate::bar::Button::Right, o.right.period()) == o,
{
    lemma_left_clicks(o, o.left.period());
    lemma_right_clicks(o, o.right.period());
    lemma_cycle_period(o.left);
    lemma_cycle_period(o.right);
}

/// The saved coordinates of a unit's mode axes, one point name per axis.
#[derive(Debug)]
pub struct Posture {
    pub points: Vec<String>,
}

/// The view of a list of names.
pub open spec fn names(v: Seq<String>) -> Seq<Seq<char>> {
    v.map_values(|s: String| s@)
}

impl vstd::view::View for Posture {
    type V = Seq<Seq<char>>;

    open spec fn view(&self) -> Seq<Seq<char>> {
        names(self.points@)
    }
}

/// The result of restoring a one-axis posture: whether it applied, and the
/// point afterwards.
pub open spec fn restored_cycle<C: RestorableCycle>(p: Seq<Seq<char>>, c: C) -> (bool, C) {
    if p.len() == 1 && can_seek(c, p[0]) {
        (true, sought(c, p[0]))
    } else {
        (false, c)
    }
}

/// The result of restoring a two-axis posture: both axes move or neither.
pub open spec fn restored_orbit<L: RestorableCycle, R: RestorableCycle>(p: Seq<Seq<char>>, o: MouseOrbit<L, R>) -> (bool, MouseOrbit<L, R>) {
    if p.len() == 2 && can_seek(o.left, p[0]) && can_seek(o.right, p[1]) {
        (true, MouseOrbit { left: sought(o.left, p[0]), right: sought(o.right, p[1]) })
    } else {
        (false, o)
    }
}

impl Posture {
    /// Whether two postures hold the same names.
    pub fn same(&self, other: &Posture) -> (eq: bool)
        ensures
            eq == (self@ == other@),
    {
        let n = self.points.len();
        if n != other.points.len() {
            assert(self@.len() != other@.len());
            return false;
        }
        for i in 0..n
            invariant
                n == self.points.len(),
                n == other.points.len(),
                forall|j: int| 0 <= j < i ==> self@[j] == other@[j],
        {
            if !(self.points[i] == other.points[i]) {
                assert(self@[i as int] != other@[i as int]);
                return false;
            }
        }
        assert(self@ =~= other@);
        true
    }

    /// A copy of the posture.
    pub fn duplicate(&self) -> (p: Posture)
        ensures
            p@ == self@,
    {
        let mut points: Vec<String> = Vec::new();
        for i in 0..self.points.len()
            invariant
                points@.len() == i,
                forall|j: int| 0 <= j < i ==> points@[j]@ == self.points@[j]@,
        {
            points.push(self.points[i].clone());
        }
        let p = Posture { points };
        assert(p@ =~= self@);
        p
    }

    /// The posture of a single axis.
    pub fn from_cycle<C: RestorableCycle>(cycle: &C) -> (p: Posture)
        requires
            cycle.inv(),
        ensures
            p@ == seq![cycle.point_name()],
    {
        let mut points = Vec::new();
        points.push(cycle.point().to_owned());
        let p = Posture { points };
        assert(p@ =~= seq![cycle.point_name()]);
        p
    }

    /// The posture of two axes, left then right.
    pub fn from_orbit<L: RestorableCycle, R: RestorableCycle>(orbit: &MouseOrbit<L, R>) -> (p: Posture)
        requires
            orbit.inv(),
        ensures
            p@ == seq![orbit.left.point_name(), orbit.right.point_name()],
    {
        let mut points = Vec::new();
        points.push(orbit.left.point().to_owned());
        points.push(orbit.right.point().to_owned());
        let p = Posture { points };
        assert(p@ =~= seq![orbit.left.point_name(), orbit.right.point_name()]);
        p
    }

    /// Seeks the single saved point; reports whether it was found.
    pub fn restore_cycle<C: RestorableCycle>(&self, cycle: &mut C) -> (applied: bool)
        requires
            old(cycle).inv(),
        ensures
            final(cycle).inv(),
            (applied, *final(cycle)) == restored_cycle(self@, *old(cycle)),
    {
        if self.points.len() != 1 {
            return false;
        }
        let ghost before = *cycle;
        let found = cycle.seek(self.points[0].as_str());
        proof {
            lemma_seek_is_sought(before, *cycle, self@[0], found);
        }
        found
    }

    /// Seeks both saved points; if either is missing, neither axis moves.
    pub fn restore_orbit<L: RestorableCycle, R: RestorableCycle>(&self, orbit: &mut MouseOrbit<L, R>) -> (applied: bool)
        requires
            old(orbit).inv(),
        ensures
            final(orbit).inv(),
            (applied, *final(orbit)) == restored_orbit(self@, *old(orbit)),
    {
        if self.points.len() != 2 {
            return false;
        }
        if !orbit.left.has_point(self.points[0].as_str()) || !orbit.right.has_point(
            self.points[1].as_str(),
        ) {
            return false;
        }
        let ghost before = *orbit;
        let found_left = orbit.left.seek(self.points[0].as_str());
        let found_right = orbit.right.seek(self.points[1].as_str());
        proof {
            lemma_seek_is_sought(before.left, orbit.left, self@[0], found_left);
            lemma_seek_is_sought(before.right, orbit.right, self@[1], found_right);
        }
        true
    }
}

/// Restoring the posture of a point on any point of the same axis gives the
/// saved point back.
pub proof fn lemma_posture_round_trip<C: RestorableCycle>(saved: C, current: C)
    requires
        saved.inv(),
        current.inv(),
        saved.same_frame(&current),
    ensures
        restored_cycle(seq![saved.point_name()], current) == (true, saved),
{
    C::lemma_frame(saved, current, current);
    assert(can_seek(current, saved.point_name()));
    let s = choose|s: C| #![trigger s.point_name()] s.inv() && s.same_frame(&current) && s.point_name() == saved.point_name();
    C::lemma_frame(s, current, saved);
    C::lemma_frame(saved, current, s);
    C::lemma_name_determines(s, saved);
}

/// Restoring the posture of an orbit on any orbit over the same axes gives
/// the saved orbit back.
pub proof fn lemma_orbit_posture_round_trip<L: RestorableCycle, R: RestorableCycle>(saved: MouseOrbit<L, R>, current: MouseOrbit<L, R>)
    requires
        saved.inv(),
        current.inv(),
        saved.left.same_frame(&current.left),
        saved.right.same_frame(&current.right),
    ensures
        restored_orbit(seq![saved.left.point_name(), saved.right.point_name()], current) == (true, saved),
{
    lemma_posture_round_trip(saved.left, current.left);
    lemma_posture_round_trip(saved.right, current.right);
}

/// What a click asks of the scheduler.
#[derive(Debug)]
pub enum Reaction {
    /// Nothing changes.
    Inert,
    /// Fresh data is needed.
    Refresh,
    /// A new projection of the data already held.
    Publish(View),
}

impl Reaction {
    pub fn inert() -> (r: Reaction)
        ensures
            r is Inert,
    {
        Reaction::Inert
    }

    pub fn refresh() -> (r: Reaction)
        ensures
            r is Refresh,
    {
        Reaction::Refresh
    }

    pub fn publish(view: View) -> (r: Reaction)
        ensures
            r matches Reaction::Publish(v) && v.body@ == view.body@ && v.health == view.health,
    {
        Reaction::Publish(view)
    }
}

/// A failure to move bytes: a timeout, an HTTP status, or a message.
#[derive(Debug)]
pub enum TransportError {
    Timeout,
    Http(u16),
    Message(String),
}

/// Why a probe produced no sample.
#[derive(Debug)]
pub enum ProbeError {
    Transport(TransportError),
    Unit(String),
}

/// The text of a probe failure.
pub open spec fn probe_error_text(e: ProbeError) -> Seq<char> {
    match e {
        ProbeError::Transport(TransportError::Timeout) => "timeout"@,
        ProbeError::Transport(TransportError::Http(status)) => "HTTP "@ + crate::text::dec(status as nat),
        ProbeError::Transport(TransportError::Message(m)) => m@,
        ProbeError::Unit(m) => m@,
    }
}

impl ProbeError {
    /// The human-readable text of the failure.
    pub fn message(&self) -> (s: String)
        ensures
            s@ == probe_error_text(*self),
    {
        match self {
            ProbeError::Transport(TransportError::Timeout) => "timeout".to_owned(),
            ProbeError::Transport(TransportError::Http(status)) => {
                let mut s = String::new();
                push_str(&mut s, "HTTP ");
                push_decimal(&mut s, *status as u64);
                s
            },
            ProbeError::Transport(TransportError::Message(m)) => m.clone(),
            ProbeError::Unit(m) => m.clone(),
        }
    }
}

/// The error view of a failed probe.
pub fn error_view(label: &str, error: ProbeError) -> (v: View)
    ensures
        v.body@ == error_runs(label@, probe_error_text(error)),
        v.health == crate::bar::Health::Error,
{
    let message = error.message();
    View::error(label, message.as_str())
}


/// A configured duration: whole nanoseconds, or why the configured number
/// names no duration.
#[derive(Debug)]
pub enum Setting {
    Nanos(u128),
    Invalid(String),
}

/// One year of 8766 hours, in nanoseconds.
pub open spec fn year_nanos() -> nat {
    31_557_600_000_000_000
}

/// The error of a configured duration, if it has one: not a duration, zero,
/// or longer than a year.
pub open spec fn duration_fault(name: Seq<char>, setting: Setting) -> Option<Seq<char>> {
    match setting {
        Setting::Invalid(e) => Some(name + " is not a valid duration: "@ + e@),
        Setting::Nanos(n) => if n == 0 {
            Some(name + " must be positive"@)
        } else if n > year_nanos() {
            Some(name + " cannot exceed one year"@)
        } else {
            None
        },
    }
}

/// Checks a configured duration: it must be a positive duration of at most
/// a year.
pub fn positive_duration(name: &str, setting: Setting) -> (r: Result<u128, String>)
    ensures
        match r {
            Ok(n) => duration_fault(name@, setting) is None && setting == Setting::Nanos(n),
            Err(e) => duration_fault(name@, setting) == Some(e@),
        },
{
    match setting {
        Setting::Invalid(e) => {
            let mut m = String::new();
            push_str(&mut m, name);
            push_str(&mut m, " is not a valid duration: ");
            push_str(&mut m, e.as_str());
            Err(m)
        },
        Setting::Nanos(n) => {
            if n == 0 {
                let mut m = String::new();
                push_str(&mut m, name);
                push_str(&mut m, " must be positive");
                Err(m)
            } else if n > 31_557_600_000_000_000 {
                let mut m = String::new();
                push_str(&mut m, name);
                push_str(&mut m, " cannot exceed one year");
                Err(m)
            } else {
                Ok(n)
            }
        },
    }
}


/// A configured unit of the bar.
#[derive(Debug)]
pub enum Unit {
    Bat(bat::Model),
    Cpu(cpu::Model),
    Disk(disk::Model),
    Mem(mem::Model),
    Net(net::Model),
    Quota(quota::Model),
    Time(time::Model),
    Weather(weather::Model),
    Wifi(wifi::Model),
}

/// What one probe of a unit needs.
#[derive(Debug)]
pub enum Request {
    Bat(bat::Request),
    Cpu(cpu::Request),
    Disk(disk::Request),
    Mem(mem::Request),
    Net(net::Request),
    Quota(quota::Request),
    Time(time::Request),
    Weather(weather::Request),
    Wifi(wifi::Request),
}

/// What one probe of a unit produced.
#[derive(Debug)]
pub enum Reply {
    Bat(Result<bat::Reading, ProbeError>),
    Cpu(Result<cpu::Sample, ProbeError>),
    Disk(Result<Option<(u8, u8)>, ProbeError>),
    Mem(Result<mem::Sample, ProbeError>),
    Net(Result<net::Sample, ProbeError>),
    Quota(Result<quota::Sample, ProbeError>),
    Time(Result<time::Sample, ProbeError>),
    Weather(Result<weather::Sample, ProbeError>),
    Wifi(Result<wifi::Sample, ProbeError>),
}

/// The kind name of a unit.
pub open spec fn unit_name(u: Unit) -> Seq<char> {
    match u {
        Unit::Bat(_) => "Bat"@,
        Unit::Cpu(_) => "Cpu"@,
        Unit::Disk(_) => "Disk"@,
        Unit::Mem(_) => "Mem"@,
        Unit::Net(_) => "Net"@,
        Unit::Quota(_) => "Quota"@,
        Unit::Time(_) => "Time"@,
        Unit::Weather(_) => "Weather"@,
        Unit::Wifi(_) => "Wifi"@,
    }
}

/// Whether a reply is of the unit's kind.
pub open spec fn same_kind(u: Unit, r: Reply) -> bool {
    match (u, r) {
        (Unit::Bat(_), Reply::Bat(_)) => true,
        (Unit::Cpu(_), Reply::Cpu(_)) => true,
        (Unit::Disk(_), Reply::Disk(_)) => true,
        (Unit::Mem(_), Reply::Mem(_)) => true,
        (Unit::Net(_), Reply::Net(_)) => true,
        (Unit::Quota(_), Reply::Quota(_)) => true,
        (Unit::Time(_), Reply::Time(_)) => true,
        (Unit::Weather(_), Reply::Weather(_)) => true,
        (Unit::Wifi(_), Reply::Wifi(_)) => true,
        _ => false,
    }
}

/// Whether two units are of the same kind.
pub open spec fn unit_kind_eq(a: Unit, b: Unit) -> bool {
    unit_name(a) == unit_name(b)
}

/// The least cadence of a unit in nanoseconds: fifteen seconds for quota,
/// two minutes for weather, none for the others.
pub open spec fn cadence_floor(u: Unit) -> u128 {
    match u {
        Unit::Quota(_) => 15_000_000_000,
        Unit::Weather(_) => 120_000_000_000,
        _ => 0,
    }
}

/// The saved posture of a unit, if it has one.
pub open spec fn unit_posture(u: Unit) -> Option<Seq<Seq<char>>> {
    match u {
        Unit::Bat(m) => Some(seq![m.mode.point_name()]),
        Unit::Cpu(m) => Some(seq![m.mode.point_name()]),
        Unit::Disk(_) => None,
        Unit::Mem(m) => Some(seq![m.mode.point_name()]),
        Unit::Net(m) => Some(seq![m.mode.point_name()]),
        Unit::Quota(m) => Some(seq![m.modes.left.point_name(), m.modes.right.point_name()]),
        Unit::Time(m) => Some(seq![m.mode.point_name()]),
        Unit::Weather(m) => Some(seq![m.modes.left.point_name(), m.modes.right.point_name()]),
        Unit::Wifi(m) => Some(seq![m.mode.point_name()]),
    }
}

impl Unit {
    /// The well-formedness of the unit's model.
    pub open spec fn wf(&self) -> bool {
        match self {
            Unit::Net(m) => m.wf(),
            Unit::Quota(m) => m.wf(),
            Unit::Weather(m) => m.wf(),
            _ => true,
        }
    }

    /// The kind name of the unit.
    pub fn name(&self) -> (n: &'static str)
        ensures
            n@ == unit_name(*self),
    {
        match self {
            Unit::Bat(_) => "Bat",
            Unit::Cpu(_) => "Cpu",
            Unit::Disk(_) => "Disk",
            Unit::Mem(_) => "Mem",
            Unit::Net(_) => "Net",
            Unit::Quota(_) => "Quota",
            Unit::Time(_) => "Time",
            Unit::Weather(_) => "Weather",
            Unit::Wifi(_) => "Wifi",
        }
    }

    /// The placeholder before the first probe: the kind in lower case,
    /// loading.
    pub fn initial_view(&self) -> (v: View)
        ensures
            v.body@ == crate::bar::loading_runs(crate::units::bat::ascii_lower(unit_name(*self))),
            v.health == crate::bar::Health::Degraded,
    {
        let label = match self {
            Unit::Bat(_) => "bat",
            Unit::Cpu(_) => "cpu",
            Unit::Disk(_) => "disk",
            Unit::Mem(_) => "mem",
            Unit::Net(_) => "net",
            Unit::Quota(_) => "quota",
            Unit::Time(_) => "time",
            Unit::Weather(_) => "weather",
            Unit::Wifi(_) => "wifi",
        };
        proof {
            reveal_strlit("bat");
            reveal_strlit("Bat");
            reveal_strlit("cpu");
            reveal_strlit("Cpu");
            reveal_strlit("disk");
            reveal_strlit("Disk");
            reveal_strlit("mem");
            reveal_strlit("Mem");
            reveal_strlit("net");
            reveal_strlit("Net");
            reveal_strlit("quota");
            reveal_strlit("Quota");
            reveal_strlit("time");
            reveal_strlit("Time");
            reveal_strlit("weather");
            reveal_strlit("Weather");
            reveal_strlit("wifi");
            reveal_strlit("Wifi");
            assert(label@ =~= crate::units::bat::ascii_lower(unit_name(*self)));
        }
        View::loading(label)
    }

    /// The cadence of the unit: the requested one, but not below the
    /// unit's floor.
    pub fn canonical_cadence(&self, requested: u128) -> (c: u128)
        ensures
            c == if requested >= cadence_floor(*self) {
                requested
            } else {
                cadence_floor(*self)
            },
    {
        let floor: u128 = match self {
            Unit::Quota(_) => 15_000_000_000,
            Unit::Weather(_) => 120_000_000_000,
            _ => 0,
        };
        if requested >= floor {
            requested
        } else {
            floor
        }
    }

    /// What the next probe of the unit needs.
    pub fn request(&self) -> (r: Request)
        requires
            self.wf(),
        ensures
            requested(*self, r),
    {
        match self {
            Unit::Bat(m) => Request::Bat(m.request()),
            Unit::Cpu(_) => Request::Cpu(cpu::Model::request()),
            Unit::Disk(m) => Request::Disk(m.request()),
            Unit::Mem(m) => Request::Mem(m.request()),
            Unit::Net(m) => Request::Net(m.request()),
            Unit::Quota(m) => Request::Quota(m.request()),
            Unit::Time(m) => Request::Time(m.request()),
            Unit::Weather(m) => Request::Weather(m.request()),
            Unit::Wifi(m) => Request::Wifi(m.request()),
        }
    }

    /// Hands a probe's reply to the unit's model. A reply of another kind
    /// is refused and changes nothing.
    pub fn apply(&mut self, reply: Reply, wall: i128) -> (r: Result<View, &'static str>)
        requires
            old(self).wf(),
        ensures
            final(self).wf(),
            unit_kind_eq(*final(self), *old(self)),
            unit_posture(*final(self)) == unit_posture(*old(self)),
            same_kind(*old(self), reply) <==> r is Ok,
            r matches Err(e) ==> e@ == "unit/request registry invariant violated"@ && *final(self) == *old(self),
            r matches Ok(v) ==> applied(*old(self), reply, wall, *final(self), v),
    {
        match (self, reply) {
            (Unit::Bat(m), Reply::Bat(r)) => Ok(m.apply(r)),
            (Unit::Cpu(m), Reply::Cpu(r)) => Ok(m.apply(r)),
            (Unit::Disk(m), Reply::Disk(r)) => Ok(m.apply(r)),
            (Unit::Mem(_), Reply::Mem(r)) => Ok(mem::Model::apply(r)),
            (Unit::Net(m), Reply::Net(r)) => Ok(m.apply(r)),
            (Unit::Quota(m), Reply::Quota(r)) => Ok(m.apply(r, wall)),
            (Unit::Time(m), Reply::Time(r)) => Ok(m.apply(r)),
            (Unit::Weather(m), Reply::Weather(r)) => Ok(m.apply(r)),
            (Unit::Wifi(m), Reply::Wifi(r)) => Ok(m.apply(r)),
            _ => Err("unit/request registry invariant violated"),
        }
    }

    /// Hands a click to the unit's model.
    pub fn click(&mut self, button: Button, wall: i128) -> (r: Reaction)
        requires
            old(self).wf(),
        ensures
            final(self).wf(),
            unit_kind_eq(*final(self), *old(self)),
            clicked(*old(self), button, wall, *final(self), r),
    {
        match self {
            Unit::Bat(m) => m.click(button),
            Unit::Cpu(m) => m.click(button),
            Unit::Disk(_) => disk::Model::click(button),
            Unit::Mem(m) => m.click(button),
            Unit::Net(m) => m.click(button),
            Unit::Quota(m) => m.click(button, wall),
            Unit::Time(m) => m.click(button),
            Unit::Weather(m) => m.click(button),
            Unit::Wifi(m) => m.click(button),
        }
    }

    /// The posture of the unit's modes; the disk unit has none.
    pub fn posture(&self) -> (p: Option<Posture>)
        requires
            self.wf(),
        ensures
            match (p, unit_posture(*self)) {
                (Some(q), Some(v)) => q@ == v,
                (None, None) => true,
                _ => false,
            },
    {
        match self {
            Unit::Bat(m) => Some(m.posture()),
            Unit::Cpu(m) => Some(m.posture()),
            Unit::Disk(_) => None,
            Unit::Mem(m) => Some(m.posture()),
            Unit::Net(m) => Some(m.posture()),
            Unit::Quota(m) => Some(m.posture()),
            Unit::Time(m) => Some(m.posture()),
            Unit::Weather(m) => Some(m.posture()),
            Unit::Wifi(m) => Some(m.posture()),
        }
    }

    /// Restores a saved posture; reports whether it applied. A posture
    /// that does not fit leaves the unit as it was.
    pub fn restore(&mut self, posture: &Posture) -> (applied: bool)
        requires
            old(self).wf(),
        ensures
            final(self).wf(),
            unit_kind_eq(*final(self), *old(self)),
            restored(*old(self), posture@, applied, *final(self)),
    {
        match self {
            Unit::Bat(m) => m.restore(posture),
            Unit::Cpu(m) => m.restore(posture),
            Unit::Disk(_) => false,
            Unit::Mem(m) => m.restore(posture),
            Unit::Net(m) => m.restore(posture),
            Unit::Quota(m) => m.restore(posture),
            Unit::Time(m) => m.restore(posture),
            Unit::Weather(m) => m.restore(posture),
            Unit::Wifi(m) => m.restore(posture),
        }
    }
}

/// The request that a unit makes in its current state.
pub open spec fn requested(u: Unit, r: Request) -> bool {
    match (u, r) {
        (Unit::Bat(m), Request::Bat(q)) => q.path@ == m.path@ && q.mode == m.mode,
        (Unit::Cpu(_), Request::Cpu(_)) => true,
        (Unit::Disk(m), Request::Disk(q)) => disk::selector_text(q.selector) == disk::selector_text(m.selector),
        (Unit::Mem(m), Request::Mem(q)) => q == (match m.mode {
            mem::Mode::Totals => mem::Request::Totals,
            mem::Mode::WorstProcess => mem::Request::WorstProcess,
        }),
        (Unit::Net(m), Request::Net(q)) => match m.mode {
            net::Mode::Bandwidth => q matches net::Request::Bandwidth { interface, epoch } && interface@
                == m.interface@ && epoch == m.epoch,
            net::Mode::Ping => q matches net::Request::Ping { server, window, size } && server@ == m.ping_server@
                && window@ == m.pings@ && size == m.ping_window,
        },
        (Unit::Quota(m), Request::Quota(q)) => q.providers.wf() && q.providers.cycle.spec_points()
            == m.modes.right.cycle.spec_points(),
        (Unit::Time(m), Request::Time(q)) => match m.mode {
            time::Mode::DateTime => q matches time::Request::DateTime(f) && f@ == m.format@,
            time::Mode::Uptime => q is Uptime,
        },
        (Unit::Weather(m), Request::Weather(q)) => q.weather_url@ == m.weather_url@ && q.air_url@
            == m.air_url@,
        (Unit::Wifi(m), Request::Wifi(q)) => q.interface@ == m.interface@,
        _ => false,
    }
}

/// What restoring a posture does to a unit: the modes move to the saved
/// points when all of them exist, and nothing else changes.
pub open spec fn restored(before: Unit, p: Seq<Seq<char>>, applied: bool, after: Unit) -> bool {
    match (before, after) {
        (Unit::Bat(b), Unit::Bat(a)) => (applied, a.mode) == restored_cycle(p, b.mode) && a.id == b.id
            && a.path == b.path && a.smoothing == b.smoothing,
        (Unit::Cpu(b), Unit::Cpu(a)) => (applied, a.mode) == restored_cycle(p, b.mode) && a.previous == b.previous,
        (Unit::Disk(b), Unit::Disk(a)) => !applied && a == b,
        (Unit::Mem(b), Unit::Mem(a)) => (applied, a.mode) == restored_cycle(p, b.mode),
        (Unit::Net(b), Unit::Net(a)) => (applied, a.mode) == restored_cycle(p, b.mode) && a.pings == b.pings
            && a.epoch == b.epoch && a.interface == b.interface && a.ping_server == b.ping_server
            && a.ping_window == b.ping_window && a.smoothing == b.smoothing,
        (Unit::Quota(b), Unit::Quota(a)) => (applied, a.modes) == restored_orbit(p, b.modes) && a.latest
            == b.latest && a.label == b.label,
        (Unit::Time(b), Unit::Time(a)) => (applied, a.mode) == restored_cycle(p, b.mode) && a.format == b.format,
        (Unit::Weather(b), Unit::Weather(a)) => (applied, a.modes) == restored_orbit(p, b.modes) && a.latest
            == b.latest && a.units == b.units,
        (Unit::Wifi(b), Unit::Wifi(a)) => (applied, a.mode) == restored_cycle(p, b.mode) && a.interface
            == b.interface,
        _ => false,
    }
}

/// What a click does to a unit and what it answers.
pub open spec fn clicked(before: Unit, button: Button, wall: i128, after: Unit, r: Reaction) -> bool {
    match (before, after) {
        (Unit::Bat(b), Unit::Bat(a)) => a.mode == b.mode.step() && a.id == b.id && a.path == b.path
            && r is Refresh,
        (Unit::Cpu(b), Unit::Cpu(a)) => a.mode == b.mode.step() && a.previous == b.previous && r is Refresh,
        (Unit::Disk(b), Unit::Disk(a)) => a == b && r is Inert,
        (Unit::Mem(b), Unit::Mem(a)) => a.mode == b.mode.step() && r is Refresh,
        (Unit::Net(b), Unit::Net(a)) => a.mode == b.mode.step() && a.interface == b.interface && r is Refresh
            && (a.mode == net::Mode::Bandwidth ==> a.pings@.len() == 0 && a.epoch == b.epoch.wrapping_add(1))
            && (a.mode == net::Mode::Ping ==> a.pings == b.pings && a.epoch == b.epoch),
        (Unit::Quota(b), Unit::Quota(a)) => a.latest == b.latest && a.label == b.label && (button
            == Button::Middle ==> r is Refresh && a.modes == b.modes) && ((button == Button::Left || button
            == Button::Right) ==> a.modes == act_spec(b.modes, button) && match r {
            Reaction::Publish(v) => match a.latest {
                None => v.body@ == crate::bar::loading_runs(a.label@),
                Some(s) => v.body@ == a.projection(s) && v.health == quota::health_of(a.states(s, wall)),
            },
            _ => false,
        }) && ((button is Other) ==> r is Inert && a.modes == b.modes),
        (Unit::Time(b), Unit::Time(a)) => a.mode == b.mode.step() && a.format == b.format && r is Refresh,
        (Unit::Weather(b), Unit::Weather(a)) => a.modes == act_spec(b.modes, button) && a.latest == b.latest
            && a.units == b.units && ((button == Button::Left || button == Button::Right) ==> match r {
            Reaction::Publish(v) => (v.body@, v.health) == weather::model_view(a.latest, a.modes, a.units),
            _ => false,
        }) && (!(button == Button::Left || button == Button::Right) ==> r is Inert),
        (Unit::Wifi(b), Unit::Wifi(a)) => a.mode == b.mode.step() && a.interface == b.interface && r is Refresh,
        _ => false,
    }
}

/// What applying a reply of the unit's kind does and shows.
pub open spec fn applied(before: Unit, reply: Reply, wall: i128, after: Unit, v: View) -> bool {
    match (before, reply, after) {
        (Unit::Bat(b), Reply::Bat(r), Unit::Bat(a)) => a == b && match r {
            Ok(x) => v.body@ == bat::reading_runs(b.mode, x) && v.health == crate::bar::Health::Healthy,
            Err(e) => v.body@ == error_runs("bat"@ + crate::text::dec(b.id as nat), probe_error_text(e))
                && v.health == crate::bar::Health::Error,
        },
        (Unit::Cpu(b), Reply::Cpu(r), Unit::Cpu(a)) => a.mode == b.mode && match r {
            Err(e) => a.previous == b.previous && v.body@ == error_runs("cpu"@, probe_error_text(e))
                && v.health == crate::bar::Health::Error,
            Ok(s) => a.previous == Some(s.times) && match b.previous {
                None => v.body@ == crate::bar::loading_runs("cpu"@) && v.health == crate::bar::Health::Degraded,
                Some(p) => v.body@ == cpu::cpu_runs(b.mode, cpu::delta_of(p, s.times), s.temperature)
                    && v.health == crate::bar::Health::Healthy,
            },
        },
        (Unit::Disk(b), Reply::Disk(r), Unit::Disk(a)) => a == b && match r {
            Ok(None) => v.body@ == crate::bar::loading_runs("disk "@ + b.label@) && v.health
                == crate::bar::Health::Degraded,
            Ok(Some((read, write))) => v.body@ == disk::bars_runs(b.label@, read, write) && v.health
                == crate::bar::Health::Healthy,
            Err(e) => v.body@ == error_runs("disk "@ + b.label@, probe_error_text(e)) && v.health
                == crate::bar::Health::Error,
        },
        (Unit::Mem(b), Reply::Mem(r), Unit::Mem(a)) => a == b && match r {
            Ok(s) => v.body@ == mem::sample_runs(s) && v.health == crate::bar::Health::Healthy,
            Err(e) => v.body@ == error_runs("mem"@, probe_error_text(e)) && v.health
                == crate::bar::Health::Error,
        },
        (Unit::Net(b), Reply::Net(r), Unit::Net(a)) => a.interface == b.interface && a.ping_server
            == b.ping_server && a.ping_window == b.ping_window && a.smoothing == b.smoothing && a.mode
            == b.mode && match r {
            Ok(net::Sample::Bandwidth(None)) => a.pings == b.pings && a.epoch == b.epoch && v.body@
                == crate::bar::loading_runs(net::label(b.interface@)) && v.health == crate::bar::Health::Degraded,
            Ok(net::Sample::Bandwidth(Some(x))) => a.pings == b.pings && a.epoch == b.epoch && v.body@
                == net::rates_runs(b.interface@, x) && v.health == crate::bar::Health::Healthy,
            Ok(net::Sample::Down) => a.pings == b.pings && a.epoch == b.epoch.wrapping_add(1) && v.body@
                == error_runs(net::label(b.interface@), "down"@) && v.health == crate::bar::Health::Error,
            Ok(net::Sample::Ping(p)) => a.epoch == b.epoch && a.pings@ == net::slide(
                b.pings@,
                b.ping_window as nat,
                p.latency,
            ) && (v.body@, v.health) == net::ping_view(
                net::ping_prefix(b.interface@, b.ping_server@),
                a.pings@,
                p.spread,
                p.loss@,
            ),
            Err(e) => a.pings == b.pings && a.epoch == b.epoch.wrapping_add(1) && v.body@ == error_runs(
                net::label(b.interface@),
                probe_error_text(e),
            ) && v.health == crate::bar::Health::Error,
        },
        (Unit::Quota(b), Reply::Quota(r), Unit::Quota(a)) => a.label == b.label && a.modes == b.modes
            && a.stale_after == b.stale_after && a.error_after == b.error_after && match r {
            Ok(new) => a.latest matches Some(s) && v.body@ == a.projection(s) && v.health == quota::health_of(
                a.states(s, wall),
            ) && forall|p: quota::Provider| #[trigger] quota::feed_of(s, p) == quota::merge_feed(
                match b.latest {
                    Some(o) => quota::feed_of(o, p),
                    None => None,
                },
                quota::feed_of(new, p),
            ),
            Err(e) => a.latest == b.latest && v.body@ == error_runs(b.label@, probe_error_text(e)) && v.health
                == crate::bar::Health::Error,
        },
        (Unit::Time(b), Reply::Time(r), Unit::Time(a)) => a == b && match r {
            Ok(s) => v.body@ == time::sample_runs(s) && v.health == crate::bar::Health::Healthy,
            Err(e) => v.body@ == error_runs("time"@, probe_error_text(e)) && v.health
                == crate::bar::Health::Error,
        },
        (Unit::Weather(b), Reply::Weather(r), Unit::Weather(a)) => a.modes == b.modes && a.units == b.units
            && match r {
            Ok(s) => a.latest == Some(s) && (v.body@, v.health) == weather::sample_view(s, a.modes, a.units),
            Err(e) => a.latest == b.latest && v.body@ == error_runs("weather"@, probe_error_text(e)) && v.health
                == crate::bar::Health::Error,
        },
        (Unit::Wifi(b), Reply::Wifi(r), Unit::Wifi(a)) => a == b && match r {
            Ok(s) => (v.body@, v.health) == wifi::sample_view(s, b.interface@, b.mode),
            Err(e) => v.body@ == error_runs("wifi"@, probe_error_text(e)) && v.health
                == crate::bar::Health::Error,
        },
        _ => false,
    }
}


/// Whether two units are of one kind and configured alike as far as their
/// modes go (the quota unit's providers are part of its modes).
pub open spec fn same_configuration(a: Unit, b: Unit) -> bool {
    match (a, b) {
        (Unit::Bat(_), Unit::Bat(_)) => true,
        (Unit::Cpu(_), Unit::Cpu(_)) => true,
        (Unit::Disk(_), Unit::Disk(_)) => true,
        (Unit::Mem(_), Unit::Mem(_)) => true,
        (Unit::Net(_), Unit::Net(_)) => true,
        (Unit::Quota(x), Unit::Quota(y)) => x.modes.right.same_frame(&y.modes.right),
        (Unit::Time(_), Unit::Time(_)) => true,
        (Unit::Weather(_), Unit::Weather(_)) => true,
        (Unit::Wifi(_), Unit::Wifi(_)) => true,
        _ => false,
    }
}

/// Whether two units of one kind are in the same modes.
pub open spec fn same_modes(a: Unit, b: Unit) -> bool {
    match (a, b) {
        (Unit::Bat(x), Unit::Bat(y)) => x.mode == y.mode,
        (Unit::Cpu(x), Unit::Cpu(y)) => x.mode == y.mode,
        (Unit::Disk(_), Unit::Disk(_)) => true,
        (Unit::Mem(x), Unit::Mem(y)) => x.mode == y.mode,
        (Unit::Net(x), Unit::Net(y)) => x.mode == y.mode,
        (Unit::Quota(x), Unit::Quota(y)) => x.modes == y.modes,
        (Unit::Time(x), Unit::Time(y)) => x.mode == y.mode,
        (Unit::Weather(x), Unit::Weather(y)) => x.modes == y.modes,
        (Unit::Wifi(x), Unit::Wifi(y)) => x.mode == y.mode,
        _ => false,
    }
}

/// The posture that a unit saves brings any unit of the same configuration
/// back to the same modes: what a click saves is what a restart restores.
pub proof fn lemma_saved_posture_restores(saved: Unit, fresh: Unit, applied: bool, after: Unit)
    requires
        saved.wf(),
        fresh.wf(),
        same_configuration(saved, fresh),
        unit_posture(saved) is Some,
        restored(fresh, unit_posture(saved)->0, applied, after),
    ensures
        applied,
        same_modes(after, saved),
        unit_posture(after) == unit_posture(saved),
{
    match (saved, fresh, after) {
        (Unit::Bat(s), Unit::Bat(f), Unit::Bat(a)) => {
            lemma_posture_round_trip(s.mode, f.mode);
        },
        (Unit::Cpu(s), Unit::Cpu(f), Unit::Cpu(a)) => {
            lemma_posture_round_trip(s.mode, f.mode);
        },
        (Unit::Mem(s), Unit::Mem(f), Unit::Mem(a)) => {
            lemma_posture_round_trip(s.mode, f.mode);
        },
        (Unit::Net(s), Unit::Net(f), Unit::Net(a)) => {
            lemma_posture_round_trip(s.mode, f.mode);
        },
        (Unit::Quota(s), Unit::Quota(f), Unit::Quota(a)) => {
            lemma_orbit_posture_round_trip(s.modes, f.modes);
        },
        (Unit::Time(s), Unit::Time(f), Unit::Time(a)) => {
            lemma_posture_round_trip(s.mode, f.mode);
        },
        (Unit::Weather(s), Unit::Weather(f), Unit::Weather(a)) => {
            lemma_orbit_posture_round_trip(s.modes, f.modes);
        },
        (Unit::Wifi(s), Unit::Wifi(f), Unit::Wifi(a)) => {
            lemma_posture_round_trip(s.mode, f.mode);
        },
        _ => {},
    }
}

/// A posture that a unit refuses (a wrong number of points, or a point its
/// axes do not have) leaves the unit in the modes it was in.
pub proof fn lemma_refused_posture_keeps_modes(before: Unit, p: Seq<Seq<char>>, after: Unit)
    requires
        restored(before, p, false, after),
    ensures
        same_modes(after, before),
        unit_posture(after) == unit_posture(before),
{
}

/// Whether a posture saved by one unit can be taken by another: both are
/// of one kind that has modes, and a quota unit that takes it offers the
/// saved provider among its own.
pub open spec fn posture_fits(saved: Unit, fresh: Unit) -> bool {
    match (saved, fresh) {
        (Unit::Bat(_), Unit::Bat(_)) => true,
        (Unit::Cpu(_), Unit::Cpu(_)) => true,
        (Unit::Mem(_), Unit::Mem(_)) => true,
        (Unit::Net(_), Unit::Net(_)) => true,
        (Unit::Quota(s), Unit::Quota(f)) => exists|j: int|
            0 <= j < f.modes.right.cycle.spec_points().len()
                && quota::source_of(#[trigger] f.modes.right.cycle.spec_points()[j]) == s.modes.right.focused(),
        (Unit::Time(_), Unit::Time(_)) => true,
        (Unit::Weather(_), Unit::Weather(_)) => true,
        (Unit::Wifi(_), Unit::Wifi(_)) => true,
        _ => false,
    }
}

/// A unit that takes the posture another saved ends in that very posture:
/// what a click saves, a restart restores, also on a quota unit whose
/// provider list differs but offers the saved provider.
pub proof fn lemma_posture_restores_where_it_fits(saved: Unit, fresh: Unit, applied: bool, after: Unit)
    requires
        saved.wf(),
        fresh.wf(),
        posture_fits(saved, fresh),
        restored(fresh, unit_posture(saved)->0, applied, after),
    ensures
        applied,
        unit_posture(after) == unit_posture(saved),
{
    match (saved, fresh, after) {
        (Unit::Quota(s), Unit::Quota(f), Unit::Quota(a)) => {
            let j = choose|j: int|
                0 <= j < f.modes.right.cycle.spec_points().len()
                    && quota::source_of(#[trigger] f.modes.right.cycle.spec_points()[j]) == s.modes.right.focused();
            quota::lemma_quota_posture_restores(s, f, j);
        },
        _ => {
            lemma_saved_posture_restores(saved, fresh, applied, after);
        },
    }
}

} // verus!
