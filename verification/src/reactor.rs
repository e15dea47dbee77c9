//! The probe scheduler: every slot is either waiting for its due time,
//! being probed, or broken; clicks, replies and failures move it between
//! these states. The loop that sleeps, spawns probes and reads clicks runs
//! outside; every decision it acts on is made here.

use vstd::prelude::*;
use vstd::view::View as _;

use crate::bar::{error_runs, I3Block, I3Click, View};
use crate::markup::RunView;
use crate::state::Store;

use crate::text::{dec, push_decimal, push_str, str_eq};
use crate::bar::{button_of, Button};
use crate::units::{
    applied, clicked, lemma_saved_posture_restores, requested, same_configuration, same_kind, same_modes,
    unit_name, unit_posture, Posture, Reaction, Reply, Request, Unit,
};

verus! {

broadcast use vstd::string::group_string_axioms;

/// A moment: the monotonic clock that schedules probes, and the wall clock
/// that dates samples, both in nanoseconds.
#[derive(Debug, Clone, Copy, PartialEq, Eq, Structural)]
pub struct Clock {
    pub tick: u64,
    pub wall: i128,
}

/// Where a live slot is in its cycle: waiting until its due tick, or being
/// probed.
#[derive(Debug, Clone, Copy, PartialEq, Eq, Structural)]
pub enum Pulse {
    Sheathed { due: u64 },
    Cutting,
}

/// One probe in flight: the slot it is for and the slot's revision when it
/// started.
#[derive(Debug, Clone, Copy, PartialEq, Eq, Structural)]
pub struct Strike {
    pub slot: usize,
    pub revision: u64,
}

/// One block of the bar: a configured unit, or the error of a unit whose
/// configuration was refused (no unit, no pulse).
#[derive(Debug)]
pub struct Slot {
    pub name: String,
    pub state_key: Option<String>,
    pub unit: Option<Unit>,
    pub view: View,
    pub cadence: u128,
    pub revision: u64,
    pub pulse: Option<Pulse>,
}

/// The tick that lies `cadence` after `now`, or the last tick.
pub open spec fn after(now: u64, cadence: u128) -> u64 {
    if now + cadence > u64::MAX {
        u64::MAX
    } else {
        (now + cadence) as u64
    }
}

fn later(now: u64, cadence: u128) -> (t: u64)
    ensures
        t == after(now, cadence),
{
    if cadence > (u64::MAX - now) as u128 {
        u64::MAX
    } else {
        now + cadence as u64
    }
}

impl Slot {
    pub open spec fn wf(&self) -> bool {
        self.unit matches Some(u) ==> u.wf()
    }

    /// The slot of the unit at position `index`, fresh: named after its
    /// kind and position, loading, due at `now`.
    pub open spec fn is_live(&self, index: nat, state_key: Seq<char>, unit: Unit, cadence: u128, now: u64) -> bool {
        &&& self.name@ == unit_name(unit) + "::"@ + dec(index)
        &&& self.state_key matches Some(k) && k@ == state_key
        &&& self.unit == Some(unit)
        &&& self.view.body@ == crate::bar::loading_runs(crate::units::bat::ascii_lower(unit_name(unit)))
        &&& self.view.health == crate::bar::Health::Degraded
        &&& self.cadence == cadence
        &&& self.revision == 0
        &&& self.pulse == Some(Pulse::Sheathed { due: now })
    }

    /// The slot of a refused configuration at position `index`: it shows
    /// the message as an error and is never probed.
    pub open spec fn is_broken(&self, index: nat, message: Seq<char>) -> bool {
        &&& self.name@ == "Config::"@ + dec(index)
        &&& self.state_key is None
        &&& self.unit is None
        &&& self.view.body@ == error_runs("unit "@ + dec(index), message)
        &&& self.view.health == crate::bar::Health::Error
        &&& self.cadence == 0
        &&& self.revision == 0
        &&& self.pulse is None
    }

    /// A live slot for the unit at position `index`, due at once.
    pub fn live(index: u64, state_key: String, unit: Unit, cadence: u128, now: u64) -> (s: Slot)
        requires
            unit.wf(),
        ensures
            s.wf(),
            s.is_live(index as nat, state_key@, unit, cadence, now),
    {
        let mut name = String::new();
        push_str(&mut name, unit.name());
        push_str(&mut name, "::");
        push_decimal(&mut name, index);
        let view = unit.initial_view();
        Slot {
            name,
            state_key: Some(state_key),
            unit: Some(unit),
            view,
            cadence,
            revision: 0,
            pulse: Some(Pulse::Sheathed { due: now }),
        }
    }

    /// The slot of a unit whose configuration was refused: it shows the
    /// message and is never probed.
    pub fn broken(index: u64, message: &str) -> (s: Slot)
        ensures
            s.wf(),
            s.is_broken(index as nat, message@),
    {
        let mut name = String::new();
        push_str(&mut name, "Config::");
        push_decimal(&mut name, index);
        let mut label = String::new();
        push_str(&mut label, "unit ");
        push_decimal(&mut label, index);
        Slot {
            name,
            state_key: None,
            unit: None,
            view: View::error(label.as_str(), message),
            cadence: 0,
            revision: 0,
            pulse: None,
        }
    }
}

/// The scheduler: the slots from right to left as configured, the padding
/// of every block, and the saved postures.
#[derive(Debug)]
pub struct Reactor {
    pub slots: Vec<Slot>,
    pub padding: u8,
    pub state: Store,
}

/// The posture that a slot saves, if it has a key and its unit a posture.
pub open spec fn slot_posture(s: Slot) -> Option<(Seq<char>, Seq<Seq<char>>)> {
    match (s.state_key, s.unit) {
        (Some(k), Some(u)) => match unit_posture(u) {
            Some(p) => Some((k@, p)),
            None => None,
        },
        _ => None,
    }
}

/// What a slot looks like after its saved posture, if any, was restored.
pub open spec fn slot_restored(before: Slot, after: Slot, saved: spec_fn(Seq<char>) -> Option<Seq<Seq<char>>>) -> bool {
    &&& after.name == before.name
    &&& after.state_key == before.state_key
    &&& after.view == before.view
    &&& after.cadence == before.cadence
    &&& after.revision == before.revision
    &&& after.pulse == before.pulse
    &&& match (before.state_key, before.unit, after.unit) {
        (Some(k), Some(b), Some(a)) => match saved(k@) {
            Some(p) => exists|applied: bool| crate::units::restored(b, p, applied, a),
            None => a == b,
        },
        (_, b, a) => a == b,
    }
}

impl Reactor {
    pub open spec fn wf(&self) -> bool {
        &&& self.state.wf()
        &&& forall|i: int| 0 <= i < self.slots@.len() ==> #[trigger] self.slots@[i].wf()
    }

    /// Starts from the slots: every live slot first takes the posture that
    /// the store saved under its key, and then the store keeps exactly the
    /// postures of the slots.
    pub fn new(slots: Vec<Slot>, padding: u8, state: Store) -> (r: Reactor)
        requires
            state.wf(),
            forall|i: int| 0 <= i < slots@.len() ==> #[trigger] slots@[i].wf(),
        ensures
            r.wf(),
            r.padding == padding,
            r.slots@.len() == slots@.len(),
            forall|i: int| 0 <= i < slots@.len() ==> slot_restored(
                #[trigger] slots@[i],
                r.slots@[i],
                |k: Seq<char>| state.saved(k),
            ),
            forall|k: Seq<char>| #[trigger] r.state.saved(k) == crate::state::lookup(
                postures_of(r.slots@),
                k,
            ),
    {
        let mut state = state;
        let ghost saved = |k: Seq<char>| state.saved(k);
        let ghost original = slots@;
        let mut slots = slots;
        let n = slots.len();
        let mut done: Vec<Slot> = Vec::new();
        let mut postures: Vec<(String, Posture)> = Vec::new();
        let mut rest: Vec<Slot> = Vec::new();
        // Walk the slots from the back so that each can be moved out.
        while slots.len() > 0
            invariant
                slots@.len() + rest@.len() == n,
                n == original.len(),
                forall|i: int| 0 <= i < slots@.len() ==> #[trigger] slots@[i] == original[i],
                forall|i: int| 0 <= i < rest@.len() ==> #[trigger] rest@[i] == original[n - 1 - i],
            decreases slots@.len(),
        {
            let s = slots.pop().unwrap();
            rest.push(s);
        }
        let mut i: usize = 0;
        while rest.len() > 0
            invariant
                i + rest@.len() == n,
                n == original.len(),
                done@.len() == i,
                forall|j: int| 0 <= j < rest@.len() ==> #[trigger] rest@[j] == original[n - 1 - j],
                forall|j: int| 0 <= j < i ==> slot_restored(original[j], #[trigger] done@[j], saved),
                forall|j: int| 0 <= j < i ==> (#[trigger] done@[j]).wf(),
                forall|j: int| 0 <= j < n ==> (#[trigger] original[j]).wf(),
                crate::state::entry_views(postures@) == postures_of(done@),
                saved == (|k: Seq<char>| state.saved(k)),
            decreases rest@.len(),
        {
            let mut slot = rest.pop().unwrap();
            let ghost before = slot;
            proof {
                assert(before == original[i as int]);
            }
            match (&slot.state_key, &mut slot.unit) {
                (Some(key), Some(unit)) => {
                    match state.get(key.as_str()) {
                        Some(p) => {
                            let _ = unit.restore(p);
                        },
                        None => {},
                    }
                },
                _ => {},
            }
            assert(slot_restored(before, slot, saved));
            let ghost prev = postures@;
            match (&slot.state_key, &slot.unit) {
                (Some(key), Some(unit)) => match unit.posture() {
                    Some(p) => {
                        postures.push((key.clone(), p));
                    },
                    None => {},
                },
                _ => {},
            }
            let ghost done_before = done@;
            done.push(slot);
            proof {
                assert(done@.drop_last() =~= done_before);
                assert(crate::state::entry_views(postures@) =~= postures_of(done@));
            }
            i = i + 1;
        }
        state.reconcile(postures);
        Reactor { slots: done, padding, state }
    }
}

/// The postures that live slots save, in slot order.
pub open spec fn postures_of(slots: Seq<Slot>) -> Seq<(Seq<char>, Seq<Seq<char>>)>
    decreases slots.len(),
{
    if slots.len() == 0 {
        Seq::empty()
    } else {
        match slot_posture(slots.last()) {
            Some(p) => postures_of(slots.drop_last()).push(p),
            None => postures_of(slots.drop_last()),
        }
    }
}


/// Whether a slot is struck at `now`: it is live, waiting, and due.
pub open spec fn is_due(s: Slot, now: u64) -> bool {
    &&& s.unit is Some
    &&& match s.pulse {
        Some(Pulse::Sheathed { due }) => due <= now,
        _ => false,
    }
}

/// Whether a request is the one the slot's unit makes.
pub open spec fn slot_requested(s: Slot, r: Request) -> bool {
    match s.unit {
        Some(u) => requested(u, r),
        None => false,
    }
}

/// The strikes that start at `now`, one per due slot, in slot order.
pub open spec fn due_strikes(slots: Seq<Slot>, now: u64) -> Seq<Strike>
    decreases slots.len(),
{
    if slots.len() == 0 {
        Seq::empty()
    } else {
        let prev = due_strikes(slots.drop_last(), now);
        if is_due(slots.last(), now) {
            prev.push(Strike { slot: (slots.len() - 1) as usize, revision: slots.last().revision })
        } else {
            prev
        }
    }
}

/// A slot with another pulse.
pub open spec fn with_pulse(s: Slot, p: Option<Pulse>) -> Slot {
    Slot { pulse: p, ..s }
}

/// The error view of a slot whose probe task failed.
pub open spec fn failure_runs(name: Seq<char>, error: Seq<char>) -> Seq<RunView> {
    error_runs(name, "probe task failed: "@ + error)
}

impl Reactor {
    /// Starts a probe for every live slot that is waiting and due: each
    /// such slot is now being probed, and its strike carries its revision.
    /// A slot that is already being probed is never struck again.
    pub fn unsheathe_due(&mut self, now: u64) -> (strikes: Vec<(Strike, Request)>)
        requires
            old(self).wf(),
        ensures
            final(self).wf(),
            final(self).padding == old(self).padding,
            final(self).state == old(self).state,
            final(self).slots@.len() == old(self).slots@.len(),
            forall|i: int| 0 <= i < old(self).slots@.len() ==> #[trigger] final(self).slots@[i] == if is_due(old(self).slots@[i], now) {
                with_pulse(old(self).slots@[i], Some(Pulse::Cutting))
            } else {
                old(self).slots@[i]
            },
            strikes@.map_values(|x: (Strike, Request)| x.0) == due_strikes(old(self).slots@, now),
            forall|k: int| 0 <= k < strikes@.len() ==> slot_requested(old(self).slots@[#[trigger] strikes@[k].0.slot as int], strikes@[k].1),
    {
        let n = self.slots.len();
        let ghost before = self.slots@;
        let mut strikes: Vec<(Strike, Request)> = Vec::new();
        for i in 0..n
            invariant
                n == before.len(),
                self.slots@.len() == n,
                self.state == old(self).state,
                self.padding == old(self).padding,
                before == old(self).slots@,
                forall|j: int| 0 <= j < n ==> (#[trigger] before[j]).wf(),
                forall|j: int| 0 <= j < i ==> #[trigger] self.slots@[j] == if is_due(before[j], now) {
                    with_pulse(before[j], Some(Pulse::Cutting))
                } else {
                    before[j]
                },
                forall|j: int| i <= j < n ==> #[trigger] self.slots@[j] == before[j],
                strikes@.map_values(|x: (Strike, Request)| x.0) == due_strikes(before.take(i as int), now),
                forall|k: int| 0 <= k < strikes@.len() ==> (#[trigger] strikes@[k]).0.slot < i && slot_requested(before[strikes@[k].0.slot as int], strikes@[k].1),
        {
            proof {
                assert(before.take((i + 1) as int).drop_last() =~= before.take(i as int));
                assert(before.take((i + 1) as int).last() == before[i as int]);
            }
            let due = match self.slots[i].pulse {
                Some(Pulse::Sheathed { due }) => due <= now,
                _ => false,
            };
            if due && self.slots[i].unit.is_some() {
                let request = match &self.slots[i].unit {
                    Some(u) => u.request(),
                    None => {
                        assert(false);
                        Request::Cpu(crate::units::cpu::Request)
                    },
                };
                let revision = self.slots[i].revision;
                self.slots[i].pulse = Some(Pulse::Cutting);
                let ghost prev = strikes@.map_values(|x: (Strike, Request)| x.0);
                strikes.push((Strike { slot: i, revision }, request));
                proof {
                    assert(strikes@.map_values(|x: (Strike, Request)| x.0) =~= prev.push(Strike { slot: i, revision }));
                    assert(self.slots@[i as int] == with_pulse(before[i as int], Some(Pulse::Cutting)));
                }
            }
        }
        proof {
            assert(before.take(n as int) =~= before);
            assert forall|j: int| 0 <= j < self.slots@.len() implies (#[trigger] self.slots@[j]).wf() by {
                assert(before[j].wf());
            }
        }
        strikes
    }

    /// The next tick at which some waiting slot is due.
    pub fn next_deadline(&self) -> (d: Option<u64>)
        ensures
            match d {
                Some(t) => (exists|i: int| 0 <= i < self.slots@.len() && #[trigger] self.slots@[i].pulse == Some(Pulse::Sheathed { due: t }))
                    && forall|i: int| 0 <= i < self.slots@.len() ==> (#[trigger] self.slots@[i].pulse matches Some(Pulse::Sheathed { due }) ==> t <= due),
                None => forall|i: int| 0 <= i < self.slots@.len() ==> !(#[trigger] self.slots@[i].pulse matches Some(Pulse::Sheathed { .. })),
            },
    {
        let mut best: Option<u64> = None;
        for i in 0..self.slots.len()
            invariant
                match best {
                    Some(t) => (exists|j: int| 0 <= j < i && #[trigger] self.slots@[j].pulse == Some(Pulse::Sheathed { due: t }))
                        && forall|j: int| 0 <= j < i ==> (#[trigger] self.slots@[j].pulse matches Some(Pulse::Sheathed { due }) ==> t <= due),
                    None => forall|j: int| 0 <= j < i ==> !(#[trigger] self.slots@[j].pulse matches Some(Pulse::Sheathed { .. })),
                },
        {
            match self.slots[i].pulse {
                Some(Pulse::Sheathed { due }) => {
                    match best {
                        Some(t) => {
                            if due < t {
                                best = Some(due);
                            }
                        },
                        None => {
                            best = Some(due);
                        },
                    }
                },
                _ => {},
            }
        }
        best
    }

    /// A probe finished. A reply for an older revision of its slot is
    /// discarded and the slot is probed again at once; otherwise the unit
    /// takes the reply, the slot shows the result, and it waits one cadence.
    /// Reports whether what the slot shows changed.
    pub fn finish(&mut self, strike: Strike, reply: Reply, clock: Clock) -> (changed: bool)
        requires
            old(self).wf(),
        ensures
            final(self).wf(),
            final(self).padding == old(self).padding,
            final(self).state == old(self).state,
            final(self).slots@.len() == old(self).slots@.len(),
            forall|j: int| 0 <= j < old(self).slots@.len() && j != strike.slot ==> #[trigger] final(self).slots@[j] == old(self).slots@[j],
            strike.slot >= old(self).slots@.len() ==> !changed,
            strike.slot < old(self).slots@.len() ==> ({
                let b = old(self).slots@[strike.slot as int];
                let a = final(self).slots@[strike.slot as int];
                if strike.revision != b.revision {
                    !changed && a == with_pulse(b, Some(Pulse::Sheathed { due: clock.tick }))
                } else {
                    match b.unit {
                        None => !changed && a == b,
                        Some(u) => {
                            &&& a.name == b.name
                            &&& a.state_key == b.state_key
                            &&& a.cadence == b.cadence
                            &&& a.revision == b.revision
                            &&& a.pulse == Some(Pulse::Sheathed { due: after(clock.tick, b.cadence) })
                            &&& a.unit matches Some(w) && if same_kind(u, reply) {
                                applied(u, reply, clock.wall, w, a.view)
                            } else {
                                w == u && a.view.body@ == error_runs(b.name@, "unit/request registry invariant violated"@)
                                    && a.view.health == crate::bar::Health::Error
                            }
                            &&& changed == !(a.view.body@ == b.view.body@ && a.view.health == b.view.health)
                        },
                    }
                }
            }),
    {
        if strike.slot >= self.slots.len() {
            return false;
        }
        let i = strike.slot;
        if strike.revision != self.slots[i].revision {
            self.slots[i].pulse = Some(Pulse::Sheathed { due: clock.tick });
            proof {
                assert forall|j: int| 0 <= j < self.slots@.len() implies (#[trigger] self.slots@[j]).wf() by {
                    assert(old(self).slots@[j].wf());
                }
            }
            return false;
        }
        if self.slots[i].unit.is_none() {
            return false;
        }
        proof {
            assert(old(self).slots@[i as int].wf());
        }
        let mut slot = self.slots.remove(i);
        let ghost b = slot;
        let result = match &mut slot.unit {
            Some(u) => u.apply(reply, clock.wall),
            None => Err(""),
        };
        let view = match result {
            Ok(v) => v,
            Err(message) => View::error(slot.name.as_str(), message),
        };
        let changed = !view.same(&slot.view);
        slot.view = view;
        slot.pulse = Some(Pulse::Sheathed { due: later(clock.tick, slot.cadence) });
        self.slots.insert(i, slot);
        proof {
            assert forall|j: int| 0 <= j < self.slots@.len() implies (#[trigger] self.slots@[j]).wf() by {
                assert(old(self).slots@[j].wf());
            }
        }
        changed
    }

    /// A probe task died. As with a reply, an older revision only asks for
    /// a new probe; otherwise the slot shows the failure and waits one
    /// cadence. Reports whether what the slot shows changed.
    pub fn fail(&mut self, strike: Strike, error: &str, clock: Clock) -> (changed: bool)
        requires
            old(self).wf(),
        ensures
            final(self).wf(),
            final(self).padding == old(self).padding,
            final(self).state == old(self).state,
            final(self).slots@.len() == old(self).slots@.len(),
            forall|j: int| 0 <= j < old(self).slots@.len() && j != strike.slot ==> #[trigger] final(self).slots@[j] == old(self).slots@[j],
            strike.slot >= old(self).slots@.len() ==> !changed,
            strike.slot < old(self).slots@.len() ==> ({
                let b = old(self).slots@[strike.slot as int];
                let a = final(self).slots@[strike.slot as int];
                if strike.revision != b.revision {
                    !changed && a == with_pulse(b, Some(Pulse::Sheathed { due: clock.tick }))
                } else {
                    &&& a.name == b.name
                    &&& a.state_key == b.state_key
                    &&& a.unit == b.unit
                    &&& a.cadence == b.cadence
                    &&& a.revision == b.revision
                    &&& a.pulse == Some(Pulse::Sheathed { due: after(clock.tick, b.cadence) })
                    &&& a.view.body@ == failure_runs(b.name@, error@)
                    &&& a.view.health == crate::bar::Health::Error
                    &&& changed == !(a.view.body@ == b.view.body@ && a.view.health == b.view.health)
                }
            }),
    {
        if strike.slot >= self.slots.len() {
            return false;
        }
        let i = strike.slot;
        if strike.revision != self.slots[i].revision {
            self.slots[i].pulse = Some(Pulse::Sheathed { due: clock.tick });
            proof {
                assert forall|j: int| 0 <= j < self.slots@.len() implies (#[trigger] self.slots@[j]).wf() by {
                    assert(old(self).slots@[j].wf());
                }
            }
            return false;
        }
        let mut message = String::new();
        push_str(&mut message, "probe task failed: ");
        push_str(&mut message, error);
        let view = View::error(self.slots[i].name.as_str(), message.as_str());
        let changed = !view.same(&self.slots[i].view);
        let due = later(clock.tick, self.slots[i].cadence);
        self.slots[i].view = view;
        self.slots[i].pulse = Some(Pulse::Sheathed { due });
        proof {
            assert forall|j: int| 0 <= j < self.slots@.len() implies (#[trigger] self.slots@[j]).wf() by {
                assert(old(self).slots@[j].wf());
            }
        }
        changed
    }

    /// The blocks of the bar, leftmost first: the slots in reverse order.
    pub fn blocks(&self) -> (b: Vec<I3Block>)
        ensures
            b@.len() == self.slots@.len(),
            forall|k: int| 0 <= k < b@.len() ==> (#[trigger] b@[k]).shows(
                self.slots@[self.slots@.len() - 1 - k].name@,
                self.padding,
                self.slots@[self.slots@.len() - 1 - k].view,
            ),
    {
        let n = self.slots.len();
        let mut blocks: Vec<I3Block> = Vec::new();
        let mut k: usize = 0;
        while k < n
            invariant
                n == self.slots@.len(),
                k <= n,
                blocks@.len() == k,
                forall|j: int| 0 <= j < k ==> (#[trigger] blocks@[j]).shows(self.slots@[n - 1 - j].name@, self.padding, self.slots@[n - 1 - j].view),
            decreases n - k,
        {
            let slot = &self.slots[n - 1 - k];
            blocks.push(I3Block::new(slot.name.as_str(), self.padding, &slot.view));
            k = k + 1;
        }
        blocks
    }
}


/// The first slot with a name.
pub open spec fn named(slots: Seq<Slot>, name: Seq<char>) -> Option<int> {
    if exists|i: int| 0 <= i < slots.len() && #[trigger] slots[i].name@ == name {
        Some(choose|i: int| 0 <= i < slots.len() && #[trigger] slots[i].name@ == name && forall|j: int| 0 <= j < i ==> slots[j].name@ != name)
    } else {
        None
    }
}

/// A pulse after a refresh: a waiting slot is due at once, a slot being
/// probed stays so (its reply will be discarded).
pub open spec fn refreshed(p: Option<Pulse>, now: u64) -> Option<Pulse> {
    match p {
        Some(Pulse::Sheathed { .. }) => Some(Pulse::Sheathed { due: now }),
        other => other,
    }
}

/// What a click does to the slot it names, given the unit's reaction.
pub open spec fn slot_clicked(b: Slot, a: Slot, r: Reaction, now: u64, changed: bool) -> bool {
    &&& a.name == b.name
    &&& a.state_key == b.state_key
    &&& a.cadence == b.cadence
    &&& match r {
        Reaction::Inert => !changed && a.view == b.view && a.revision == b.revision && a.pulse == b.pulse,
        Reaction::Publish(v) => a.view == v && a.revision == b.revision && a.pulse == b.pulse && changed == !(
        v.body@ == b.view.body@ && v.health == b.view.health),
        Reaction::Refresh => !changed && a.view == b.view && a.revision == b.revision.wrapping_add(1) && a.pulse
            == refreshed(b.pulse, now),
    }
}

/// What a click does to the saved postures: a slot with a key whose
/// posture changed saves the new one; nothing else changes.
pub open spec fn posture_recorded(b: Slot, a: Slot, before: Store, after: Store) -> bool {
    match (b.state_key, b.unit, a.unit) {
        (Some(k), Some(u), Some(w)) => match unit_posture(w) {
            Some(p) => if unit_posture(u) != Some(p) {
                after.saved(k@) == Some(p) && forall|other: Seq<char>| other != k@ ==> #[trigger] after.saved(other)
                    == before.saved(other)
            } else {
                after == before
            },
            None => after == before,
        },
        _ => after == before,
    }
}

fn same_posture(a: &Option<Posture>, b: &Option<Posture>) -> (eq: bool)
    ensures
        eq == (match (a, b) {
            (Some(x), Some(y)) => x@ == y@,
            (None, None) => true,
            _ => false,
        }),
{
    match (a, b) {
        (Some(x), Some(y)) => x.same(y),
        (None, None) => true,
        _ => false,
    }
}

impl Reactor {
    /// A click on the bar. The first slot with the clicked name hands it to
    /// its unit: a new projection is shown at once, a refresh makes the
    /// slot due now and turns away any reply already on its way; a changed
    /// posture is saved. Reports whether what the slot shows changed.
    pub fn click(&mut self, click: I3Click, clock: Clock) -> (changed: bool)
        requires
            old(self).wf(),
        ensures
            final(self).wf(),
            final(self).padding == old(self).padding,
            final(self).slots@.len() == old(self).slots@.len(),
            match named(old(self).slots@, click.name@) {
                None => !changed && final(self).slots@ == old(self).slots@ && final(self).state == old(self).state,
                Some(i) => {
                    &&& forall|j: int| 0 <= j < old(self).slots@.len() && j != i ==> #[trigger] final(self).slots@[j]
                        == old(self).slots@[j]
                    &&& match old(self).slots@[i].unit {
                        None => !changed && final(self).slots@[i] == old(self).slots@[i] && final(self).state
                            == old(self).state,
                        Some(u) => exists|r: Reaction| #[trigger] slot_clicked(old(self).slots@[i], final(self).slots@[i], r, clock.tick, changed)
                            && (final(self).slots@[i].unit matches Some(w) && clicked(u, button_of(click.button), clock.wall, w, r))
                            && posture_recorded(old(self).slots@[i], final(self).slots@[i], old(self).state, final(self).state),
                    }
                },
            },
    {
        let n = self.slots.len();
        let mut index: usize = 0;
        while index < n && !str_eq(self.slots[index].name.as_str(), click.name.as_str())
            invariant
                n == self.slots@.len(),
                index <= n,
                forall|j: int| 0 <= j < index ==> self.slots@[j].name@ != click.name@,
            decreases n - index,
        {
            index = index + 1;
        }
        if index == n {
            return false;
        }
        proof {
            let k = choose|k: int| 0 <= k < self.slots@.len() && #[trigger] self.slots@[k].name@ == click.name@
                && forall|j: int| 0 <= j < k ==> self.slots@[j].name@ != click.name@;
            assert(self.slots@[index as int].name@ == click.name@);
            if k < index {
            } else if k > index {
            }
            assert(k == index);
        }
        if self.slots[index].unit.is_none() {
            return false;
        }
        proof {
            assert(old(self).slots@[index as int].wf());
        }
        let mut slot = self.slots.remove(index);
        let ghost b = slot;
        let button = Button::from_code(click.button);
        let (reaction, posture) = match &mut slot.unit {
            Some(u) => {
                let before = u.posture();
                let reaction = u.click(button, clock.wall);
                let after = u.posture();
                let posture = if same_posture(&before, &after) {
                    None
                } else {
                    after
                };
                (reaction, posture)
            },
            None => (Reaction::Inert, None),
        };
        let ghost r = reaction;
        let changed = match reaction {
            Reaction::Inert => false,
            Reaction::Publish(view) => {
                let changed = !view.same(&slot.view);
                slot.view = view;
                changed
            },
            Reaction::Refresh => {
                slot.revision = slot.revision.wrapping_add(1);
                slot.pulse = match slot.pulse {
                    Some(Pulse::Sheathed { .. }) => Some(Pulse::Sheathed { due: clock.tick }),
                    other => other,
                };
                false
            },
        };
        assert(slot_clicked(b, slot, r, clock.tick, changed));
        let ghost u0 = b.unit->0;
        assert(slot.unit matches Some(w) && clicked(u0, button, clock.wall, w, r));
        match (&slot.state_key, posture) {
            (Some(key), Some(p)) => {
                self.state.record(key.clone(), p);
            },
            _ => {},
        }
        assert(posture_recorded(b, slot, old(self).state, self.state));
        let ghost fin = slot;
        self.slots.insert(index, slot);
        assert(self.slots@[index as int] == fin);
        assert(slot_clicked(old(self).slots@[index as int], self.slots@[index as int], r, clock.tick, changed));
        proof {
            assert forall|j: int| 0 <= j < self.slots@.len() implies (#[trigger] self.slots@[j]).wf() by {
                assert(old(self).slots@[j].wf());
            }
        }
        changed
    }
}

/// How long a frame waits after the first change, so that the changes of
/// one moment are written together: ten milliseconds, in nanoseconds.
pub open spec fn frame_coalesce() -> u64 {
    10_000_000
}

/// The frame pending after a turn in which the bar `changed` or not: a
/// change with none pending schedules one.
pub open spec fn pending_frame(frame_due: Option<u64>, changed: bool, now: u64) -> Option<u64> {
    if changed && frame_due is None {
        Some(after(now, frame_coalesce() as u128))
    } else {
        frame_due
    }
}

/// When the bar writes its next frame: a change schedules one shortly
/// after it, unless one is pending already.
#[derive(Debug, Clone, Copy, PartialEq, Eq, Structural)]
pub struct Pacer {
    pub frame_due: Option<u64>,
}

impl Pacer {
    /// No frame is pending.
    pub fn new() -> (p: Pacer)
        ensures
            p.frame_due is None,
    {
        Pacer { frame_due: None }
    }

    /// The tick at which the loop wakes: the earlier of the next due probe
    /// and the pending frame; none when neither is pending.
    pub fn wake_at(&self, probe_due: Option<u64>) -> (t: Option<u64>)
        ensures
            t == match (probe_due, self.frame_due) {
                (Some(p), Some(f)) => Some(if p <= f { p } else { f }),
                (Some(p), None) => Some(p),
                (None, f) => f,
            },
    {
        match (probe_due, self.frame_due) {
            (Some(p), Some(f)) => Some(if p <= f { p } else { f }),
            (Some(p), None) => Some(p),
            (None, f) => f,
        }
    }

    /// Ends a turn of the loop at tick `now`, in which the bar `changed` or
    /// not: whether the frame is to be written now. A change with no frame
    /// pending schedules one; a frame that is due is written and no longer
    /// pending.
    pub fn turn(&mut self, changed: bool, now: u64) -> (publish: bool)
        ensures
            publish == (pending_frame(old(self).frame_due, changed, now) matches Some(due) && due <= now),
            final(self).frame_due == if publish {
                None
            } else {
                pending_frame(old(self).frame_due, changed, now)
            },
    {
        if changed && self.frame_due.is_none() {
            self.frame_due = Some(later(now, 10_000_000));
        }
        assert(self.frame_due == pending_frame(old(self).frame_due, changed, now));
        let ready = match self.frame_due {
            Some(due) => due <= now,
            None => false,
        };
        if ready {
            self.frame_due = None;
        }
        ready
    }
}

/// The JSON text of a click line from i3bar: the line without surrounding
/// whitespace and without one leading and one trailing comma; nothing for
/// an empty line or the opening bracket of the stream.
pub open spec fn click_candidate(line: Seq<char>) -> Option<Seq<char>> {
    let t = crate::parse::trim_spec(line);
    let a = if t.len() > 0 && t[0] == ',' {
        t.drop_first()
    } else {
        t
    };
    let b = if a.len() > 0 && a.last() == ',' {
        a.drop_last()
    } else {
        a
    };
    let c = crate::parse::trim_spec(b);
    if c.len() == 0 || c == seq!['['] {
        None
    } else {
        Some(c)
    }
}

/// Picks the JSON text out of a click line.
pub fn click_text(line: &str) -> (r: Option<String>)
    ensures
        match click_candidate(line@) {
            Some(c) => r matches Some(s) && s@ == c,
            None => r is None,
        },
{
    let chars = crate::units::bat::chars_of(line);
    let t = crate::parse::trim(chars.as_slice());
    let mut a: Vec<char> = Vec::new();
    let start: usize = if t.len() > 0 && t[0] == ',' {
        1
    } else {
        0
    };
    let end: usize = if t.len() > start && t[t.len() - 1] == ',' {
        t.len() - 1
    } else {
        t.len()
    };
    let mut k = start;
    while k < end
        invariant
            start <= k <= end <= t@.len(),
            a@ == t@.subrange(start as int, k as int),
        decreases end - k,
    {
        a.push(t[k]);
        k = k + 1;
        assert(a@ =~= t@.subrange(start as int, k as int));
    }
    proof {
        let ts = t@;
        let sa = if ts.len() > 0 && ts[0] == ',' {
            ts.drop_first()
        } else {
            ts
        };
        assert(sa =~= ts.subrange(start as int, ts.len() as int));
        let sb = if sa.len() > 0 && sa.last() == ',' {
            sa.drop_last()
        } else {
            sa
        };
        assert(sb =~= ts.subrange(start as int, end as int));
    }
    let c = crate::parse::trim(a.as_slice());
    if c.len() == 0 || (c.len() == 1 && c[0] == '[') {
        proof {
            if c@.len() == 1 {
                assert(c@ =~= seq!['[']);
            }
        }
        return None;
    }
    proof {
        if c@ == seq!['['] {
            assert(c@.len() == 1);
        }
    }
    let mut s = String::new();
    for i in 0..c.len()
        invariant
            s@ == c@.take(i as int),
    {
        crate::text::push_char(&mut s, c[i]);
        assert(s@ =~= c@.take((i + 1) as int));
    }
    assert(c@.take(c@.len() as int) =~= c@);
    Some(s)
}


/// Every strike of a round is for a distinct slot that was due, in slot
/// order, and carries that slot's revision.
pub proof fn lemma_due_strikes(slots: Seq<Slot>, now: u64)
    requires
        slots.len() <= usize::MAX,
    ensures
        forall|k: int| 0 <= k < due_strikes(slots, now).len() ==> {
            let st = #[trigger] due_strikes(slots, now)[k];
            &&& st.slot < slots.len()
            &&& is_due(slots[st.slot as int], now)
            &&& st.revision == slots[st.slot as int].revision
        },
        forall|a: int, b: int| 0 <= a < b < due_strikes(slots, now).len() ==> #[trigger] due_strikes(slots, now)[a].slot
            < #[trigger] due_strikes(slots, now)[b].slot,
    decreases slots.len(),
{
    if slots.len() > 0 {
        let d = slots.drop_last();
        lemma_due_strikes(d, now);
        let prev = due_strikes(d, now);
        let cur = due_strikes(slots, now);
        assert forall|k: int| 0 <= k < prev.len() implies prev[k].slot < d.len() && slots[prev[k].slot as int]
            == d[prev[k].slot as int] && is_due(d[prev[k].slot as int], now) && prev[k].revision
            == d[prev[k].slot as int].revision by {
            let st = prev[k];
            assert(st == due_strikes(d, now)[k]);
        }
        if is_due(slots.last(), now) {
            let new = Strike { slot: (slots.len() - 1) as usize, revision: slots.last().revision };
            assert(cur == prev.push(new));
            assert forall|k: int| 0 <= k < cur.len() implies {
                let st = #[trigger] cur[k];
                &&& st.slot < slots.len()
                &&& is_due(slots[st.slot as int], now)
                &&& st.revision == slots[st.slot as int].revision
            } by {
                if k < prev.len() {
                    assert(cur[k] == prev[k]);
                }
            }
            assert forall|a: int, b: int| 0 <= a < b < cur.len() implies #[trigger] cur[a].slot < #[trigger] cur[b].slot by {
                assert(cur[a] == prev[a]);
                if b < prev.len() {
                    assert(cur[b] == prev[b]);
                    assert(due_strikes(d, now)[a].slot < due_strikes(d, now)[b].slot);
                }
            }
        } else {
            assert(cur == prev);
            assert forall|k: int| 0 <= k < cur.len() implies {
                let st = #[trigger] cur[k];
                &&& st.slot < slots.len()
                &&& is_due(slots[st.slot as int], now)
                &&& st.revision == slots[st.slot as int].revision
            } by {
            }
            assert forall|a: int, b: int| 0 <= a < b < cur.len() implies #[trigger] cur[a].slot < #[trigger] cur[b].slot by {
                assert(due_strikes(d, now)[a].slot < due_strikes(d, now)[b].slot);
            }
        }
    }
}

/// A slot that is being probed is never struck again, whatever the clock,
/// and a refresh leaves it being probed: at most one probe of a slot is in
/// flight.
pub proof fn lemma_one_probe_per_slot(s: Slot, now: u64, later_tick: u64)
    requires
        s.pulse == Some(Pulse::Cutting),
    ensures
        !is_due(s, now),
        refreshed(s.pulse, later_tick) == Some(Pulse::Cutting),
{
}

/// A refresh outdates the probe already on its way: its strike carries the
/// revision from before the click, so its reply is turned away.
pub proof fn lemma_refresh_outdates_strike(b: Slot, a: Slot, now: u64, changed: bool, strike: Strike)
    requires
        slot_clicked(b, a, Reaction::Refresh, now, changed),
        strike.revision == b.revision,
    ensures
        strike.revision != a.revision,
        !changed,
{
}

/// How many of the reactions ask for fresh data.
pub open spec fn refreshes(rs: Seq<Reaction>) -> nat
    decreases rs.len(),
{
    if rs.len() == 0 {
        0
    } else {
        refreshes(rs.drop_last()) + if rs.last() is Refresh {
            1nat
        } else {
            0nat
        }
    }
}

/// Clicks on a slot that is being probed never start or queue another
/// probe: whatever the clicks, the slot stays in flight with its one probe,
/// and each click that asks for fresh data only advances its revision by
/// one (modulo 2^64), so that the probe's reply is turned away and the
/// slot is probed once more.
pub proof fn lemma_clicks_during_a_probe(hist: Seq<Slot>, rs: Seq<Reaction>, ticks: Seq<u64>, changes: Seq<bool>)
    requires
        hist.len() == rs.len() + 1,
        ticks.len() == rs.len(),
        changes.len() == rs.len(),
        hist[0].pulse == Some(Pulse::Cutting),
        forall|j: int| 0 <= j < rs.len() ==> #[trigger] slot_clicked(hist[j], hist[j + 1], rs[j], ticks[j], changes[j]),
    ensures
        forall|j: int| 0 <= j < hist.len() ==> (#[trigger] hist[j]).pulse == Some(Pulse::Cutting)
            && hist[j].revision == (hist[0].revision + refreshes(rs.take(j))) % 0x1_0000_0000_0000_0000,
{
    assert forall|j: int| 0 <= j < hist.len() implies (#[trigger] hist[j]).pulse == Some(Pulse::Cutting)
        && hist[j].revision == (hist[0].revision + refreshes(rs.take(j))) % 0x1_0000_0000_0000_0000 by {
        lemma_clicks_prefix(hist, rs, ticks, changes, j);
    }
}

proof fn lemma_clicks_prefix(hist: Seq<Slot>, rs: Seq<Reaction>, ticks: Seq<u64>, changes: Seq<bool>, j: int)
    requires
        hist.len() == rs.len() + 1,
        ticks.len() == rs.len(),
        changes.len() == rs.len(),
        hist[0].pulse == Some(Pulse::Cutting),
        forall|j: int| 0 <= j < rs.len() ==> #[trigger] slot_clicked(hist[j], hist[j + 1], rs[j], ticks[j], changes[j]),
        0 <= j < hist.len(),
    ensures
        hist[j].pulse == Some(Pulse::Cutting),
        hist[j].revision == (hist[0].revision + refreshes(rs.take(j))) % 0x1_0000_0000_0000_0000,
    decreases j,
{
    let m: int = 0x1_0000_0000_0000_0000;
    if j == 0 {
        assert(rs.take(0) =~= Seq::<Reaction>::empty());
        vstd::arithmetic::div_mod::lemma_small_mod(hist[0].revision as nat, m as nat);
    } else {
        lemma_clicks_prefix(hist, rs, ticks, changes, j - 1);
        let i = j - 1;
        assert(slot_clicked(hist[i], hist[i + 1], rs[i], ticks[i], changes[i]));
        assert(i + 1 == j);
        assert(rs.take(j).drop_last() =~= rs.take(j - 1));
        assert(rs.take(j).last() == rs[j - 1]);
        let n = refreshes(rs.take(j - 1));
        let t = hist[0].revision + n;
        let a = t % m;
        vstd::arithmetic::div_mod::lemma_fundamental_div_mod(t, m);
        if rs[j - 1] is Refresh {
            assert(refreshes(rs.take(j)) == n + 1);
            assert(hist[j].revision == vstd::wrapping::u64_specs::wrapping_add(hist[j - 1].revision, 1));
            if a + 1 < m {
                vstd::arithmetic::div_mod::lemma_fundamental_div_mod_converse(t + 1, m, t / m, a + 1);
            } else {
                vstd::arithmetic::div_mod::lemma_fundamental_div_mod_converse(t + 1, m, t / m + 1, 0);
            }
        } else {
            assert(refreshes(rs.take(j)) == n);
        }
    }
}

/// What one reactor saved, the next one restores before its first probe:
/// when the store holds, under a live slot's key, the posture of a unit
/// configured like the slot's, the reactor built on that store starts the
/// slot in that unit's modes, with its pulse and revision untouched.
pub proof fn lemma_postures_survive_a_restart(saved_unit: Unit, state: Store, before: Slot, after: Slot)
    requires
        saved_unit.wf(),
        before.wf(),
        unit_posture(saved_unit) is Some,
        before.state_key matches Some(k) && state.saved(k@) == unit_posture(saved_unit),
        before.unit matches Some(u) && same_configuration(saved_unit, u),
        slot_restored(before, after, |k: Seq<char>| state.saved(k)),
    ensures
        after.unit matches Some(a) && same_modes(a, saved_unit) && unit_posture(a) == unit_posture(saved_unit),
        after.pulse == before.pulse,
        after.revision == before.revision,
        after.state_key == before.state_key,
{
    let k = before.state_key->0;
    let u = before.unit->0;
    let a = after.unit->0;
    let p = unit_posture(saved_unit)->0;
    assert(state.saved(k@) == Some(p));
    let applied = choose|applied: bool| crate::units::restored(u, p, applied, a);
    lemma_saved_posture_restores(saved_unit, u, applied, a);
}

} // verus!
