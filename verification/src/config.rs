//! The rules of the configuration that do not depend on its file format.

use vstd::prelude::*;

use crate::reactor::Slot;
use crate::state::{lemma_state_keys_differ, state_key_text, SlotIdentity};
use crate::text::{push_char, push_str};
use crate::units::Unit;

verus! {

broadcast use vstd::string::group_string_axioms;

/// The most characters of a configuration error that a broken slot shows.
pub open spec fn clip_limit() -> nat {
    160
}

/// A message clipped to the limit, with an ellipsis when it was longer.
pub open spec fn clipped_text(message: Seq<char>) -> Seq<char> {
    if message.len() <= clip_limit() {
        message
    } else {
        message.take(clip_limit() as int) + seq!['\u{2026}']
    }
}

/// Clips a configuration error for display.
pub fn clipped(message: &str) -> (s: String)
    ensures
        s@ == clipped_text(message@),
{
    let n = message.unicode_len();
    let keep: usize = if n <= 160 {
        n
    } else {
        160
    };
    let mut s = String::new();
    for i in 0..keep
        invariant
            keep <= n == message@.len(),
            s@ == message@.take(i as int),
    {
        push_char(&mut s, message.get_char(i));
        assert(s@ =~= message@.take((i + 1) as int));
    }
    if n > 160 {
        push_char(&mut s, '\u{2026}');
        assert(s@ =~= clipped_text(message@));
    } else {
        assert(s@ =~= message@);
    }
    s
}

/// The poll interval of a unit kind when none is configured, in
/// milliseconds: five minutes for the kinds that call remote services,
/// a third of a second for the others.
pub open spec fn default_poll_millis(kind: Seq<char>) -> u64 {
    if kind == "Quota"@ || kind == "Weather"@ {
        300_000
    } else {
        333
    }
}

/// The default poll interval of a unit kind, in milliseconds.
pub fn default_poll_interval(kind: &str) -> (ms: u64)
    ensures
        ms == default_poll_millis(kind@),
{
    if crate::text::str_eq(kind, "Quota") || crate::text::str_eq(kind, "Weather") {
        300_000
    } else {
        333
    }
}

/// How many of the first `n` units have the identity `id`.
pub open spec fn count_before(ids: Seq<SlotIdentity>, id: SlotIdentity, n: int) -> nat
    decreases n,
{
    if n <= 0 {
        0
    } else {
        count_before(ids, id, n - 1) + if ids[n - 1] == id {
            1nat
        } else {
            0nat
        }
    }
}

/// Which occurrence of its identity the unit at `i` is: the number of
/// units before it with the same identity.
pub open spec fn occurrence(ids: Seq<SlotIdentity>, i: int) -> nat {
    count_before(ids, ids[i], i)
}

/// The slots of the configured units, in order: a live slot, due at `now`
/// and keyed by its identity and occurrence, for each unit whose
/// configuration was accepted; a broken slot showing the clipped error for
/// each that was refused.
pub fn assemble_slots(identities: &[SlotIdentity], decoded: Vec<Result<(Unit, u128), String>>, now: u64) -> (slots: Vec<Slot>)
    requires
        identities@.len() == decoded@.len(),
        forall|i: int| 0 <= i < decoded@.len() ==> (#[trigger] decoded@[i] matches Ok((u, _)) ==> u.wf()),
    ensures
        slots@.len() == decoded@.len(),
        forall|i: int| 0 <= i < slots@.len() ==> {
            &&& (#[trigger] slots@[i]).wf()
            &&& match decoded@[i] {
                Ok((u, c)) => slots@[i].is_live(i as nat, state_key_text(identities@[i], occurrence(identities@, i)), u, c, now),
                Err(m) => slots@[i].is_broken(i as nat, clipped_text(m@)),
            }
        },
{
    let n = decoded.len();
    let mut pending = decoded;
    let mut rest: Vec<Result<(Unit, u128), String>> = Vec::new();
    while pending.len() > 0
        invariant
            n == decoded@.len(),
            pending@.len() + rest@.len() == n,
            forall|k: int| 0 <= k < pending@.len() ==> #[trigger] pending@[k] == decoded@[k],
            forall|k: int| 0 <= k < rest@.len() ==> #[trigger] rest@[k] == decoded@[n - 1 - k],
        decreases pending@.len(),
    {
        let last = pending.pop();
        match last {
            Some(entry) => rest.push(entry),
            None => {},
        }
    }
    let mut slots: Vec<Slot> = Vec::new();
    let mut i: usize = 0;
    while i < n
        invariant
            n == identities@.len() == decoded@.len(),
            i <= n,
            rest@.len() == n - i,
            forall|k: int| 0 <= k < n - i ==> #[trigger] rest@[k] == decoded@[n - 1 - k],
            forall|k: int| 0 <= k < n ==> (#[trigger] decoded@[k] matches Ok((u, _)) ==> u.wf()),
            slots@.len() == i,
            forall|k: int| 0 <= k < i ==> {
                &&& (#[trigger] slots@[k]).wf()
                &&& match decoded@[k] {
                    Ok((u, c)) => slots@[k].is_live(k as nat, state_key_text(identities@[k], occurrence(identities@, k)), u, c, now),
                    Err(m) => slots@[k].is_broken(k as nat, clipped_text(m@)),
                }
            },
        decreases n - i,
    {
        let entry = rest.pop();
        assert(entry == Some(decoded@[i as int]));
        let id = identities[i];
        let mut count: u64 = 0;
        let mut j: usize = 0;
        while j < i
            invariant
                i < n == identities@.len(),
                j <= i,
                id == identities@[i as int],
                count == count_before(identities@, id, j as int),
                count <= j,
            decreases i - j,
        {
            if identities[j].0 == id.0 {
                count = count + 1;
            }
            j = j + 1;
        }
        let slot = match entry {
            Some(Ok((unit, cadence))) => Slot::live(i as u64, id.key(count), unit, cadence, now),
            Some(Err(message)) => Slot::broken(i as u64, clipped(message.as_str()).as_str()),
            None => {
                assert(false);
                Slot::broken(i as u64, "")
            },
        };
        slots.push(slot);
        i = i + 1;
    }
    slots
}

proof fn lemma_count_grows(ids: Seq<SlotIdentity>, id: SlotIdentity, a: int, b: int)
    requires
        0 <= a <= b,
    ensures
        count_before(ids, id, a) <= count_before(ids, id, b),
    decreases b - a,
{
    if a < b {
        lemma_count_grows(ids, id, a, b - 1);
    }
}

/// No two configured units share a state key: units with the same identity
/// are told apart by their occurrence.
pub proof fn lemma_state_keys_are_distinct(ids: Seq<SlotIdentity>, i: int, j: int)
    requires
        0 <= i < ids.len(),
        0 <= j < ids.len(),
        i != j,
    ensures
        state_key_text(ids[i], occurrence(ids, i)) != state_key_text(ids[j], occurrence(ids, j)),
{
    if state_key_text(ids[i], occurrence(ids, i)) == state_key_text(ids[j], occurrence(ids, j)) {
        lemma_state_keys_differ(ids[i], occurrence(ids, i), ids[j], occurrence(ids, j));
        let (a, b) = if i < j {
            (i, j)
        } else {
            (j, i)
        };
        lemma_count_grows(ids, ids[a], a + 1, b);
        assert(count_before(ids, ids[a], a + 1) == count_before(ids, ids[a], a) + 1);
    }
}

} // verus!
