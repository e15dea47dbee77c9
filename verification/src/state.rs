//! Stable slot identities and the store of saved postures.

use vstd::prelude::*;
use vstd::utf8::encode_utf8;

use crate::text::{dec, push_char, push_decimal, push_str, str_eq};
use crate::units::Posture;

verus! {

broadcast use vstd::string::group_string_axioms;

/// The FNV-1a offset basis for 128-bit hashes.
pub open spec fn fnv_offset() -> u128 {
    0x6c62_272e_07bb_0142_62b8_2175_6295_c58d
}

/// The FNV-1a prime for 128-bit hashes.
pub open spec fn fnv_prime() -> u128 {
    0x0000_0000_0100_0000_0000_0000_0000_013b
}

/// The 128-bit FNV-1a hash of a byte string.
pub open spec fn fnv1a(bytes: Seq<u8>) -> u128
    decreases bytes.len(),
{
    if bytes.len() == 0 {
        fnv_offset()
    } else {
        (fnv1a(bytes.drop_last()) ^ (bytes.last() as u128)).wrapping_mul(fnv_prime())
    }
}

/// The lowercase hexadecimal digit of a value below sixteen.
pub open spec fn hex_char(d: nat) -> char {
    if d < 10 {
        ((d + 48) as u8) as char
    } else {
        ((d + 87) as u8) as char
    }
}

/// The last `k` hexadecimal digits of `n`, zero-padded.
pub open spec fn hex_digits(n: nat, k: nat) -> Seq<char>
    decreases k,
{
    if k == 0 {
        Seq::empty()
    } else {
        hex_digits(n / 16, (k - 1) as nat).push(hex_char(n % 16))
    }
}

/// Sixteen to the power `k`.
pub open spec fn pow16(k: nat) -> nat
    decreases k,
{
    if k == 0 {
        1
    } else {
        16 * pow16((k - 1) as nat)
    }
}

proof fn lemma_hex_char_value(d: nat)
    requires
        d < 16,
    ensures
        hex_char(d) as u32 == if d < 10 {
            d + 48
        } else {
            d + 87
        },
{
}

proof fn lemma_hex_digits_len(n: nat, k: nat)
    ensures
        hex_digits(n, k).len() == k,
    decreases k,
{
    if k > 0 {
        lemma_hex_digits_len(n / 16, (k - 1) as nat);
    }
}

/// Numbers below `16^k` have different `k`-digit hexadecimal texts.
proof fn lemma_hex_digits_injective(a: nat, b: nat, k: nat)
    requires
        a < pow16(k),
        b < pow16(k),
        hex_digits(a, k) == hex_digits(b, k),
    ensures
        a == b,
    decreases k,
{
    if k > 0 {
        let p = pow16((k - 1) as nat);
        assert(hex_digits(a, k) == hex_digits(a / 16, (k - 1) as nat).push(hex_char(a % 16)));
        assert(hex_digits(b, k) == hex_digits(b / 16, (k - 1) as nat).push(hex_char(b % 16)));
        assert(hex_digits(a, k).last() == hex_char(a % 16));
        assert(hex_digits(b, k).last() == hex_char(b % 16));
        lemma_hex_char_value(a % 16);
        lemma_hex_char_value(b % 16);
        assert(a % 16 == b % 16);
        assert(hex_digits(a / 16, (k - 1) as nat) =~= hex_digits(a, k).drop_last());
        assert(hex_digits(b / 16, (k - 1) as nat) =~= hex_digits(b, k).drop_last());
        assert(a / 16 < p) by {
            assert(a < 16 * p);
        }
        assert(b / 16 < p) by {
            assert(b < 16 * p);
        }
        lemma_hex_digits_injective(a / 16, b / 16, (k - 1) as nat);
        assert(a == 16 * (a / 16) + a % 16);
        assert(b == 16 * (b / 16) + b % 16);
    } else {
        assert(a == 0 && b == 0);
    }
}

/// The identity of a configured unit: the hash of its canonical
/// configuration text, without its cadence.
#[derive(Debug, Clone, Copy, PartialEq, Eq, Structural, Hash)]
pub struct SlotIdentity(pub u128);

fn push_hex(s: &mut String, n: u128, k: u32)
    ensures
        final(s)@ == old(s)@ + hex_digits(n as nat, k as nat),
    decreases k,
{
    if k > 0 {
        push_hex(s, n / 16, k - 1);
        let d = (n % 16) as u8;
        let c = if d < 10 {
            (d + 48) as char
        } else {
            (d + 87) as char
        };
        push_char(s, c);
        assert(final(s)@ =~= old(s)@ + hex_digits(n as nat, k as nat));
    }
}

/// The state key of the `occurrence`-th configured unit with an identity:
/// the identity in 32 lowercase hex digits, a colon and the occurrence.
pub open spec fn state_key_text(id: SlotIdentity, occurrence: nat) -> Seq<char> {
    hex_digits(id.0 as nat, 32) + ":"@ + dec(occurrence)
}

/// A state key names one identity and one occurrence of it: keys of
/// different identities, or of different occurrences, differ.
pub proof fn lemma_state_keys_differ(a: SlotIdentity, i: nat, b: SlotIdentity, j: nat)
    requires
        state_key_text(a, i) == state_key_text(b, j),
    ensures
        a == b,
        i == j,
{
    reveal_strlit(":");
    let ka = state_key_text(a, i);
    let kb = state_key_text(b, j);
    lemma_hex_digits_len(a.0 as nat, 32);
    lemma_hex_digits_len(b.0 as nat, 32);
    assert(ka.take(32) =~= hex_digits(a.0 as nat, 32));
    assert(kb.take(32) =~= hex_digits(b.0 as nat, 32));
    assert(pow16(32) == 0x1_0000_0000_0000_0000_0000_0000_0000_0000) by {
        reveal_with_fuel(pow16, 33);
    }
    lemma_hex_digits_injective(a.0 as nat, b.0 as nat, 32);
    assert(ka.skip(33) =~= dec(i));
    assert(kb.skip(33) =~= dec(j));
    crate::text::lemma_dec_injective(i, j);
}

impl SlotIdentity {
    /// The identity of a canonical configuration text: FNV-1a over its
    /// UTF-8 bytes.
    pub fn from_text(text: &str) -> (id: SlotIdentity)
        ensures
            id.0 == fnv1a(encode_utf8(text@)),
    {
        let bytes = text.as_bytes();
        let mut hash: u128 = 0x6c62_272e_07bb_0142_62b8_2175_6295_c58d;
        for i in 0..bytes.len()
            invariant
                bytes@ == encode_utf8(text@),
                hash == fnv1a(bytes@.take(i as int)),
        {
            proof {
                assert(bytes@.take((i + 1) as int).drop_last() =~= bytes@.take(i as int));
            }
            hash = (hash ^ bytes[i] as u128).wrapping_mul(0x0000_0000_0100_0000_0000_0000_0000_013b);
        }
        assert(bytes@.take(bytes@.len() as int) =~= bytes@);
        SlotIdentity(hash)
    }

    /// The state key of the `occurrence`-th unit with this identity: 32
    /// lowercase hex digits, a colon and the occurrence.
    pub fn key(self, occurrence: u64) -> (k: String)
        ensures
            k@ == state_key_text(self, occurrence as nat),
    {
        let mut k = String::new();
        push_hex(&mut k, self.0, 32);
        push_str(&mut k, ":");
        push_decimal(&mut k, occurrence);
        assert(k@ =~= hex_digits(self.0 as nat, 32) + ":"@ + dec(occurrence as nat));
        k
    }
}

/// What a saved entry holds: its key and its posture's names.
pub type EntryView = (Seq<char>, Seq<Seq<char>>);

/// The views of saved entries.
pub open spec fn entry_views(es: Seq<(String, Posture)>) -> Seq<EntryView> {
    es.map_values(|e: (String, Posture)| (e.0@, e.1@))
}

/// The posture saved under a key: that of the last entry with the key.
pub open spec fn lookup(es: Seq<EntryView>, key: Seq<char>) -> Option<Seq<Seq<char>>>
    decreases es.len(),
{
    if es.len() == 0 {
        None
    } else if es.last().0 == key {
        Some(es.last().1)
    } else {
        lookup(es.drop_last(), key)
    }
}

/// Whether no key occurs twice.
pub open spec fn unique_keys(es: Seq<EntryView>) -> bool {
    forall|i: int, j: int| 0 <= i < j < es.len() ==> es[i].0 != es[j].0
}

/// The entries without those under a key.
pub open spec fn without(es: Seq<EntryView>, key: Seq<char>) -> Seq<EntryView>
    decreases es.len(),
{
    if es.len() == 0 {
        es
    } else if es.last().0 == key {
        without(es.drop_last(), key)
    } else {
        without(es.drop_last(), key).push(es.last())
    }
}

proof fn lemma_lookup_absent(es: Seq<EntryView>, key: Seq<char>)
    requires
        forall|i: int| 0 <= i < es.len() ==> #[trigger] es[i].0 != key,
    ensures
        lookup(es, key) is None,
    decreases es.len(),
{
    if es.len() > 0 {
        assert(es.drop_last().len() == es.len() - 1);
        lemma_lookup_absent(es.drop_last(), key);
    }
}

proof fn lemma_without(es: Seq<EntryView>, key: Seq<char>)
    ensures
        forall|k: Seq<char>| k != key ==> #[trigger] lookup(without(es, key), k) == lookup(es, k),
        forall|i: int| 0 <= i < without(es, key).len() ==> #[trigger] without(es, key)[i].0 != key,
        unique_keys(es) ==> unique_keys(without(es, key)),
        forall|i: int| 0 <= i < without(es, key).len() ==> exists|j: int| 0 <= j < es.len() && #[trigger] without(es, key)[i] == es[j],
    decreases es.len(),
{
    if es.len() > 0 {
        let d = es.drop_last();
        lemma_without(d, key);
        let w = without(d, key);
        if es.last().0 != key {
            let w2 = w.push(es.last());
            assert(w2.drop_last() =~= w);
            assert forall|k: Seq<char>| k != key implies #[trigger] lookup(w2, k) == lookup(es, k) by {
                assert(w2.drop_last() =~= w);
                assert(lookup(without(d, key), k) == lookup(d, k));
                if es.last().0 != k {
                    assert(lookup(w2, k) == lookup(w, k));
                    assert(lookup(es, k) == lookup(d, k));
                }
            }
            assert forall|i: int| 0 <= i < w2.len() implies exists|j: int| 0 <= j < es.len() && #[trigger] w2[i] == es[j] by {
                if i < w.len() {
                    let j = choose|j: int| 0 <= j < d.len() && #[trigger] w[i] == d[j];
                    assert(w2[i] == es[j]);
                } else {
                    assert(w2[i] == es[es.len() - 1]);
                }
            }
            if unique_keys(es) {
                assert(unique_keys(d));
                assert forall|a: int, b: int| 0 <= a < b < w2.len() implies w2[a].0 != w2[b].0 by {
                    if b == w.len() {
                        let j = choose|j: int| 0 <= j < d.len() && #[trigger] w[a] == d[j];
                        assert(es[j].0 != es[es.len() - 1].0);
                    }
                }
            }
        } else {
            if unique_keys(es) {
                assert(unique_keys(d));
            }
        }
    }
}

/// The saved postures of the units, by state key.
#[derive(Debug)]
pub struct Store {
    pub entries: Vec<(String, Posture)>,
}

impl Store {
    pub open spec fn wf(&self) -> bool {
        unique_keys(entry_views(self.entries@))
    }

    /// The posture saved under a key.
    pub open spec fn saved(&self, key: Seq<char>) -> Option<Seq<Seq<char>>> {
        lookup(entry_views(self.entries@), key)
    }

    /// A store with nothing saved.
    pub fn empty() -> (s: Store)
        ensures
            s.wf(),
            forall|k: Seq<char>| #[trigger] s.saved(k) is None,
    {
        let s = Store { entries: Vec::new() };
        assert(entry_views(s.entries@) =~= Seq::<EntryView>::empty());
        s
    }

    /// The posture saved under a key, if any.
    pub fn get(&self, key: &str) -> (p: Option<&Posture>)
        ensures
            match self.saved(key@) {
                Some(v) => p matches Some(q) && q@ == v,
                None => p is None,
            },
    {
        let ghost all = entry_views(self.entries@);
        let mut k = self.entries.len();
        assert(all.take(k as int) =~= all);
        while k > 0
            invariant
                k <= self.entries@.len(),
                all == entry_views(self.entries@),
                lookup(all, key@) == lookup(all.take(k as int), key@),
            decreases k,
        {
            proof {
                assert(all.take(k as int).drop_last() =~= all.take(k - 1));
                assert(all.take(k as int).last() == (self.entries@[k - 1].0@, self.entries@[k - 1].1@));
            }
            if str_eq(self.entries[k - 1].0.as_str(), key) {
                return Some(&self.entries[k - 1].1);
            }
            k = k - 1;
        }
        None
    }

    /// Saves a posture under a key, replacing what was saved there.
    pub fn record(&mut self, key: String, posture: Posture)
        requires
            old(self).wf(),
        ensures
            final(self).wf(),
            final(self).saved(key@) == Some(posture@),
            forall|k: Seq<char>| k != key@ ==> #[trigger] final(self).saved(k) == old(self).saved(k),
    {
        let ghost all = entry_views(self.entries@);
        let n = self.entries.len();
        let mut kept: Vec<(String, Posture)> = Vec::new();
        for i in 0..n
            invariant
                n == self.entries@.len(),
                all == entry_views(self.entries@),
                entry_views(kept@) == without(all.take(i as int), key@),
        {
            proof {
                assert(all.take((i + 1) as int).drop_last() =~= all.take(i as int));
                assert(all.take((i + 1) as int).last() == (self.entries@[i as int].0@, self.entries@[i as int].1@));
            }
            if !str_eq(self.entries[i].0.as_str(), key.as_str()) {
                let ghost before = kept@;
                let entry = (self.entries[i].0.clone(), self.entries[i].1.duplicate());
                kept.push(entry);
                assert(entry_views(kept@) =~= entry_views(before).push((entry.0@, entry.1@)));
            }
        }
        proof {
            assert(all.take(n as int) =~= all);
            lemma_without(all, key@);
        }
        let ghost w = entry_views(kept@);
        let ghost kv = key@;
        let ghost pv = posture@;
        kept.push((key, posture));
        proof {
            let fin = entry_views(kept@);
            assert(fin =~= w.push((kv, pv)));
            assert(fin.drop_last() =~= w);
            assert forall|a: int, b: int| 0 <= a < b < fin.len() implies fin[a].0 != fin[b].0 by {
                if b == w.len() {
                    assert(w[a].0 != kv);
                }
            }
            assert forall|k: Seq<char>| k != kv implies #[trigger] lookup(fin, k) == lookup(all, k) by {
                assert(lookup(w, k) == lookup(all, k));
            }
        }
        self.entries = kept;
    }

    /// Replaces everything saved with the given entries (a later entry wins
    /// over an earlier one with the same key).
    pub fn reconcile(&mut self, entries: Vec<(String, Posture)>)
        ensures
            final(self).wf(),
            forall|k: Seq<char>| #[trigger] final(self).saved(k) == lookup(entry_views(entries@), k),
    {
        let mut fresh = Store::empty();
        let ghost all = entry_views(entries@);
        let n = entries.len();
        let rest = entries;
        for j in 0..n
            invariant
                n == all.len(),
                n == rest@.len(),
                all == entry_views(rest@),
                fresh.wf(),
                forall|k: Seq<char>| #[trigger] fresh.saved(k) == lookup(all.take(j as int), k),
        {
            proof {
                assert(all.take((j + 1) as int).drop_last() =~= all.take(j as int));
                assert(all.take((j + 1) as int).last() == (rest@[j as int].0@, rest@[j as int].1@));
            }
            let key = rest[j].0.clone();
            let posture = rest[j].1.duplicate();
            fresh.record(key, posture);
        }
        assert(all.take(n as int) =~= all);
        *self = fresh;
    }

    /// The store of a ledger: its entries when the ledger has the current
    /// version, and nothing otherwise.
    pub fn from_ledger(version: u8, entries: Vec<(String, Posture)>) -> (s: Store)
        ensures
            s.wf(),
            version == 1 ==> forall|k: Seq<char>| #[trigger] s.saved(k) == lookup(entry_views(entries@), k),
            version != 1 ==> forall|k: Seq<char>| #[trigger] s.saved(k) is None,
    {
        let mut s = Store::empty();
        if version == 1 {
            s.reconcile(entries);
        }
        s
    }
}

} // verus!
