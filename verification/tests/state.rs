use empty_status::state::{SlotIdentity, Store};
use empty_status::config::assemble_slots;
use empty_status::units::{mem, Posture, Unit};

fn uptime() -> Posture {
    Posture { points: vec!["Uptime".to_owned()] }
}

#[test]
fn slot_identity_is_fnv1a_of_the_canonical_text() {
    assert_eq!(SlotIdentity::from_text("").0, 0x6c62_272e_07bb_0142_62b8_2175_6295_c58d);
    let a = SlotIdentity::from_text("interface = \"e0\"\ntype = \"Net\"\n");
    let b = SlotIdentity::from_text("interface = \"e0\"\ntype = \"Net\"\n");
    assert_eq!(a, b);
    assert_ne!(a, SlotIdentity::from_text("interface = \"e1\"\ntype = \"Net\"\n"));
}

#[test]
fn state_keys_are_hex_and_occurrence() {
    assert_eq!(SlotIdentity(0xab).key(3), "000000000000000000000000000000ab:3");
}

#[test]
fn missing_and_unknown_state_versions_are_just_empty_state() {
    assert!(Store::empty().get("anything").is_none());
    let store = Store::from_ledger(2, vec![("time".to_owned(), uptime())]);
    assert!(store.get("time").is_none());
    let store = Store::from_ledger(1, vec![("time".to_owned(), uptime())]);
    assert_eq!(store.get("time").map(|p| p.points.clone()), Some(vec!["Uptime".to_owned()]));
}

#[test]
fn recording_replaces_and_reconcile_replaces_everything() {
    let mut store = Store::empty();
    store.record("time".to_owned(), uptime());
    store.record("time".to_owned(), Posture { points: vec!["DateTime".to_owned()] });
    store.record("mem".to_owned(), Posture { points: vec!["Totals".to_owned()] });
    assert_eq!(store.entries.len(), 2);
    assert_eq!(store.get("time").map(|p| p.points.clone()), Some(vec!["DateTime".to_owned()]));
    store.reconcile(vec![("mem".to_owned(), uptime())]);
    assert!(store.get("time").is_none());
    assert_eq!(store.get("mem").map(|p| p.points.clone()), Some(vec!["Uptime".to_owned()]));
}

#[test]
fn repeated_units_get_successive_occurrences_and_refused_ones_break() {
    let twin = SlotIdentity(0xab);
    let other = SlotIdentity(1);
    let long_fault = "x".repeat(200);
    let slots = assemble_slots(
        &[twin, other, twin, twin],
        vec![
            Ok((Unit::Mem(mem::Model::new()), 333_000_000)),
            Ok((Unit::Mem(mem::Model::new()), 1)),
            Err(long_fault.clone()),
            Ok((Unit::Mem(mem::Model::new()), 7)),
        ],
        5,
    );
    assert_eq!(slots.len(), 4);
    assert_eq!(slots[0].state_key.as_deref(), Some("000000000000000000000000000000ab:0"));
    assert_eq!(slots[1].state_key.as_deref(), Some("00000000000000000000000000000001:0"));
    assert_eq!(slots[2].state_key, None);
    assert_eq!(slots[3].state_key.as_deref(), Some("000000000000000000000000000000ab:2"));
    assert_eq!(slots[0].name, "Mem::0");
    assert_eq!(slots[2].name, "Config::2");
    assert_eq!(slots[3].name, "Mem::3");
    assert_eq!(slots[0].cadence, 333_000_000);
    assert_eq!(slots[3].cadence, 7);
    let shown = slots[2].view.body.to_string();
    assert!(shown.contains(&format!("{}\u{2026}", "x".repeat(160))));
    assert!(!shown.contains(&"x".repeat(161)));
}
