use relayctl::engine::DEBOUNCE_WINDOW_MS;
use relayctl::engine::Outcome;
use relayctl::engine::SyncEngine;
use relayctl::addr::Ipv4;
use relayctl::table::Item;
use relayctl::table::States;
use relayctl::table::default_table;

fn item(id: u32, name: &str, ipv4: &str, last_updated: u64, state: bool) -> Item {
    Item { id, name: name.to_string(), ipv4: ipv4.to_string(), last_updated, state }
}

fn engine_with(count: u32, stamp: u64) -> SyncEngine {
    SyncEngine::new(default_table(count, stamp), DEBOUNCE_WINDOW_MS)
}

#[test]
fn default_table_shape() {
    let t = default_table(10, 7);
    assert_eq!(t.relays.len(), 10);
    for (i, it) in t.relays.iter().enumerate() {
        assert_eq!(it.id, i as u32 + 1);
        assert_eq!(it.name, "-");
        assert_eq!(it.ipv4, "-.-.-.-");
        assert_eq!(it.last_updated, 7);
        assert!(!it.state);
    }
    assert!(t.is_wf());
}

#[test]
fn wf_rejects_duplicate_and_out_of_range_ids() {
    let good = default_table(3, 0);
    assert!(good.is_wf());
    let dup = States { relays: vec![item(1, "-", "-.-.-.-", 0, false), item(1, "x", "-", 0, false)] };
    assert!(!dup.is_wf());
    let zero = States { relays: vec![item(0, "-", "-.-.-.-", 0, false)] };
    assert!(!zero.is_wf());
    let big = States { relays: vec![item(17, "-", "-.-.-.-", 0, false)] };
    assert!(!big.is_wf());
}

#[test]
fn applied_mutation_updates_entry() {
    let mut e = engine_with(10, 0);
    let cand = item(3, "pump", "10.8.32.7", 0, true);
    let now = DEBOUNCE_WINDOW_MS + 1;
    let (outcome, effects) = e.apply_mutation(&cand, now);
    match outcome {
        Outcome::Applied(it) => {
            assert_eq!(it.id, 3);
            assert_eq!(it.name, "pump");
            assert_eq!(it.ipv4, "10.8.32.7");
            assert_eq!(it.last_updated, now);
            assert!(it.state);
        }
        other => panic!("expected Applied, got {:?}", other),
    }
    assert_eq!(e.table.relays[2].name, "pump");
    assert!(effects.persist.is_some());
    assert!(effects.event.is_some());
    assert_eq!(effects.push_mask, Some(0b100));
}

#[test]
fn persisted_snapshot_matches_table() {
    let mut e = engine_with(10, 0);
    let cand = item(5, "fan", "10.8.32.20", 0, true);
    let (_, effects) = e.apply_mutation(&cand, DEBOUNCE_WINDOW_MS + 5);
    let snapshot = effects.persist.expect("accepted mutation owes a persist");
    assert_eq!(snapshot, e.table);
}

#[test]
fn debounce_second_mutation_is_noop() {
    let mut e = engine_with(10, 0);
    let t1 = DEBOUNCE_WINDOW_MS + 1;
    let first = item(2, "a", "10.0.0.1", 0, true);
    let (o1, _) = e.apply_mutation(&first, t1);
    assert!(matches!(o1, Outcome::Applied(_)));
    let before = e.table.clone();

    let second = item(2, "b", "10.0.0.2", 0, true);
    let t2 = t1 + DEBOUNCE_WINDOW_MS; // within the window: t2 - t1 == window
    let (o2, eff2) = e.apply_mutation(&second, t2);
    assert_eq!(o2, Outcome::Debounced);
    assert_eq!(e.table, before);
    assert_eq!(e.table.relays[1].last_updated, t1);
    assert!(eff2.persist.is_none() && eff2.event.is_none() && eff2.push_mask.is_none());
}

#[test]
fn mutation_after_window_elapses_is_applied() {
    let mut e = engine_with(10, 0);
    let t1 = DEBOUNCE_WINDOW_MS + 1;
    let first = item(2, "a", "10.0.0.1", 0, true);
    let (o1, _) = e.apply_mutation(&first, t1);
    assert!(matches!(o1, Outcome::Applied(_)));

    let second = item(2, "b", "10.0.0.2", 0, true);
    let t2 = t1 + DEBOUNCE_WINDOW_MS + 1; // strictly past the window
    let (o2, _) = e.apply_mutation(&second, t2);
    assert!(matches!(o2, Outcome::Applied(_)));
    assert_eq!(e.table.relays[1].name, "b");
    assert_eq!(e.table.relays[1].last_updated, t2);
}

#[test]
fn clock_running_backwards_debounces() {
    let mut e = engine_with(10, 100);
    let cand = item(1, "x", "10.0.0.1", 0, true);
    let (o, _) = e.apply_mutation(&cand, 50);
    assert_eq!(o, Outcome::Debounced);
}

#[test]
fn unknown_id_is_not_found() {
    let mut e = engine_with(10, 0);
    let cand = item(11, "x", "10.0.0.1", 0, true);
    let (o, eff) = e.apply_mutation(&cand, DEBOUNCE_WINDOW_MS + 1);
    assert_eq!(o, Outcome::NotFound);
    assert!(eff.persist.is_none() && eff.event.is_none() && eff.push_mask.is_none());
}

#[test]
fn turning_off_resets_name_and_ipv4() {
    let mut e = engine_with(10, 0);
    let on = item(4, "heater", "10.8.32.44", 0, true);
    let t1 = DEBOUNCE_WINDOW_MS + 1;
    e.apply_mutation(&on, t1);
    let off = item(4, "garbage name", "203.0.113.77", 0, false);
    let t2 = t1 + DEBOUNCE_WINDOW_MS + 1;
    let (o, _) = e.apply_mutation(&off, t2);
    match o {
        Outcome::Applied(it) => {
            assert_eq!(it.name, "-");
            assert_eq!(it.ipv4, "-.-.-.-");
            assert!(!it.state);
        }
        other => panic!("expected Applied, got {:?}", other),
    }
    assert_eq!(e.table.relays[3].name, "-");
    assert_eq!(e.table.relays[3].ipv4, "-.-.-.-");
}

#[test]
fn panel_ip_assignment_rewrites_address_only() {
    let mut e = engine_with(10, 9);
    let (updated, effects) = e.apply_panel_ip(6, Ipv4 { a: 10, b: 8, c: 32, d: 9 });
    let it = updated.expect("id 6 exists");
    assert_eq!(it.id, 6);
    assert_eq!(it.ipv4, "10.8.32.9");
    assert_eq!(it.name, "-");
    assert_eq!(it.last_updated, 9);
    assert!(!it.state);
    assert_eq!(e.table.relays[5].ipv4, "10.8.32.9");
    let snapshot = effects.persist.expect("assignment owes a persist");
    assert_eq!(snapshot, e.table);
    assert!(effects.event.is_some());
    assert!(effects.push_mask.is_none());
}

#[test]
fn panel_ip_assignment_unknown_id_is_noop() {
    let mut e = engine_with(4, 0);
    let before = e.table.clone();
    let (updated, effects) = e.apply_panel_ip(9, Ipv4 { a: 10, b: 8, c: 32, d: 9 });
    assert!(updated.is_none());
    assert_eq!(e.table, before);
    assert!(effects.persist.is_none() && effects.event.is_none());
}
