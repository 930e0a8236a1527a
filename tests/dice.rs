use riskydice::dice::DiceSet;

#[test]
fn fresh_throw_fills_six_slots_with_faces() {
    for _ in 0..50 {
        let d = DiceSet::fresh();
        assert_eq!(d.occupied_count(), 6);
        let values = d.values();
        assert_eq!(values.len(), 6);
        assert!(values.iter().all(|v| (1..=6).contains(v)));
    }
}

#[test]
fn fresh_throws_vary() {
    let first = DiceSet::fresh().values();
    let varied = (0..50).any(|_| DiceSet::fresh().values() != first);
    assert!(varied);
}

#[test]
fn invalid_faces_are_refused() {
    assert!(DiceSet::from_faces([1, 2, 3, 4, 5, 7]).is_none());
    assert!(DiceSet::from_faces([0, 2, 3, 4, 5, 6]).is_none());
    assert!(DiceSet::from_slots([None, Some(9), None, None, None, None]).is_none());
    assert!(DiceSet::from_faces([1, 2, 3, 4, 5, 6]).is_some());
}

#[test]
fn values_and_items_keep_slot_order() {
    let d = DiceSet::from_slots([Some(3), None, Some(5), None, Some(1), Some(3)]).unwrap();
    assert_eq!(d.values(), vec![3, 5, 1, 3]);
    assert_eq!(d.items(), vec![(0, 3), (2, 5), (4, 1), (5, 3)]);
    assert_eq!(d.occupied_count(), 4);
    assert_eq!(d.face(1), None);
    assert_eq!(d.face(2), Some(5));
}

#[test]
fn consume_empties_named_slots() {
    let mut d = DiceSet::from_faces([1, 2, 3, 4, 5, 6]).unwrap();
    d.consume(&vec![0, 4]);
    assert_eq!(d.values(), vec![2, 3, 4, 6]);
    assert!(!d.is_exhausted());
    d.consume(&vec![1, 2, 3, 5]);
    assert!(d.is_exhausted());
    assert_eq!(d.occupied_count(), 0);
}

#[test]
fn reroll_keeps_empty_slots_empty() {
    let mut d = DiceSet::from_slots([Some(6), None, Some(6), None, None, Some(6)]).unwrap();
    for _ in 0..20 {
        d.reroll_occupied();
        assert_eq!(d.occupied_count(), 3);
        assert_eq!(d.face(1), None);
        assert_eq!(d.face(3), None);
        assert_eq!(d.face(4), None);
        assert!(d.values().iter().all(|v| (1..=6).contains(v)));
    }
}

#[test]
fn reroll_with_fills_occupied_slots_in_order() {
    let mut d = DiceSet::from_slots([Some(6), None, Some(6), None, None, Some(6)]).unwrap();
    d.reroll_with(&vec![1, 2, 3]);
    assert_eq!(d.face(0), Some(1));
    assert_eq!(d.face(1), None);
    assert_eq!(d.face(2), Some(2));
    assert_eq!(d.face(3), None);
    assert_eq!(d.face(4), None);
    assert_eq!(d.face(5), Some(3));
    assert_eq!(d.values(), vec![1, 2, 3]);
}

#[test]
fn reroll_with_on_full_set_replaces_every_face() {
    let mut d = DiceSet::from_faces([1, 1, 1, 1, 1, 1]).unwrap();
    d.reroll_with(&vec![6, 5, 4, 3, 2, 1]);
    assert_eq!(d.values(), vec![6, 5, 4, 3, 2, 1]);
}
