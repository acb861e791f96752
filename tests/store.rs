use sql_crdt::key::TieBreakKey;
use sql_crdt::register::RecordState;
use sql_crdt::store::RecordStore;

#[test]
fn store_field_register_is_last_writer_wins() {
    let mut s = RecordStore::new();
    let m = "tag".to_string();
    let f = "name".to_string();
    assert!(s.get(&m, 7).is_none());
    assert!(s.apply_field(&m, 7, &f, &"a".to_string(), TieBreakKey::new(2, 1)));
    assert!(!s.apply_field(&m, 7, &f, &"b".to_string(), TieBreakKey::new(1, 9)));
    assert!(!s.apply_field(&m, 7, &f, &"c".to_string(), TieBreakKey::new(2, 1)));
    assert!(s.apply_field(&m, 7, &f, &"d".to_string(), TieBreakKey::new(2, 2)));
    let snap = s.get(&m, 7).unwrap();
    assert_eq!(snap.fields, vec![("name".to_string(), "d".to_string())]);
    assert!(!snap.tombstoned);
}

#[test]
fn store_tombstone_is_its_own_register() {
    let mut s = RecordStore::new();
    let m = "tag".to_string();
    assert!(s.apply_tombstone(&m, 1, TieBreakKey::new(5, 0)));
    assert!(!s.apply_tombstone(&m, 1, TieBreakKey::new(4, 0)));
    assert!(s.get(&m, 1).unwrap().tombstoned);
    assert!(s.apply_field(&m, 1, &"name".to_string(), &"x".to_string(), TieBreakKey::new(3, 0)));
    assert!(s.get(&m, 1).unwrap().tombstoned);
    assert!(s.apply_field(&m, 1, &"color".to_string(), &"y".to_string(), TieBreakKey::new(6, 0)));
    assert!(!s.get(&m, 1).unwrap().tombstoned);
    assert!(s.get(&"location".to_string(), 1).is_none());
}

#[test]
fn record_state_registers() {
    let mut r = RecordState::new();
    assert!(r.snapshot().fields.is_empty());
    assert!(!r.snapshot().tombstoned);
    assert!(r.apply_field(&"a".to_string(), &"1".to_string(), TieBreakKey::new(1, 1)));
    assert!(r.apply_tombstone(TieBreakKey::new(1, 2)));
    assert!(r.snapshot().tombstoned);
    assert!(!r.apply_tombstone(TieBreakKey::new(1, 2)));
}
