use sql_crdt::engine::SyncEngine;
use sql_crdt::key::TieBreakKey;
use sql_crdt::operation::{SharedRecordOperation, SharedRecordOperationData};
use sql_crdt::register::RecordSnapshot;
use sql_crdt::schema::{SchemaRegistry, SyncError};

const NODE_A: u128 = 1;
const NODE_B: u128 = 2;
const X: u128 = 0x1111_2222_3333_4444_5555_6666_7777_8888;
const Y: u128 = 42;

fn strings(v: &[&str]) -> Vec<String> {
    v.iter().map(|s| s.to_string()).collect()
}

fn pairs(v: &[(&str, &str)]) -> Vec<(String, String)> {
    v.iter().map(|(a, b)| (a.to_string(), b.to_string())).collect()
}

fn tag_engine() -> SyncEngine {
    let mut e = SyncEngine::new();
    e.register("tag", strings(&["name"]), strings(&["name", "color"])).unwrap();
    e
}

fn field<'a>(s: &'a RecordSnapshot, f: &str) -> Option<&'a str> {
    s.fields.iter().find(|(k, _)| k == f).map(|(_, v)| v.as_str())
}

fn sorted(s: &RecordSnapshot) -> Vec<(String, String)> {
    let mut v = s.fields.clone();
    v.sort();
    v
}

fn tag_ops(e: &SyncEngine) -> Vec<SharedRecordOperation> {
    let reg = e.registry();
    vec![
        SharedRecordOperation::new_create(reg, X, "tag", pairs(&[("name", "\"Work\"")]), TieBreakKey::new(10, NODE_A)).unwrap(),
        SharedRecordOperation::new_update(reg, X, "tag", "color".to_string(), "\"blue\"".to_string(), TieBreakKey::new(20, NODE_B)).unwrap(),
        SharedRecordOperation::new_update(reg, X, "tag", "name".to_string(), "\"Personal\"".to_string(), TieBreakKey::new(15, NODE_A)).unwrap(),
    ]
}

#[test]
fn tag_scenario_converges_in_every_order() {
    let orders = [[0, 1, 2], [0, 2, 1], [1, 0, 2], [1, 2, 0], [2, 0, 1], [2, 1, 0]];
    for order in orders {
        let mut e = tag_engine();
        let ops = tag_ops(&e);
        for i in order {
            e.apply(&ops[i]).unwrap();
        }
        let snap = e.get("tag", X).unwrap();
        assert_eq!(sorted(&snap), pairs(&[("color", "\"blue\""), ("name", "\"Personal\"")]));
        assert!(!snap.tombstoned);
    }
}

#[test]
fn concurrent_creates_resolved_by_node_id() {
    for first_node1 in [true, false] {
        let mut e = tag_engine();
        let reg = e.registry();
        let a = SharedRecordOperation::new_create(reg, Y, "tag", pairs(&[("name", "A")]), TieBreakKey::new(5, 1)).unwrap();
        let b = SharedRecordOperation::new_create(reg, Y, "tag", pairs(&[("name", "B")]), TieBreakKey::new(5, 2)).unwrap();
        if first_node1 {
            e.apply(&a).unwrap();
            e.apply(&b).unwrap();
        } else {
            e.apply(&b).unwrap();
            e.apply(&a).unwrap();
        }
        let snap = e.get("tag", Y).unwrap();
        assert_eq!(field(&snap, "name"), Some("B"));
    }
}

#[test]
fn applying_twice_equals_once() {
    let mut once = tag_engine();
    let mut twice = tag_engine();
    let ops = tag_ops(&once);
    for op in &ops {
        once.apply(op).unwrap();
        twice.apply(op).unwrap();
        let again = twice.apply(op).unwrap();
        assert!(again.changed_fields.is_empty());
        assert!(!again.tombstone_changed);
    }
    assert_eq!(sorted(&once.get("tag", X).unwrap()), sorted(&twice.get("tag", X).unwrap()));
}

#[test]
fn update_leaves_other_fields() {
    let mut e = tag_engine();
    let reg = e.registry();
    let c = SharedRecordOperation::new_create(reg, X, "tag", pairs(&[("name", "n"), ("color", "red")]), TieBreakKey::new(7, NODE_A)).unwrap();
    let u = SharedRecordOperation::new_update(reg, X, "tag", "color".to_string(), "green".to_string(), TieBreakKey::new(7, NODE_A)).unwrap();
    e.apply(&c).unwrap();
    let out = e.apply(&u).unwrap();
    // same key as the stored one: not strictly later, so it loses
    assert!(out.changed_fields.is_empty());
    let u2 = SharedRecordOperation::new_update(e.registry(), X, "tag", "color".to_string(), "green".to_string(), TieBreakKey::new(7, NODE_B)).unwrap();
    let out = e.apply(&u2).unwrap();
    assert_eq!(out.changed_fields, strings(&["color"]));
    let snap = e.get("tag", X).unwrap();
    assert_eq!(field(&snap, "name"), Some("n"));
    assert_eq!(field(&snap, "color"), Some("green"));
}

#[test]
fn later_write_resurrects_deleted_record() {
    let mut e = tag_engine();
    let reg = e.registry();
    let d = SharedRecordOperation::new_delete(X, "tag", TieBreakKey::new(10, NODE_A));
    let u = SharedRecordOperation::new_update(reg, X, "tag", "name".to_string(), "back".to_string(), TieBreakKey::new(11, NODE_B)).unwrap();
    let out = e.apply(&d).unwrap();
    assert!(out.tombstone_changed);
    assert!(e.get("tag", X).unwrap().tombstoned);
    e.apply(&u).unwrap();
    let snap = e.get("tag", X).unwrap();
    assert!(!snap.tombstoned);
    assert_eq!(field(&snap, "name"), Some("back"));
}

#[test]
fn earlier_write_keeps_record_deleted() {
    let mut e = tag_engine();
    let reg = e.registry();
    let d = SharedRecordOperation::new_delete(X, "tag", TieBreakKey::new(10, NODE_A));
    let u = SharedRecordOperation::new_update(reg, X, "tag", "name".to_string(), "late".to_string(), TieBreakKey::new(9, NODE_B)).unwrap();
    e.apply(&d).unwrap();
    let out = e.apply(&u).unwrap();
    assert_eq!(out.changed_fields, strings(&["name"]));
    let snap = e.get("tag", X).unwrap();
    assert!(snap.tombstoned);
    assert_eq!(field(&snap, "name"), Some("late"));
}

#[test]
fn older_delete_does_not_hide_newer_fields() {
    let mut e = tag_engine();
    let reg = e.registry();
    let c = SharedRecordOperation::new_create(reg, X, "tag", pairs(&[("name", "n")]), TieBreakKey::new(20, NODE_A)).unwrap();
    let d = SharedRecordOperation::new_delete(X, "tag", TieBreakKey::new(10, NODE_B));
    e.apply(&c).unwrap();
    e.apply(&d).unwrap();
    assert!(!e.get("tag", X).unwrap().tombstoned);
}

#[test]
fn update_of_unknown_field_is_a_violation() {
    let e = tag_engine();
    let r = SharedRecordOperation::new_update(e.registry(), X, "tag", "size".to_string(), "1".to_string(), TieBreakKey::new(1, NODE_A));
    assert!(matches!(r, Err(SyncError::SchemaViolation)));
}

#[test]
fn create_missing_required_field_is_a_violation() {
    let e = tag_engine();
    let r = SharedRecordOperation::new_create(e.registry(), X, "tag", pairs(&[("color", "red")]), TieBreakKey::new(1, NODE_A));
    assert!(matches!(r, Err(SyncError::SchemaViolation)));
}

#[test]
fn create_with_unknown_or_repeated_field_is_a_violation() {
    let e = tag_engine();
    let unknown = SharedRecordOperation::new_create(e.registry(), X, "tag", pairs(&[("name", "a"), ("size", "1")]), TieBreakKey::new(1, NODE_A));
    assert!(matches!(unknown, Err(SyncError::SchemaViolation)));
    let repeated = SharedRecordOperation::new_create(e.registry(), X, "tag", pairs(&[("name", "a"), ("name", "b")]), TieBreakKey::new(1, NODE_A));
    assert!(matches!(repeated, Err(SyncError::SchemaViolation)));
}

#[test]
fn delete_of_unknown_model_is_built_then_refused() {
    let mut e = tag_engine();
    let d = SharedRecordOperation::new_delete(X, "location", TieBreakKey::new(1, NODE_A));
    assert_eq!(d.model, "location");
    assert!(matches!(d.data, SharedRecordOperationData::Delete));
    assert!(matches!(e.apply(&d), Err(SyncError::SchemaViolation)));
    assert!(e.get("location", X).is_none());
}

#[test]
fn write_under_the_delete_key_keeps_record_deleted() {
    let mut e = tag_engine();
    let d = SharedRecordOperation::new_delete(X, "tag", TieBreakKey::new(10, NODE_A));
    let u = SharedRecordOperation::new_update(e.registry(), X, "tag", "name".to_string(), "same".to_string(), TieBreakKey::new(10, NODE_A)).unwrap();
    e.apply(&d).unwrap();
    e.apply(&u).unwrap();
    assert!(e.get("tag", X).unwrap().tombstoned);
}

#[test]
fn later_create_shows_its_values_after_delete() {
    let mut e = tag_engine();
    let d = SharedRecordOperation::new_delete(X, "tag", TieBreakKey::new(10, NODE_A));
    let c = SharedRecordOperation::new_create(e.registry(), X, "tag", pairs(&[("name", "n"), ("color", "c")]), TieBreakKey::new(12, NODE_B)).unwrap();
    e.apply(&d).unwrap();
    let out = e.apply(&c).unwrap();
    assert_eq!(out.changed_fields, strings(&["name", "color"]));
    let snap = e.get("tag", X).unwrap();
    assert!(!snap.tombstoned);
    assert_eq!(sorted(&snap), pairs(&[("color", "c"), ("name", "n")]));
}

#[test]
fn apply_rejects_operation_that_bypassed_validation() {
    let mut e = tag_engine();
    let op = SharedRecordOperation {
        record_id: X,
        model: "tag".to_string(),
        key: TieBreakKey::new(3, NODE_A),
        data: SharedRecordOperationData::Update { field: "size".to_string(), value: "1".to_string() },
    };
    assert!(matches!(e.apply(&op), Err(SyncError::SchemaViolation)));
    assert!(e.get("tag", X).is_none());
}

#[test]
fn register_is_idempotent_and_detects_conflicts() {
    let mut r = SchemaRegistry::new();
    assert_eq!(r.register("tag", strings(&["name"]), strings(&["name", "color"])), Ok(()));
    assert_eq!(r.register("tag", strings(&["name"]), strings(&["color", "name"])), Ok(()));
    assert_eq!(r.register("tag", strings(&["name"]), strings(&["name"])), Err(SyncError::SchemaConflict));
    assert_eq!(r.validate_update(&"tag".to_string(), &"color".to_string()), Ok(()));
}

#[test]
fn create_reports_changed_fields() {
    let mut e = tag_engine();
    let reg = e.registry();
    let first = SharedRecordOperation::new_update(reg, X, "tag", "color".to_string(), "red".to_string(), TieBreakKey::new(30, NODE_A)).unwrap();
    let c = SharedRecordOperation::new_create(reg, X, "tag", pairs(&[("name", "n"), ("color", "blue")]), TieBreakKey::new(20, NODE_A)).unwrap();
    e.apply(&first).unwrap();
    let out = e.apply(&c).unwrap();
    assert_eq!(out.changed_fields, strings(&["name"]));
    let snap = e.get("tag", X).unwrap();
    assert_eq!(field(&snap, "color"), Some("red"));
}

#[test]
fn unseen_record_is_unknown() {
    let e = tag_engine();
    assert!(e.get("tag", X).is_none());
}

#[test]
fn records_are_independent() {
    let mut e = tag_engine();
    let reg = e.registry();
    let a = SharedRecordOperation::new_create(reg, X, "tag", pairs(&[("name", "x")]), TieBreakKey::new(1, NODE_A)).unwrap();
    let b = SharedRecordOperation::new_delete(Y, "tag", TieBreakKey::new(2, NODE_A));
    e.apply(&a).unwrap();
    e.apply(&b).unwrap();
    assert!(!e.get("tag", X).unwrap().tombstoned);
    assert!(e.get("tag", Y).unwrap().tombstoned);
}

#[test]
fn keys_rank_by_timestamp_then_node() {
    assert!(TieBreakKey::new(1, 9).precedes(&TieBreakKey::new(2, 0)));
    assert!(TieBreakKey::new(5, 1).precedes(&TieBreakKey::new(5, 2)));
    assert!(!TieBreakKey::new(5, 2).precedes(&TieBreakKey::new(5, 2)));
    assert!(!TieBreakKey::new(6, 0).precedes(&TieBreakKey::new(5, 9)));
}
