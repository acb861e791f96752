use vstd::prelude::*;
use crate::operation::{op_allowed, op_writes, Id, OpDataView, OpView, SharedRecordOperation, SharedRecordOperationData};
use crate::register::{apply_write, apply_writes, write_accepted, RecordSnapshot, RecordView, Write, field_values, is_tombstoned, snapshot_entries};
use crate::schema::{names_of, name_set, SchemaRegistry, SchemaView, SyncError};
use crate::store::{lemma_slot_key, lookup, RecordKey, RecordStore, RegisterWrite};
use crate::assoc::{assoc_map, keys_distinct};

verus! {

/// An operation applied to the store: its writes go, in order, to the
/// registers of its record, which starts empty if it was never seen.
pub open spec fn store_apply(s: Map<RecordKey, RecordView>, op: OpView) -> Map<RecordKey, RecordView> {
    s.insert((op.model, op.record_id), apply_writes(lookup(s, (op.model, op.record_id)), op_writes(op)))
}

/// One step of replay: an operation that fits its schema is applied, any
/// other leaves the store as it was.
pub open spec fn engine_step(reg: Map<Seq<char>, SchemaView>, s: Map<RecordKey, RecordView>, op: OpView) -> Map<RecordKey, RecordView> {
    if op_allowed(reg, op) {
        store_apply(s, op)
    } else {
        s
    }
}

/// Replay of a sequence of operations, first to last.
pub open spec fn engine_run(reg: Map<Seq<char>, SchemaView>, s: Map<RecordKey, RecordView>, ops: Seq<OpView>) -> Map<RecordKey, RecordView>
    decreases ops.len(),
{
    if ops.len() == 0 {
        s
    } else {
        engine_step(reg, engine_run(reg, s, ops.drop_last()), ops.last())
    }
}

/// The fields whose write won, in the order in which the writes were made.
pub open spec fn accepted_fields(r: RecordView, ws: Seq<Write>) -> Seq<Seq<char>>
    decreases ws.len(),
{
    if ws.len() == 0 {
        Seq::empty()
    } else {
        let before = accepted_fields(r, ws.drop_last());
        match ws.last() {
            Write::Field(f, _, _) => if write_accepted(apply_writes(r, ws.drop_last()), ws.last()) {
                before.push(f)
            } else {
                before
            },
            Write::Tomb(_) => before,
        }
    }
}

/// What an accepted operation changed: the fields whose registers took its
/// write, and whether the tombstone did.
#[derive(Clone, Debug)]
pub struct ApplyOutcome {
    pub changed_fields: Vec<String>,
    pub tombstone_changed: bool,
}

pub struct EngineView {
    pub schemas: Map<Seq<char>, SchemaView>,
    pub records: Map<RecordKey, RecordView>,
}

/// The schema registry and the register store of one replica; every operation,
/// local or from a peer, reaches the store through `apply`.
#[derive(Debug)]
pub struct SyncEngine {
    registry: SchemaRegistry,
    store: RecordStore,
}

impl View for SyncEngine {
    type V = EngineView;

    closed spec fn view(&self) -> EngineView {
        EngineView { schemas: self.registry@, records: self.store@ }
    }
}

impl SyncEngine {
    pub closed spec fn wf(&self) -> bool {
        self.registry.wf() && self.store.wf()
    }

    pub fn new() -> (r: SyncEngine)
        ensures
            r.wf(),
            r@.schemas == Map::<Seq<char>, SchemaView>::empty(),
            r@.records == Map::<RecordKey, RecordView>::empty(),
    {
        SyncEngine { registry: SchemaRegistry::new(), store: RecordStore::new() }
    }

    /// The registry, to build operations against.
    pub fn registry(&self) -> (r: &SchemaRegistry)
        requires
            self.wf(),
        ensures
            r.wf(),
            r@ == self@.schemas,
    {
        &self.registry
    }

    /// Registers a model's fields; see `SchemaRegistry::register`.
    pub fn register(&mut self, model_name: &str, required_fields: Vec<String>, updatable_fields: Vec<String>) -> (r: Result<(), SyncError>)
        requires
            old(self).wf(),
        ensures
            final(self).wf(),
            final(self)@.records == old(self)@.records,
            r is Ok <==> (!old(self)@.schemas.contains_key(model_name@) || old(self)@.schemas[model_name@] == (
            SchemaView {
                required: name_set(required_fields@),
                updatable: name_set(updatable_fields@),
            })),
            r is Ok ==> final(self)@.schemas == old(self)@.schemas.insert(
                model_name@,
                SchemaView {
                    required: name_set(required_fields@),
                    updatable: name_set(updatable_fields@),
                },
            ),
            r is Err ==> r == Err::<(), SyncError>(SyncError::SchemaConflict) && final(self)@.schemas
                == old(self)@.schemas,
    {
        self.registry.register(model_name, required_fields, updatable_fields)
    }

    /// Applies an operation, in whatever order it arrives and however often.
    /// An operation that does not fit its schema is refused with
    /// `SchemaViolation` and changes nothing; any other is applied and reports
    /// the registers it changed.
    pub fn apply(&mut self, op: &SharedRecordOperation) -> (r: Result<ApplyOutcome, SyncError>)
        requires
            old(self).wf(),
        ensures
            final(self).wf(),
            final(self)@.schemas == old(self)@.schemas,
            final(self)@.records == engine_step(old(self)@.schemas, old(self)@.records, op@),
            r is Ok <==> op_allowed(old(self)@.schemas, op@),
            r matches Err(e) ==> e == SyncError::SchemaViolation,
            r matches Ok(out) ==> names_of(out.changed_fields@) == accepted_fields(
                lookup(old(self)@.records, (op@.model, op@.record_id)),
                op_writes(op@),
            ) && out.tombstone_changed == (op@.data is Delete && write_accepted(
                lookup(old(self)@.records, (op@.model, op@.record_id)),
                Write::Tomb(op@.key),
            )),
    {
        match self.registry.validate(op) {
            Ok(()) => {},
            Err(e) => {
                return Err(e);
            },
        }
        let ghost k: RecordKey = (op@.model, op@.record_id);
        let ghost s0 = self.store@;
        let ghost r0 = lookup(s0, k);
        let ghost ws = op_writes(op@);
        let i = self.store.slot(&op.model, op.record_id);
        proof {
            lemma_slot_key(&self.store, i as int, k);
        }
        let key = op.key;
        match &op.data {
            SharedRecordOperationData::Create { data } => {
                let mut changed: Vec<String> = Vec::new();
                let mut j: usize = 0;
                while j < data.len()
                    invariant
                        self.wf(),
                        self@.schemas == old(self)@.schemas,
                        s0 == old(self)@.records,
                        ws == op_writes(op@),
                        op@.data == OpDataView::Create(crate::operation::pair_views(data@)),
                        key == op@.key,
                        j <= data@.len(),
                        ws.len() == data@.len(),
                        self.store.slot_holds(i as int, k),
                        self.store@ == s0.insert(k, apply_writes(r0, ws.take(j as int))),
                        names_of(changed@) == accepted_fields(r0, ws.take(j as int)),
                    decreases data@.len() - j,
                {
                    let ghost before = self.store@;
                    proof {
                        lemma_slot_key(&self.store, i as int, k);
                    }
                    let w = RegisterWrite::Field(&data[j].0, &data[j].1);
                    let won = self.store.write_at(i, &w, key);
                    let ghost cw = changed@;
                    if won {
                        changed.push(data[j].0.clone());
                    }
                    proof {
                        let t = ws.take(j + 1);
                        assert(t.drop_last() =~= ws.take(j as int));
                        assert(ws[j as int] == w.write_view(key));
                        assert(t.last() == ws[j as int]);
                        lemma_slot_key(&self.store, i as int, k);
                        assert(self.store@ =~= s0.insert(k, apply_writes(r0, t)));
                        assert(names_of(changed@) =~= accepted_fields(r0, t));
                    }
                    j += 1;
                }
                proof {
                    assert(ws.take(data@.len() as int) =~= ws);
                }
                Ok(ApplyOutcome { changed_fields: changed, tombstone_changed: false })
            },
            SharedRecordOperationData::Update { field, value } => {
                let w = RegisterWrite::Field(field, value);
                let won = self.store.write_at(i, &w, key);
                let mut changed: Vec<String> = Vec::new();
                if won {
                    changed.push(field.clone());
                }
                proof {
                    assert(ws.drop_last() =~= Seq::<Write>::empty());
                    assert(ws.last() == w.write_view(key));
                    assert(apply_writes(r0, ws.drop_last()) == r0);
                    assert(accepted_fields(r0, ws.drop_last()) == Seq::<Seq<char>>::empty());
                    assert(apply_writes(r0, ws) == apply_write(r0, w.write_view(key)));
                    assert(self.store@ =~= store_apply(s0, op@));
                    assert(names_of(changed@) =~= accepted_fields(r0, ws));
                }
                Ok(ApplyOutcome { changed_fields: changed, tombstone_changed: false })
            },
            SharedRecordOperationData::Delete => {
                let w = RegisterWrite::Tomb;
                let won = self.store.write_at(i, &w, key);
                proof {
                    assert(ws.drop_last() =~= Seq::<Write>::empty());
                    assert(self.store@ =~= store_apply(s0, op@));
                    assert(accepted_fields(r0, ws.drop_last()) == Seq::<Seq<char>>::empty());
                    assert(ws.last() == Write::Tomb(key));
                    assert(Seq::<Seq<char>>::empty() =~= accepted_fields(r0, ws));
                }
                Ok(ApplyOutcome { changed_fields: Vec::new(), tombstone_changed: won })
            },
        }
    }

    /// The state of a record for readers outside the engine, or `None` for a
    /// record of which no operation has been seen.
    pub fn get(&self, model: &str, id: Id) -> (r: Option<RecordSnapshot>)
        requires
            self.wf(),
        ensures
            r is Some <==> self@.records.contains_key((model@, id)),
            r matches Some(snap) ==> assoc_map(snapshot_entries(snap.fields@)) == field_values(
                self@.records[(model@, id)],
            ) && keys_distinct(snapshot_entries(snap.fields@)) && snap.tombstoned == is_tombstoned(
                self@.records[(model@, id)],
            ),
    {
        let model = model.to_owned();
        self.store.get(&model, id)
    }
}

} // verus!
