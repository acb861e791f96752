use vstd::prelude::*;
use crate::key::TieBreakKey;
use crate::register::Write;
use crate::schema::{
    create_allowed, name_set, names_of, recognized, update_allowed, SchemaRegistry, SchemaView,
    SyncError,
};

verus! {

/// A record identifier: 128 bits, unique within its model.
pub type Id = u128;

/// What an operation does to its record. Values are serialized field values.
#[derive(Clone, Debug)]
pub enum SharedRecordOperationData {
    /// Sets the record's initial fields; each field name occurs once.
    Create { data: Vec<(String, String)> },
    /// Sets exactly one field.
    Update { field: String, value: String },
    /// Marks the record deleted.
    Delete,
}

/// An operation on a shared record, identified by its model and id, and
/// ranked against concurrent operations by its tie-break key.
#[derive(Clone, Debug)]
pub struct SharedRecordOperation {
    pub record_id: Id,
    pub model: String,
    pub key: TieBreakKey,
    pub data: SharedRecordOperationData,
}

pub enum OpDataView {
    Create(Seq<(Seq<char>, Seq<char>)>),
    Update(Seq<char>, Seq<char>),
    Delete,
}

pub struct OpView {
    pub record_id: Id,
    pub model: Seq<char>,
    pub key: TieBreakKey,
    pub data: OpDataView,
}

pub open spec fn pair_views(d: Seq<(String, String)>) -> Seq<(Seq<char>, Seq<char>)> {
    d.map_values(|p: (String, String)| (p.0@, p.1@))
}

/// The field names set by a create.
pub open spec fn pair_names(d: Seq<(Seq<char>, Seq<char>)>) -> Seq<Seq<char>> {
    d.map_values(|p: (Seq<char>, Seq<char>)| p.0)
}

impl View for SharedRecordOperation {
    type V = OpView;

    open spec fn view(&self) -> OpView {
        OpView {
            record_id: self.record_id,
            model: self.model@,
            key: self.key,
            data: match self.data {
                SharedRecordOperationData::Create { data } => OpDataView::Create(pair_views(data@)),
                SharedRecordOperationData::Update { field, value } => OpDataView::Update(
                    field@,
                    value@,
                ),
                SharedRecordOperationData::Delete => OpDataView::Delete,
            },
        }
    }
}

/// The register writes an operation stands for, all under the operation's key:
/// one per field of a create, one for an update, the tombstone for a delete.
pub open spec fn op_writes(op: OpView) -> Seq<Write> {
    match op.data {
        OpDataView::Create(d) => d.map_values(
            |p: (Seq<char>, Seq<char>)| Write::Field(p.0, p.1, op.key),
        ),
        OpDataView::Update(f, v) => seq![Write::Field(f, v, op.key)],
        OpDataView::Delete => seq![Write::Tomb(op.key)],
    }
}

/// The operation fits the registered schema of its model.
pub open spec fn op_allowed(reg: Map<Seq<char>, SchemaView>, op: OpView) -> bool {
    match op.data {
        OpDataView::Create(d) => create_allowed(reg, op.model, pair_names(d)),
        OpDataView::Update(f, _) => update_allowed(reg, op.model, f),
        OpDataView::Delete => reg.contains_key(op.model),
    }
}

impl SchemaRegistry {
    /// Accepts a create's fields exactly when the model is registered, no
    /// field repeats, every field is recognized and every required field is set.
    pub fn validate_create(&self, model: &String, data: &Vec<(String, String)>) -> (r: Result<(), SyncError>)
        requires
            self.wf(),
        ensures
            r is Ok <==> create_allowed(self@, model@, pair_names(pair_views(data@))),
            r is Err ==> r == Err::<(), SyncError>(SyncError::SchemaViolation),
    {
        let ghost names = pair_names(pair_views(data@));
        let schema = match self.find_model(model) {
            Some(i) => &self.models[i],
            None => {
                return Err(SyncError::SchemaViolation);
            },
        };
        let ghost sv = self@[model@];
        assert(sv.required == name_set(schema.required_fields@));
        assert(sv.updatable == name_set(schema.updatable_fields@));
        let mut i: usize = 0;
        while i < data.len()
            invariant
                i <= data@.len(),
                names == pair_names(pair_views(data@)),
                self@.contains_key(model@),
                sv == self@[model@],
                sv.required == name_set(schema.required_fields@),
                sv.updatable == name_set(schema.updatable_fields@),
                forall|a: int, b: int| 0 <= a < b < i ==> names[a] != names[b],
                forall|a: int| 0 <= a < i ==> recognized(sv, #[trigger] names[a]),
            decreases data@.len() - i,
        {
            assert(names[i as int] == data@[i as int].0@);
            if !(crate::schema::contains_name(&schema.required_fields, &data[i].0)
                || crate::schema::contains_name(&schema.updatable_fields, &data[i].0)) {
                assert(!recognized(sv, names[i as int]));
                assert(names.len() == data@.len());
                assert(!create_allowed(self@, model@, names));
                return Err(SyncError::SchemaViolation);
            }
            let mut j: usize = 0;
            while j < i
                invariant
                    j <= i < data@.len(),
                    names == pair_names(pair_views(data@)),
                    forall|a: int| 0 <= a < j ==> names[a] != names[i as int],
                decreases i - j,
            {
                assert(names[j as int] == data@[j as int].0@);
                if data[j].0 == data[i].0 {
                    assert(names[j as int] == names[i as int]);
                    assert(!names.no_duplicates());
                    return Err(SyncError::SchemaViolation);
                }
                j += 1;
            }
            i += 1;
        }
        let mut k: usize = 0;
        while k < schema.required_fields.len()
            invariant
                k <= schema.required_fields@.len(),
                names == pair_names(pair_views(data@)),
                self@.contains_key(model@),
                sv == self@[model@],
                sv.required == name_set(schema.required_fields@),
                forall|a: int| 0 <= a < k ==> names.contains(#[trigger] schema.required_fields@[a]@),
            decreases schema.required_fields@.len() - k,
        {
            let mut found = false;
            let mut i: usize = 0;
            while i < data.len()
                invariant
                    i <= data@.len(),
                    k < schema.required_fields@.len(),
                    names == pair_names(pair_views(data@)),
                    found ==> names.contains(schema.required_fields@[k as int]@),
                    !found ==> forall|a: int|
                        0 <= a < i ==> names[a] != schema.required_fields@[k as int]@,
                decreases data@.len() - i,
            {
                assert(names[i as int] == data@[i as int].0@);
                if data[i].0 == schema.required_fields[k] {
                    found = true;
                }
                i += 1;
            }
            if !found {
                assert(sv.required.contains(schema.required_fields@[k as int]@)) by {
                    assert(names_of(schema.required_fields@)[k as int]
                        == schema.required_fields@[k as int]@);
                }
                assert(!names.contains(schema.required_fields@[k as int]@));
                assert(self@[model@].required.contains(schema.required_fields@[k as int]@));
                return Err(SyncError::SchemaViolation);
            }
            k += 1;
        }
        proof {
            assert forall|f: Seq<char>| #[trigger] sv.required.contains(f) implies names.contains(
                f,
            ) by {
                let a = choose|a: int|
                    0 <= a < schema.required_fields@.len() && #[trigger] names_of(
                        schema.required_fields@,
                    )[a] == f;
                assert(names.contains(schema.required_fields@[a]@));
            }
        }
        Ok(())
    }

    /// Accepts an update exactly when the model is registered and the field is
    /// updatable.
    pub fn validate_update(&self, model: &String, field: &String) -> (r: Result<(), SyncError>)
        requires
            self.wf(),
        ensures
            r is Ok <==> update_allowed(self@, model@, field@),
            r is Err ==> r == Err::<(), SyncError>(SyncError::SchemaViolation),
    {
        match self.find_model(model) {
            Some(i) => {
                if crate::schema::contains_name(&self.models[i].updatable_fields, field) {
                    Ok(())
                } else {
                    Err(SyncError::SchemaViolation)
                }
            },
            None => Err(SyncError::SchemaViolation),
        }
    }

    /// Accepts an operation exactly when it fits its model's schema.
    pub fn validate(&self, op: &SharedRecordOperation) -> (r: Result<(), SyncError>)
        requires
            self.wf(),
        ensures
            r is Ok <==> op_allowed(self@, op@),
            r is Err ==> r == Err::<(), SyncError>(SyncError::SchemaViolation),
    {
        match &op.data {
            SharedRecordOperationData::Create { data } => self.validate_create(&op.model, data),
            SharedRecordOperationData::Update { field, value: _ } => self.validate_update(
                &op.model,
                field,
            ),
            SharedRecordOperationData::Delete => {
                if self.find_model(&op.model).is_some() {
                    Ok(())
                } else {
                    Err(SyncError::SchemaViolation)
                }
            },
        }
    }
}

} // verus!

verus! {

impl SharedRecordOperation {
    fn new(record_id: Id, model: String, key: TieBreakKey, data: SharedRecordOperationData) -> (r:
        Self)
        ensures
            r.record_id == record_id,
            r.model == model,
            r.key == key,
            r.data == data,
    {
        SharedRecordOperation { record_id, model, key, data }
    }

    /// A create of a record with the given fields; refused with
    /// `SchemaViolation` unless the fields fit the model's schema.
    pub fn new_create(registry: &SchemaRegistry, record_id: Id, model: &str, data: Vec<(String, String)>, key: TieBreakKey) -> (r: Result<Self, SyncError>)
        requires
            registry.wf(),
        ensures
            r is Ok <==> create_allowed(registry@, model@, pair_names(pair_views(data@))),
            r matches Ok(op) ==> op@ == (OpView {
                record_id,
                model: model@,
                key,
                data: OpDataView::Create(pair_views(data@)),
            }),
            r matches Err(e) ==> e == SyncError::SchemaViolation,
    {
        let model = model.to_owned();
        match registry.validate_create(&model, &data) {
            Ok(()) => Ok(
                SharedRecordOperation::new(
                    record_id,
                    model,
                    key,
                    SharedRecordOperationData::Create { data },
                ),
            ),
            Err(e) => Err(e),
        }
    }

    /// An update of one field; refused with `SchemaViolation` unless the field
    /// is updatable in the model.
    pub fn new_update(registry: &SchemaRegistry, record_id: Id, model: &str, field: String, value: String, key: TieBreakKey) -> (r: Result<Self, SyncError>)
        requires
            registry.wf(),
        ensures
            r is Ok <==> update_allowed(registry@, model@, field@),
            r matches Ok(op) ==> op@ == (OpView {
                record_id,
                model: model@,
                key,
                data: OpDataView::Update(field@, value@),
            }),
            r matches Err(e) ==> e == SyncError::SchemaViolation,
    {
        let model = model.to_owned();
        match registry.validate_update(&model, &field) {
            Ok(()) => Ok(
                SharedRecordOperation::new(
                    record_id,
                    model,
                    key,
                    SharedRecordOperationData::Update { field, value },
                ),
            ),
            Err(e) => Err(e),
        }
    }

    /// A delete of a record. A delete names no field, so there is nothing to
    /// check here; `SyncEngine::apply` still refuses one for an unknown model.
    pub fn new_delete(record_id: Id, model: &str, key: TieBreakKey) -> (r: Self)
        ensures
            r@ == (OpView { record_id, model: model@, key, data: OpDataView::Delete }),
    {
        SharedRecordOperation::new(record_id, model.to_owned(), key, SharedRecordOperationData::Delete)
    }
}

} // verus!
