use vstd::prelude::*;
use crate::assoc::{assoc_map, keys_distinct, lemma_assoc_domain, lemma_assoc_index, lemma_assoc_push, lemma_assoc_update};
use crate::key::TieBreakKey;
use crate::operation::Id;
use crate::register::{
    apply_write, empty_record, field_values, is_tombstoned, snapshot_entries, write_accepted,
    RecordSnapshot, RecordState, RecordView, Write,
};

verus! {

/// The primary key of a record: its model and its id.
pub type RecordKey = (Seq<char>, Id);

/// A record's state, or the empty state for a record never seen.
pub open spec fn lookup(s: Map<RecordKey, RecordView>, k: RecordKey) -> RecordView {
    if s.contains_key(k) {
        s[k]
    } else {
        empty_record()
    }
}

#[derive(Debug)]
pub struct StoredRecord {
    model: String,
    id: Id,
    state: RecordState,
}

spec fn record_entries(s: Seq<StoredRecord>) -> Seq<(RecordKey, RecordView)> {
    s.map_values(|r: StoredRecord| ((r.model@, r.id), r.state@))
}

/// The register state of every record seen, keyed by model and id.
#[derive(Debug)]
pub struct RecordStore {
    records: Vec<StoredRecord>,
}

impl View for RecordStore {
    type V = Map<RecordKey, RecordView>;

    closed spec fn view(&self) -> Map<RecordKey, RecordView> {
        assoc_map(record_entries(self.records@))
    }
}

impl RecordStore {
    /// One entry per record, each with well-formed registers.
    pub closed spec fn wf(&self) -> bool {
        &&& keys_distinct(record_entries(self.records@))
        &&& forall|i: int| 0 <= i < self.records@.len() ==> (#[trigger] self.records@[i]).state.wf()
    }

    /// Entry `i` holds the record `k`.
    pub closed spec fn slot_holds(&self, i: int, k: RecordKey) -> bool {
        0 <= i < self.records@.len() && (self.records@[i].model@, self.records@[i].id) == k
    }

    pub fn new() -> (r: RecordStore)
        ensures
            r.wf(),
            r@ == Map::<RecordKey, RecordView>::empty(),
    {
        let r = RecordStore { records: Vec::new() };
        assert(r@ =~= Map::<RecordKey, RecordView>::empty());
        r
    }

    /// The entry of a record, if it has been seen.
    fn find(&self, model: &String, id: Id) -> (r: Option<usize>)
        requires
            self.wf(),
        ensures
            match r {
                Some(i) => self.slot_holds(i as int, (model@, id)) && self@.contains_key(
                    (model@, id),
                ) && self@[(model@, id)] == self.records@[i as int].state@,
                None => !self@.contains_key((model@, id)),
            },
    {
        let ghost e = record_entries(self.records@);
        let mut i: usize = 0;
        while i < self.records.len()
            invariant
                i <= self.records@.len(),
                e == record_entries(self.records@),
                keys_distinct(e),
                forall|j: int| 0 <= j < i ==> (self.records@[j].model@, self.records@[j].id) != (
                    model@,
                    id,
                ),
            decreases self.records@.len() - i,
        {
            if self.records[i].id == id && self.records[i].model == *model {
                proof {
                    lemma_assoc_index(e, i as int);
                }
                return Some(i);
            }
            i += 1;
        }
        proof {
            lemma_assoc_domain(e, (model@, id));
            if self@.contains_key((model@, id)) {
                let j = choose|j: int| 0 <= j < e.len() && e[j].0 == (model@, id);
                assert(e[j].0 == (self.records@[j].model@, self.records@[j].id));
            }
        }
        None
    }

    /// The entry of a record, made empty first if the record was never seen.
    pub(crate) fn slot(&mut self, model: &String, id: Id) -> (i: usize)
        requires
            old(self).wf(),
        ensures
            final(self).wf(),
            final(self).slot_holds(i as int, (model@, id)),
            final(self)@ == old(self)@.insert((model@, id), lookup(old(self)@, (model@, id))),
    {
        match self.find(model, id) {
            Some(i) => {
                assert(self@.insert((model@, id), lookup(self@, (model@, id))) =~= self@);
                i
            },
            None => {
                let ghost before = record_entries(self.records@);
                proof {
                    lemma_assoc_domain(before, (model@, id));
                }
                let state = RecordState::new();
                self.records.push(StoredRecord { model: model.clone(), id, state });
                proof {
                    assert(record_entries(self.records@) =~= before.push(
                        ((model@, id), empty_record()),
                    ));
                    lemma_assoc_push(before, (model@, id), empty_record());
                }
                (self.records.len() - 1) as usize
            },
        }
    }

    /// Applies one register write to the record held by entry `i`; returns
    /// whether the write won.
    pub(crate) fn write_at(&mut self, i: usize, w: &RegisterWrite, key: TieBreakKey) -> (changed: bool)
        requires
            old(self).wf(),
            old(self).slot_holds(i as int, k_of(old(self), i as int)),
        ensures
            final(self).wf(),
            final(self).slot_holds(i as int, k_of(old(self), i as int)),
            final(self)@ == old(self)@.insert(
                k_of(old(self), i as int),
                apply_write(old(self)@[k_of(old(self), i as int)], w.write_view(key)),
            ),
            changed == write_accepted(old(self)@[k_of(old(self), i as int)], w.write_view(key)),
    {
        let ghost before = record_entries(self.records@);
        let ghost k = k_of(self, i as int);
        proof {
            lemma_assoc_index(before, i as int);
        }
        let changed = match w {
            RegisterWrite::Field(f, v) => self.records[i].state.apply_field(f, v, key),
            RegisterWrite::Tomb => self.records[i].state.apply_tombstone(key),
        };
        proof {
            let new_state = self.records@[i as int].state@;
            lemma_assoc_update(before, i as int, new_state);
            assert(record_entries(self.records@) =~= before.update(i as int, (k, new_state)));
        }
        changed
    }

    /// Writes one field of a record under the last-writer-wins rule, making the
    /// record's state first if it was never seen; returns whether the write won.
    pub fn apply_field(&mut self, model: &String, id: Id, field: &String, value: &String, key: TieBreakKey) -> (changed: bool)
        requires
            old(self).wf(),
        ensures
            final(self).wf(),
            final(self)@ == old(self)@.insert(
                (model@, id),
                apply_write(lookup(old(self)@, (model@, id)), Write::Field(field@, value@, key)),
            ),
            changed == write_accepted(
                lookup(old(self)@, (model@, id)),
                Write::Field(field@, value@, key),
            ),
    {
        let i = self.slot(model, id);
        proof {
            lemma_slot_key(self, i as int, (model@, id));
        }
        let changed = self.write_at(i, &RegisterWrite::Field(field, value), key);
        assert(self@ =~= old(self)@.insert(
            (model@, id),
            apply_write(lookup(old(self)@, (model@, id)), Write::Field(field@, value@, key)),
        ));
        changed
    }

    /// Writes the tombstone of a record under the last-writer-wins rule, making
    /// the record's state first if it was never seen; returns whether the write won.
    pub fn apply_tombstone(&mut self, model: &String, id: Id, key: TieBreakKey) -> (changed: bool)
        requires
            old(self).wf(),
        ensures
            final(self).wf(),
            final(self)@ == old(self)@.insert(
                (model@, id),
                apply_write(lookup(old(self)@, (model@, id)), Write::Tomb(key)),
            ),
            changed == write_accepted(lookup(old(self)@, (model@, id)), Write::Tomb(key)),
    {
        let i = self.slot(model, id);
        proof {
            lemma_slot_key(self, i as int, (model@, id));
        }
        let changed = self.write_at(i, &RegisterWrite::Tomb, key);
        assert(self@ =~= old(self)@.insert(
            (model@, id),
            apply_write(lookup(old(self)@, (model@, id)), Write::Tomb(key)),
        ));
        changed
    }

    /// The state of a record for readers outside the engine, or `None` for a
    /// record of which no operation has been seen.
    pub fn get(&self, model: &String, id: Id) -> (r: Option<RecordSnapshot>)
        requires
            self.wf(),
        ensures
            r is Some <==> self@.contains_key((model@, id)),
            r matches Some(snap) ==> assoc_map(snapshot_entries(snap.fields@)) == field_values(
                self@[(model@, id)],
            ) && keys_distinct(snapshot_entries(snap.fields@)) && snap.tombstoned == is_tombstoned(
                self@[(model@, id)],
            ),
    {
        match self.find(model, id) {
            Some(i) => Some(self.records[i].state.snapshot()),
            None => None,
        }
    }
}

/// The record held by entry `i`.
pub closed spec fn k_of(s: &RecordStore, i: int) -> RecordKey {
    (s.records@[i].model@, s.records@[i].id)
}

/// A register write as the engine hands it to the store; its key comes with it.
pub enum RegisterWrite<'a> {
    Field(&'a String, &'a String),
    Tomb,
}

impl<'a> RegisterWrite<'a> {
    pub open spec fn write_view(&self, key: TieBreakKey) -> Write {
        match *self {
            RegisterWrite::Field(f, v) => Write::Field(f@, v@, key),
            RegisterWrite::Tomb => Write::Tomb(key),
        }
    }
}

} // verus!

verus! {

/// The entry that holds a record is known by that record.
pub proof fn lemma_slot_key(s: &RecordStore, i: int, k: RecordKey)
    requires
        s.slot_holds(i, k),
    ensures
        k_of(s, i) == k,
{
}

} // verus!
