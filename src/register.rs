use vstd::prelude::*;
use crate::assoc::{assoc_map, keys_distinct, lemma_assoc_domain, lemma_assoc_index, lemma_assoc_push, lemma_assoc_update};
use crate::key::{key_lt, TieBreakKey};

verus! {

/// What a replica holds for one record: for each field its value and the key
/// of the write that set it, and the key of the latest delete, if any.
#[verifier::ext_equal]
pub struct RecordView {
    pub fields: Map<Seq<char>, (Seq<char>, TieBreakKey)>,
    pub tombstone: Option<TieBreakKey>,
}

/// One register write: a field set to a value, or the tombstone set.
pub enum Write {
    Field(Seq<char>, Seq<char>, TieBreakKey),
    Tomb(TieBreakKey),
}

pub open spec fn write_key(w: Write) -> TieBreakKey {
    match w {
        Write::Field(_, _, k) => k,
        Write::Tomb(k) => k,
    }
}

/// The state of a record of which nothing has been written.
pub open spec fn empty_record() -> RecordView {
    RecordView { fields: Map::empty(), tombstone: None }
}

/// A write wins its register when the register is empty or holds a key that
/// ranks strictly below the write's.
pub open spec fn write_accepted(r: RecordView, w: Write) -> bool {
    match w {
        Write::Field(f, _, k) => !r.fields.contains_key(f) || key_lt(r.fields[f].1, k),
        Write::Tomb(k) => r.tombstone is None || key_lt(r.tombstone.unwrap(), k),
    }
}

/// Last-writer-wins: a write replaces its register's content only when it wins.
pub open spec fn apply_write(r: RecordView, w: Write) -> RecordView {
    if !write_accepted(r, w) {
        r
    } else {
        match w {
            Write::Field(f, v, k) => RecordView { fields: r.fields.insert(f, (v, k)), ..r },
            Write::Tomb(k) => RecordView { tombstone: Some(k), ..r },
        }
    }
}

/// The writes applied one after another, first to last.
pub open spec fn apply_writes(r: RecordView, ws: Seq<Write>) -> RecordView
    decreases ws.len(),
{
    if ws.len() == 0 {
        r
    } else {
        apply_write(apply_writes(r, ws.drop_last()), ws.last())
    }
}

/// A record is deleted when it has a tombstone and no field register ranks
/// strictly above it: only a field written strictly after the latest delete
/// brings the record back.
pub open spec fn is_tombstoned(r: RecordView) -> bool {
    &&& r.tombstone is Some
    &&& forall|f: Seq<char>| #[trigger]
        r.fields.contains_key(f) ==> !key_lt(r.tombstone.unwrap(), r.fields[f].1)
}

/// A field register: the value and the key of the write that set it.
#[derive(Clone, Debug)]
pub struct Register {
    pub value: String,
    pub key: TieBreakKey,
}

pub open spec fn field_entries(s: Seq<(String, Register)>) -> Seq<(Seq<char>, (Seq<char>, TieBreakKey))> {
    s.map_values(|p: (String, Register)| (p.0@, (p.1.value@, p.1.key)))
}

/// The registers of one record.
#[derive(Debug)]
pub struct RecordState {
    fields: Vec<(String, Register)>,
    tombstone: Option<TieBreakKey>,
}

impl View for RecordState {
    type V = RecordView;

    closed spec fn view(&self) -> RecordView {
        RecordView { fields: assoc_map(field_entries(self.fields@)), tombstone: self.tombstone }
    }
}

/// What a record looks like from outside: its fields' values and whether it is
/// deleted.
#[derive(Clone, Debug)]
pub struct RecordSnapshot {
    pub fields: Vec<(String, String)>,
    pub tombstoned: bool,
}

pub open spec fn snapshot_entries(s: Seq<(String, String)>) -> Seq<(Seq<char>, Seq<char>)> {
    s.map_values(|p: (String, String)| (p.0@, p.1@))
}

/// The values of a record's fields, without their keys.
pub open spec fn field_values(r: RecordView) -> Map<Seq<char>, Seq<char>> {
    r.fields.map_values(|p: (Seq<char>, TieBreakKey)| p.0)
}

impl RecordState {
    /// Each field has one register.
    pub closed spec fn wf(&self) -> bool {
        keys_distinct(field_entries(self.fields@))
    }

    pub fn new() -> (r: RecordState)
        ensures
            r.wf(),
            r@ == empty_record(),
    {
        let r = RecordState { fields: Vec::new(), tombstone: None };
        assert(r@.fields =~= Map::empty());
        r
    }

    /// The position of a field's register, if the record has one.
    fn find_field(&self, field: &String) -> (r: Option<usize>)
        requires
            self.wf(),
        ensures
            match r {
                Some(i) => i < self.fields@.len() && self.fields@[i as int].0@ == field@,
                None => !self@.fields.contains_key(field@),
            },
    {
        let mut i: usize = 0;
        while i < self.fields.len()
            invariant
                i <= self.fields@.len(),
                forall|j: int| 0 <= j < i ==> self.fields@[j].0@ != field@,
            decreases self.fields@.len() - i,
        {
            if self.fields[i].0 == *field {
                return Some(i);
            }
            i += 1;
        }
        proof {
            lemma_assoc_domain(field_entries(self.fields@), field@);
        }
        None
    }

    /// Writes a field register under the last-writer-wins rule; returns whether
    /// the write won. A losing write is no error: it was outranked.
    pub fn apply_field(&mut self, field: &String, value: &String, key: TieBreakKey) -> (changed:
        bool)
        requires
            old(self).wf(),
        ensures
            final(self).wf(),
            final(self)@ == apply_write(old(self)@, Write::Field(field@, value@, key)),
            changed == write_accepted(old(self)@, Write::Field(field@, value@, key)),
    {
        let ghost w = Write::Field(field@, value@, key);
        match self.find_field(field) {
            Some(i) => {
                proof {
                    lemma_assoc_index(field_entries(self.fields@), i as int);
                }
                if self.fields[i].1.key.precedes(&key) {
                    let reg = Register { value: value.clone(), key };
                    let ghost before = field_entries(self.fields@);
                    self.fields.set(i, (field.clone(), reg));
                    proof {
                        lemma_assoc_update(before, i as int, (value@, key));
                        assert(field_entries(self.fields@) =~= before.update(
                            i as int,
                            (field@, (value@, key)),
                        ));
                        assert(self@ =~= apply_write(old(self)@, w));
                    }
                    true
                } else {
                    false
                }
            },
            None => {
                let ghost before = field_entries(self.fields@);
                proof {
                    lemma_assoc_domain(before, field@);
                }
                self.fields.push((field.clone(), Register { value: value.clone(), key }));
                proof {
                    lemma_assoc_push(before, field@, (value@, key));
                    assert(field_entries(self.fields@) =~= before.push((field@, (value@, key))));
                    assert(self@ =~= apply_write(old(self)@, w));
                }
                true
            },
        }
    }

    /// Writes the tombstone register under the last-writer-wins rule; returns
    /// whether the write won.
    pub fn apply_tombstone(&mut self, key: TieBreakKey) -> (changed: bool)
        requires
            old(self).wf(),
        ensures
            final(self).wf(),
            final(self)@ == apply_write(old(self)@, Write::Tomb(key)),
            changed == write_accepted(old(self)@, Write::Tomb(key)),
    {
        let win = match self.tombstone {
            None => true,
            Some(t) => t.precedes(&key),
        };
        if win {
            self.tombstone = Some(key);
            assert(self@ =~= apply_write(old(self)@, Write::Tomb(key)));
        }
        win
    }

    /// The record's field values and whether it is deleted.
    pub fn snapshot(&self) -> (r: RecordSnapshot)
        requires
            self.wf(),
        ensures
            keys_distinct(snapshot_entries(r.fields@)),
            assoc_map(snapshot_entries(r.fields@)) == field_values(self@),
            r.tombstoned == is_tombstoned(self@),
    {
        let ghost entries = field_entries(self.fields@);
        let mut out: Vec<(String, String)> = Vec::new();
        let mut outranked = self.tombstone.is_some();
        let mut i: usize = 0;
        while i < self.fields.len()
            invariant
                i <= self.fields@.len(),
                entries == field_entries(self.fields@),
                keys_distinct(entries),
                out@.len() == i,
                forall|j: int|
                    0 <= j < i ==> (#[trigger] out@[j]).0@ == entries[j].0 && out@[j].1@
                        == entries[j].1.0,
                outranked == (self.tombstone is Some && forall|j: int|
                    0 <= j < i ==> !key_lt(self.tombstone.unwrap(), #[trigger] entries[j].1.1)),
            decreases self.fields@.len() - i,
        {
            let name = self.fields[i].0.clone();
            let value = self.fields[i].1.value.clone();
            assert(entries[i as int] == (
                self.fields@[i as int].0@,
                (self.fields@[i as int].1.value@, self.fields@[i as int].1.key),
            ));
            out.push((name, value));
            match self.tombstone {
                Some(t) => {
                    if t.precedes(&self.fields[i].1.key) {
                        outranked = false;
                    }
                },
                None => {
                    outranked = false;
                },
            }
            proof {
                let t = self.tombstone;
                if !outranked && t is Some {
                    assert(key_lt(t.unwrap(), entries[i as int].1.1) || !(forall|j: int|
                        0 <= j < i ==> !key_lt(t.unwrap(), #[trigger] entries[j].1.1)));
                }
            }
            i += 1;
        }
        proof {
            let se = snapshot_entries(out@);
            assert forall|j: int| 0 <= j < se.len() implies se[j] == (
                entries[j].0,
                entries[j].1.0,
            ) by {
                assert(out@[j].0@ == entries[j].0);
            }
            assert(keys_distinct(se));
            let m = field_values(self@);
            assert forall|f: Seq<char>| #[trigger] assoc_map(se).contains_key(f) == m.contains_key(f)
                && (m.contains_key(f) ==> assoc_map(se)[f] == m[f]) by {
                lemma_assoc_domain(se, f);
                lemma_assoc_domain(entries, f);
                if m.contains_key(f) {
                    let j = choose|j: int| 0 <= j < entries.len() && entries[j].0 == f;
                    lemma_assoc_index(entries, j);
                    assert(se[j].0 == f);
                    lemma_assoc_index(se, j);
                }
            }
            assert(assoc_map(se) =~= m);
            if outranked != is_tombstoned(self@) {
                if outranked {
                    let f = choose|f: Seq<char>| #[trigger]
                        self@.fields.contains_key(f) && key_lt(
                            self@.tombstone.unwrap(),
                            self@.fields[f].1,
                        );
                    lemma_assoc_domain(entries, f);
                    let j = choose|j: int| 0 <= j < entries.len() && entries[j].0 == f;
                    lemma_assoc_index(entries, j);
                } else {
                    let j = choose|j: int|
                        0 <= j < entries.len() && key_lt(
                            self.tombstone.unwrap(),
                            #[trigger] entries[j].1.1,
                        );
                    lemma_assoc_index(entries, j);
                }
            }
        }
        RecordSnapshot { fields: out, tombstoned: outranked }
    }
}

} // verus!
