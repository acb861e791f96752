use vstd::prelude::*;
use crate::assoc::{assoc_map, keys_distinct, lemma_assoc_domain, lemma_assoc_index, lemma_assoc_push};

verus! {

/// Why an operation or a registration was refused.
#[derive(Clone, Copy, Debug, PartialEq, Eq, Structural)]
pub enum SyncError {
    /// A field name that the model does not know, a required field left out
    /// of a create, or a model that was never registered.
    SchemaViolation,
    /// A model registered a second time with other fields.
    SchemaConflict,
    /// A serialized operation that could not be read.
    SerializationError,
}

/// The fields of one model: those a create must set, and those an update may set.
#[verifier::ext_equal]
pub struct SchemaView {
    pub required: Set<Seq<char>>,
    pub updatable: Set<Seq<char>>,
}

/// The names in a list of strings.
pub open spec fn names_of(v: Seq<String>) -> Seq<Seq<char>> {
    v.map_values(|s: String| s@)
}

/// The names in a list of strings, as a set.
pub open spec fn name_set(v: Seq<String>) -> Set<Seq<char>> {
    names_of(v).to_set()
}

/// A field is recognized when it is required at creation or updatable.
pub open spec fn recognized(s: SchemaView, f: Seq<char>) -> bool {
    s.required.contains(f) || s.updatable.contains(f)
}

/// A create may set the fields `names` of `model`: the model is registered,
/// no name repeats, each name is recognized and each required field is there.
pub open spec fn create_allowed(reg: Map<Seq<char>, SchemaView>, model: Seq<char>, names: Seq<Seq<char>>) -> bool {
    &&& reg.contains_key(model)
    &&& names.no_duplicates()
    &&& forall|i: int| 0 <= i < names.len() ==> recognized(reg[model], #[trigger] names[i])
    &&& forall|f: Seq<char>| #[trigger] reg[model].required.contains(f) ==> names.contains(f)
}

/// An update may set `field` of `model`: the model is registered and the
/// field is updatable.
pub open spec fn update_allowed(reg: Map<Seq<char>, SchemaView>, model: Seq<char>, field: Seq<char>) -> bool {
    reg.contains_key(model) && reg[model].updatable.contains(field)
}

/// The schema of one model as it is registered.
#[derive(Clone, Debug)]
pub struct ModelSchema {
    pub name: String,
    pub required_fields: Vec<String>,
    pub updatable_fields: Vec<String>,
}

pub open spec fn schema_entries(s: Seq<ModelSchema>) -> Seq<(Seq<char>, SchemaView)> {
    s.map_values(
        |m: ModelSchema|
            (
                m.name@,
                SchemaView {
                    required: name_set(m.required_fields@),
                    updatable: name_set(m.updatable_fields@),
                },
            ),
    )
}

/// The registered models, by name.
#[derive(Debug)]
pub struct SchemaRegistry {
    pub(crate) models: Vec<ModelSchema>,
}

impl View for SchemaRegistry {
    type V = Map<Seq<char>, SchemaView>;

    closed spec fn view(&self) -> Map<Seq<char>, SchemaView> {
        assoc_map(schema_entries(self.models@))
    }
}

/// Whether `v` holds a string equal to `s`.
pub(crate) fn contains_name(v: &Vec<String>, s: &String) -> (r: bool)
    ensures
        r == name_set(v@).contains(s@),
{
    let mut i: usize = 0;
    while i < v.len()
        invariant
            i <= v@.len(),
            forall|j: int| 0 <= j < i ==> v@[j]@ != s@,
        decreases v@.len() - i,
    {
        if v[i] == *s {
            assert(names_of(v@)[i as int] == s@);
            return true;
        }
        i += 1;
    }
    proof {
        if name_set(v@).contains(s@) {
            let j = choose|j: int|
                0 <= j < v@.len() && #[trigger] names_of(v@)[j] == s@;
        }
    }
    false
}

/// Whether every name of `a` is a name of `b`.
fn names_within(a: &Vec<String>, b: &Vec<String>) -> (r: bool)
    ensures
        r == name_set(a@).subset_of(name_set(b@)),
{
    let mut i: usize = 0;
    while i < a.len()
        invariant
            i <= a@.len(),
            forall|j: int| 0 <= j < i ==> name_set(b@).contains(#[trigger] a@[j]@),
        decreases a@.len() - i,
    {
        if !contains_name(b, &a[i]) {
            assert(name_set(a@).contains(a@[i as int]@)) by {
                assert(names_of(a@)[i as int] == a@[i as int]@);
            }
            return false;
        }
        i += 1;
    }
    proof {
        assert forall|f: Seq<char>| name_set(a@).contains(f) implies name_set(b@).contains(f) by {
            let j = choose|j: int|
                0 <= j < a@.len() && #[trigger] names_of(a@)[j] == f;
            assert(a@[j]@ == f);
        }
    }
    true
}

/// Whether two lists hold the same names.
fn same_names(a: &Vec<String>, b: &Vec<String>) -> (r: bool)
    ensures
        r == (name_set(a@) == name_set(b@)),
{
    let r = names_within(a, b) && names_within(b, a);
    proof {
        if r {
            assert(name_set(a@) =~= name_set(b@));
        }
    }
    r
}

impl SchemaRegistry {
    /// Model names are unique.
    pub closed spec fn wf(&self) -> bool {
        keys_distinct(schema_entries(self.models@))
    }

    pub fn new() -> (r: SchemaRegistry)
        ensures
            r.wf(),
            r@ == Map::<Seq<char>, SchemaView>::empty(),
    {
        let r = SchemaRegistry { models: Vec::new() };
        assert(r@ =~= Map::<Seq<char>, SchemaView>::empty());
        r
    }

    /// The position of a model's schema, if it is registered.
    pub(crate) fn find_model(&self, name: &String) -> (r: Option<usize>)
        requires
            self.wf(),
        ensures
            match r {
                Some(i) => i < self.models@.len() && self.models@[i as int].name@ == name@
                    && self@.contains_key(name@) && self@[name@] == schema_entries(
                    self.models@,
                )[i as int].1,
                None => !self@.contains_key(name@),
            },
    {
        let ghost e = schema_entries(self.models@);
        let mut i: usize = 0;
        while i < self.models.len()
            invariant
                i <= self.models@.len(),
                e == schema_entries(self.models@),
                keys_distinct(e),
                forall|j: int| 0 <= j < i ==> self.models@[j].name@ != name@,
            decreases self.models@.len() - i,
        {
            if self.models[i].name == *name {
                proof {
                    lemma_assoc_index(e, i as int);
                }
                return Some(i);
            }
            i += 1;
        }
        proof {
            lemma_assoc_domain(e, name@);
            if self@.contains_key(name@) {
                let j = choose|j: int| 0 <= j < e.len() && e[j].0 == name@;
                assert(self.models@[j].name@ == name@);
            }
        }
        None
    }

    /// Registers a model. Registering the same fields again changes nothing;
    /// registering a known model with other fields is a conflict.
    pub fn register(&mut self, model_name: &str, required_fields: Vec<String>, updatable_fields: Vec<String>) -> (r: Result<(), SyncError>)
        requires
            old(self).wf(),
        ensures
            final(self).wf(),
            r is Ok <==> (!old(self)@.contains_key(model_name@) || old(self)@[model_name@] == (
            SchemaView {
                required: name_set(required_fields@),
                updatable: name_set(updatable_fields@),
            })),
            r is Ok ==> final(self)@ == old(self)@.insert(
                model_name@,
                SchemaView {
                    required: name_set(required_fields@),
                    updatable: name_set(updatable_fields@),
                },
            ),
            r is Err ==> r == Err::<(), SyncError>(SyncError::SchemaConflict) && final(self)@
                == old(self)@,
    {
        let name = model_name.to_owned();
        let ghost sv = SchemaView {
            required: name_set(required_fields@),
            updatable: name_set(updatable_fields@),
        };
        match self.find_model(&name) {
            Some(i) => {
                let same = same_names(&self.models[i].required_fields, &required_fields)
                    && same_names(&self.models[i].updatable_fields, &updatable_fields);
                if same {
                    assert(self@[name@] =~= sv);
                    assert(self@.insert(name@, sv) =~= self@);
                    Ok(())
                } else {
                    assert(self@[name@] != sv) by {
                        if self@[name@] == sv {
                            assert(self@[name@].required == sv.required);
                        }
                    }
                    Err(SyncError::SchemaConflict)
                }
            },
            None => {
                let ghost before = schema_entries(self.models@);
                proof {
                    lemma_assoc_domain(before, name@);
                }
                self.models.push(ModelSchema { name, required_fields, updatable_fields });
                proof {
                    assert(schema_entries(self.models@) =~= before.push((name@, sv)));
                    lemma_assoc_push(before, name@, sv);
                }
                Ok(())
            },
        }
    }
}

} // verus!
