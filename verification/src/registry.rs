//! The registry of named custom types.

use vstd::prelude::*;
use crate::schema::{
    insert_field, lemma_insert_field, schema_wf, type_wf, FieldModel, FieldValidator, Schema,
};

verus! {

/// A named schema.
#[derive(Debug, PartialEq, Eq)]
pub struct CustomType {
    pub name: String,
    pub schema: Schema,
}

/// The custom types that have been defined, each name once, in the order of
/// their definition.
#[derive(Debug, PartialEq, Eq)]
pub struct Registry {
    pub types: Vec<CustomType>,
}

/// The index of the first entry with the given name, or the number of
/// entries where none has it.
pub open spec fn name_index(types: Seq<CustomType>, name: Seq<char>) -> int
    decreases types.len(),
{
    if types.len() == 0 {
        0
    } else if types[0].name@ == name {
        0
    } else {
        1 + name_index(types.drop_first(), name)
    }
}

/// `name_index` returns the least index that holds the name.
pub proof fn lemma_name_index(types: Seq<CustomType>, name: Seq<char>)
    ensures
        0 <= name_index(types, name) <= types.len(),
        name_index(types, name) < types.len() ==> types[name_index(types, name)].name@ == name,
        forall|j: int| 0 <= j < name_index(types, name) ==> (#[trigger] types[j]).name@ != name,
    decreases types.len(),
{
    if types.len() != 0 && types[0].name@ != name {
        let rest = types.drop_first();
        lemma_name_index(rest, name);
        assert forall|j: int| 0 <= j < name_index(types, name) implies (#[trigger] types[j]).name@
            != name by {
            if j > 0 {
                assert(types[j] == rest[j - 1]);
            }
        }
    }
}

/// Any index that holds the name, with no earlier one doing so, is the index
/// of the name.
pub proof fn lemma_name_index_is(types: Seq<CustomType>, name: Seq<char>, p: int)
    requires
        0 <= p <= types.len(),
        p < types.len() ==> types[p].name@ == name,
        forall|j: int| 0 <= j < p ==> (#[trigger] types[j]).name@ != name,
    ensures
        name_index(types, name) == p,
{
    lemma_name_index(types, name);
}

/// The registry as a mapping from each defined name to its schema.
pub open spec fn registry_model(types: Seq<CustomType>) -> Map<Seq<char>, Seq<FieldModel>> {
    Map::new(
        |name: Seq<char>| name_index(types, name) < types.len(),
        |name: Seq<char>| types[name_index(types, name)].schema@,
    )
}

impl View for Registry {
    type V = Map<Seq<char>, Seq<FieldModel>>;

    open spec fn view(&self) -> Map<Seq<char>, Seq<FieldModel>> {
        registry_model(self.types@)
    }
}

/// Every schema that a registry model holds is well formed.
pub open spec fn registry_wf(reg: Map<Seq<char>, Seq<FieldModel>>) -> bool {
    forall|name: Seq<char>| reg.dom().contains(name) ==> schema_wf(#[trigger] reg[name])
}

impl Registry {
    /// No name is held twice, and every schema held is well formed.
    pub open spec fn wf(&self) -> bool {
        &&& forall|i: int, j: int|
            0 <= i < j < self.types.len() ==> (#[trigger] self.types[i]).name@ != (
            #[trigger] self.types[j]).name@
        &&& forall|i: int|
            0 <= i < self.types.len() ==> schema_wf((#[trigger] self.types[i]).schema@)
    }

    /// A well-formed registry has a well-formed model.
    pub proof fn lemma_wf_model(&self)
        requires
            self.wf(),
        ensures
            registry_wf(self@),
    {
        assert forall|name: Seq<char>| self@.dom().contains(name) implies schema_wf(
            #[trigger] self@[name],
        ) by {
            lemma_name_index(self.types@, name);
        }
    }

    /// The registry with no type defined.
    pub fn new() -> (r: Registry)
        ensures
            r.wf(),
            r@ == Map::<Seq<char>, Seq<FieldModel>>::empty(),
    {
        let r = Registry { types: Vec::new() };
        r
    }

    /// The index of the entry with the given name, if it is defined.
    pub fn find(&self, name: &String) -> (r: Option<usize>)
        ensures
            match r {
                Some(i) => i == name_index(self.types@, name@) && i < self.types.len(),
                None => name_index(self.types@, name@) == self.types.len(),
            },
            r is Some <==> self@.dom().contains(name@),
    {
        let mut i: usize = 0;
        while i < self.types.len()
            invariant
                i <= self.types.len(),
                forall|j: int| 0 <= j < i ==> (#[trigger] self.types[j]).name@ != name@,
            decreases self.types.len() - i,
        {
            if self.types[i].name == *name {
                proof {
                    lemma_name_index_is(self.types@, name@, i as int);
                }
                return Some(i);
            }
            i += 1;
        }
        proof {
            lemma_name_index_is(self.types@, name@, self.types.len() as int);
        }
        None
    }

    /// Whether a type of the given name is defined.
    pub fn contains(&self, name: &String) -> (r: bool)
        ensures
            r == self@.dom().contains(name@),
    {
        self.find(name).is_some()
    }

    /// The schema of the named type, if it is defined.
    pub fn get(&self, name: &String) -> (r: Option<&Schema>)
        ensures
            match r {
                Some(schema) => self@.dom().contains(name@) && schema@ == self@[name@],
                None => !self@.dom().contains(name@),
            },
    {
        match self.find(name) {
            Some(i) => Some(&self.types[i].schema),
            None => None,
        }
    }

    /// Defines a type with an empty schema, unless the name is already
    /// defined, in which case nothing changes.
    pub fn define(&mut self, name: String)
        ensures
            old(self).wf() ==> final(self).wf(),
            final(self)@ == if old(self)@.dom().contains(name@) {
                old(self)@
            } else {
                old(self)@.insert(name@, Seq::<FieldModel>::empty())
            },
    {
        if !self.contains(&name) {
            let ghost before = self.types@;
            let ghost key = name@;
            proof {
                lemma_name_index(before, key);
            }
            self.types.push(CustomType { name, schema: Schema::new() });
            proof {
                let after = self.types@;
                assert forall|n: Seq<char>| name_index(after, n) == (if n == key {
                    before.len() as int
                } else if name_index(before, n) < before.len() {
                    name_index(before, n)
                } else {
                    after.len() as int
                }) by {
                    lemma_name_index(before, n);
                    let p = if n == key {
                        before.len() as int
                    } else if name_index(before, n) < before.len() {
                        name_index(before, n)
                    } else {
                        after.len() as int
                    };
                    lemma_name_index_is(after, n, p);
                }
                assert forall|n: Seq<char>| #[trigger]
                    registry_model(after).dom().contains(n) implies registry_model(after)[n]
                    == registry_model(before).insert(key, Seq::<FieldModel>::empty())[n] by {
                    lemma_name_index(before, n);
                }
            }
        }
    }

    /// Puts a field into the schema of the named type, replacing the field
    /// of the same key if there is one. Returns whether the type is defined;
    /// where it is not, nothing changes.
    pub fn add_field(&mut self, name: &String, field: FieldValidator) -> (r: bool)
        ensures
            r == old(self)@.dom().contains(name@),
            final(self)@ == if r {
                old(self)@.insert(name@, insert_field(old(self)@[name@], field@))
            } else {
                old(self)@
            },
            old(self).wf() && type_wf(field@.field_type) ==> final(self).wf(),
    {
        let at = match self.find(name) {
            Some(at) => at,
            None => {
                return false;
            },
        };
        let ghost before = self.types@;
        let ghost key = name@;
        let ghost f = field@;
        proof {
            lemma_name_index(before, key);
        }
        self.types[at].schema.insert(field);
        proof {
            let after = self.types@;
            let changed = insert_field(before[at as int].schema@, f);
            assert forall|n: Seq<char>| name_index(after, n) == name_index(before, n) by {
                lemma_name_index(before, n);
                let p = name_index(before, n);
                lemma_name_index_is(after, n, p);
            }
            assert forall|n: Seq<char>| #[trigger]
                registry_model(after).dom().contains(n) implies registry_model(after)[n]
                == registry_model(before).insert(key, changed)[n] by {
                lemma_name_index(before, n);
            }
            if old(self).wf() && type_wf(f.field_type) {
                lemma_insert_field(before[at as int].schema@, f);
            }
        }
        true
    }
}

} // verus!
