//! Modules: named values that rules can import and read in their
//! conditions.
use vstd::prelude::*;

verus! {

/// A value of a module.
#[derive(Debug)]
pub enum ModuleValue {
    /// A signed integer.
    Integer(i64),
    /// A byte string.
    Bytes(Vec<u8>),
    /// A boolean.
    Boolean(bool),
    /// An object: named fields.
    Object(Vec<(String, ModuleValue)>),
    /// An array of values.
    Array(Vec<ModuleValue>),
    /// A dictionary, keyed by byte strings.
    Dictionary(Vec<(Vec<u8>, ModuleValue)>),
    /// An undefined value.
    Undefined,
}

/// A module: its name, as used in imports, and its value, an object.
#[derive(Debug)]
pub struct Module {
    /// Name of the module.
    pub name: String,
    /// Value of the module.
    pub value: ModuleValue,
}

/// Whether the fields of an object, or the keys of a dictionary, are all
/// different, in the value and in every value inside it, as the keys of a
/// map are.
pub open spec fn spec_keys_unique(v: ModuleValue) -> bool
    decreases v,
{
    match v {
        ModuleValue::Object(fields) => {
            &&& forall|i: int, j: int|
                #![trigger fields@[i], fields@[j]]
                0 <= i < j < fields@.len() ==> fields@[i].0@ != fields@[j].0@
            &&& forall|i: int|
                #![trigger fields@[i]]
                0 <= i < fields@.len() ==> {
                    proof {
                        vstd::std_specs::vec::axiom_vec_index_decreases(fields, i);
                    }
                    spec_keys_unique(fields@[i].1)
                }
        },
        ModuleValue::Array(values) => forall|i: int|
            #![trigger values@[i]]
            0 <= i < values@.len() ==> {
                proof {
                    vstd::std_specs::vec::axiom_vec_index_decreases(values, i);
                }
                spec_keys_unique(values@[i])
            },
        ModuleValue::Dictionary(entries) => {
            &&& forall|i: int, j: int|
                #![trigger entries@[i], entries@[j]]
                0 <= i < j < entries@.len() ==> entries@[i].0@ != entries@[j].0@
            &&& forall|i: int|
                #![trigger entries@[i]]
                0 <= i < entries@.len() ==> {
                    proof {
                        vstd::std_specs::vec::axiom_vec_index_decreases(entries, i);
                    }
                    spec_keys_unique(entries@[i].1)
                }
        },
        _ => true,
    }
}

/// Where the fields of an object are all different, the field named
/// `name` is the one looked up.
pub proof fn lemma_field_index_unique(fields: Seq<(String, ModuleValue)>, name: Seq<char>, k: int)
    requires
        forall|i: int, j: int|
            #![trigger fields[i], fields[j]]
            0 <= i < j < fields.len() ==> fields[i].0@ != fields[j].0@,
        0 <= k < fields.len(),
        fields[k].0@ == name,
    ensures
        spec_field_index(fields, name) == Some(k),
    decreases k,
{
    if k > 0 {
        let rest = fields.subrange(1, fields.len() as int);
        assert(fields[0].0@ != fields[k].0@);
        assert forall|i: int, j: int|
            #![trigger rest[i], rest[j]]
            0 <= i < j < rest.len() implies rest[i].0@ != rest[j].0@ by {
            assert(rest[i] == fields[i + 1] && rest[j] == fields[j + 1]);
        }
        assert(rest[k - 1] == fields[k]);
        lemma_field_index_unique(rest, name, k - 1);
    }
}

/// Where the keys of a dictionary are all different, the entry of key
/// `key` is the one looked up.
pub proof fn lemma_key_index_unique(entries: Seq<(Vec<u8>, ModuleValue)>, key: Seq<u8>, k: int)
    requires
        forall|i: int, j: int|
            #![trigger entries[i], entries[j]]
            0 <= i < j < entries.len() ==> entries[i].0@ != entries[j].0@,
        0 <= k < entries.len(),
        entries[k].0@ == key,
    ensures
        spec_key_index(entries, key) == Some(k),
    decreases k,
{
    if k > 0 {
        let rest = entries.subrange(1, entries.len() as int);
        assert(entries[0].0@ != entries[k].0@);
        assert forall|i: int, j: int|
            #![trigger rest[i], rest[j]]
            0 <= i < j < rest.len() implies rest[i].0@ != rest[j].0@ by {
            assert(rest[i] == entries[i + 1] && rest[j] == entries[j + 1]);
        }
        assert(rest[k - 1] == entries[k]);
        lemma_key_index_unique(rest, key, k - 1);
    }
}

/// Whether `m` is the module named `name` that a compiler offers by
/// default: its value is an object without fields, its functions not being
/// values of this library.
pub open spec fn spec_default_module(m: Module, name: Seq<char>) -> bool {
    &&& m.name@ == name
    &&& m.value matches ModuleValue::Object(fields) && fields@.len() == 0
}

/// The `time` module. Its only member, the function `now`, is not a value
/// of this library, so its value is an object without fields.
pub fn time_module() -> (r: Module)
    ensures
        spec_default_module(r, "time"@),
{
    Module { name: "time".to_owned(), value: ModuleValue::Object(Vec::new()) }
}

/// The `math` module. Its members are functions, and a float constant,
/// which are not values of this library, so its value is an object without
/// fields.
pub fn math_module() -> (r: Module)
    ensures
        spec_default_module(r, "math"@),
{
    Module { name: "math".to_owned(), value: ModuleValue::Object(Vec::new()) }
}

/// Index of the first field of `fields` named `name`.
pub open spec fn spec_field_index(fields: Seq<(String, ModuleValue)>, name: Seq<char>) -> Option<int>
    decreases fields.len(),
{
    if fields.len() == 0 {
        None
    } else if fields[0].0@ == name {
        Some(0)
    } else {
        match spec_field_index(fields.subrange(1, fields.len() as int), name) {
            Some(i) => Some(i + 1),
            None => None,
        }
    }
}

/// Index of the first entry of `entries` whose key is `key`.
pub open spec fn spec_key_index(entries: Seq<(Vec<u8>, ModuleValue)>, key: Seq<u8>) -> Option<int>
    decreases entries.len(),
{
    if entries.len() == 0 {
        None
    } else if entries[0].0@ == key {
        Some(0)
    } else {
        match spec_key_index(entries.subrange(1, entries.len() as int), key) {
            Some(i) => Some(i + 1),
            None => None,
        }
    }
}

/// The index of the first field named `name`, see [`spec_field_index`].
pub fn field_index(fields: &Vec<(String, ModuleValue)>, name: &String) -> (r: Option<usize>)
    ensures
        match r {
            Some(i) => i < fields@.len() && spec_field_index(fields@, name@) == Some(i as int),
            None => spec_field_index(fields@, name@) is None,
        },
{
    let mut i: usize = 0;
    assert(fields@.subrange(0, fields@.len() as int) =~= fields@);
    while i < fields.len()
        invariant
            i <= fields@.len(),
            spec_field_index(fields@, name@) == match spec_field_index(
                fields@.subrange(i as int, fields@.len() as int),
                name@,
            ) {
                Some(k) => Some(k + i),
                None => None,
            },
        decreases fields@.len() - i,
    {
        let ghost rest = fields@.subrange(i as int, fields@.len() as int);
        assert(rest[0] == fields@[i as int]);
        if fields[i].0 == *name {
            return Some(i);
        }
        assert(rest.subrange(1, rest.len() as int) =~= fields@.subrange(
            i + 1,
            fields@.len() as int,
        ));
        i = i + 1;
    }
    None
}

/// The index of the first entry keyed by `key`, see [`spec_key_index`].
pub fn key_index(entries: &Vec<(Vec<u8>, ModuleValue)>, key: &[u8]) -> (r: Option<usize>)
    ensures
        match r {
            Some(i) => i < entries@.len() && spec_key_index(entries@, key@) == Some(i as int),
            None => spec_key_index(entries@, key@) is None,
        },
{
    let mut i: usize = 0;
    assert(entries@.subrange(0, entries@.len() as int) =~= entries@);
    while i < entries.len()
        invariant
            i <= entries@.len(),
            spec_key_index(entries@, key@) == match spec_key_index(
                entries@.subrange(i as int, entries@.len() as int),
                key@,
            ) {
                Some(k) => Some(k + i),
                None => None,
            },
        decreases entries@.len() - i,
    {
        let ghost rest = entries@.subrange(i as int, entries@.len() as int);
        assert(rest[0] == entries@[i as int]);
        if crate::variable::bytes_eq(entries[i].0.as_slice(), key) {
            return Some(i);
        }
        assert(rest.subrange(1, rest.len() as int) =~= entries@.subrange(
            i + 1,
            entries@.len() as int,
        ));
        i = i + 1;
    }
    None
}

} // verus!
