use indexmap::IndexMap;
use vstd::prelude::*;

use super::value::Value;

verus! {

/// The named fields of a record or row, kept in insertion order with each
/// name at most once (an `indexmap::IndexMap<String, Value>`).
#[verifier::external_body]
#[derive(Debug, PartialEq)]
pub struct Fields {
    map: IndexMap<String, Value>,
}

/// The entries of a field map, in the map's order.
pub uninterp spec fn field_entries(fields: Fields) -> Seq<(Seq<char>, Value)>;

/// The position of `key` among the entries, or `-1`.
pub open spec fn key_position(entries: Seq<(Seq<char>, Value)>, key: Seq<char>) -> int
    decreases entries.len(),
{
    if entries.len() == 0 {
        -1
    } else if entries[0].0 == key {
        0
    } else {
        let p = key_position(entries.drop_first(), key);
        if p < 0 {
            -1
        } else {
            p + 1
        }
    }
}

/// No name occurs twice among the entries.
pub open spec fn keys_unique(entries: Seq<(Seq<char>, Value)>) -> bool {
    forall|i: int, j: int|
        0 <= i < entries.len() && 0 <= j < entries.len() && i != j ==> #[trigger] entries[i].0
            != #[trigger] entries[j].0
}

/// The value stored under `key`, if any.
pub open spec fn entries_get(entries: Seq<(Seq<char>, Value)>, key: Seq<char>) -> Option<Value> {
    let p = key_position(entries, key);
    if p < 0 {
        None
    } else {
        Some(entries[p].1)
    }
}

/// The entries after storing `value` under `key`: an existing name keeps its
/// place and takes the new value, a new name goes last.
pub open spec fn entries_insert(entries: Seq<(Seq<char>, Value)>, key: Seq<char>, value: Value) -> Seq<
    (Seq<char>, Value),
> {
    let p = key_position(entries, key);
    if p < 0 {
        entries.push((key, value))
    } else {
        entries.update(p, (key, value))
    }
}

/// The names of the entries, in order.
pub open spec fn entries_keys(entries: Seq<(Seq<char>, Value)>) -> Seq<Seq<char>> {
    entries.map_values(|e: (Seq<char>, Value)| e.0)
}

/// Facts about `key_position`.
pub proof fn lemma_key_position(entries: Seq<(Seq<char>, Value)>, key: Seq<char>)
    ensures
        -1 <= key_position(entries, key) < entries.len(),
        key_position(entries, key) >= 0 ==> entries[key_position(entries, key)].0 == key,
        key_position(entries, key) >= 0 ==> forall|i: int|
            0 <= i < key_position(entries, key) ==> entries[i].0 != key,
        key_position(entries, key) < 0 <==> forall|i: int|
            0 <= i < entries.len() ==> entries[i].0 != key,
    decreases entries.len(),
{
    if entries.len() > 0 && entries[0].0 != key {
        let rest = entries.drop_first();
        lemma_key_position(rest, key);
        assert forall|i: int| 0 < i < entries.len() implies entries[i] == rest[i - 1] by {}
        if key_position(entries, key) < 0 {
            assert forall|i: int| 0 <= i < entries.len() implies entries[i].0 != key by {
                if i > 0 {
                    assert(rest[i - 1].0 != key);
                }
            }
        }
    }
}

/// `p` is the first position holding `key`.
pub proof fn lemma_key_position_is(entries: Seq<(Seq<char>, Value)>, key: Seq<char>, p: int)
    requires
        0 <= p < entries.len(),
        entries[p].0 == key,
        forall|i: int| 0 <= i < p ==> entries[i].0 != key,
    ensures
        key_position(entries, key) == p,
{
    lemma_key_position(entries, key);
}

/// Inserting makes the value readable under its name and leaves every other
/// name's value as it was.
pub proof fn lemma_insert_get(
    entries: Seq<(Seq<char>, Value)>,
    key: Seq<char>,
    value: Value,
    other: Seq<char>,
)
    ensures
        entries_get(entries_insert(entries, key, value), key) == Some(value),
        other != key ==> entries_get(entries_insert(entries, key, value), other) == entries_get(
            entries,
            other,
        ),
{
    let ins = entries_insert(entries, key, value);
    let p = key_position(entries, key);
    lemma_key_position(entries, key);
    lemma_key_position(entries, other);
    if p >= 0 {
        lemma_key_position_is(ins, key, p);
    } else {
        lemma_key_position_is(ins, key, entries.len() as int);
    }
    if other != key {
        let po = key_position(entries, other);
        if po >= 0 {
            assert forall|i: int| 0 <= i < po implies ins[i].0 != other by {
                if i != p {
                    assert(entries[i].0 != other);
                }
            }
            lemma_key_position_is(ins, other, po);
        } else {
            lemma_key_position(ins, other);
            assert forall|i: int| 0 <= i < ins.len() implies ins[i].0 != other by {
                if i < entries.len() && i != p {
                    assert(entries[i].0 != other);
                }
            }
        }
    }
}

/// Inserting keeps the names unique and makes the value readable under its name.
pub proof fn lemma_insert_then_get(
    entries: Seq<(Seq<char>, Value)>,
    key: Seq<char>,
    value: Value,
    other: Seq<char>,
)
    requires
        keys_unique(entries),
    ensures
        keys_unique(entries_insert(entries, key, value)),
        entries_get(entries_insert(entries, key, value), key) == Some(value),
        other != key ==> entries_get(entries_insert(entries, key, value), other) == entries_get(
            entries,
            other,
        ),
{
    let ins = entries_insert(entries, key, value);
    lemma_key_position(entries, key);
    lemma_key_position(entries, other);
    lemma_key_position(ins, key);
    lemma_key_position(ins, other);
    assert(keys_unique(ins)) by {
        assert forall|i: int, j: int|
            0 <= i < ins.len() && 0 <= j < ins.len() && i != j implies #[trigger] ins[i].0
            != #[trigger] ins[j].0 by {
            if key_position(entries, key) < 0 {
                if i < entries.len() && j < entries.len() {
                    assert(entries[i].0 != entries[j].0);
                }
            } else {
                let p = key_position(entries, key);
                if i != p && j != p {
                    assert(entries[i].0 != entries[j].0);
                } else if i == p {
                    assert(entries[j].0 != entries[p].0);
                } else {
                    assert(entries[i].0 != entries[p].0);
                }
            }
        }
    }
    let p = key_position(ins, key);
    assert(p >= 0) by {
        if key_position(entries, key) < 0 {
            assert(ins[entries.len() as int].0 == key);
        } else {
            assert(ins[key_position(entries, key)].0 == key);
        }
    }
    assert(ins[p].1 == value) by {
        if key_position(entries, key) < 0 {
            assert(ins[entries.len() as int].0 == key);
            if p != entries.len() {
                assert(ins[p].0 != ins[entries.len() as int].0);
            }
        } else {
            let q = key_position(entries, key);
            if p != q {
                assert(ins[p].0 != ins[q].0);
            }
        }
    }
    if other != key {
        let po = key_position(entries, other);
        let qo = key_position(ins, other);
        if po >= 0 {
            assert(ins[po].0 == other);
            assert(qo >= 0);
            if qo != po {
                assert(ins[qo].0 != ins[po].0);
            }
        } else {
            if qo >= 0 {
                if qo < entries.len() {
                    assert(entries[qo].0 == other || qo == key_position(entries, key));
                }
            }
        }
    }
}

/// An empty map (`IndexMap::new`).
#[verifier::external_body]
pub fn fields_new() -> (r: Fields)
    ensures
        field_entries(r) == Seq::<(Seq<char>, Value)>::empty(),
{
    Fields { map: IndexMap::new() }
}

/// The number of entries (`IndexMap::len`).
#[verifier::external_body]
pub fn fields_len(fields: &Fields) -> (r: usize)
    ensures
        r == field_entries(*fields).len(),
{
    fields.map.len()
}

/// The value stored under `key` (`IndexMap::get`).
#[verifier::external_body]
pub fn fields_get<'a>(fields: &'a Fields, key: &str) -> (r: Option<&'a Value>)
    ensures
        match r {
            Some(v) => entries_get(field_entries(*fields), key@) == Some(*v),
            None => entries_get(field_entries(*fields), key@) is None,
        },
{
    fields.map.get(key)
}

/// Stores `value` under `key` (`IndexMap::insert`): an existing name keeps
/// its place, a new one goes last.
#[verifier::external_body]
pub fn fields_insert(fields: &mut Fields, key: String, value: Value)
    ensures
        field_entries(*final(fields)) == entries_insert(field_entries(*old(fields)), key@, value),
{
    fields.map.insert(key, value);
}

/// The entry at position `index` (`IndexMap::get_index`).
#[verifier::external_body]
pub fn fields_entry<'a>(fields: &'a Fields, index: usize) -> (r: (&'a String, &'a Value))
    requires
        index < field_entries(*fields).len(),
    ensures
        (r.0@, *r.1) == field_entries(*fields)[index as int],
{
    let (k, v) = fields.map.get_index(index).unwrap();
    (k, v)
}

/// Two field values compare equal under `Value`'s derived `==`, as far as
/// one level shows: texts by their characters, instants by their UTC time,
/// two records are left to their own comparison, and every other value by
/// its variant and fields.
pub open spec fn same_field_value(x: Value, y: Value) -> bool {
    match (x, y) {
        (Value::Text(s), Value::Text(t)) => s@ == t@,
        (Value::DateTime(p), Value::DateTime(q)) => p.utc == q.utc,
        (Value::Record(_), Value::Record(_)) => true,
        _ => x == y,
    }
}

/// Every field of `a` is a field of `b`, holding a value that compares
/// equal (see `same_field_value`), and both have as many fields.
pub open spec fn records_agree(a: Fields, b: Fields) -> bool {
    &&& field_entries(a).len() == field_entries(b).len()
    &&& forall|k: Seq<char>|
        #[trigger] entries_get(field_entries(a), k) is Some ==> entries_get(field_entries(b), k) is Some
            && same_field_value(entries_get(field_entries(a), k)->0, entries_get(field_entries(b), k)->0)
}

/// Map equality (`IndexMap`'s `==`): the maps have the same length and every
/// name of `a` is stored in `b` with a value that `Value`'s derived `==`
/// finds equal, order aside. Stated: equal entries compare equal; equal maps
/// have the same length and agree field by field as `records_agree` says (a
/// derived `==` compares variant and fields). How two nested records compare
/// is left unsaid.
#[verifier::external_body]
pub fn fields_eq(a: &Fields, b: &Fields) -> (r: bool)
    ensures
        field_entries(*a) == field_entries(*b) ==> r,
        r ==> field_entries(*a).len() == field_entries(*b).len(),
        r ==> records_agree(*a, *b),
{
    a.map == b.map
}

impl Clone for Fields {
    /// A copy of the map (`IndexMap::clone`): the same entries in the same
    /// order. The library sees a map only through its entries, so the copy
    /// is stated equal to the original; its capacity may differ.
    #[verifier::external_body]
    fn clone(&self) -> (r: Self)
        ensures
            r == *self,
    {
        Fields { map: self.map.clone() }
    }
}

} // verus!
