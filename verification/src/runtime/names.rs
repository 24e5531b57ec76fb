use vstd::prelude::*;

use crate::db::catalog::{catalog_get, catalog_remove, catalog_set, lemma_catalog_set, lemma_name_index, name_index, names_unique};
use crate::expr::value::str_equal;

verus! {

/// The entries of a name-keyed list, names taken as character sequences.
pub open spec fn keyed<V>(s: Seq<(String, V)>) -> Seq<(Seq<char>, V)> {
    s.map_values(|e: (String, V)| (e.0@, e.1))
}

/// The value stored under `name`.
pub open spec fn lookup<V>(v: Vec<(String, V)>, name: Seq<char>) -> Option<V> {
    catalog_get(keyed(v@), name)
}

/// The position of `name` in a name-keyed list.
pub fn find_key<V>(v: &Vec<(String, V)>, name: &str) -> (r: Option<usize>)
    ensures
        match r {
            Some(i) => i < v@.len() && i == name_index(keyed(v@), name@),
            None => name_index(keyed(v@), name@) < 0,
        },
{
    let ghost s = keyed(v@);
    proof {
        lemma_name_index(s, name@);
    }
    let mut i: usize = 0;
    while i < v.len()
        invariant
            i <= v@.len(),
            s == keyed(v@),
            forall|k: int| 0 <= k < i ==> s[k].0 != name@,
            -1 <= name_index(s, name@) < s.len(),
            name_index(s, name@) >= 0 ==> s[name_index(s, name@)].0 == name@,
            forall|k: int| 0 <= k < name_index(s, name@) ==> s[k].0 != name@,
            name_index(s, name@) < 0 <==> forall|k: int| 0 <= k < s.len() ==> s[k].0 != name@,
        decreases v@.len() - i,
    {
        assert(s[i as int].0 == v@[i as int].0@);
        if str_equal(v[i].0.as_str(), name) {
            proof {
                assert(s[i as int].0 == name@);
                let p = name_index(s, name@);
                assert(p >= 0);
            }
            return Some(i);
        }
        i += 1;
    }
    None
}

/// The value stored under `name`, by reference.
pub fn get_key<'a, V>(v: &'a Vec<(String, V)>, name: &str) -> (r: Option<&'a V>)
    ensures
        match r {
            Some(x) => lookup(*v, name@) == Some(*x),
            None => lookup(*v, name@) is None,
        },
{
    match find_key(v, name) {
        Some(i) => {
            proof {
                lemma_name_index(keyed(v@), name@);
            }
            Some(&v[i].1)
        },
        None => None,
    }
}

/// Stores `value` under `name`: in place when present, last otherwise.
pub fn put_key<V>(v: &mut Vec<(String, V)>, name: String, value: V)
    ensures
        keyed(final(v)@) == catalog_set(keyed(old(v)@), name@, value),
{
    match find_key(v, name.as_str()) {
        Some(i) => {
            let ghost before = keyed(v@);
            v.set(i, (name, value));
            assert(keyed(v@) =~= before.update(i as int, (name@, value)));
        },
        None => {
            let ghost before = keyed(v@);
            v.push((name, value));
            assert(keyed(v@) =~= before.push((name@, value)));
        },
    }
}

/// Storing under a name makes the value readable there and keeps the rest.
pub proof fn lemma_put_key<V>(v: Seq<(String, V)>, w: Seq<(String, V)>, name: Seq<char>, value: V)
    requires
        names_unique(keyed(v)),
        keyed(w) == catalog_set(keyed(v), name, value),
    ensures
        names_unique(keyed(w)),
        catalog_get(keyed(w), name) == Some(value),
        forall|k: Seq<char>| k != name ==> #[trigger] catalog_get(keyed(w), k) == catalog_get(keyed(v), k),
{
    lemma_catalog_set(keyed(v), name, value, name);
    assert forall|k: Seq<char>| k != name implies #[trigger] catalog_get(keyed(w), k) == catalog_get(
        keyed(v),
        k,
    ) by {
        lemma_catalog_set(keyed(v), name, value, k);
    }
}

/// Removes the entry stored under `name` and hands back its value.
pub fn take_key<V>(v: &mut Vec<(String, V)>, name: &str) -> (r: Option<V>)
    ensures
        keyed(final(v)@) == catalog_remove(keyed(old(v)@), name@),
        r == lookup(*old(v), name@),
{
    proof {
        lemma_name_index(keyed(v@), name@);
    }
    match find_key(v, name) {
        Some(i) => {
            let ghost before = keyed(v@);
            let (_, value) = v.remove(i);
            assert(keyed(v@) =~= before.remove(i as int));
            Some(value)
        },
        None => None,
    }
}

/// `name` is one of the strings.
pub fn contains_name(v: &Vec<String>, name: &str) -> (r: bool)
    ensures
        r == exists|i: int| 0 <= i < v@.len() && v@[i]@ == name@,
{
    let mut i: usize = 0;
    while i < v.len()
        invariant
            i <= v@.len(),
            forall|k: int| 0 <= k < i ==> v@[k]@ != name@,
        decreases v@.len() - i,
    {
        if str_equal(v[i].as_str(), name) {
            return true;
        }
        i += 1;
    }
    false
}

} // verus!
