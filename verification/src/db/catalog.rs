use vstd::prelude::*;

use super::table::{Table, TableView};
use crate::expr::value::str_equal;

verus! {

/// The tables of a database under their names, each name at most once.
pub type Catalog = Vec<(String, Table)>;

/// The position of `name` among the entries, or `-1`.
pub open spec fn name_index<X>(s: Seq<(Seq<char>, X)>, name: Seq<char>) -> int
    decreases s.len(),
{
    if s.len() == 0 {
        -1
    } else if s[0].0 == name {
        0
    } else {
        let p = name_index(s.drop_first(), name);
        if p < 0 {
            -1
        } else {
            p + 1
        }
    }
}

/// The entry stored under `name`.
pub open spec fn catalog_get<X>(s: Seq<(Seq<char>, X)>, name: Seq<char>) -> Option<X> {
    let p = name_index(s, name);
    if p < 0 {
        None
    } else {
        Some(s[p].1)
    }
}

/// The entries after storing `x` under `name`: in place when present, last otherwise.
pub open spec fn catalog_set<X>(s: Seq<(Seq<char>, X)>, name: Seq<char>, x: X) -> Seq<(Seq<char>, X)> {
    let p = name_index(s, name);
    if p < 0 {
        s.push((name, x))
    } else {
        s.update(p, (name, x))
    }
}

/// The entries without the one stored under `name`.
pub open spec fn catalog_remove<X>(s: Seq<(Seq<char>, X)>, name: Seq<char>) -> Seq<(Seq<char>, X)> {
    let p = name_index(s, name);
    if p < 0 {
        s
    } else {
        s.remove(p)
    }
}

/// No name occurs twice.
pub open spec fn names_unique<X>(s: Seq<(Seq<char>, X)>) -> bool {
    forall|i: int, j: int|
        0 <= i < s.len() && 0 <= j < s.len() && i != j ==> #[trigger] s[i].0 != #[trigger] s[j].0
}

/// Facts about `name_index`.
pub proof fn lemma_name_index<X>(s: Seq<(Seq<char>, X)>, name: Seq<char>)
    ensures
        -1 <= name_index(s, name) < s.len(),
        name_index(s, name) >= 0 ==> s[name_index(s, name)].0 == name,
        forall|i: int| 0 <= i < name_index(s, name) ==> s[i].0 != name,
        name_index(s, name) < 0 <==> forall|i: int| 0 <= i < s.len() ==> s[i].0 != name,
    decreases s.len(),
{
    if s.len() > 0 && s[0].0 != name {
        let rest = s.drop_first();
        lemma_name_index(rest, name);
        if name_index(s, name) < 0 {
            assert forall|i: int| 0 <= i < s.len() implies s[i].0 != name by {
                if i > 0 {
                    assert(rest[i - 1].0 != name);
                }
            }
        } else {
            assert(s[name_index(s, name)] == rest[name_index(rest, name)]);
            assert forall|i: int| 0 <= i < name_index(s, name) implies s[i].0 != name by {
                if i > 0 {
                    assert(rest[i - 1].0 != name);
                }
            }
        }
        if exists|i: int| 0 <= i < s.len() && s[i].0 == name {
            let i = choose|i: int| 0 <= i < s.len() && s[i].0 == name;
            assert(rest[i - 1].0 == name);
        }
    }
}

/// In a catalog with unique names, the entry at `i` is found under its name.
pub proof fn lemma_index_of_unique<X>(s: Seq<(Seq<char>, X)>, i: int)
    requires
        names_unique(s),
        0 <= i < s.len(),
    ensures
        name_index(s, s[i].0) == i,
{
    lemma_name_index(s, s[i].0);
    let p = name_index(s, s[i].0);
    if p != i {
        assert(s[p].0 != s[i].0);
    }
}

/// Storing an entry makes it readable, keeps the other entries and keeps
/// the names unique.
pub proof fn lemma_catalog_set<X>(s: Seq<(Seq<char>, X)>, name: Seq<char>, x: X, other: Seq<char>)
    requires
        names_unique(s),
    ensures
        names_unique(catalog_set(s, name, x)),
        catalog_get(catalog_set(s, name, x), name) == Some(x),
        other != name ==> catalog_get(catalog_set(s, name, x), other) == catalog_get(s, other),
{
    let t = catalog_set(s, name, x);
    lemma_name_index(s, name);
    lemma_name_index(s, other);
    assert(names_unique(t)) by {
        assert forall|i: int, j: int|
            0 <= i < t.len() && 0 <= j < t.len() && i != j implies #[trigger] t[i].0
            != #[trigger] t[j].0 by {
            let p = name_index(s, name);
            if p < 0 {
                if i < s.len() && j < s.len() {
                    assert(s[i].0 != s[j].0);
                }
            } else {
                if i != p && j != p {
                    assert(s[i].0 != s[j].0);
                } else if i == p {
                    assert(s[j].0 != s[p].0);
                } else {
                    assert(s[i].0 != s[p].0);
                }
            }
        }
    }
    let q = if name_index(s, name) < 0 {
        s.len() as int
    } else {
        name_index(s, name)
    };
    assert(t[q].0 == name);
    lemma_index_of_unique(t, q);
    if other != name {
        let po = name_index(s, other);
        lemma_name_index(t, other);
        if po >= 0 {
            assert(t[po].0 == other);
            lemma_index_of_unique(t, po);
        } else {
            assert forall|i: int| 0 <= i < t.len() implies t[i].0 != other by {
                if i < s.len() && i != q {
                    assert(s[i].0 != other);
                }
            }
        }
    }
}

/// Removing an entry makes it absent, keeps the other entries and keeps the
/// names unique.
pub proof fn lemma_catalog_remove<X>(s: Seq<(Seq<char>, X)>, name: Seq<char>, other: Seq<char>)
    requires
        names_unique(s),
    ensures
        names_unique(catalog_remove(s, name)),
        catalog_get(catalog_remove(s, name), name) is None,
        other != name ==> catalog_get(catalog_remove(s, name), other) == catalog_get(s, other),
{
    let t = catalog_remove(s, name);
    let p = name_index(s, name);
    lemma_name_index(s, name);
    lemma_name_index(s, other);
    lemma_name_index(t, name);
    lemma_name_index(t, other);
    if p >= 0 {
        assert forall|i: int| 0 <= i < t.len() implies t[i] == (if i < p {
            s[i]
        } else {
            s[i + 1]
        }) by {}
        assert(names_unique(t)) by {
            assert forall|i: int, j: int|
                0 <= i < t.len() && 0 <= j < t.len() && i != j implies #[trigger] t[i].0
                != #[trigger] t[j].0 by {
                let a = if i < p {
                    i
                } else {
                    i + 1
                };
                let b = if j < p {
                    j
                } else {
                    j + 1
                };
                assert(s[a].0 != s[b].0);
            }
        }
        assert forall|i: int| 0 <= i < t.len() implies t[i].0 != name by {
            let a = if i < p {
                i
            } else {
                i + 1
            };
            if a != p {
                assert(s[a].0 != s[p].0);
            }
        }
        if other != name {
            let po = name_index(s, other);
            if po >= 0 {
                let q = if po < p {
                    po
                } else {
                    po - 1
                };
                assert(t[q] == s[po]);
                lemma_index_of_unique(t, q);
            } else {
                assert forall|i: int| 0 <= i < t.len() implies t[i].0 != other by {
                    let a = if i < p {
                        i
                    } else {
                        i + 1
                    };
                    assert(s[a].0 != other);
                }
            }
        }
    }
}

/// The position of the table called `name`.
pub fn find_table(tables: &Catalog, name: &str) -> (r: Option<usize>)
    ensures
        match r {
            Some(i) => i < tables@.len() && i == name_index(tables.deep_view(), name@),
            None => name_index(tables.deep_view(), name@) < 0,
        },
{
    let ghost s = tables.deep_view();
    proof {
        lemma_name_index(s, name@);
    }
    let mut i: usize = 0;
    while i < tables.len()
        invariant
            i <= tables@.len(),
            s == tables.deep_view(),
            forall|k: int| 0 <= k < i ==> s[k].0 != name@,
            -1 <= name_index(s, name@) < s.len(),
            name_index(s, name@) >= 0 ==> s[name_index(s, name@)].0 == name@,
            forall|k: int| 0 <= k < name_index(s, name@) ==> s[k].0 != name@,
            name_index(s, name@) < 0 <==> forall|k: int| 0 <= k < s.len() ==> s[k].0 != name@,
        decreases tables@.len() - i,
    {
        assert(s[i as int].0 == tables@[i as int].0@);
        if str_equal(tables[i].0.as_str(), name) {
            proof {
                let p = name_index(s, name@);
                assert(s[i as int].0 == name@);
                assert(p >= 0);
                if p != i {
                    assert(p > i);
                }
            }
            return Some(i);
        }
        i += 1;
    }
    None
}

/// A copy of a catalog.
pub fn clone_catalog(tables: &Catalog) -> (r: Catalog)
    ensures
        r.deep_view() == tables.deep_view(),
{
    let mut out: Catalog = Vec::new();
    let mut i: usize = 0;
    while i < tables.len()
        invariant
            i <= tables@.len(),
            out@.len() == i,
            forall|k: int| 0 <= k < i ==> #[trigger] out@[k].deep_view() == tables@[k].deep_view(),
        decreases tables@.len() - i,
    {
        out.push((tables[i].0.clone(), tables[i].1.clone()));
        i += 1;
    }
    assert(out.deep_view() =~= tables.deep_view());
    out
}

/// Stores `table` under `name`: in place when present, last otherwise.
pub fn catalog_put(tables: &mut Catalog, name: String, table: Table)
    ensures
        final(tables).deep_view() == catalog_set(old(tables).deep_view(), name@, table.deep_view()),
{
    match find_table(tables, name.as_str()) {
        Some(i) => {
            let ghost before = tables.deep_view();
            tables.set(i, (name, table));
            assert(tables.deep_view() =~= before.update(i as int, (name@, table.deep_view())));
        },
        None => {
            let ghost before = tables.deep_view();
            tables.push((name, table));
            assert(tables.deep_view() =~= before.push((name@, table.deep_view())));
        },
    }
}

/// Removes the table called `name`; `false` when there was none.
pub fn catalog_take(tables: &mut Catalog, name: &str) -> (r: bool)
    ensures
        final(tables).deep_view() == catalog_remove(old(tables).deep_view(), name@),
        r == (catalog_get(old(tables).deep_view(), name@) is Some),
        !r ==> *final(tables) == *old(tables),
{
    proof {
        lemma_name_index(tables.deep_view(), name@);
    }
    match find_table(tables, name) {
        Some(i) => {
            let ghost before = tables.deep_view();
            tables.remove(i);
            assert(tables.deep_view() =~= before.remove(i as int));
            true
        },
        None => false,
    }
}

} // verus!
