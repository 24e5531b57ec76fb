use vstd::prelude::*;

use super::catalog::{
    catalog_get, catalog_put, catalog_take, clone_catalog, find_table, lemma_catalog_remove,
    lemma_catalog_set, lemma_index_of_unique, lemma_name_index, name_index, names_unique, Catalog,
};
use super::error::DbError;
use super::row::column_names;
use super::table::{first_unknown, Table, TableView};
use crate::expr::value::{DataType, Value};
use crate::tx::TransactionState;

verus! {

/// The in-memory database: the committed tables and, while a transaction is
/// open, the working copy that reads and writes go to.
#[derive(Debug)]
pub struct Database {
    pub tables: Catalog,
    pub transaction: TransactionState,
}

/// The two catalogs agree on every name but `name`.
pub open spec fn same_except(
    a: Seq<(Seq<char>, TableView)>,
    b: Seq<(Seq<char>, TableView)>,
    name: Seq<char>,
) -> bool {
    forall|k: Seq<char>| k != name ==> #[trigger] catalog_get(b, k) == catalog_get(a, k)
}

/// `t` is a new table with TEXT columns called `names`.
pub open spec fn fresh_table(t: TableView, names: Seq<Seq<char>>) -> bool {
    &&& column_names(t.columns) == names
    &&& forall|i: int|
        0 <= i < t.columns.len() ==> {
            let c = #[trigger] t.columns[i];
            &&& c.data_type == DataType::Text
            &&& c.nullable
            &&& c.default is None
        }
    &&& t.constraints.len() == 0
    &&& t.rows.len() == 0
}

/// The table has a constraint called `name`.
pub open spec fn has_constraint(t: TableView, name: Seq<char>) -> bool {
    exists|i: int| 0 <= i < t.constraints.len() && t.constraints[i].0 == name
}

impl Database {
    /// The committed tables.
    pub open spec fn committed(&self) -> Seq<(Seq<char>, TableView)> {
        self.tables.deep_view()
    }

    /// The tables that reads and writes see: the working copy while a
    /// transaction is open, the committed tables otherwise.
    pub open spec fn visible(&self) -> Seq<(Seq<char>, TableView)> {
        match self.transaction.working_tables {
            Some(w) => w.deep_view(),
            None => self.tables.deep_view(),
        }
    }

    /// A transaction is open.
    pub open spec fn in_transaction(&self) -> bool {
        self.transaction.working_tables is Some
    }

    /// Table names are unique in both catalogs.
    pub open spec fn wf(&self) -> bool {
        &&& names_unique(self.tables.deep_view())
        &&& match self.transaction.working_tables {
            Some(w) => names_unique(w.deep_view()),
            None => true,
        }
    }

    /// A change of the visible tables that leaves the rest alone.
    pub open spec fn visible_changed(&self, old: Database) -> bool {
        &&& self.wf()
        &&& self.in_transaction() == old.in_transaction()
        &&& old.in_transaction() ==> self.committed() == old.committed()
    }

    /// An empty database with no transaction open.
    pub fn new() -> (r: Database)
        ensures
            r.wf(),
            r.committed().len() == 0,
            !r.in_transaction(),
    {
        let r = Database { tables: Vec::new(), transaction: TransactionState::new() };
        assert(r.committed() =~= Seq::empty());
        r
    }

    /// Stores `table` under `name` among the visible tables.
    fn put_visible(&mut self, name: String, table: Table)
        requires
            old(self).wf(),
        ensures
            final(self).visible_changed(*old(self)),
            catalog_get(final(self).visible(), name@) == Some(table.deep_view()),
            same_except(old(self).visible(), final(self).visible(), name@),
    {
        let ghost tv = table.deep_view();
        proof {
            assert forall|k: Seq<char>| k != name@ implies #[trigger] catalog_get(
                super::catalog::catalog_set(self.visible(), name@, tv),
                k,
            ) == catalog_get(self.visible(), k) by {
                lemma_catalog_set(self.visible(), name@, tv, k);
            }
            lemma_catalog_set(self.visible(), name@, tv, name@);
        }
        if self.transaction.working_tables.is_some() {
            let mut w = self.transaction.working_tables.take().unwrap();
            catalog_put(&mut w, name, table);
            self.transaction.working_tables = Some(w);
        } else {
            catalog_put(&mut self.tables, name, table);
        }
    }

    /// Creates (or replaces) a table with TEXT columns called `columns`.
    pub fn create_table(&mut self, name: String, columns: Vec<String>)
        requires
            old(self).wf(),
        ensures
            final(self).visible_changed(*old(self)),
            catalog_get(final(self).visible(), name@) matches Some(t) && fresh_table(
                t,
                columns@.map_values(|s: String| s@),
            ),
            same_except(old(self).visible(), final(self).visible(), name@),
    {
        let table = Table::new(columns);
        self.put_visible(name, table);
    }

    /// Drops a table; refused, with nothing changed, when there is none.
    pub fn drop_table(&mut self, name: &str) -> (r: Result<(), DbError>)
        requires
            old(self).wf(),
        ensures
            catalog_get(old(self).visible(), name@) is None ==> {
                &&& r matches Err(DbError::TableNotFound(n)) && n@ == name@
                &&& *final(self) == *old(self)
            },
            catalog_get(old(self).visible(), name@) is Some ==> {
                &&& r is Ok
                &&& final(self).visible_changed(*old(self))
                &&& catalog_get(final(self).visible(), name@) is None
                &&& same_except(old(self).visible(), final(self).visible(), name@)
            },
    {
        proof {
            assert forall|k: Seq<char>| k != name@ implies #[trigger] catalog_get(
                super::catalog::catalog_remove(self.visible(), name@),
                k,
            ) == catalog_get(self.visible(), k) by {
                lemma_catalog_remove(self.visible(), name@, k);
            }
            lemma_catalog_remove(self.visible(), name@, name@);
        }
        let found = if self.transaction.working_tables.is_some() {
            let mut w = self.transaction.working_tables.take().unwrap();
            let found = catalog_take(&mut w, name);
            self.transaction.working_tables = Some(w);
            found
        } else {
            catalog_take(&mut self.tables, name)
        };
        if found {
            Ok(())
        } else {
            Err(DbError::TableNotFound(name.to_owned()))
        }
    }

    /// A copy of the visible table called `name`.
    pub fn table(&self, name: &str) -> (r: Option<Table>)
        ensures
            match r {
                Some(t) => catalog_get(self.visible(), name@) == Some(t.deep_view()),
                None => catalog_get(self.visible(), name@) is None,
            },
    {
        let tables = self.transaction.visible_tables(&self.tables);
        match find_table(tables, name) {
            Some(i) => {
                proof {
                    lemma_name_index(tables.deep_view(), name@);
                }
                Some(tables[i].1.clone())
            },
            None => None,
        }
    }

    /// Adds a constraint to a visible table. Refused, with nothing changed,
    /// when the table does not exist, when it has a constraint of that name,
    /// or when one of `columns` (the first such is named) is not a column.
    pub fn alter_table_add_constraint(
        &mut self,
        table_name: &str,
        constraint_name: String,
        columns: Vec<String>,
    ) -> (r: Result<(), DbError>)
        requires
            old(self).wf(),
        ensures
            match catalog_get(old(self).visible(), table_name@) {
                None => {
                    &&& r matches Err(DbError::TableNotFound(n)) && n@ == table_name@
                    &&& *final(self) == *old(self)
                },
                Some(t) => if has_constraint(t, constraint_name@) {
                    &&& r matches Err(DbError::ConstraintAlreadyExists { table, constraint })
                    &&& table@ == table_name@ && constraint@ == constraint_name@
                    &&& final(self).visible() == old(self).visible()
                    &&& final(self).visible_changed(*old(self))
                } else if first_unknown(t.columns, columns@.map_values(|s: String| s@)) >= 0 {
                    &&& r matches Err(DbError::ColumnNotFound { table, column })
                    &&& table@ == table_name@
                    &&& column@ == columns@[first_unknown(
                        t.columns,
                        columns@.map_values(|s: String| s@),
                    )]@
                    &&& final(self).visible() == old(self).visible()
                    &&& final(self).visible_changed(*old(self))
                } else {
                    &&& r is Ok
                    &&& final(self).visible_changed(*old(self))
                    &&& same_except(old(self).visible(), final(self).visible(), table_name@)
                    &&& catalog_get(final(self).visible(), table_name@) == Some(
                        TableView {
                            constraints: t.constraints.push(
                                (constraint_name@, columns.deep_view()),
                            ),
                            ..t
                        },
                    )
                },
            },
    {
        let mut table = match self.table(table_name) {
            Some(t) => t,
            None => {
                return Err(DbError::TableNotFound(table_name.to_owned()));
            },
        };
        let ghost before = table;
        let ghost ok_before = *self;
        let result = table.add_constraint(table_name, constraint_name, columns);
        proof {
            if exists|i: int| 0 <= i < before.constraints@.len() && before.constraints@[i].name@ == constraint_name@ {
                let i = choose|i: int| 0 <= i < before.constraints@.len() && before.constraints@[i].name@ == constraint_name@;
                assert(before.deep_view().constraints[i].0 == constraint_name@);
            }
            if has_constraint(before.deep_view(), constraint_name@) {
                let i = choose|i: int| 0 <= i < before.deep_view().constraints.len() && before.deep_view().constraints[i].0 == constraint_name@;
                assert(before.constraints@[i].name@ == constraint_name@);
            }
        }
        match result {
            Ok(()) => {
                let ghost tv = table.deep_view();
                assert(tv == TableView {
                    constraints: before.deep_view().constraints.push(
                        (constraint_name@, columns.deep_view()),
                    ),
                    ..before.deep_view()
                });
                self.put_visible(table_name.to_owned(), table);
                Ok(())
            },
            Err(e) => Err(e),
        }
    }

    /// Appends a row to a committed table, outside any transaction's working
    /// copy. Refused, with nothing changed, when the table does not exist or
    /// the value count differs from its column count.
    pub fn insert_row(&mut self, name: &str, values: Vec<Value>) -> (r: Result<(), DbError>)
        requires
            old(self).wf(),
        ensures
            final(self).wf(),
            final(self).transaction == old(self).transaction,
            match catalog_get(old(self).committed(), name@) {
                None => r matches Err(DbError::TableNotFound(n)) && n@ == name@ && *final(self)
                    == *old(self),
                Some(t) => if values@.len() != t.columns.len() {
                    &&& r == Err::<(), DbError>(
                        DbError::ColumnCountMismatch {
                            expected: t.columns.len() as usize,
                            found: values@.len() as usize,
                        },
                    )
                    &&& final(self).committed() == old(self).committed()
                } else {
                    &&& r is Ok
                    &&& same_except(old(self).committed(), final(self).committed(), name@)
                    &&& catalog_get(final(self).committed(), name@) matches Some(u) && u.columns
                        == t.columns && u.constraints == t.constraints && u.rows.len() == t.rows.len()
                        + 1 && u.rows.take(t.rows.len() as int) == t.rows
                },
            },
    {
        match find_table(&self.tables, name) {
            None => Err(DbError::TableNotFound(name.to_owned())),
            Some(i) => {
                let ghost before = self.tables.deep_view();
                proof {
                    lemma_name_index(before, name@);
                }
                let mut entry = self.tables.remove(i);
                let result = entry.1.insert_row(values);
                let ghost t = entry.1.deep_view();
                proof {
                    if result is Ok {
                        assert(t.rows.take(before[i as int].1.rows.len() as int) =~= before[i as int].1.rows);
                    }
                }
                self.tables.insert(i, entry);
                proof {
                    let after = self.tables.deep_view();
                    assert(after =~= before.update(i as int, (name@, t)));
                    assert(names_unique(after)) by {
                        assert forall|a: int, b: int|
                            0 <= a < after.len() && 0 <= b < after.len() && a != b implies #[trigger] after[a].0
                            != #[trigger] after[b].0 by {
                            assert(before[a].0 != before[b].0);
                        }
                    }
                    lemma_index_of_unique(after, i as int);
                    assert forall|k: Seq<char>| k != name@ implies #[trigger] catalog_get(after, k)
                        == catalog_get(before, k) by {
                        lemma_name_index(before, k);
                        lemma_name_index(after, k);
                        let p = name_index(before, k);
                        if p >= 0 {
                            lemma_index_of_unique(after, p);
                        } else {
                            assert forall|j: int| 0 <= j < after.len() implies after[j].0 != k by {
                                assert(after[j].0 == before[j].0);
                            }
                        }
                    }
                    if result is Err {
                        assert(t == before[i as int].1);
                        assert(after =~= before);
                    }
                }
                result
            },
        }
    }

    /// Opens a transaction on a snapshot of the committed tables; no effect
    /// when one is open.
    pub fn begin_transaction(&mut self)
        requires
            old(self).wf(),
        ensures
            final(self).wf(),
            final(self).in_transaction(),
            final(self).visible() == old(self).visible(),
            final(self).committed() == old(self).committed(),
    {
        if !self.transaction.is_active() {
            let snapshot = clone_catalog(&self.tables);
            self.transaction.begin(snapshot);
        }
    }

    /// Makes the working copy the committed tables and closes the
    /// transaction; no effect when none is open.
    pub fn commit_transaction(&mut self)
        requires
            old(self).wf(),
        ensures
            final(self).wf(),
            !final(self).in_transaction(),
            final(self).committed() == old(self).visible(),
            final(self).visible() == old(self).visible(),
    {
        if !self.transaction.is_active() {
            return;
        }
        self.transaction.commit_into(&mut self.tables);
    }

    /// Discards the working copy and closes the transaction.
    pub fn rollback_transaction(&mut self)
        requires
            old(self).wf(),
        ensures
            final(self).wf(),
            !final(self).in_transaction(),
            final(self).committed() == old(self).committed(),
            final(self).visible() == old(self).committed(),
    {
        self.transaction.rollback();
    }

    /// A transaction is open.
    pub fn is_in_transaction(&self) -> (r: bool)
        ensures
            r == self.in_transaction(),
    {
        self.transaction.is_active()
    }

    /// Replaces a table inside the transaction, opening one first when none
    /// is open. Refused when the table does not exist (the transaction stays
    /// open).
    pub fn replace_table(&mut self, name: &str, table: Table) -> (r: Result<(), DbError>)
        requires
            old(self).wf(),
        ensures
            final(self).wf(),
            final(self).in_transaction(),
            final(self).committed() == old(self).committed(),
            catalog_get(old(self).visible(), name@) is None ==> {
                &&& r matches Err(DbError::TableNotFound(n)) && n@ == name@
                &&& final(self).visible() == old(self).visible()
            },
            catalog_get(old(self).visible(), name@) is Some ==> {
                &&& r is Ok
                &&& catalog_get(final(self).visible(), name@) == Some(table.deep_view())
                &&& same_except(old(self).visible(), final(self).visible(), name@)
            },
    {
        self.begin_transaction();
        match find_table(self.transaction.visible_tables(&self.tables), name) {
            None => Err(DbError::TableNotFound(name.to_owned())),
            Some(_) => {
                self.put_visible(name.to_owned(), table);
                Ok(())
            },
        }
    }
}

} // verus!
