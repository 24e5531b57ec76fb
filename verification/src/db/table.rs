use vstd::prelude::*;

use super::error::DbError;
use super::row::{column_names, default_or_null, entries_insert_all, Column, Row, RowView};
use crate::expr::fields::field_entries;
use crate::expr::value::Value;

verus! {

/// A named constraint over some columns.
#[derive(Debug, PartialEq)]
pub struct TableConstraint {
    pub name: String,
    pub columns: Vec<String>,
}

impl DeepView for TableConstraint {
    type V = (Seq<char>, Seq<Seq<char>>);

    open spec fn deep_view(&self) -> (Seq<char>, Seq<Seq<char>>) {
        (self.name@, self.columns.deep_view())
    }
}

impl Clone for TableConstraint {
    fn clone(&self) -> (r: Self)
        ensures
            r.deep_view() == self.deep_view(),
    {
        let columns = clone_strings(&self.columns);
        TableConstraint { name: self.name.clone(), columns }
    }
}

/// A copy of a list of strings.
pub fn clone_strings(v: &Vec<String>) -> (r: Vec<String>)
    ensures
        r.deep_view() == v.deep_view(),
        r@ == v@,
{
    let mut out: Vec<String> = Vec::new();
    let mut i: usize = 0;
    while i < v.len()
        invariant
            i <= v@.len(),
            out@ == v@.subrange(0, i as int),
        decreases v@.len() - i,
    {
        out.push(v[i].clone());
        i += 1;
        assert(out@ =~= v@.subrange(0, i as int));
    }
    assert(v@.subrange(0, i as int) =~= v@);
    assert(out.deep_view() =~= v.deep_view());
    out
}

/// An in-memory table: columns, constraints and rows.
#[derive(Debug, PartialEq)]
pub struct Table {
    pub columns: Vec<Column>,
    pub constraints: Vec<TableConstraint>,
    pub rows: Vec<Row>,
}

/// The content of a table.
pub struct TableView {
    pub columns: Seq<Column>,
    pub constraints: Seq<(Seq<char>, Seq<Seq<char>>)>,
    pub rows: Seq<RowView>,
}

impl DeepView for Table {
    type V = TableView;

    open spec fn deep_view(&self) -> TableView {
        TableView {
            columns: self.columns@,
            constraints: self.constraints.deep_view(),
            rows: self.rows.deep_view(),
        }
    }
}

impl Clone for Table {
    fn clone(&self) -> (r: Self)
        ensures
            r.deep_view() == self.deep_view(),
    {
        let columns = self.columns.clone();
        let mut constraints: Vec<TableConstraint> = Vec::new();
        let mut i: usize = 0;
        while i < self.constraints.len()
            invariant
                i <= self.constraints@.len(),
                constraints@.len() == i,
                forall|k: int|
                    0 <= k < i ==> #[trigger] constraints@[k].deep_view()
                        == self.constraints@[k].deep_view(),
            decreases self.constraints@.len() - i,
        {
            constraints.push(self.constraints[i].clone());
            i += 1;
        }
        let mut rows: Vec<Row> = Vec::new();
        let mut j: usize = 0;
        while j < self.rows.len()
            invariant
                j <= self.rows@.len(),
                rows@.len() == j,
                forall|k: int| 0 <= k < j ==> #[trigger] rows@[k].deep_view() == self.rows@[k].deep_view(),
            decreases self.rows@.len() - j,
        {
            rows.push(self.rows[j].clone());
            j += 1;
        }
        assert(columns@ =~= self.columns@);
        assert(constraints.deep_view() =~= self.constraints.deep_view());
        assert(rows.deep_view() =~= self.rows.deep_view());
        Table { columns, constraints, rows }
    }
}

/// `name` names one of the columns.
pub open spec fn has_column_spec(columns: Seq<Column>, name: Seq<char>) -> bool {
    exists|i: int| 0 <= i < columns.len() && columns[i].name@ == name
}

/// The index of the first name in `names` that is not a column, or `-1`.
pub open spec fn first_unknown(columns: Seq<Column>, names: Seq<Seq<char>>) -> int
    decreases names.len(),
{
    if names.len() == 0 {
        -1
    } else if !has_column_spec(columns, names[0]) {
        0
    } else {
        let p = first_unknown(columns, names.drop_first());
        if p < 0 {
            -1
        } else {
            p + 1
        }
    }
}

/// Facts about `first_unknown`.
pub proof fn lemma_first_unknown(columns: Seq<Column>, names: Seq<Seq<char>>)
    ensures
        -1 <= first_unknown(columns, names) < names.len(),
        first_unknown(columns, names) >= 0 ==> !has_column_spec(
            columns,
            names[first_unknown(columns, names)],
        ),
        forall|i: int|
            0 <= i < names.len() && (first_unknown(columns, names) < 0 || i < first_unknown(
                columns,
                names,
            )) ==> has_column_spec(columns, #[trigger] names[i]),
    decreases names.len(),
{
    if names.len() > 0 && has_column_spec(columns, names[0]) {
        let rest = names.drop_first();
        lemma_first_unknown(columns, rest);
        assert forall|i: int|
            0 <= i < names.len() && (first_unknown(columns, names) < 0 || i < first_unknown(
                columns,
                names,
            )) implies has_column_spec(columns, #[trigger] names[i]) by {
            if i > 0 {
                assert(names[i] == rest[i - 1]);
            }
        }
    }
}

impl Table {
    /// A table with TEXT columns of the given names and no rows.
    pub fn new(columns: Vec<String>) -> (r: Table)
        ensures
            column_names(r.deep_view().columns) == columns@.map_values(|s: String| s@),
            forall|i: int|
                0 <= i < r.deep_view().columns.len() ==> {
                    let c = #[trigger] r.deep_view().columns[i];
                    &&& c.data_type == crate::expr::value::DataType::Text
                    &&& c.nullable
                    &&& c.default is None
                },
            r.deep_view().constraints.len() == 0,
            r.deep_view().rows.len() == 0,
    {
        let mut cols: Vec<Column> = Vec::new();
        let mut i: usize = 0;
        while i < columns.len()
            invariant
                i <= columns@.len(),
                cols@.len() == i,
                forall|k: int| 0 <= k < i ==> (#[trigger] cols@[k]).name@ == columns@[k]@,
                forall|k: int|
                    0 <= k < i ==> {
                        let c = #[trigger] cols@[k];
                        &&& c.data_type == crate::expr::value::DataType::Text
                        &&& c.nullable
                        &&& c.default is None
                    },
            decreases columns@.len() - i,
        {
            cols.push(Column::new(columns[i].clone()));
            i += 1;
        }
        assert(column_names(cols@) =~= columns@.map_values(|s: String| s@));
        let r = Table { columns: cols, constraints: Vec::new(), rows: Vec::new() };
        assert(r.deep_view().constraints =~= Seq::empty());
        assert(r.deep_view().rows =~= Seq::empty());
        r
    }

    /// A table with the given columns and no rows.
    pub fn from_columns(columns: Vec<Column>) -> (r: Table)
        ensures
            r.deep_view().columns == columns@,
            r.deep_view().constraints.len() == 0,
            r.deep_view().rows.len() == 0,
    {
        let r = Table { columns, constraints: Vec::new(), rows: Vec::new() };
        assert(r.deep_view().constraints =~= Seq::empty());
        assert(r.deep_view().rows =~= Seq::empty());
        r
    }

    /// The columns, in order.
    pub fn columns(&self) -> (r: &[Column])
        ensures
            r@ == self.deep_view().columns,
    {
        self.columns.as_slice()
    }

    /// The column names, in order.
    pub fn column_names(&self) -> (r: Vec<String>)
        ensures
            r@.map_values(|s: String| s@) == column_names(self.deep_view().columns),
    {
        let mut out: Vec<String> = Vec::new();
        let mut i: usize = 0;
        while i < self.columns.len()
            invariant
                i <= self.columns@.len(),
                out@.len() == i,
                forall|k: int| 0 <= k < i ==> (#[trigger] out@[k])@ == self.columns@[k].name@,
            decreases self.columns@.len() - i,
        {
            out.push(self.columns[i].name.clone());
            i += 1;
        }
        assert(out@.map_values(|s: String| s@) =~= column_names(self.columns@));
        out
    }

    /// The rows, in order.
    pub fn rows(&self) -> (r: &[Row])
        ensures
            r@ == self.rows@,
            r.deep_view() == self.deep_view().rows,
    {
        self.rows.as_slice()
    }

    /// The rows, for changes in place.
    pub fn rows_mut(&mut self) -> (r: &mut Vec<Row>)
        ensures
            *r == old(self).rows,
            final(self).rows == *final(r),
            final(self).columns == old(self).columns,
            final(self).constraints == old(self).constraints,
    {
        &mut self.rows
    }

    /// Replaces the rows.
    pub fn set_rows(&mut self, rows: Vec<Row>)
        ensures
            final(self).deep_view().columns == old(self).deep_view().columns,
            final(self).deep_view().constraints == old(self).deep_view().constraints,
            final(self).rows == rows,
    {
        self.rows = rows;
    }

    /// Appends a row.
    pub fn push_row(&mut self, row: Row)
        ensures
            final(self).deep_view().columns == old(self).deep_view().columns,
            final(self).deep_view().constraints == old(self).deep_view().constraints,
            final(self).rows@ == old(self).rows@.push(row),
            final(self).deep_view().rows == old(self).deep_view().rows.push(row.deep_view()),
    {
        self.rows.push(row);
        assert(self.rows.deep_view() =~= old(self).rows.deep_view().push(row.deep_view()));
    }

    /// The constraints, in order.
    pub fn constraints(&self) -> (r: &[TableConstraint])
        ensures
            r@ == self.constraints@,
    {
        self.constraints.as_slice()
    }

    /// `name` is one of the columns.
    pub fn has_column(&self, name: &String) -> (r: bool)
        ensures
            r == has_column_spec(self.deep_view().columns, name@),
    {
        let mut i: usize = 0;
        while i < self.columns.len()
            invariant
                i <= self.columns@.len(),
                forall|k: int| 0 <= k < i ==> self.columns@[k].name@ != name@,
            decreases self.columns@.len() - i,
        {
            if self.columns[i].name == *name {
                return true;
            }
            i += 1;
        }
        false
    }

    /// The position of the first of `names` that is not a column.
    fn find_unknown(&self, names: &[String]) -> (r: Option<usize>)
        ensures
            match r {
                Some(i) => i < names@.len() && i == first_unknown(
                    self.deep_view().columns,
                    names@.map_values(|s: String| s@),
                ),
                None => first_unknown(self.deep_view().columns, names@.map_values(|s: String| s@))
                    < 0,
            },
    {
        let ghost ns = names@.map_values(|s: String| s@);
        proof {
            lemma_first_unknown(self.columns@, ns);
        }
        let mut i: usize = 0;
        while i < names.len()
            invariant
                i <= names@.len(),
                ns == names@.map_values(|s: String| s@),
                forall|k: int| 0 <= k < i ==> has_column_spec(self.columns@, #[trigger] ns[k]),
                -1 <= first_unknown(self.columns@, ns) < ns.len(),
                first_unknown(self.columns@, ns) >= 0 ==> !has_column_spec(
                    self.columns@,
                    ns[first_unknown(self.columns@, ns)],
                ),
                forall|k: int|
                    0 <= k < ns.len() && (first_unknown(self.columns@, ns) < 0 || k
                        < first_unknown(self.columns@, ns)) ==> has_column_spec(
                        self.columns@,
                        #[trigger] ns[k],
                    ),
            decreases names@.len() - i,
        {
            if !self.has_column(&names[i]) {
                assert(ns[i as int] == names@[i as int]@);
                return Some(i);
            }
            assert(ns[i as int] == names@[i as int]@);
            i += 1;
        }
        proof {
            if first_unknown(self.columns@, ns) >= 0 {
                assert(has_column_spec(self.columns@, ns[first_unknown(self.columns@, ns)]));
            }
        }
        None
    }

    /// The position of the constraint called `name`, if any.
    fn find_constraint(&self, name: &String) -> (r: Option<usize>)
        ensures
            r is Some <==> exists|i: int|
                0 <= i < self.constraints@.len() && self.constraints@[i].name@ == name@,
    {
        let mut i: usize = 0;
        while i < self.constraints.len()
            invariant
                i <= self.constraints@.len(),
                forall|k: int| 0 <= k < i ==> self.constraints@[k].name@ != name@,
            decreases self.constraints@.len() - i,
        {
            if self.constraints[i].name == *name {
                return Some(i);
            }
            i += 1;
        }
        None
    }

    /// Adds a constraint called `name` over `columns`. Refused when a
    /// constraint of that name exists, or when one of `columns` (the first
    /// such is named) is not a column; the table is then unchanged.
    pub fn add_constraint(&mut self, table_name: &str, name: String, columns: Vec<String>) -> (r:
        Result<(), DbError>)
        ensures
            ({
                let exists_name = exists|i: int|
                    0 <= i < old(self).constraints@.len() && old(self).constraints@[i].name@
                        == name@;
                let unknown = first_unknown(
                    old(self).deep_view().columns,
                    columns@.map_values(|s: String| s@),
                );
                if exists_name {
                    &&& r matches Err(DbError::ConstraintAlreadyExists { table, constraint })
                    &&& table@ == table_name@
                    &&& constraint@ == name@
                    &&& *final(self) == *old(self)
                } else if unknown >= 0 {
                    &&& r matches Err(DbError::ColumnNotFound { table, column })
                    &&& table@ == table_name@
                    &&& column@ == columns@[unknown]@
                    &&& *final(self) == *old(self)
                } else {
                    &&& r is Ok
                    &&& final(self).deep_view().columns == old(self).deep_view().columns
                    &&& final(self).rows == old(self).rows
                    &&& final(self).deep_view().constraints == old(
                        self,
                    ).deep_view().constraints.push((name@, columns.deep_view()))
                }
            }),
    {
        if self.find_constraint(&name).is_some() {
            return Err(DbError::ConstraintAlreadyExists { table: table_name.to_owned(), constraint: name });
        }
        match self.find_unknown(columns.as_slice()) {
            Some(i) => {
                return Err(DbError::ColumnNotFound { table: table_name.to_owned(), column: columns[i].clone() });
            },
            None => {},
        }
        let ghost old_constraints = self.constraints.deep_view();
        let c = TableConstraint { name, columns };
        self.constraints.push(c);
        assert(self.constraints.deep_view() =~= old_constraints.push(c.deep_view()));
        Ok(())
    }

    /// Appends a row holding `values` in column order. Refused, leaving the
    /// table unchanged, when the count differs from the column count.
    pub fn insert_row(&mut self, values: Vec<Value>) -> (r: Result<(), DbError>)
        ensures
            values@.len() != old(self).columns@.len() ==> {
                &&& r == Err::<(), DbError>(
                    DbError::ColumnCountMismatch {
                        expected: old(self).columns@.len() as usize,
                        found: values@.len() as usize,
                    },
                )
                &&& *final(self) == *old(self)
            },
            values@.len() == old(self).columns@.len() ==> {
                &&& r is Ok
                &&& final(self).deep_view().columns == old(self).deep_view().columns
                &&& final(self).deep_view().constraints == old(self).deep_view().constraints
                &&& final(self).rows@.len() == old(self).rows@.len() + 1
                &&& final(self).rows@.take(old(self).rows@.len() as int) == old(self).rows@
                &&& final(self).rows@.last().schema@ == old(self).columns@
                &&& field_entries(final(self).rows@.last().values) == entries_insert_all(
                    Seq::empty(),
                    column_names(old(self).columns@),
                    values@,
                )
            },
    {
        if values.len() != self.columns.len() {
            return Err(DbError::ColumnCountMismatch { expected: self.columns.len(), found: values.len() });
        }
        let row = Row::from_values(self.columns.as_slice(), values);
        self.rows.push(row);
        assert(self.rows@.take(old(self).rows@.len() as int) =~= old(self).rows@);
        Ok(())
    }

    /// Appends a row with each column's default, then `values[i]` under
    /// `columns[i]`. Refused, leaving the table unchanged, when the counts
    /// differ or when one of `columns` (the first such is named) is not a
    /// column of the table.
    pub fn insert_row_with_columns(&mut self, table_name: &str, columns: &[String], values: Vec<Value>) -> (r:
        Result<(), DbError>)
        ensures
            ({
                let unknown = first_unknown(
                    old(self).deep_view().columns,
                    columns@.map_values(|s: String| s@),
                );
                if columns@.len() != values@.len() {
                    &&& r == Err::<(), DbError>(
                        DbError::ColumnCountMismatch {
                            expected: columns@.len() as usize,
                            found: values@.len() as usize,
                        },
                    )
                    &&& *final(self) == *old(self)
                } else if unknown >= 0 {
                    &&& r matches Err(DbError::ColumnNotFound { table, column })
                    &&& table@ == table_name@
                    &&& column@ == columns@[unknown]@
                    &&& *final(self) == *old(self)
                } else {
                    &&& r is Ok
                    &&& final(self).deep_view().columns == old(self).deep_view().columns
                    &&& final(self).deep_view().constraints == old(self).deep_view().constraints
                    &&& final(self).rows@.len() == old(self).rows@.len() + 1
                    &&& final(self).rows@.take(old(self).rows@.len() as int) == old(self).rows@
                    &&& final(self).rows@.last().schema@ == old(self).columns@
                    &&& field_entries(final(self).rows@.last().values) == entries_insert_all(
                        entries_insert_all(
                            Seq::empty(),
                            column_names(old(self).columns@),
                            Seq::new(
                                old(self).columns@.len(),
                                |i: int| default_or_null(old(self).columns@[i]),
                            ),
                        ),
                        columns@.map_values(|s: String| s@),
                        values@,
                    )
                }
            }),
    {
        if columns.len() != values.len() {
            return Err(DbError::ColumnCountMismatch { expected: columns.len(), found: values.len() });
        }
        match self.find_unknown(columns) {
            Some(i) => {
                return Err(DbError::ColumnNotFound { table: table_name.to_owned(), column: columns[i].clone() });
            },
            None => {},
        }
        let mut row = Row::from_schema_with_defaults(self.columns.as_slice());
        let ghost start = field_entries(row.values);
        let ghost names = columns@.map_values(|s: String| s@);
        let ghost all = values@;
        let mut rest = values;
        let mut i: usize = 0;
        assert(names.skip(0) =~= names);
        assert(all.skip(0) =~= all);
        while i < columns.len()
            invariant
                i <= columns@.len(),
                columns@.len() == all.len(),
                names == columns@.map_values(|s: String| s@),
                rest@ == all.skip(i as int),
                row.schema@ == self.columns@,
                entries_insert_all(start, names, all) == entries_insert_all(
                    field_entries(row.values),
                    names.skip(i as int),
                    rest@,
                ),
            decreases columns@.len() - i,
        {
            let v = rest.remove(0);
            proof {
                assert(names.skip(i as int)[0] == columns@[i as int]@);
                assert(names.skip(i as int).drop_first() =~= names.skip(i + 1));
                assert(rest@ =~= all.skip(i + 1));
            }
            row.insert(columns[i].clone(), v);
            i += 1;
        }
        assert(names.skip(i as int).len() == 0);
        self.rows.push(row);
        assert(self.rows@.take(old(self).rows@.len() as int) =~= old(self).rows@);
        Ok(())
    }
}

} // verus!
