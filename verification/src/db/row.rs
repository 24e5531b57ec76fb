use vstd::prelude::*;

use crate::expr::fields::{
    entries_get, entries_insert, entries_keys, field_entries, fields_entry, fields_get, fields_insert,
    fields_len, fields_new, keys_unique, lemma_insert_then_get, Fields,
};
use crate::expr::value::{DataType, Value};

verus! {

/// A table column: its name, type, nullability and default value.
#[derive(Debug, PartialEq)]
pub struct Column {
    pub name: String,
    pub data_type: DataType,
    pub nullable: bool,
    pub default: Option<Value>,
}

impl Clone for Column {
    fn clone(&self) -> (r: Self)
        ensures
            r == *self,
    {
        Column {
            name: self.name.clone(),
            data_type: self.data_type,
            nullable: self.nullable,
            default: match &self.default {
                Some(v) => Some(v.clone()),
                None => None,
            },
        }
    }
}

impl DeepView for Column {
    type V = Column;

    open spec fn deep_view(&self) -> Column {
        *self
    }
}

impl Column {
    /// A nullable TEXT column without default.
    pub fn new(name: String) -> (r: Column)
        ensures
            r.name == name,
            r.data_type == DataType::Text,
            r.nullable,
            r.default is None,
    {
        Column { name, data_type: DataType::Text, nullable: true, default: None }
    }

    /// A nullable column of the given type without default.
    pub fn with_type(name: String, data_type: DataType) -> (r: Column)
        ensures
            r.name == name,
            r.data_type == data_type,
            r.nullable,
            r.default is None,
    {
        Column { name, data_type, nullable: true, default: None }
    }
}

/// A copy of a schema.
pub fn clone_columns(schema: &[Column]) -> (r: Vec<Column>)
    ensures
        r@ == schema@,
{
    let mut out: Vec<Column> = Vec::new();
    let mut i: usize = 0;
    while i < schema.len()
        invariant
            i <= schema@.len(),
            out@ == schema@.subrange(0, i as int),
        decreases schema@.len() - i,
    {
        out.push(schema[i].clone());
        i += 1;
        assert(out@ =~= schema@.subrange(0, i as int));
    }
    assert(schema@.subrange(0, i as int) =~= schema@);
    out
}

/// The names of a schema's columns.
pub open spec fn column_names(schema: Seq<Column>) -> Seq<Seq<char>> {
    schema.map_values(|c: Column| c.name@)
}

/// The entries obtained by storing `values[i]` under `keys[i]`, in order.
pub open spec fn entries_insert_all(
    entries: Seq<(Seq<char>, Value)>,
    keys: Seq<Seq<char>>,
    values: Seq<Value>,
) -> Seq<(Seq<char>, Value)>
    decreases keys.len(),
{
    if keys.len() == 0 || values.len() == 0 {
        entries
    } else {
        entries_insert_all(
            entries_insert(entries, keys[0], values[0]),
            keys.drop_first(),
            values.drop_first(),
        )
    }
}

/// The entries obtained by storing each pair of `pairs` in order.
pub open spec fn entries_from_pairs(pairs: Seq<(Seq<char>, Value)>) -> Seq<(Seq<char>, Value)>
    decreases pairs.len(),
{
    if pairs.len() == 0 {
        Seq::empty()
    } else {
        entries_insert(entries_from_pairs(pairs.drop_last()), pairs.last().0, pairs.last().1)
    }
}

/// A row: the schema it was built for and its values by column name.
#[derive(Debug, PartialEq)]
pub struct Row {
    pub schema: Vec<Column>,
    pub values: Fields,
}

/// The content of a row: its schema and its field map.
pub struct RowView {
    pub schema: Seq<Column>,
    pub values: Fields,
}

impl DeepView for Row {
    type V = RowView;

    open spec fn deep_view(&self) -> RowView {
        RowView { schema: self.schema@, values: self.values }
    }
}

impl Clone for Row {
    fn clone(&self) -> (r: Self)
        ensures
            r.deep_view() == self.deep_view(),
    {
        let schema = self.schema.clone();
        assert(schema@ =~= self.schema@);
        Row { schema, values: self.values.clone() }
    }
}

/// Stores each value under the matching column name of `schema`, in order,
/// into `fields`.
fn insert_columns(fields: &mut Fields, schema: &[Column], values: Vec<Value>)
    requires
        schema@.len() == values@.len(),
    ensures
        field_entries(*final(fields)) == entries_insert_all(
            field_entries(*old(fields)),
            column_names(schema@),
            values@,
        ),
{
    let mut i: usize = 0;
    let ghost start = field_entries(*fields);
    let mut rest = values;
    let mut taken: Vec<Value> = Vec::new();
    let ghost all = rest@;
    assert(column_names(schema@).skip(0) =~= column_names(schema@));
    assert(all.skip(0) =~= all);
    while i < schema.len()
        invariant
            i <= schema@.len(),
            schema@.len() == all.len(),
            rest@ == all.skip(i as int),
            entries_insert_all(start, column_names(schema@), all) == entries_insert_all(
                field_entries(*fields),
                column_names(schema@).skip(i as int),
                rest@,
            ),
        decreases schema@.len() - i,
    {
        let v = rest.remove(0);
        proof {
            let names = column_names(schema@).skip(i as int);
            assert(names[0] == schema@[i as int].name@);
            assert(names.drop_first() =~= column_names(schema@).skip(i + 1));
            assert(rest@ =~= all.skip(i + 1));
        }
        fields_insert(fields, schema[i].name.clone(), v);
        i += 1;
    }
    proof {
        assert(column_names(schema@).skip(i as int).len() == 0);
    }
}

impl Row {
    /// A row from a schema and a field map.
    pub fn new(schema: Vec<Column>, values: Fields) -> (r: Row)
        ensures
            r.schema == schema,
            r.values == values,
    {
        Row { schema, values }
    }

    /// A row holding `values[i]` under the name of `schema[i]`.
    pub fn from_values(schema: &[Column], values: Vec<Value>) -> (r: Row)
        requires
            schema@.len() == values@.len(),
        ensures
            r.schema@ == schema@,
            field_entries(r.values) == entries_insert_all(
                Seq::empty(),
                column_names(schema@),
                values@,
            ),
    {
        let mut fields = fields_new();
        insert_columns(&mut fields, schema, values);
        Row { schema: clone_columns(schema), values: fields }
    }

    /// A row without schema holding the pairs in order; a repeated name keeps
    /// its first place and takes its last value.
    pub fn from_entries(pairs: Vec<(String, Value)>) -> (r: Row)
        ensures
            r.schema@.len() == 0,
            field_entries(r.values) == entries_from_pairs(
                pairs@.map_values(|p: (String, Value)| (p.0@, p.1)),
            ),
    {
        let ghost all = pairs@.map_values(|p: (String, Value)| (p.0@, p.1));
        let mut fields = fields_new();
        let mut i: usize = 0;
        while i < pairs.len()
            invariant
                i <= pairs@.len(),
                all == pairs@.map_values(|p: (String, Value)| (p.0@, p.1)),
                field_entries(fields) == entries_from_pairs(all.take(i as int)),
            decreases pairs@.len() - i,
        {
            proof {
                assert(all.take(i + 1).drop_last() =~= all.take(i as int));
                assert(all.take(i + 1).last() == all[i as int]);
            }
            fields_insert(&mut fields, pairs[i].0.clone(), pairs[i].1.clone());
            i += 1;
        }
        assert(all.take(pairs@.len() as int) =~= all);
        Row { schema: Vec::new(), values: fields }
    }

    /// A row with NULL under every column of `schema`.
    pub fn blank_from_schema(schema: &[Column]) -> (r: Row)
        ensures
            r.schema@ == schema@,
            field_entries(r.values) == entries_insert_all(
                Seq::empty(),
                column_names(schema@),
                Seq::new(schema@.len(), |i: int| Value::Null),
            ),
    {
        let mut values: Vec<Value> = Vec::new();
        let mut i: usize = 0;
        while i < schema.len()
            invariant
                i <= schema@.len(),
                values@ == Seq::new(i as nat, |k: int| Value::Null),
            decreases schema@.len() - i,
        {
            values.push(Value::Null);
            i += 1;
            assert(values@ =~= Seq::new(i as nat, |k: int| Value::Null));
        }
        Row::from_values(schema, values)
    }

    /// A row with each column's default (or NULL) under its name.
    pub fn from_schema_with_defaults(schema: &[Column]) -> (r: Row)
        ensures
            r.schema@ == schema@,
            field_entries(r.values) == entries_insert_all(
                Seq::empty(),
                column_names(schema@),
                Seq::new(schema@.len(), |i: int| default_or_null(schema@[i])),
            ),
    {
        let mut values: Vec<Value> = Vec::new();
        let mut i: usize = 0;
        while i < schema.len()
            invariant
                i <= schema@.len(),
                values@ == Seq::new(i as nat, |k: int| default_or_null(schema@[k])),
            decreases schema@.len() - i,
        {
            let v = match &schema[i].default {
                Some(d) => d.clone(),
                None => Value::Null,
            };
            values.push(v);
            i += 1;
            assert(values@ =~= Seq::new(i as nat, |k: int| default_or_null(schema@[k])));
        }
        Row::from_values(schema, values)
    }

    /// The value stored under `column`.
    pub fn get(&self, column: &str) -> (r: Option<&Value>)
        ensures
            match r {
                Some(v) => entries_get(field_entries(self.values), column@) == Some(*v),
                None => entries_get(field_entries(self.values), column@) is None,
            },
    {
        fields_get(&self.values, column)
    }

    /// Stores `value` under `column`.
    pub fn insert(&mut self, column: String, value: Value)
        ensures
            final(self).schema == old(self).schema,
            field_entries(final(self).values) == entries_insert(
                field_entries(old(self).values),
                column@,
                value,
            ),
    {
        fields_insert(&mut self.values, column, value);
    }

    /// The column names stored in the row, in order.
    pub fn keys(&self) -> (r: Vec<String>)
        ensures
            r@.map_values(|s: String| s@) == entries_keys(field_entries(self.values)),
    {
        let n = fields_len(&self.values);
        let mut keys: Vec<String> = Vec::new();
        let mut i: usize = 0;
        while i < n
            invariant
                i <= n,
                n == field_entries(self.values).len(),
                keys@.len() == i,
                keys@.map_values(|s: String| s@) == entries_keys(field_entries(self.values)).take(
                    i as int,
                ),
            decreases n - i,
        {
            let (k, _v) = fields_entry(&self.values, i);
            let ghost before = keys@;
            keys.push(k.clone());
            proof {
                assert(entries_keys(field_entries(self.values))[i as int] == k@);
                assert(keys@ == before.push(*k));
                assert forall|j: int| 0 <= j < i implies keys@[j]@ == before[j]@ by {}
            }
            i += 1;
            assert(keys@.map_values(|s: String| s@) =~= entries_keys(
                field_entries(self.values),
            ).take(i as int));
        }
        assert(entries_keys(field_entries(self.values)).take(n as int) =~= entries_keys(
            field_entries(self.values),
        ));
        keys
    }
}

/// A column's default, or NULL.
pub open spec fn default_or_null(c: Column) -> Value {
    match c.default {
        Some(v) => v,
        None => Value::Null,
    }
}

/// Inserting several names keeps them unique.
pub proof fn lemma_insert_all_unique(
    entries: Seq<(Seq<char>, Value)>,
    keys: Seq<Seq<char>>,
    values: Seq<Value>,
)
    requires
        keys_unique(entries),
    ensures
        keys_unique(entries_insert_all(entries, keys, values)),
    decreases keys.len(),
{
    if keys.len() > 0 && values.len() > 0 {
        lemma_insert_then_get(entries, keys[0], values[0], keys[0]);
        lemma_insert_all_unique(
            entries_insert(entries, keys[0], values[0]),
            keys.drop_first(),
            values.drop_first(),
        );
    }
}

} // verus!
