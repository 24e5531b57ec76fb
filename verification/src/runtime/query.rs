use vstd::prelude::*;

use crate::ast::{CursorQuery, Expr, JoinClause, JoinKind, QuerySource};
use crate::db::row::{Column, Row};
use crate::expr::eval::EvalError;
use crate::expr::fields::{entries_get, field_entries, fields_get, Fields};
use crate::db::row::{column_names, entries_insert_all};
use crate::expr::value::{str_equal, Value};
use crate::db::catalog::{catalog_get, catalog_set, lemma_catalog_set};
use crate::runtime::names::keyed;
use crate::db::table::{has_column_spec, TableView};
use crate::runtime::env::Environment;
use crate::runtime::exec::{
    condition_outcome, deeper, eval_at, evaluate_condition, expr_height, filter_pure, filtered_outcome, kept,
    pure_expr, pure_outcome, ready, succeeded,
};
use crate::runtime::env::Scope;
use crate::runtime::semantics::fresh_scope;

verus! {

/// A table taking part in a query: the name it is qualified by (its alias,
/// or its own name), its columns and its rows.
pub struct QueryTable {
    pub qualifier: String,
    pub columns: Vec<Column>,
    pub rows: Vec<Row>,
}

/// A combination of rows, one entry per query table: the index of its row,
/// or `None` for the all-NULL row of an outer join.
pub type JoinedRow = Vec<Option<usize>>;

/// Every entry of every joined row points at a row of its table.
pub open spec fn rows_point_into(rows: Seq<JoinedRow>, tables: Seq<QueryTable>, width: int) -> bool {
    forall|i: int|
        0 <= i < rows.len() ==> (#[trigger] rows[i])@.len() == width && forall|k: int|
            0 <= k < width ==> (#[trigger] rows[i]@[k] matches Some(j) ==> j < tables[k].rows@.len())
}

/// How many of the first `count` tables have a column called `name`.
pub open spec fn tables_with_column(tables: Seq<QueryTable>, count: int, name: Seq<char>) -> int
    decreases count,
{
    if count <= 0 {
        0
    } else {
        tables_with_column(tables, count - 1, name) + if has_column_spec(tables[count - 1].columns@, name) {
            1int
        } else {
            0int
        }
    }
}

/// How many of the first `count` tables have a column called `name`.
pub fn column_count(tables: &Vec<QueryTable>, count: usize, name: &String) -> (r: usize)
    requires
        count <= tables@.len(),
    ensures
        r <= count,
        r == tables_with_column(tables@, count as int, name@),
{
    let mut n: usize = 0;
    let mut k: usize = 0;
    while k < count
        invariant
            k <= count,
            count <= tables@.len(),
            n <= k,
            n == tables_with_column(tables@, k as int, name@),
        decreases count - k,
    {
        let t = &tables[k];
        let mut found = false;
        let mut c: usize = 0;
        while c < t.columns.len()
            invariant
                c <= t.columns@.len(),
                found == exists|x: int| 0 <= x < c && t.columns@[x].name@ == name@,
            decreases t.columns@.len() - c,
        {
            if str_equal(t.columns[c].name.as_str(), name.as_str()) {
                found = true;
            }
            c += 1;
        }
        assert(found == has_column_spec(t.columns@, name@));
        if found {
            n += 1;
        }
        k += 1;
    }
    n
}

/// The fields a joined row binds for the table `t` at its slot: the row's
/// own fields, or all NULL for a missing row.
pub open spec fn slot_fields(t: QueryTable, slot: Option<usize>, v: Fields) -> bool {
    match slot {
        Some(j) => j < t.rows@.len() && v == t.rows@[j as int].values,
        None => field_entries(v) == entries_insert_all(
            Seq::empty(),
            column_names(t.columns@),
            Seq::new(t.columns@.len(), |i: int| Value::Null),
        ),
    }
}

/// The value of the column `name` in `v`, NULL when it has none.
pub open spec fn column_value(v: Fields, name: Seq<char>) -> Value {
    match entries_get(field_entries(v), name) {
        Some(x) => x,
        None => Value::Null,
    }
}

/// The unqualified columns after binding the first `c` columns `cols` of a
/// table with the fields `v`: a name found in one of the first `count`
/// tables only is bound to its value.
pub open spec fn columns_after(
    tables: Seq<QueryTable>,
    count: int,
    cols: Seq<Column>,
    v: Fields,
    c: int,
    start: Seq<(Seq<char>, Value)>,
) -> Seq<(Seq<char>, Value)>
    decreases c,
{
    if c <= 0 {
        start
    } else {
        let prev = columns_after(tables, count, cols, v, c - 1, start);
        if tables_with_column(tables, count, cols[c - 1].name@) == 1 {
            catalog_set(prev, cols[c - 1].name@, column_value(v, cols[c - 1].name@))
        } else {
            prev
        }
    }
}

/// The names marked ambiguous after the first `c` columns `cols` of a table:
/// those found in more than one of the first `count` tables.
pub open spec fn ambiguous_after(tables: Seq<QueryTable>, count: int, cols: Seq<Column>, c: int, start: Seq<Seq<char>>) -> Seq<
    Seq<char>,
>
    decreases c,
{
    if c <= 0 {
        start
    } else {
        let prev = ambiguous_after(tables, count, cols, c - 1, start);
        if tables_with_column(tables, count, cols[c - 1].name@) == 1 {
            prev
        } else {
            prev.push(cols[c - 1].name@)
        }
    }
}

/// The qualifier bindings after the first `k` tables, the `i`-th bound to
/// the record of `vs[i]`.
pub open spec fn bindings_after(tables: Seq<QueryTable>, vs: Seq<Fields>, k: int, start: Seq<(Seq<char>, Value)>) -> Seq<
    (Seq<char>, Value),
>
    decreases k,
{
    if k <= 0 {
        start
    } else {
        catalog_set(bindings_after(tables, vs, k - 1, start), tables[k - 1].qualifier@, Value::Record(vs[k - 1]))
    }
}

/// The unqualified columns after the first `k` tables.
pub open spec fn all_columns_after(
    tables: Seq<QueryTable>,
    count: int,
    vs: Seq<Fields>,
    k: int,
    start: Seq<(Seq<char>, Value)>,
) -> Seq<(Seq<char>, Value)>
    decreases k,
{
    if k <= 0 {
        start
    } else {
        columns_after(
            tables,
            count,
            tables[k - 1].columns@,
            vs[k - 1],
            tables[k - 1].columns@.len() as int,
            all_columns_after(tables, count, vs, k - 1, start),
        )
    }
}

/// The ambiguous names after the first `k` tables.
pub open spec fn all_ambiguous_after(tables: Seq<QueryTable>, count: int, k: int, start: Seq<Seq<char>>) -> Seq<Seq<char>>
    decreases k,
{
    if k <= 0 {
        start
    } else {
        ambiguous_after(
            tables,
            count,
            tables[k - 1].columns@,
            tables[k - 1].columns@.len() as int,
            all_ambiguous_after(tables, count, k - 1, start),
        )
    }
}

/// `s2` is `s` with the joined row `row` of the first `count` tables bound:
/// each table's qualifier to its fields as a record, each column found in
/// one table only to its value, the others marked ambiguous.
pub open spec fn row_bound(tables: Seq<QueryTable>, count: int, row: Seq<Option<usize>>, s: Scope, s2: Scope) -> bool {
    exists|vs: Seq<Fields>|
        #[trigger] mark_bound_fields(vs) && vs.len() == count && (forall|k: int|
            0 <= k < count ==> slot_fields(tables[k], row[k], #[trigger] vs[k])) && s2.vars == s.vars && keyed(
            s2.query_bindings@,
        ) == bindings_after(tables, vs, count, keyed(s.query_bindings@)) && keyed(s2.query_columns@)
            == all_columns_after(tables, count, vs, count, keyed(s.query_columns@)) && s2.query_ambiguous@.map_values(
            |a: String| a@,
        ) == all_ambiguous_after(tables, count, count, s.query_ambiguous@.map_values(|a: String| a@))
}

/// The bindings after the first `k` tables read only the first `k` fields.
pub proof fn lemma_bound_prefix(
    tables: Seq<QueryTable>,
    count: int,
    vs: Seq<Fields>,
    ws: Seq<Fields>,
    k: int,
    b: Seq<(Seq<char>, Value)>,
    c: Seq<(Seq<char>, Value)>,
)
    requires
        k <= vs.len(),
        k <= ws.len(),
        forall|i: int| 0 <= i < k ==> vs[i] == ws[i],
    ensures
        bindings_after(tables, vs, k, b) == bindings_after(tables, ws, k, b),
        all_columns_after(tables, count, vs, k, c) == all_columns_after(tables, count, ws, k, c),
    decreases k,
{
    if k > 0 {
        lemma_bound_prefix(tables, count, vs, ws, k - 1, b, c);
    }
}

/// `sc` is `outer` with one more scope that binds nothing but the joined
/// row `row` of the first `count` tables (see `row_bound`).
pub open spec fn joined_scope(tables: Seq<QueryTable>, count: int, row: Seq<Option<usize>>, outer: Seq<Scope>, sc: Seq<Scope>) -> bool {
    &&& sc.len() == outer.len() + 1
    &&& sc.drop_last() == outer
    &&& exists|s0: Scope| #[trigger] fresh_scope(s0) && row_bound(tables, count, row, s0, sc.last())
}

/// A marker, true of every argument, naming the fields a joined row bound
/// (see `crate::runtime::semantics::mark_run`).
pub open spec fn mark_bound_fields(vs: Seq<Fields>) -> bool {
    true
}

/// Binds, in the innermost scope, each of the first `count` tables under
/// its qualifier to its row (NULLs for a missing row), and each of their
/// columns under its own name, or marks the name ambiguous when several of
/// these tables have it.
pub fn bind_joined_row(tables: &Vec<QueryTable>, count: usize, row: &JoinedRow, env: &mut Environment)
    requires
        ready(*old(env)),
        count <= tables@.len(),
        row@.len() == count,
        forall|k: int|
            0 <= k < count ==> (#[trigger] row@[k] matches Some(j) ==> j < tables@[k].rows@.len()),
    ensures
        final(env).routines == old(env).routines,
        ready(*final(env)),
        final(env).scopes@.len() == old(env).scopes@.len(),
        final(env).cursors == old(env).cursors,
        final(env).triggers == old(env).triggers,
        final(env).steps == old(env).steps,
        final(env).scopes@.drop_last() == old(env).scopes@.drop_last(),
        final(env).scopes@.last().vars == old(env).scopes@.last().vars,
        forall|k: int|
            0 <= k < count ==> catalog_get(
                keyed(final(env).scopes@.last().query_bindings@),
                (#[trigger] tables@[k]).qualifier@,
            ) is Some,
        final(env).database == old(env).database,
        row_bound(tables@, count as int, row@, old(env).scopes@.last(), final(env).scopes@.last()),
{
    let mut k: usize = 0;
    let ghost s0 = old(env).scopes@.last();
    let ghost mut vs: Seq<Fields> = Seq::empty();
    while k < count
        invariant
            env.routines == old(env).routines,
            vs.len() == k,
            forall|x: int| 0 <= x < k ==> slot_fields(tables@[x], row@[x], #[trigger] vs[x]),
            env.database == old(env).database,
            env.scopes@.last().vars == s0.vars,
            keyed(env.scopes@.last().query_bindings@) == bindings_after(tables@, vs, k as int, keyed(s0.query_bindings@)),
            keyed(env.scopes@.last().query_columns@) == all_columns_after(
                tables@,
                count as int,
                vs,
                k as int,
                keyed(s0.query_columns@),
            ),
            env.scopes@.last().query_ambiguous@.map_values(|a: String| a@) == all_ambiguous_after(
                tables@,
                count as int,
                k as int,
                s0.query_ambiguous@.map_values(|a: String| a@),
            ),
            ready(*env),
            env.scopes@.len() == old(env).scopes@.len(),
            env.cursors == old(env).cursors,
            env.triggers == old(env).triggers,
            env.steps == old(env).steps,
            env.scopes@.drop_last() == old(env).scopes@.drop_last(),
            env.scopes@.last().vars == old(env).scopes@.last().vars,
            forall|x: int|
                0 <= x < k ==> catalog_get(keyed(env.scopes@.last().query_bindings@), (#[trigger] tables@[x]).qualifier@)
                    is Some,
            k <= count,
            count <= tables@.len(),
            row@.len() == count,
            forall|i: int|
                0 <= i < count ==> (#[trigger] row@[i] matches Some(j) ==> j < tables@[i].rows@.len()),
        decreases count - k,
    {
        let t = &tables[k];
        let values: Fields = match row[k] {
            Some(j) => t.rows[j].values.clone(),
            None => Row::blank_from_schema(t.columns.as_slice()).values,
        };
        assert(slot_fields(tables@[k as int], row@[k as int], values));
        let ghost cols_start = keyed(env.scopes@.last().query_columns@);
        let ghost amb_start = env.scopes@.last().query_ambiguous@.map_values(|a: String| a@);
        let ghost nvs = vs.push(values);
        proof {
            assert forall|x: int| 0 <= x < k + 1 implies slot_fields(tables@[x], row@[x], #[trigger] nvs[x]) by {
                if x < k {
                    assert(nvs[x] == vs[x]);
                }
            }
            assert(nvs.subrange(0, k as int) =~= vs);
        }
        let ghost before = keyed(env.scopes@.last().query_bindings@);
        proof {
            assert(env.scopes@[env.scopes@.len() - 1].wf());
        }
        env.bind_query_binding(t.qualifier.clone(), Value::Record(values.clone()));
        proof {
            assert forall|x: int| 0 <= x < k + 1 implies catalog_get(
                keyed(env.scopes@.last().query_bindings@),
                (#[trigger] tables@[x]).qualifier@,
            ) is Some by {
                lemma_catalog_set(before, t.qualifier@, Value::Record(values), tables@[x].qualifier@);
            }
        }
        let ghost bound = env.scopes@.last().query_bindings;
        let mut c: usize = 0;
        while c < t.columns.len()
            invariant
                env.routines == old(env).routines,
            env.routines == old(env).routines,
                *t == tables@[k as int],
                env.database == old(env).database,
                env.scopes@.last().vars == s0.vars,
                keyed(env.scopes@.last().query_columns@) == columns_after(
                    tables@,
                    count as int,
                    t.columns@,
                    values,
                    c as int,
                    cols_start,
                ),
                env.scopes@.last().query_ambiguous@.map_values(|a: String| a@) == ambiguous_after(
                    tables@,
                    count as int,
                    t.columns@,
                    c as int,
                    amb_start,
                ),
                ready(*env),
                env.scopes@.len() == old(env).scopes@.len(),
                env.cursors == old(env).cursors,
                env.triggers == old(env).triggers,
                env.steps == old(env).steps,
                env.scopes@.drop_last() == old(env).scopes@.drop_last(),
                env.scopes@.last().vars == old(env).scopes@.last().vars,
                env.scopes@.last().query_bindings == bound,
                c <= t.columns@.len(),
                k < count,
                count <= tables@.len(),
            decreases t.columns@.len() - c,
        {
            let name = &t.columns[c].name;
            let value = match fields_get(&values, name.as_str()) {
                Some(v) => v.clone(),
                None => Value::Null,
            };
            assert(value == column_value(values, name@));
            let ghost amb_before = env.scopes@.last().query_ambiguous@;
            if column_count(tables, count, name) == 1 {
                env.bind_query_column(name.clone(), value);
            } else {
                env.mark_query_ambiguous(name.clone());
                proof {
                    assert(env.scopes@.last().query_ambiguous@.map_values(|a: String| a@) =~= amb_before.map_values(
                        |a: String| a@,
                    ).push(name@));
                }
            }
            c += 1;
        }
        proof {
            lemma_bound_prefix(tables@, count as int, vs, nvs, k as int, keyed(s0.query_bindings@), keyed(s0.query_columns@));
            vs = nvs;
        }
        k += 1;
    }
    proof {
        assert(mark_bound_fields(vs));
    }
}

/// Evaluates `cond` (a query condition) with the joined row bound in a
/// scope of its own.
fn joined_row_matches(
    tables: &Vec<QueryTable>,
    count: usize,
    row: &JoinedRow,
    cond: &Expr,
    env: &mut Environment,
    depth: u32,
) -> (r: Result<bool, EvalError>)
    requires
        ready(*old(env)),
        count <= tables@.len(),
        row@.len() == count,
        forall|k: int|
            0 <= k < count ==> (#[trigger] row@[k] matches Some(j) ==> j < tables@[k].rows@.len()),
    ensures
        kept(*old(env), *final(env)),
        pure_expr(*cond) && depth > expr_height(*cond) + 2 ==> exists|sc: Seq<Scope>|
            #[trigger] condition_outcome(*cond, sc, query_prefix(), r) && sc.len() == old(env).scopes@.len() + 1
                && sc.drop_last() == old(env).scopes@ && joined_scope(tables@, count as int, row@, old(env).scopes@, sc),
        pure_expr(*cond) && depth > expr_height(*cond) + 2 ==> final(env).scopes@ == old(env).scopes@,
    decreases depth,
{
    let d = deeper(depth)?;
    env.push_scope();
    let ghost s0 = env.scopes@.last();
    let ghost pushed = env.scopes@;
    assert(pushed.drop_last() =~= old(env).scopes@);
    bind_joined_row(tables, count, row, env);
    let ghost sc = env.scopes@;
    assert(fresh_scope(s0));
    assert(row_bound(tables@, count as int, row@, s0, sc.last()));
    assert(sc.drop_last() == old(env).scopes@);
    assert(joined_scope(tables@, count as int, row@, old(env).scopes@, sc));
    let r = evaluate_condition(cond, env, d, "condition must be BOOLEAN, got ");
    assert(pure_expr(*cond) && depth > expr_height(*cond) + 2 ==> condition_outcome(*cond, sc, query_prefix(), r));
    env.pop_scope();
    r
}

/// The values of the select list for a joined row (or `None` when the
/// `WHERE` condition does not hold), with the row bound in a scope of its
/// own.
fn select_from_row(
    tables: &Vec<QueryTable>,
    row: &JoinedRow,
    query: &CursorQuery,
    env: &mut Environment,
    depth: u32,
) -> (r: Result<Option<Vec<Value>>, EvalError>)
    requires
        ready(*old(env)),
        row@.len() == tables@.len(),
        forall|k: int|
            0 <= k < tables@.len() ==> (#[trigger] row@[k] matches Some(j) ==> j < tables@[k].rows@.len()),
    ensures
        kept(*old(env), *final(env)),
        r matches Ok(Some(values)) ==> values@.len() == query.select_list@.len(),
        query.where_clause is None ==> (r matches Ok(o) ==> o is Some),
        depth > 1 && filter_pure(query.where_clause, query.select_list@, depth - 1) ==> exists|sc: Seq<Scope>|
            #[trigger] filtered_outcome(query.where_clause, query_prefix(), query.select_list@, sc, view_rows(r))
                && sc.len() == old(env).scopes@.len() + 1 && sc.drop_last() == old(env).scopes@ && joined_scope(
                tables@,
                tables@.len() as int,
                row@,
                old(env).scopes@,
                sc,
            ),
        depth > 1 && filter_pure(query.where_clause, query.select_list@, depth - 1) ==> final(env).scopes@
            == old(env).scopes@ && final(env).cursors.scopes@ == old(env).cursors.scopes@ && final(env).steps
            == old(env).steps,
    decreases depth,
{
    let d = deeper(depth)?;
    env.push_scope();
    let ghost s0 = env.scopes@.last();
    let ghost pushed = env.scopes@;
    assert(pushed.drop_last() =~= old(env).scopes@);
    bind_joined_row(tables, tables.len(), row, env);
    let ghost sc = env.scopes@;
    assert(fresh_scope(s0));
    assert(row_bound(tables@, tables@.len() as int, row@, s0, sc.last()));
    assert(joined_scope(tables@, tables@.len() as int, row@, old(env).scopes@, sc));
    let r = select_in_scope(query, env, d);
    assert(depth > 1 && filter_pure(query.where_clause, query.select_list@, depth - 1) ==> filtered_outcome(
        query.where_clause,
        query_prefix(),
        query.select_list@,
        sc,
        view_rows(r),
    ));
    env.pop_scope();
    r
}

/// The `WHERE` test and select list, evaluated in the current scope.
fn select_in_scope(query: &CursorQuery, env: &mut Environment, depth: u32) -> (r: Result<
    Option<Vec<Value>>,
    EvalError,
>)
    requires
        ready(*old(env)),
    ensures
        kept(*old(env), *final(env)),
        r matches Ok(Some(values)) ==> values@.len() == query.select_list@.len(),
        query.where_clause is None ==> (r matches Ok(o) ==> o is Some),
        depth > 0 && filter_pure(query.where_clause, query.select_list@, depth as int) ==> *final(env) == *old(env)
            && filtered_outcome(query.where_clause, query_prefix(), query.select_list@, old(env).scopes@, view_rows(r)),
    decreases depth,
{
    let d = deeper(depth)?;
    let ghost pure = filter_pure(query.where_clause, query.select_list@, depth as int);
    match &query.where_clause {
        Some(w) => {
            if !evaluate_condition(w, env, d, "condition must be BOOLEAN, got ")? {
                return Ok(None);
            }
        },
        None => {},
    }
    let mut values: Vec<Value> = Vec::new();
    let mut i: usize = 0;
    while i < query.select_list.len()
        invariant
            ready(*env),
            kept(*old(env), *env),
            d < depth,
            d == depth - 1,
            i <= query.select_list@.len(),
            values@.len() == i,
            pure == filter_pure(query.where_clause, query.select_list@, depth as int),
            pure ==> *env == *old(env),
            pure ==> crate::runtime::exec::filter_passes(query.where_clause, old(env).scopes@, query_prefix()),
            pure ==> forall|k: int|
                0 <= k < i ==> pure_outcome(#[trigger] query.select_list@[k], old(env).scopes@, succeeded(values@[k])),
        decreases query.select_list@.len() - i,
    {
        let v = match eval_at(&query.select_list[i], env, d) {
            Ok(v) => v,
            Err(e) => {
                assert(pure ==> pure_outcome(query.select_list@[i as int], old(env).scopes@, Err(e)));
                return Err(e);
            },
        };
        let ghost before = values@;
        values.push(v);
        proof {
            if pure {
                assert forall|k: int| 0 <= k < i + 1 implies pure_outcome(
                    #[trigger] query.select_list@[k],
                    old(env).scopes@,
                    succeeded(values@[k]),
                ) by {
                    if k < i {
                        assert(values@[k] == before[k]);
                    }
                }
            }
        }
        i += 1;
    }
    Ok(Some(values))
}

/// The message prefix of a non-boolean join or `WHERE` condition of a query.
pub open spec fn query_prefix() -> Seq<char> {
    "condition must be BOOLEAN, got "@
}

/// The values of a row result, as a sequence.
pub open spec fn view_rows(r: Result<Option<Vec<Value>>, EvalError>) -> Result<Option<Seq<Value>>, EvalError> {
    match r {
        Ok(Some(v)) => Ok(Some(v@)),
        Ok(None) => Ok(None),
        Err(e) => Err(e),
    }
}

/// `t` is the table named by `src` in the tables `db`: qualified by the
/// alias or the name, with that table's columns and rows.
pub open spec fn loaded(t: QueryTable, src: QuerySource, db: Seq<(Seq<char>, TableView)>) -> bool {
    &&& catalog_get(db, src.table@) matches Some(tv) && t.columns@ == tv.columns && t.rows.deep_view() == tv.rows
    &&& t.qualifier@ == match src.alias {
        Some(a) => a@,
        None => src.table@,
    }
}

/// The table named by `source`, qualified by its alias or name; refused
/// when the table does not exist or an earlier table has the same qualifier.
fn load_table(source: &QuerySource, earlier: &Vec<QueryTable>, env: &Environment) -> (r: Result<
    QueryTable,
    EvalError,
>)
    ensures
        r matches Ok(t) ==> (catalog_get(env.database.visible(), source.table@) matches Some(tv) && t.rows@.len()
            == tv.rows.len()),
        r matches Ok(t) ==> loaded(t, *source, env.database.visible()),
        earlier@.len() == 0 && catalog_get(env.database.visible(), source.table@) is Some ==> r is Ok,
{
    let table = match env.database.table(source.table.as_str()) {
        Some(t) => t,
        None => {
            return Err(EvalError::TableNotFound(source.table.clone()));
        },
    };
    let qualifier = match &source.alias {
        Some(a) => a.clone(),
        None => source.table.clone(),
    };
    let mut k: usize = 0;
    while k < earlier.len()
        invariant
            k <= earlier@.len(),
        decreases earlier@.len() - k,
    {
        if str_equal(earlier[k].qualifier.as_str(), qualifier.as_str()) {
            return Err(EvalError::QueryQualifierAlreadyDeclared(qualifier));
        }
        k += 1;
    }
    Ok(QueryTable { qualifier, columns: table.columns, rows: table.rows })
}

/// The tables of a query, in order (the `FROM` table, then each joined
/// one).
fn load_tables(query: &CursorQuery, env: &Environment) -> (r: Result<Vec<QueryTable>, EvalError>)
    ensures
        r matches Ok(tables) ==> tables@.len() == query.joins@.len() + 1 && (catalog_get(
            env.database.visible(),
            query.from.table@,
        ) matches Some(tv) && tables@[0].rows@.len() == tv.rows.len()),
        r matches Ok(tables) ==> loaded(tables@[0], query.from, env.database.visible()) && forall|i: int|
            0 <= i < query.joins@.len() ==> loaded(#[trigger] tables@[i + 1], query.joins@[i].source, env.database.visible()),
        query.joins@.len() == 0 && catalog_get(env.database.visible(), query.from.table@) is Some ==> r is Ok,
{
    let mut tables: Vec<QueryTable> = Vec::new();
    let first = load_table(&query.from, &tables, env)?;
    tables.push(first);
    let mut i: usize = 0;
    while i < query.joins.len()
        invariant
            i <= query.joins@.len(),
            tables@.len() == i + 1,
            catalog_get(env.database.visible(), query.from.table@) matches Some(tv) && tables@[0].rows@.len()
                == tv.rows.len(),
            loaded(tables@[0], query.from, env.database.visible()),
            forall|x: int| 0 <= x < i ==> loaded(#[trigger] tables@[x + 1], query.joins@[x].source, env.database.visible()),
        decreases query.joins@.len() - i,
    {
        let t = load_table(&query.joins[i].source, &tables, env)?;
        let ghost before = tables@;
        tables.push(t);
        proof {
            assert forall|x: int| 0 <= x < i + 1 implies loaded(#[trigger] tables@[x + 1], query.joins@[x].source, env.database.visible()) by {
                if x < i {
                    assert(tables@[x + 1] == before[x + 1]);
                }
            }
        }
        i += 1;
    }
    Ok(tables)
}

/// A joined row as a sequence.
pub open spec fn joined_view(rows: Seq<JoinedRow>) -> Seq<Seq<Option<usize>>> {
    rows.map_values(|r: JoinedRow| r@)
}

/// A matrix of `ON` outcomes as sequences.
pub open spec fn matrix_view(m: Seq<Vec<bool>>) -> Seq<Seq<bool>> {
    m.map_values(|r: Vec<bool>| r@)
}

/// `m` has a row for each of `rows` left rows, each with `cols` entries.
pub open spec fn shaped(m: Seq<Seq<bool>>, rows: nat, cols: nat) -> bool {
    m.len() == rows && forall|i: int| 0 <= i < rows ==> (#[trigger] m[i]).len() == cols
}

/// Left row `i` matched some right row.
pub open spec fn left_hit(m: Seq<Seq<bool>>, i: int) -> bool {
    exists|j: int| 0 <= j < m[i].len() && #[trigger] m[i][j]
}

/// Right row `j` matched some left row.
pub open spec fn right_hit(m: Seq<Seq<bool>>, j: int) -> bool {
    exists|i: int| 0 <= i < m.len() && #[trigger] m[i][j]
}

/// `row` extended by each of the first `j` right rows that it matched, in
/// order.
pub open spec fn row_pairs(row: Seq<Option<usize>>, hits: Seq<bool>, j: nat) -> Seq<Seq<Option<usize>>>
    decreases j,
{
    if j == 0 {
        Seq::empty()
    } else {
        row_pairs(row, hits, (j - 1) as nat) + if hits[j - 1] {
            seq![row.push(Some((j - 1) as usize))]
        } else {
            Seq::empty()
        }
    }
}

/// The matching pairs of the first `i` left rows, left row by left row.
pub open spec fn matched_pairs(left: Seq<Seq<Option<usize>>>, m: Seq<Seq<bool>>, i: nat) -> Seq<
    Seq<Option<usize>>,
>
    decreases i,
{
    if i == 0 {
        Seq::empty()
    } else {
        matched_pairs(left, m, (i - 1) as nat) + row_pairs(left[i - 1], m[i - 1], m[i - 1].len())
    }
}

/// The first `i` left rows that matched nothing, each with no right row.
pub open spec fn unmatched_left(left: Seq<Seq<Option<usize>>>, m: Seq<Seq<bool>>, i: nat) -> Seq<
    Seq<Option<usize>>,
>
    decreases i,
{
    if i == 0 {
        Seq::empty()
    } else {
        unmatched_left(left, m, (i - 1) as nat) + if left_hit(m, i - 1) {
            Seq::empty()
        } else {
            seq![left[i - 1].push(None)]
        }
    }
}

/// The first `j` right rows that matched nothing, each with no row from
/// the `width` tables on the left.
pub open spec fn unmatched_right(m: Seq<Seq<bool>>, width: nat, j: nat) -> Seq<Seq<Option<usize>>>
    decreases j,
{
    if j == 0 {
        Seq::empty()
    } else {
        unmatched_right(m, width, (j - 1) as nat) + if right_hit(m, j - 1) {
            Seq::empty()
        } else {
            seq![Seq::new(width, |k: int| None::<usize>).push(Some((j - 1) as usize))]
        }
    }
}

/// The rows of a join of `left` with `count` right rows, given which pairs
/// satisfy the `ON` condition: the matching pairs; then, for `LEFT` and
/// `OUTER`, the unmatched left rows; then, for `RIGHT` and `OUTER`, the
/// unmatched right rows.
pub open spec fn join_result(
    left: Seq<Seq<Option<usize>>>,
    m: Seq<Seq<bool>>,
    count: nat,
    width: nat,
    kind: JoinKind,
) -> Seq<Seq<Option<usize>>> {
    matched_pairs(left, m, left.len()) + (if kind == JoinKind::Left || kind == JoinKind::Outer {
        unmatched_left(left, m, left.len())
    } else {
        Seq::empty()
    }) + (if kind == JoinKind::Right || kind == JoinKind::Outer {
        unmatched_right(m, width, count)
    } else {
        Seq::empty()
    })
}

/// Some entry of `hits` is true.
pub fn any_hit(hits: &Vec<bool>) -> (r: bool)
    ensures
        r == exists|j: int| 0 <= j < hits@.len() && #[trigger] hits@[j],
{
    let mut j: usize = 0;
    while j < hits.len()
        invariant
            j <= hits@.len(),
            forall|k: int| 0 <= k < j ==> !#[trigger] hits@[k],
        decreases hits@.len() - j,
    {
        if hits[j] {
            return true;
        }
        j += 1;
    }
    false
}

/// Some row of `m` has a true entry in column `j`.
pub fn column_hit(m: &Vec<Vec<bool>>, j: usize) -> (r: bool)
    requires
        forall|i: int| 0 <= i < m@.len() ==> j < (#[trigger] m@[i])@.len(),
    ensures
        r == right_hit(matrix_view(m@), j as int),
{
    let ghost mv = matrix_view(m@);
    let mut i: usize = 0;
    while i < m.len()
        invariant
            i <= m@.len(),
            mv == matrix_view(m@),
            forall|a: int| 0 <= a < m@.len() ==> j < (#[trigger] m@[a])@.len(),
            forall|a: int| 0 <= a < i ==> !#[trigger] mv[a][j as int],
        decreases m@.len() - i,
    {
        if m[i][j] {
            assert(mv[i as int][j as int]);
            return true;
        }
        i += 1;
    }
    false
}

/// The joined row made of `width` missing rows and right row `j`.
fn right_only(width: usize, j: usize) -> (r: JoinedRow)
    ensures
        r@ == Seq::new(width as nat, |k: int| None::<usize>).push(Some(j)),
{
    let mut row: JoinedRow = Vec::new();
    let mut k: usize = 0;
    while k < width
        invariant
            k <= width,
            row@ == Seq::new(k as nat, |x: int| None::<usize>),
        decreases width - k,
    {
        row.push(None);
        k += 1;
    }
    row.push(Some(j));
    row
}

/// The rows of the join of `left_rows` (rows over `width` tables) with
/// `count` right rows, where `hits[i][j]` says whether left row `i` and
/// right row `j` satisfy the `ON` condition.
pub fn combine_join(left_rows: &Vec<JoinedRow>, width: usize, count: usize, kind: JoinKind, hits: &Vec<Vec<bool>>) -> (r:
    Vec<JoinedRow>)
    requires
        shaped(matrix_view(hits@), left_rows@.len(), count as nat),
    ensures
        joined_view(r@) == join_result(joined_view(left_rows@), matrix_view(hits@), count as nat, width as nat, kind),
{
    let ghost left = joined_view(left_rows@);
    let ghost m = matrix_view(hits@);
    let mut out: Vec<JoinedRow> = Vec::new();
    let mut i: usize = 0;
    while i < left_rows.len()
        invariant
            left == joined_view(left_rows@),
            m == matrix_view(hits@),
            shaped(m, left_rows@.len(), count as nat),
            i <= left_rows@.len(),
            joined_view(out@) == matched_pairs(left, m, i as nat),
        decreases left_rows@.len() - i,
    {
        let row_hits = &hits[i];
        assert(row_hits@ == m[i as int]);
        let mut j: usize = 0;
        while j < count
            invariant
                left == joined_view(left_rows@),
                m == matrix_view(hits@),
                shaped(m, left_rows@.len(), count as nat),
                i < left_rows@.len(),
                row_hits@ == m[i as int],
                j <= count,
                joined_view(out@) == matched_pairs(left, m, i as nat) + row_pairs(left[i as int], m[i as int], j as nat),
            decreases count - j,
        {
            if row_hits[j] {
                let mut candidate = clone_joined(&left_rows[i]);
                candidate.push(Some(j));
                let ghost before = out@;
                out.push(candidate);
                proof {
                    assert(joined_view(out@) =~= joined_view(before).push(left[i as int].push(Some(j))));
                }
            }
            proof {
                let a = matched_pairs(left, m, i as nat);
                let b = row_pairs(left[i as int], m[i as int], j as nat);
                assert(row_pairs(left[i as int], m[i as int], (j + 1) as nat) == b + if m[i as int][j as int] {
                    seq![left[i as int].push(Some(j))]
                } else {
                    Seq::empty()
                });
                assert(a + b + if m[i as int][j as int] {
                    seq![left[i as int].push(Some(j))]
                } else {
                    Seq::empty()
                } =~= a + (b + if m[i as int][j as int] {
                    seq![left[i as int].push(Some(j))]
                } else {
                    Seq::empty()
                }));
                if !m[i as int][j as int] {
                    assert(a + b + Seq::<Seq<Option<usize>>>::empty() =~= a + b);
                }
            }
            j += 1;
        }
        i += 1;
    }
    let ghost pairs = joined_view(out@);
    if kind == JoinKind::Left || kind == JoinKind::Outer {
        let mut i: usize = 0;
        while i < left_rows.len()
            invariant
                left == joined_view(left_rows@),
                m == matrix_view(hits@),
                shaped(m, left_rows@.len(), count as nat),
                i <= left_rows@.len(),
                joined_view(out@) == pairs + unmatched_left(left, m, i as nat),
            decreases left_rows@.len() - i,
        {
            let row_hits = &hits[i];
            assert(row_hits@ == m[i as int]);
            let hit = any_hit(row_hits);
            let ghost before = out@;
            if !hit {
                let mut row = clone_joined(&left_rows[i]);
                row.push(None);
                out.push(row);
                proof {
                    assert(joined_view(out@) =~= joined_view(before).push(left[i as int].push(None)));
                }
            }
            proof {
                assert(hit == left_hit(m, i as int));
                let u = unmatched_left(left, m, i as nat);
                if hit {
                    assert(u + Seq::<Seq<Option<usize>>>::empty() =~= u);
                } else {
                    assert(pairs + u + seq![left[i as int].push(None)] =~= pairs + (u + seq![
                        left[i as int].push(None),
                    ]));
                }
            }
            i += 1;
        }
    } else {
        assert(pairs + Seq::<Seq<Option<usize>>>::empty() =~= pairs);
    }
    let ghost with_left = joined_view(out@);
    if kind == JoinKind::Right || kind == JoinKind::Outer {
        assert forall|a: int| 0 <= a < hits@.len() implies (#[trigger] hits@[a])@.len() == count by {
            assert(hits@[a]@ == m[a]);
        }
        let mut j: usize = 0;
        while j < count
            invariant
                forall|a: int| 0 <= a < hits@.len() ==> (#[trigger] hits@[a])@.len() == count,
                m == matrix_view(hits@),
                shaped(m, left_rows@.len(), count as nat),
                j <= count,
                joined_view(out@) == with_left + unmatched_right(m, width as nat, j as nat),
            decreases count - j,
        {
            let hit = column_hit(hits, j);
            let ghost before = out@;
            if !hit {
                let row = right_only(width, j);
                out.push(row);
                proof {
                    assert(joined_view(out@) =~= joined_view(before).push(
                        Seq::new(width as nat, |k: int| None::<usize>).push(Some(j)),
                    ));
                }
            }
            proof {
                let u = unmatched_right(m, width as nat, j as nat);
                if hit {
                    assert(u + Seq::<Seq<Option<usize>>>::empty() =~= u);
                } else {
                    let x = Seq::new(width as nat, |k: int| None::<usize>).push(Some(j));
                    assert(with_left + u + seq![x] =~= with_left + (u + seq![x]));
                }
            }
            j += 1;
        }
    } else {
        assert(with_left + Seq::<Seq<Option<usize>>>::empty() =~= with_left);
    }
    out
}

/// Every row of a join result over `rows_point_into` left rows points into
/// the tables, the right table being table `width`.
proof fn lemma_join_points_into(
    left_rows: Seq<JoinedRow>,
    tables: Seq<QueryTable>,
    width: nat,
    m: Seq<Seq<bool>>,
    kind: JoinKind,
    out: Seq<JoinedRow>,
)
    requires
        width < tables.len(),
        rows_point_into(left_rows, tables, width as int),
        shaped(m, left_rows.len(), tables[width as int].rows@.len()),
        joined_view(out) == join_result(joined_view(left_rows), m, tables[width as int].rows@.len(), width, kind),
    ensures
        rows_point_into(out, tables, (width + 1) as int),
{
    let left = joined_view(left_rows);
    let n = tables[width as int].rows@.len();
    let good = |x: Seq<Option<usize>>|
        x.len() == width + 1 && forall|k: int|
            0 <= k < width + 1 ==> (#[trigger] x[k] matches Some(j) ==> j < tables[k].rows@.len());
    assert forall|i: int| 0 <= i < left.len() implies #[trigger] good(left[i].push(None)) by {
        assert(left[i] == left_rows[i]@);
        assert forall|k: int| 0 <= k < width + 1 implies (#[trigger] left[i].push(None)[k] matches Some(j)
            ==> j < tables[k].rows@.len()) by {
            if k < width {
                assert(left[i].push(None)[k] == left_rows[i]@[k]);
            }
        }
    }
    assert forall|i: int, j: int| 0 <= i < left.len() && 0 <= j < n implies #[trigger] good(
        left[i].push(Some(j as usize)),
    ) by {
        assert(left[i] == left_rows[i]@);
        assert forall|k: int| 0 <= k < width + 1 implies (#[trigger] left[i].push(Some(j as usize))[k] matches Some(
            x,
        ) ==> x < tables[k].rows@.len()) by {
            if k < width {
                assert(left[i].push(Some(j as usize))[k] == left_rows[i]@[k]);
            }
        }
    }
    lemma_matched_good(left, m, n, left.len(), good);
    lemma_unmatched_left_good(left, m, left.len(), good);
    lemma_unmatched_right_good(m, width, n, n, good, tables);
    let r = join_result(left, m, n, width, kind);
    assert forall|a: int| 0 <= a < r.len() implies #[trigger] good(r[a]) by {
        let p = matched_pairs(left, m, left.len());
        let ul = if kind == JoinKind::Left || kind == JoinKind::Outer {
            unmatched_left(left, m, left.len())
        } else {
            Seq::empty()
        };
        if a < p.len() {
            assert(r[a] == p[a]);
        } else if a < p.len() + ul.len() {
            assert(r[a] == ul[a - p.len()]);
        } else {
            assert(r[a] == (if kind == JoinKind::Right || kind == JoinKind::Outer {
                unmatched_right(m, width, n)
            } else {
                Seq::empty()
            })[a - p.len() - ul.len()]);
        }
    }
    assert forall|a: int| 0 <= a < out.len() implies (#[trigger] out[a])@.len() == width + 1 && forall|k: int|
        0 <= k < width + 1 ==> (#[trigger] out[a]@[k] matches Some(j) ==> j < tables[k].rows@.len()) by {
        assert(joined_view(out)[a] == out[a]@);
        assert(good(r[a]));
    }
}

proof fn lemma_row_pairs_good(
    left: Seq<Seq<Option<usize>>>,
    i: int,
    hits: Seq<bool>,
    n: nat,
    j: nat,
    good: spec_fn(Seq<Option<usize>>) -> bool,
)
    requires
        0 <= i < left.len(),
        j <= n,
        forall|a: int, b: int| 0 <= a < left.len() && 0 <= b < n ==> #[trigger] good(left[a].push(Some(b as usize))),
    ensures
        forall|x: int| 0 <= x < row_pairs(left[i], hits, j).len() ==> #[trigger] good(row_pairs(left[i], hits, j)[x]),
    decreases j,
{
    if j > 0 {
        lemma_row_pairs_good(left, i, hits, n, (j - 1) as nat, good);
        let prev = row_pairs(left[i], hits, (j - 1) as nat);
        let cur = row_pairs(left[i], hits, j);
        assert forall|x: int| 0 <= x < cur.len() implies #[trigger] good(cur[x]) by {
            if x < prev.len() {
                assert(cur[x] == prev[x]);
            } else {
                assert(cur[x] == left[i].push(Some((j - 1) as usize)));
                assert(good(left[i].push(Some(((j - 1) as int) as usize))));
            }
        }
    }
}

proof fn lemma_matched_good(
    left: Seq<Seq<Option<usize>>>,
    m: Seq<Seq<bool>>,
    n: nat,
    i: nat,
    good: spec_fn(Seq<Option<usize>>) -> bool,
)
    requires
        i <= left.len(),
        shaped(m, left.len(), n),
        forall|a: int, b: int| 0 <= a < left.len() && 0 <= b < n ==> #[trigger] good(left[a].push(Some(b as usize))),
    ensures
        forall|x: int| 0 <= x < matched_pairs(left, m, i).len() ==> #[trigger] good(matched_pairs(left, m, i)[x]),
    decreases i,
{
    if i > 0 {
        lemma_matched_good(left, m, n, (i - 1) as nat, good);
        let k = i - 1;
        lemma_row_pairs_good(left, k, m[k], n, m[k].len(), good);
        let prev = matched_pairs(left, m, (i - 1) as nat);
        let rp = row_pairs(left[k], m[k], m[k].len());
        let cur = matched_pairs(left, m, i);
        assert forall|x: int| 0 <= x < cur.len() implies #[trigger] good(cur[x]) by {
            if x < prev.len() {
                assert(cur[x] == prev[x]);
            } else {
                assert(cur[x] == rp[x - prev.len()]);
            }
        }
    }
}

proof fn lemma_unmatched_left_good(
    left: Seq<Seq<Option<usize>>>,
    m: Seq<Seq<bool>>,
    i: nat,
    good: spec_fn(Seq<Option<usize>>) -> bool,
)
    requires
        i <= left.len(),
        forall|a: int| 0 <= a < left.len() ==> #[trigger] good(left[a].push(None)),
    ensures
        forall|x: int| 0 <= x < unmatched_left(left, m, i).len() ==> #[trigger] good(unmatched_left(left, m, i)[x]),
    decreases i,
{
    if i > 0 {
        lemma_unmatched_left_good(left, m, (i - 1) as nat, good);
        let prev = unmatched_left(left, m, (i - 1) as nat);
        let cur = unmatched_left(left, m, i);
        assert forall|x: int| 0 <= x < cur.len() implies #[trigger] good(cur[x]) by {
            if x < prev.len() {
                assert(cur[x] == prev[x]);
            } else {
                assert(good(left[i - 1].push(None)));
            }
        }
    }
}

proof fn lemma_unmatched_right_good(
    m: Seq<Seq<bool>>,
    width: nat,
    n: nat,
    j: nat,
    good: spec_fn(Seq<Option<usize>>) -> bool,
    tables: Seq<QueryTable>,
)
    requires
        j <= n,
        width < tables.len(),
        n == tables[width as int].rows@.len(),
        good == (|x: Seq<Option<usize>>|
            x.len() == width + 1 && forall|k: int|
                0 <= k < width + 1 ==> (#[trigger] x[k] matches Some(j) ==> j < tables[k].rows@.len())),
    ensures
        forall|x: int| 0 <= x < unmatched_right(m, width, j).len() ==> #[trigger] good(unmatched_right(m, width, j)[x]),
    decreases j,
{
    if j > 0 {
        lemma_unmatched_right_good(m, width, n, (j - 1) as nat, good, tables);
        let prev = unmatched_right(m, width, (j - 1) as nat);
        let cur = unmatched_right(m, width, j);
        assert forall|x: int| 0 <= x < cur.len() implies #[trigger] good(cur[x]) by {
            if x < prev.len() {
                assert(cur[x] == prev[x]);
            } else {
                let row = Seq::new(width, |k: int| None::<usize>).push(Some((j - 1) as usize));
                assert(cur[x] == row);
                assert forall|k: int| 0 <= k < width + 1 implies (#[trigger] row[k] matches Some(y) ==> y
                    < tables[k].rows@.len()) by {
                    if k < width {
                        assert(row[k] is None);
                    }
                }
            }
        }
    }
}

/// Testing `on` on the left joined row `left` extended with the `j`-th row
/// of the next table gives `b`, with the row bound in a scope of its own
/// over `scopes`.
pub open spec fn on_at(
    tables: Seq<QueryTable>,
    count: int,
    left: Seq<Option<usize>>,
    j: int,
    on: Expr,
    scopes: Seq<Scope>,
    b: bool,
) -> bool {
    exists|sc: Seq<Scope>|
        #[trigger] joined_scope(tables, count + 1, left.push(Some(j as usize)), scopes, sc) && condition_outcome(
            on,
            sc,
            query_prefix(),
            Ok(b),
        )
}

/// Each entry `m[i][j]` is what `on` gives on the `i`-th left row and the
/// `j`-th row of the next table.
pub open spec fn on_matrix(
    tables: Seq<QueryTable>,
    count: int,
    left: Seq<JoinedRow>,
    on: Expr,
    scopes: Seq<Scope>,
    m: Seq<Seq<bool>>,
) -> bool {
    forall|i: int, j: int|
        0 <= i < left.len() && 0 <= j < tables[count].rows@.len() ==> #[trigger] on_at(
            tables,
            count,
            left[i]@,
            j,
            on,
            scopes,
            m[i][j],
        )
}

/// Joins the rows built so far (over the first `count` tables) with table
/// `count`: the `ON` condition is evaluated for every pair, left row by
/// left row, and the rows are then combined as `combine_join` states.
fn apply_join(
    left_rows: &Vec<JoinedRow>,
    tables: &Vec<QueryTable>,
    count: usize,
    join: &JoinClause,
    env: &mut Environment,
    depth: u32,
) -> (r: Result<Vec<JoinedRow>, EvalError>)
    requires
        ready(*old(env)),
        count < tables@.len(),
        rows_point_into(left_rows@, tables@, count as int),
    ensures
        kept(*old(env), *final(env)),
        r matches Ok(rows) ==> rows_point_into(rows@, tables@, count + 1),
        depth > 1 && pure_expr(join.on) && depth - 1 > expr_height(join.on) + 2 ==> (r matches Err(x) ==> exists|
            sc: Seq<Scope>,
        |
            #[trigger] condition_outcome(join.on, sc, query_prefix(), Err(x)) && sc.drop_last() == old(env).scopes@),
        r matches Ok(rows) ==> exists|m: Seq<Seq<bool>>|
            shaped(m, left_rows@.len(), tables@[count as int].rows@.len()) && joined_view(rows@) == join_result(
                joined_view(left_rows@),
                m,
                tables@[count as int].rows@.len(),
                count as nat,
                join.kind,
            ) && (depth > 1 && pure_expr(join.on) && depth - 1 > expr_height(join.on) + 2 ==> on_matrix(
                tables@,
                count as int,
                left_rows@,
                join.on,
                old(env).scopes@,
                m,
            )),
    decreases depth,
{
    let d = deeper(depth)?;
    let n = tables.len();
    let right = &tables[count];
    let mut hits: Vec<Vec<bool>> = Vec::new();
    let mut i: usize = 0;
    while i < left_rows.len()
        invariant
            ready(*env),
            kept(*old(env), *env),
            d < depth,
            n == tables@.len(),
            count < tables@.len(),
            *right == tables@[count as int],
            i <= left_rows@.len(),
            rows_point_into(left_rows@, tables@, count as int),
            shaped(matrix_view(hits@), i as nat, right.rows@.len()),
            pure_expr(join.on) && d > expr_height(join.on) + 2 ==> env.scopes@ == old(env).scopes@,
            d == depth - 1,
            pure_expr(join.on) && d > expr_height(join.on) + 2 ==> forall|a: int, b: int|
                0 <= a < i && 0 <= b < right.rows@.len() ==> #[trigger] on_at(
                    tables@,
                    count as int,
                    left_rows@[a]@,
                    b,
                    join.on,
                    old(env).scopes@,
                    matrix_view(hits@)[a][b],
                ),
        decreases left_rows@.len() - i,
    {
        let mut row_hits: Vec<bool> = Vec::new();
        let mut j: usize = 0;
        while j < right.rows.len()
            invariant
                ready(*env),
                kept(*old(env), *env),
                d < depth,
                n == tables@.len(),
                count < tables@.len(),
                *right == tables@[count as int],
                i < left_rows@.len(),
                j <= right.rows@.len(),
                row_hits@.len() == j,
                rows_point_into(left_rows@, tables@, count as int),
                pure_expr(join.on) && d > expr_height(join.on) + 2 ==> env.scopes@ == old(env).scopes@,
                d == depth - 1,
                pure_expr(join.on) && d > expr_height(join.on) + 2 ==> forall|a: int, b: int|
                    0 <= a < i && 0 <= b < right.rows@.len() ==> #[trigger] on_at(
                        tables@,
                        count as int,
                        left_rows@[a]@,
                        b,
                        join.on,
                        old(env).scopes@,
                        matrix_view(hits@)[a][b],
                    ),
                pure_expr(join.on) && d > expr_height(join.on) + 2 ==> forall|b: int|
                    0 <= b < j ==> #[trigger] on_at(
                        tables@,
                        count as int,
                        left_rows@[i as int]@,
                        b,
                        join.on,
                        old(env).scopes@,
                        row_hits@[b],
                    ),
            decreases right.rows@.len() - j,
        {
            let mut candidate = clone_joined(&left_rows[i]);
            candidate.push(Some(j));
            proof {
                assert(left_rows@[i as int]@.len() == count);
                assert forall|k: int|
                    0 <= k < count + 1 implies (#[trigger] candidate@[k] matches Some(x) ==> x
                    < tables@[k].rows@.len()) by {
                    if k < count {
                        assert(candidate@[k] == left_rows@[i as int]@[k]);
                    }
                }
            }
            let res = joined_row_matches(tables, count + 1, &candidate, &join.on, env, d);
            let hit = match res {
                Ok(h) => h,
                Err(e) => {
                    return Err(e);
                },
            };
            proof {
                if pure_expr(join.on) && d > expr_height(join.on) + 2 {
                    assert(candidate@ =~= left_rows@[i as int]@.push(Some(j)));
                    let sc = choose|sc: Seq<Scope>|
                        #[trigger] condition_outcome(join.on, sc, query_prefix(), res) && sc.len() == old(env).scopes@.len()
                            + 1 && sc.drop_last() == old(env).scopes@ && joined_scope(
                            tables@,
                            (count + 1) as int,
                            candidate@,
                            old(env).scopes@,
                            sc,
                        );
                    assert(joined_scope(tables@, count as int + 1, left_rows@[i as int]@.push(Some((j as int) as usize)), old(env).scopes@, sc));
                    assert(on_at(tables@, count as int, left_rows@[i as int]@, j as int, join.on, old(env).scopes@, hit));
                }
            }
            let ghost hits_before = row_hits@;
            row_hits.push(hit);
            proof {
                if pure_expr(join.on) && d > expr_height(join.on) + 2 {
                    assert forall|b: int| 0 <= b < j + 1 implies #[trigger] on_at(
                        tables@,
                        count as int,
                        left_rows@[i as int]@,
                        b,
                        join.on,
                        old(env).scopes@,
                        row_hits@[b],
                    ) by {
                        if b < j {
                            assert(row_hits@[b] == hits_before[b]);
                        }
                    }
                }
            }
            j += 1;
        }
        let ghost before = hits@;
        hits.push(row_hits);
        proof {
            assert forall|a: int| 0 <= a < i + 1 implies (#[trigger] matrix_view(hits@)[a]).len()
                == right.rows@.len() by {
                assert(matrix_view(hits@)[a] == hits@[a]@);
                if a < i {
                    assert(hits@[a] == before[a]);
                    assert(matrix_view(before)[a] == before[a]@);
                }
            }
            if pure_expr(join.on) && d > expr_height(join.on) + 2 {
                assert forall|a: int, b: int| 0 <= a < i + 1 && 0 <= b < right.rows@.len() implies #[trigger] on_at(
                    tables@,
                    count as int,
                    left_rows@[a]@,
                    b,
                    join.on,
                    old(env).scopes@,
                    matrix_view(hits@)[a][b],
                ) by {
                    assert(matrix_view(hits@)[a] == hits@[a]@);
                    if a < i {
                        assert(hits@[a] == before[a]);
                        assert(matrix_view(before)[a] == before[a]@);
                    }
                }
            }
        }
        i += 1;
    }
    let out = combine_join(left_rows, count, right.rows.len(), join.kind, &hits);
    proof {
        lemma_join_points_into(left_rows@, tables@, count as nat, matrix_view(hits@), join.kind, out@);
    }
    Ok(out)
}

/// A copy of a joined row.
fn clone_joined(row: &JoinedRow) -> (r: JoinedRow)
    ensures
        r@ == row@,
{
    let mut out: JoinedRow = Vec::new();
    let mut i: usize = 0;
    while i < row.len()
        invariant
            i <= row@.len(),
            out@ == row@.take(i as int),
        decreases row@.len() - i,
    {
        out.push(row[i]);
        proof {
            assert(row@.take(i + 1) =~= row@.take(i as int).push(row@[i as int]));
        }
        i += 1;
    }
    assert(row@.take(row@.len() as int) =~= row@);
    out
}

/// Testing the `WHERE` condition of `query` and evaluating its select list
/// on the joined row `row` of `tables`, bound in a scope of its own over
/// `scopes`, gives `o` (`None` when the condition does not hold).
pub open spec fn row_selected(
    tables: Seq<QueryTable>,
    row: Seq<Option<usize>>,
    query: CursorQuery,
    scopes: Seq<Scope>,
    o: Option<Seq<Value>>,
) -> bool {
    exists|sc: Seq<Scope>|
        #[trigger] joined_scope(tables, tables.len() as int, row, scopes, sc) && filtered_outcome(
            query.where_clause,
            query_prefix(),
            query.select_list@,
            sc,
            Ok(o),
        )
}

/// The values of the rows that passed, in order.
pub open spec fn kept_values(os: Seq<Option<Seq<Value>>>) -> Seq<Seq<Value>>
    decreases os.len(),
{
    if os.len() == 0 {
        Seq::empty()
    } else {
        kept_values(os.drop_last()) + match os.last() {
            Some(v) => seq![v],
            None => Seq::empty(),
        }
    }
}

/// The joined rows of a query on one table with `n` rows: each row alone.
pub open spec fn single_rows(n: int) -> Seq<Seq<Option<usize>>> {
    Seq::new(n as nat, |j: int| seq![Some(j as usize)])
}

/// The first of the joined rows `rows` of `tables`, as many as `os` holds,
/// gave `os` for `query`.
pub open spec fn selections(
    tables: Seq<QueryTable>,
    rows: Seq<Seq<Option<usize>>>,
    query: CursorQuery,
    scopes: Seq<Scope>,
    os: Seq<Option<Seq<Value>>>,
) -> bool {
    &&& os.len() <= rows.len()
    &&& forall|k: int| 0 <= k < os.len() ==> #[trigger] row_selected(tables, rows[k], query, scopes, os[k])
}

/// What a query over the joined rows `rows` of `tables` gives: the select
/// list's values of each row that passes the `WHERE` test, in order; or the
/// error of the first row whose test or select list fails.
pub open spec fn query_outcome(
    tables: Seq<QueryTable>,
    rows: Seq<Seq<Option<usize>>>,
    query: CursorQuery,
    scopes: Seq<Scope>,
    r: Result<Vec<Vec<Value>>, EvalError>,
) -> bool {
    match r {
        Ok(out) => exists|os: Seq<Option<Seq<Value>>>|
            #[trigger] selections(tables, rows, query, scopes, os) && os.len() == rows.len() && out@.map_values(
                |v: Vec<Value>| v@,
            ) == kept_values(os),
        Err(x) => exists|os: Seq<Option<Seq<Value>>>|
            #[trigger] selections(tables, rows, query, scopes, os) && os.len() < rows.len() && exists|sc: Seq<Scope>|
                #[trigger] joined_scope(tables, tables.len() as int, rows[os.len() as int], scopes, sc)
                    && filtered_outcome(query.where_clause, query_prefix(), query.select_list@, sc, Err(x)),
    }
}

/// The values of an optional row, by their view.
pub open spec fn values_of(o: Option<Vec<Value>>) -> Option<Seq<Value>> {
    match o {
        Some(v) => Some(v@),
        None => None,
    }
}

/// A marker, true of every argument, naming the tables a query loaded
/// (see `crate::runtime::semantics::mark_run`).
pub open spec fn mark_tables_loaded(tables: Seq<QueryTable>) -> bool {
    true
}

/// The rows of a query: the `FROM` table's rows joined in turn with each
/// joined table, kept where the `WHERE` condition holds, each given as the
/// values of the select list.
pub fn materialize_query(query: &CursorQuery, env: &mut Environment, depth: u32) -> (r: Result<
    Vec<Vec<Value>>,
    EvalError,
>)
    requires
        ready(*old(env)),
    ensures
        kept(*old(env), *final(env)),
        r matches Ok(rows) ==> forall|i: int|
            0 <= i < rows@.len() ==> (#[trigger] rows@[i])@.len() == query.select_list@.len(),
        query.joins@.len() == 0 && query.where_clause is None ==> (r matches Ok(rows) ==> (catalog_get(
            old(env).database.visible(),
            query.from.table@,
        ) matches Some(t) && rows@.len() == t.rows.len())),
        depth > 0 && query.joins@.len() == 0 ==> (catalog_get(old(env).database.visible(), query.from.table@) matches Some(
            t,
        ) ==> (t.rows.len() == 0 ==> (r matches Ok(rows) && rows@.len() == 0))),
        depth > 2 && query.joins@.len() == 0 && filter_pure(query.where_clause, query.select_list@, depth - 2)
            && catalog_get(old(env).database.visible(), query.from.table@) is Some ==> exists|tables: Seq<QueryTable>|
            #[trigger] mark_tables_loaded(tables) && tables.len() == 1 && loaded(
                tables[0],
                query.from,
                old(env).database.visible(),
            ) && query_outcome(tables, single_rows(tables[0].rows@.len() as int), *query, old(env).scopes@, r),
        depth > 2 && query.joins@.len() == 0 && filter_pure(query.where_clause, query.select_list@, depth - 2)
            && catalog_get(old(env).database.visible(), query.from.table@) is Some
            ==> final(env).scopes@ == old(env).scopes@ && final(env).cursors.scopes@ == old(env).cursors.scopes@
            && final(env).steps == old(env).steps,
    decreases depth,
{
    let d = deeper(depth)?;
    let ghost plain = depth > 2 && query.joins@.len() == 0 && filter_pure(
        query.where_clause,
        query.select_list@,
        depth - 2,
    ) && catalog_get(old(env).database.visible(), query.from.table@) is Some;
    let tables = load_tables(query, env)?;
    assert(mark_tables_loaded(tables@));
    let mut rows: Vec<JoinedRow> = Vec::new();
    let mut j: usize = 0;
    while j < tables[0].rows.len()
        invariant
            tables@.len() == query.joins@.len() + 1,
            j <= tables@[0].rows@.len(),
            rows_point_into(rows@, tables@, 1),
            rows@.len() == j,
            catalog_get(old(env).database.visible(), query.from.table@) matches Some(tv) && tables@[0].rows@.len()
                == tv.rows.len(),
            forall|a: int| 0 <= a < j ==> (#[trigger] rows@[a])@ == seq![Some(a as usize)],
        decreases tables@[0].rows@.len() - j,
    {
        let ghost before = rows@;
        rows.push(vec![Some(j)]);
        proof {
            assert forall|a: int| 0 <= a < j + 1 implies (#[trigger] rows@[a])@ == seq![Some(a as usize)] by {
                if a < j {
                    assert(rows@[a] == before[a]);
                }
            }
            assert forall|a: int| 0 <= a < rows@.len() implies (#[trigger] rows@[a])@.len() == 1 && forall|k: int|
                0 <= k < 1 ==> (#[trigger] rows@[a]@[k] matches Some(x) ==> x < tables@[k].rows@.len()) by {
                if a < before.len() {
                    assert(rows@[a] == before[a]);
                }
            }
        }
        j += 1;
    }
    let mut i: usize = 0;
    while i < query.joins.len()
        invariant
            ready(*env),
            kept(*old(env), *env),
            d < depth,
            tables@.len() == query.joins@.len() + 1,
            i <= query.joins@.len(),
            rows_point_into(rows@, tables@, i + 1),
            query.joins@.len() == 0 ==> rows@.len() == tables@[0].rows@.len(),
            query.joins@.len() == 0 ==> forall|a: int| 0 <= a < rows@.len() ==> (#[trigger] rows@[a])@ == seq![Some(a as usize)],
            catalog_get(old(env).database.visible(), query.from.table@) matches Some(tv) && tables@[0].rows@.len()
                == tv.rows.len(),
            *env == *old(env) || query.joins@.len() > 0,
        decreases query.joins@.len() - i,
    {
        rows = apply_join(&rows, &tables, i + 1, &query.joins[i], env, d)?;
        i += 1;
    }
    let mut results: Vec<Vec<Value>> = Vec::new();
    let mut k: usize = 0;
    let ghost mut os: Seq<Option<Seq<Value>>> = Seq::empty();
    let ghost jrows = joined_view(rows@);
    proof {
        if plain {
            assert(jrows =~= single_rows(tables@[0].rows@.len() as int));
        }
    }
    while k < rows.len()
        invariant
            plain == (depth > 2 && query.joins@.len() == 0 && filter_pure(
                query.where_clause,
                query.select_list@,
                depth - 2,
            ) && catalog_get(old(env).database.visible(), query.from.table@) is Some),
            jrows == joined_view(rows@),
            d == depth - 1,
            plain ==> jrows == single_rows(tables@[0].rows@.len() as int) && tables@.len() == 1 && loaded(
                tables@[0],
                query.from,
                old(env).database.visible(),
            ) && mark_tables_loaded(tables@),
            plain ==> env.cursors.scopes@ == old(env).cursors.scopes@ && env.steps == old(env).steps,
            plain ==> env.scopes@ == old(env).scopes@ && os.len() == k && selections(
                tables@,
                jrows,
                *query,
                old(env).scopes@,
                os,
            ) && results@.map_values(|v: Vec<Value>| v@) == kept_values(os),
            ready(*env),
            kept(*old(env), *env),
            d < depth,
            tables@.len() == query.joins@.len() + 1,
            k <= rows@.len(),
            rows_point_into(rows@, tables@, tables@.len() as int),
            rows@.len() == 0 ==> results@.len() == 0,
            query.joins@.len() == 0 && query.where_clause is None ==> results@.len() == k,
            query.joins@.len() == 0 ==> rows@.len() == tables@[0].rows@.len(),
            catalog_get(old(env).database.visible(), query.from.table@) matches Some(tv) && tables@[0].rows@.len()
                == tv.rows.len(),
            forall|x: int|
                0 <= x < results@.len() ==> (#[trigger] results@[x])@.len() == query.select_list@.len(),
        decreases rows@.len() - k,
    {
        let sel = select_from_row(&tables, &rows[k], query, env, d);
        proof {
            if plain {
                assert(jrows[k as int] == rows@[k as int]@);
            }
        }
        let picked = match sel {
            Ok(o) => o,
            Err(e) => {
                proof {
                    if plain {
                        let sc = choose|sc: Seq<Scope>|
                            #[trigger] filtered_outcome(query.where_clause, query_prefix(), query.select_list@, sc, view_rows(sel))
                                && sc.len() == old(env).scopes@.len() + 1 && sc.drop_last() == old(env).scopes@
                                && joined_scope(tables@, tables@.len() as int, rows@[k as int]@, old(env).scopes@, sc);
                        assert(joined_scope(tables@, tables@.len() as int, jrows[os.len() as int], old(env).scopes@, sc));
                        assert(selections(tables@, jrows, *query, old(env).scopes@, os));
                    }
                }
                return Err(e);
            },
        };
        let ghost o_k = values_of(picked);
        proof {
            if plain {
                let sc = choose|sc: Seq<Scope>|
                    #[trigger] filtered_outcome(query.where_clause, query_prefix(), query.select_list@, sc, view_rows(sel))
                        && sc.len() == old(env).scopes@.len() + 1 && sc.drop_last() == old(env).scopes@ && joined_scope(
                        tables@,
                        tables@.len() as int,
                        rows@[k as int]@,
                        old(env).scopes@,
                        sc,
                    );
                assert(view_rows(sel) == Ok::<Option<Seq<Value>>, EvalError>(o_k));
                assert(row_selected(tables@, jrows[k as int], *query, old(env).scopes@, o_k));
            }
        }
        let ghost results_before = results@;
        match picked {
            Some(values) => {
                let ghost before = results@;
                results.push(values);
                proof {
                    assert forall|x: int| 0 <= x < results@.len() implies (#[trigger] results@[x])@.len()
                        == query.select_list@.len() by {
                        if x < before.len() {
                            assert(results@[x] == before[x]);
                        }
                    }
                }
            },
            None => {},
        }
        proof {
            if plain {
                let nos = os.push(o_k);
                assert(nos.drop_last() =~= os);
                assert(results@.map_values(|v: Vec<Value>| v@) =~= kept_values(nos));
                assert forall|x: int| 0 <= x < nos.len() implies #[trigger] row_selected(
                    tables@,
                    jrows[x],
                    *query,
                    old(env).scopes@,
                    nos[x],
                ) by {
                    if x < k {
                        assert(nos[x] == os[x]);
                    }
                }
                os = nos;
            }
        }
        k += 1;
    }
    proof {
        if plain {
            assert(selections(tables@, jrows, *query, old(env).scopes@, os));
        }
    }
    Ok(results)
}

} // verus!
