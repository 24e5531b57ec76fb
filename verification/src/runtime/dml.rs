use vstd::prelude::*;

use std::rc::Rc;

use crate::ast::{
    share, CursorQuery, DeleteStatement, Expr, InsertStatement, SelectIntoTarget, Statement, TriggerDeclaration,
    TriggerEvent, TriggerTiming, UpdateAssignment, UpdateStatement, AlterTableAction,
};
use crate::cursors::{clone_values, CursorInstance};
use crate::db::catalog::{catalog_get, catalog_set, lemma_catalog_set};
use crate::runtime::names::keyed;
use crate::db::database::{fresh_table, has_constraint, same_except};
use crate::db::error::DbError;
use crate::db::row::{Row, RowView};
use crate::db::row::{column_names, entries_insert_all, Column};
use crate::db::table::{clone_strings, first_unknown, has_column_spec, lemma_first_unknown, Table, TableView};
use crate::triggers::matching_in;
use crate::expr::eval::{concat2, EvalError};
use crate::expr::fields::{
    entries_get, entries_keys, field_entries, fields_entry, fields_get, fields_insert, fields_len, Fields,
};
use crate::expr::number::Number;
use crate::expr::value::{type_name_spec, type_of, Value};
use crate::runtime::env::{
    assign_refused, assign_target, dot_index, expects_message, get_spec, head_of, lemma_dot_index, owner_type, path_stored, tail_of, var_stored,
    Environment, Scope,
};
use crate::runtime::exec::{
    deeper, eval_at, evaluate_condition, execute_block_in_scope, execute_statements, expr_height, kept, loop_done,
    loop_step, pure_expr, pure_outcome, ready, succeeded, take_step, condition_outcome, filter_passes,
    filter_pure, block_entry, only_exceptions, ExecFlow,
};
use crate::runtime::query::{loaded, materialize_query, query_outcome, single_rows, mark_tables_loaded, QueryTable};
use crate::runtime::semantics::{quiet_block, block_sem, mark_cursor_opened, fresh_scope, mark_opened, popped, fetched, cursor_iter, cursor_sem, fetch_matches, mark_fetches, mark_run, set_all, set_chain, set_in};

verus! {

/// The error of the interpreter for an error of the database.
pub fn map_db_error(err: DbError) -> (r: EvalError)
    ensures
        match err {
            DbError::TableNotFound(t) => r == EvalError::TableNotFound(t),
            DbError::ColumnNotFound { table, column } => r == EvalError::ColumnNotFound { table, column },
            DbError::ColumnCountMismatch { expected, found } => r == EvalError::ColumnCountMismatch {
                expected,
                found,
            },
            DbError::ConstraintAlreadyExists { table, constraint } => r
                == EvalError::ConstraintAlreadyExists { table, constraint },
        },
{
    match err {
        DbError::TableNotFound(t) => EvalError::TableNotFound(t),
        DbError::ColumnNotFound { table, column } => EvalError::ColumnNotFound { table, column },
        DbError::ColumnCountMismatch { expected, found } => EvalError::ColumnCountMismatch { expected, found },
        DbError::ConstraintAlreadyExists { table, constraint } => EvalError::ConstraintAlreadyExists {
            table,
            constraint,
        },
    }
}

/// A row count as a value.
pub fn count_value(n: usize) -> (r: Result<Value, EvalError>)
    ensures
        r matches Ok(v) ==> (v matches Value::Number(x) && x.denotes(n as int, 1)),
        r is Err ==> r == Err::<Value, EvalError>(EvalError::NumericOverflow) && n > i64::MAX,
{
    if n as u64 > i64::MAX as u64 {
        return Err(EvalError::NumericOverflow);
    }
    Ok(Value::Number(Number::from_int(n as i64)))
}

/// The value is the number 1.
pub open spec fn is_one(v: Value) -> bool {
    v matches Value::Number(x) && x.denotes(1, 1)
}

/// The value 1, the result of a statement that changed one thing.
pub fn one() -> (r: Value)
    ensures
        is_one(r),
{
    Value::Number(Number::from_int(1))
}

/// The value a data statement's flow `r` carries.
pub open spec fn flow_value(r: Result<ExecFlow, EvalError>) -> Result<Value, EvalError> {
    match r {
        Ok(ExecFlow::Value(v)) => Ok(v),
        Ok(_) => Ok(Value::Null),
        Err(x) => Err(x),
    }
}

/// Whether a flow `r` succeeded, and else its error.
pub open spec fn flow_unit(r: Result<ExecFlow, EvalError>) -> Result<(), EvalError> {
    match r {
        Ok(_) => Ok(()),
        Err(x) => Err(x),
    }
}

/// What the data statement `stmt` gives with the nesting budget `d`, from
/// `before` to `after`, as far as the statement's own function states it:
/// an `UPDATE`, `DELETE` or `INSERT` of a table without row triggers and
/// with pure expressions; a `SELECT INTO`, an `OPEN` and a cursor `FOR`
/// whose query reads one table with pure expressions.
pub open spec fn data_outcome(
    stmt: Statement,
    d: int,
    before: Environment,
    after: Environment,
    r: Result<ExecFlow, EvalError>,
) -> bool {
    match stmt {
        Statement::Update(u) => {
            &&& r matches Ok(f) ==> f is Value
            &&& d > 3 && filter_pure(u.where_clause, assigned_values(u), d - 3) && no_row_triggers(
                before,
                u.table@,
                TriggerEvent::Update,
            ) ==> (catalog_get(before.database.visible(), u.table@) matches Some(t) ==> (first_unknown(
                t.columns,
                assigned_columns(u),
            ) < 0 ==> update_outcome(
                u,
                t,
                before.scopes@,
                before.database.visible(),
                after.database.visible(),
                flow_value(r),
            )))
        },
        Statement::Delete(dl) => {
            &&& r matches Ok(f) ==> f is Value
            &&& d > 3 && filter_pure(dl.where_clause, Seq::empty(), d - 2) && no_row_triggers(
                before,
                dl.table@,
                TriggerEvent::Delete,
            ) ==> (catalog_get(before.database.visible(), dl.table@) matches Some(t) ==> delete_outcome(
                dl,
                t,
                before.scopes@,
                before.database.visible(),
                after.database.visible(),
                flow_value(r),
            ))
        },
        Statement::Insert(s) => {
            &&& r matches Ok(f) ==> f is Value
            &&& d > 2 && all_pure(s.values@, d - 2) && no_row_triggers(before, s.table@, TriggerEvent::Insert) ==> (
            catalog_get(before.database.visible(), s.table@) matches Some(t) ==> {
                &&& r matches Err(x) ==> after == before && insert_refusal(s, t, before.scopes@, x)
                &&& (forall|x: EvalError| !#[trigger] insert_refusal(s, t, before.scopes@, x)) ==> (r matches Ok(
                    ExecFlow::Value(v),
                ) && is_one(v))
            })
        },
        Statement::SelectInto(si) => {
            &&& r matches Ok(f) ==> f is Value
            &&& d > 4 && si.query.joins@.len() == 0 && filter_pure(
                si.query.where_clause,
                si.query.select_list@,
                d - 4,
            ) && catalog_get(before.database.visible(), si.query.from.table@) is Some ==> exists|
                tables: Seq<QueryTable>,
                q: Result<Vec<Vec<Value>>, EvalError>,
            |
                #![trigger mark_tables_loaded(tables), query_outcome(tables, single_rows(tables[0].rows@.len() as int), si.query, before.scopes@, q)]
                mark_tables_loaded(tables) && tables.len() == 1 && loaded(tables[0], si.query.from, before.database.visible())
                    && query_outcome(tables, single_rows(tables[0].rows@.len() as int), si.query, before.scopes@, q)
                    && into_outcome(q, si.targets@, before.scopes@, after.scopes@, flow_value(r))
        },
        Statement::FetchCursor { name, targets } => {
            &&& r matches Ok(f) ==> f is Value
            &&& d > 0 ==> (before.cursors.instance(name@) matches Some(inst) ==> fetch_outcome(
                inst,
                targets@,
                before.scopes@,
                after.scopes@,
                flow_value(r),
            ))
        },
        Statement::OpenCursor { name } => before.cursors.declared_query(name@) matches Some(q) ==> (plain_query(
            *q,
            d - 2,
            before.database.visible(),
        ) && before.cursors.instance(name@) is None ==> exists|
            tables: Seq<QueryTable>,
            qr: Result<Vec<Vec<Value>>, EvalError>,
        |
            #![trigger mark_tables_loaded(tables), query_outcome(tables, single_rows(tables[0].rows@.len() as int), *q, before.scopes@, qr)]
            mark_tables_loaded(tables) && tables.len() == 1 && loaded(tables[0], q.from, before.database.visible())
                && query_outcome(tables, single_rows(tables[0].rows@.len() as int), *q, before.scopes@, qr)
                && opened_with(qr, name@, before, after, flow_unit(r))),
        Statement::CursorFor { targets, cursor, body } => before.cursors.declared_query(cursor@) matches Some(q) ==> (
        plain_query(*q, d - 3, before.database.visible()) && before.cursors.instance(cursor@) is None ==> exists|
            tables: Seq<QueryTable>,
            qr: Result<Vec<Vec<Value>>, EvalError>,
        |
            #![trigger mark_tables_loaded(tables), query_outcome(tables, single_rows(tables[0].rows@.len() as int), *q, before.scopes@, qr)]
            mark_tables_loaded(tables) && tables.len() == 1 && loaded(tables[0], q.from, before.database.visible())
                && query_outcome(tables, single_rows(tables[0].rows@.len() as int), *q, before.scopes@, qr)
                && cursor_for_outcome(
                qr,
                targets@,
                cursor@,
                body@,
                d - 2,
                before.scopes@,
                before.steps,
                after.scopes@,
                after.steps,
                r,
            )),
        _ => true,
    }
}

/// Runs a cursor, query, data-change or table-definition statement.
pub fn execute_data_statement(stmt: &Statement, env: &mut Environment, depth: u32) -> (r: Result<
    ExecFlow,
    EvalError,
>)
    requires
        ready(*old(env)),
    ensures
        kept(*old(env), *final(env)),
        data_outcome(*stmt, depth as int, *old(env), *final(env), r),
        depth > 0 ==> (*stmt matches Statement::CreateTable(s) ==> {
            &&& r matches Ok(ExecFlow::Value(v)) && is_one(v)
            &&& catalog_get(final(env).database.visible(), s.table@) matches Some(t) && fresh_table(
                t,
                s.columns@.map_values(|c: String| c@),
            )
            &&& same_except(old(env).database.visible(), final(env).database.visible(), s.table@)
        }),
        depth > 0 ==> (*stmt matches Statement::DropTable(s) ==> {
            &&& catalog_get(old(env).database.visible(), s.table@) is None ==> (r matches Err(
                EvalError::TableNotFound(n),
            ) && n@ == s.table@)
            &&& catalog_get(old(env).database.visible(), s.table@) is Some ==> {
                &&& r matches Ok(ExecFlow::Value(v)) && is_one(v)
                &&& catalog_get(final(env).database.visible(), s.table@) is None
                &&& same_except(old(env).database.visible(), final(env).database.visible(), s.table@)
            }
        }),
        depth > 0 ==> (*stmt matches Statement::CloseCursor { name } ==> {
            &&& old(env).cursors.instance(name@) is None ==> (r matches Err(EvalError::CursorNotOpen(n))
                && n@ == name@)
            &&& old(env).cursors.instance(name@) is Some ==> (r matches Ok(ExecFlow::NoValue) && final(env).cursors.instance(name@) is None)
        }),
        depth > 1 ==> (*stmt matches Statement::OpenCursor { name } ==> (old(env).cursors.declared_query(
            name@,
        ) is None ==> (r matches Err(EvalError::CursorNotDeclared(n)) && n@ == name@))),
        depth > 0 ==> (*stmt matches Statement::FetchCursor { name, targets } ==> (old(env).cursors.instance(name@) is None ==> (r matches Err(EvalError::CursorNotOpen(n)) && n@
            == name@))),
        depth > 0 ==> (*stmt matches Statement::CursorFor { targets, cursor, body } ==> (r is Ok
            ==> final(env).cursors.instance(cursor@) is None)),
        depth > 0 ==> (*stmt matches Statement::AlterTable(s) ==> (s.action matches AlterTableAction::AddConstraint {
            name,
            columns,
        } ==> match catalog_get(old(env).database.visible(), s.table@) {
            None => r matches Err(EvalError::TableNotFound(n)) && n@ == s.table@,
            Some(t) => if has_constraint(t, name@) {
                r matches Err(EvalError::ConstraintAlreadyExists { table, constraint }) && table@ == s.table@
                    && constraint@ == name@
            } else if first_unknown(t.columns, columns@.map_values(|c: String| c@)) >= 0 {
                r matches Err(EvalError::ColumnNotFound { table, column }) && table@ == s.table@ && column@
                    == columns@[first_unknown(t.columns, columns@.map_values(|c: String| c@))]@
            } else {
                &&& r matches Ok(ExecFlow::Value(v)) && is_one(v)
                &&& catalog_get(final(env).database.visible(), s.table@) == Some(
                    TableView { constraints: t.constraints.push((name@, columns.deep_view())), ..t },
                )
                &&& same_except(old(env).database.visible(), final(env).database.visible(), s.table@)
            },
        })),
    decreases depth,
{
    let d = deeper(depth)?;
    match stmt {
        Statement::OpenCursor { name } => {
            open_cursor(name.as_str(), env, d)?;
            Ok(ExecFlow::NoValue)
        },
        Statement::FetchCursor { name, targets } => Ok(ExecFlow::Value(fetch_cursor(name.as_str(), targets, env)?)),
        Statement::CloseCursor { name } => {
            env.cursors.close(name.as_str())?;
            Ok(ExecFlow::NoValue)
        },
        Statement::CursorFor { targets, cursor, body } => cursor_for(targets, cursor.as_str(), body, env, d),
        Statement::SelectInto(s) => Ok(ExecFlow::Value(execute_select_into(s, env, d)?)),
        Statement::Insert(s) => Ok(ExecFlow::Value(execute_insert(s, env, d)?)),
        Statement::Update(s) => Ok(ExecFlow::Value(execute_update(s, env, d)?)),
        Statement::Delete(s) => Ok(ExecFlow::Value(execute_delete(s, env, d)?)),
        Statement::CreateTable(s) => {
            env.database.create_table(s.table.clone(), clone_strings(&s.columns));
            Ok(ExecFlow::Value(one()))
        },
        Statement::AlterTable(s) => {
            match &s.action {
                AlterTableAction::AddConstraint { name, columns } => {
                    match env.database.alter_table_add_constraint(
                        s.table.as_str(),
                        name.clone(),
                        clone_strings(columns),
                    ) {
                        Ok(()) => {},
                        Err(e) => {
                            return Err(map_db_error(e));
                        },
                    }
                },
            }
            Ok(ExecFlow::Value(one()))
        },
        Statement::DropTable(s) => {
            match env.database.drop_table(s.table.as_str()) {
                Ok(()) => {},
                Err(e) => {
                    return Err(map_db_error(e));
                },
            }
            Ok(ExecFlow::Value(one()))
        },
        _ => Ok(ExecFlow::NoValue),
    }
}

/// `OPEN c`: runs the cursor's query and opens the cursor on its rows.
fn open_cursor(name: &str, env: &mut Environment, depth: u32) -> (r: Result<(), EvalError>)
    requires
        ready(*old(env)),
    ensures
        kept(*old(env), *final(env)),
        depth > 0 && old(env).cursors.declared_query(name@) is None ==> (r matches Err(
            EvalError::CursorNotDeclared(n),
        ) && n@ == name@),
        r is Ok ==> (final(env).cursors.instance(name@) matches Some(i) && i.position == 0),
        old(env).cursors.declared_query(name@) matches Some(q) ==> (plain_query(*q, depth - 1, old(env).database.visible())
            && old(env).cursors.instance(name@) is None ==> exists|tables: Seq<QueryTable>, qr: Result<Vec<Vec<Value>>, EvalError>|
            #![trigger mark_tables_loaded(tables), query_outcome(tables, single_rows(tables[0].rows@.len() as int), *q, old(env).scopes@, qr)]
            mark_tables_loaded(tables) && tables.len() == 1 && loaded(tables[0], q.from, old(env).database.visible()) && query_outcome(
                tables,
                single_rows(tables[0].rows@.len() as int),
                *q,
                old(env).scopes@,
                qr,
            ) && opened_with(qr, name@, *old(env), *final(env), r)),
    decreases depth,
{
    let d = deeper(depth)?;
    let query = match env.cursors.query(name) {
        Some(q) => q,
        None => {
            return Err(EvalError::CursorNotDeclared(name.to_owned()));
        },
    };
    let qr = materialize_query(&query, env, d);
    let rows = match qr {
        Ok(rows) => rows,
        Err(e) => {
            return Err(e);
        },
    };
    env.cursors.open_rows(name, rows)
}

/// The query of a cursor has no join, is free of calls and `SYSDATE`, is
/// shallow enough for the nesting budget `d`, and reads an existing table.
pub open spec fn plain_query(q: CursorQuery, d: int, db: Seq<(Seq<char>, TableView)>) -> bool {
    &&& d > 2
    &&& q.joins@.len() == 0
    &&& filter_pure(q.where_clause, q.select_list@, d - 2)
    &&& catalog_get(db, q.from.table@) is Some
}

/// Opening the cursor `name` whose query gave `qr`, from `before` to
/// `after`: the query's error, or the cursor open on its rows from the
/// first, the scopes and steps as they were.
pub open spec fn opened_with(
    qr: Result<Vec<Vec<Value>>, EvalError>,
    name: Seq<char>,
    before: Environment,
    after: Environment,
    r: Result<(), EvalError>,
) -> bool {
    match qr {
        Err(x) => r == Err::<(), EvalError>(x),
        Ok(rows) => r is Ok && after.cursors.instance(name) == Some(CursorInstance { rows, position: 0 })
            && after.scopes@ == before.scopes@ && after.steps == before.steps,
    }
}

/// `after` is `before` once `value` was assigned to `name`, as `assign`
/// stores it.
pub open spec fn assign_step(before: Seq<Scope>, after: Seq<Scope>, name: Seq<char>, value: Value) -> bool {
    if dot_index(name) < 0 {
        !assign_refused(before, name, value) && var_stored(before, after, assign_target(before, name), name, value)
    } else {
        path_stored(before, after, head_of(name), tail_of(name), value)
    }
}

/// Each scope stack of `ss` follows from the one before it by assigning the
/// next of `values` to the next of `targets`.
pub open spec fn assign_chain(ss: Seq<Seq<Scope>>, targets: Seq<String>, values: Seq<Value>) -> bool {
    &&& ss.len() <= targets.len() + 1
    &&& forall|j: int|
        0 <= j < ss.len() - 1 ==> #[trigger] assign_step(ss[j], ss[j + 1], targets[j]@, values[j])
}

/// Assigning `values` to `targets` in order went through the scope stacks
/// `ss` from `before`: all of them, ending at `after`, when `r` is `Ok`;
/// else up to the target that failed, a plain one failing with a type error
/// when its variable's type refuses the value and leaving the scopes as
/// they were.
pub open spec fn assigned_through(
    ss: Seq<Seq<Scope>>,
    targets: Seq<String>,
    values: Seq<Value>,
    before: Seq<Scope>,
    after: Seq<Scope>,
    r: Result<(), EvalError>,
) -> bool {
    &&& ss.len() >= 1
    &&& ss[0] == before
    &&& assign_chain(ss, targets, values)
    &&& match r {
        Ok(()) => ss.len() == targets.len() + 1 && ss.last() == after,
        Err(x) => {
            let k = ss.len() - 1;
            &&& k < targets.len()
            &&& dot_index(targets[k]@) < 0 ==> {
                &&& assign_refused(ss.last(), targets[k]@, values[k])
                &&& x matches EvalError::TypeError(m) && m@ == expects_message(
                    targets[k]@,
                    owner_type(ss.last(), targets[k]@)->0,
                    values[k],
                )
                &&& after == ss.last()
            }
        },
    }
}

/// Assigns `values[i]` to `targets[i]`, in order.
fn assign_all(targets: &Vec<String>, values: &Vec<Value>, env: &mut Environment) -> (r: Result<(), EvalError>)
    requires
        ready(*old(env)),
        targets@.len() == values@.len(),
    ensures
        kept(*old(env), *final(env)),
        final(env).cursors == old(env).cursors,
        final(env).database == old(env).database,
        exists|ss: Seq<Seq<Scope>>| #[trigger] assigned_through(ss, targets@, values@, old(env).scopes@, final(env).scopes@, r),
{
    let mut i: usize = 0;
    let ghost mut ss: Seq<Seq<Scope>> = seq![old(env).scopes@];
    while i < targets.len()
        invariant
            ready(*env),
            kept(*old(env), *env),
            env.cursors == old(env).cursors,
            env.database == old(env).database,
            targets@.len() == values@.len(),
            i <= targets@.len(),
            ss.len() == i + 1,
            ss[0] == old(env).scopes@,
            ss.last() == env.scopes@,
            assign_chain(ss, targets@, values@),
        decreases targets@.len() - i,
    {
        let ghost before = env.scopes@;
        match env.assign(targets[i].as_str(), values[i].clone()) {
            Err(e) => {
                let r = Err(e);
                assert(assigned_through(ss, targets@, values@, old(env).scopes@, env.scopes@, r));
                return r;
            },
            Ok(()) => {},
        }
        proof {
            let ns = ss.push(env.scopes@);
            assert forall|j: int| 0 <= j < ns.len() - 1 implies #[trigger] assign_step(
                ns[j],
                ns[j + 1],
                targets@[j]@,
                values@[j],
            ) by {
                if j < i {
                    assert(ns[j] == ss[j] && ns[j + 1] == ss[j + 1]);
                }
            }
            ss = ns;
        }
        i += 1;
    }
    let r = Ok(());
    assert(assigned_through(ss, targets@, values@, old(env).scopes@, env.scopes@, r));
    r
}

/// `FETCH c INTO targets`: the next row is assigned to the targets (1), or,
/// once the rows are used up, the targets are set to NULL (0).
fn fetch_cursor(name: &str, targets: &Vec<String>, env: &mut Environment) -> (r: Result<Value, EvalError>)
    requires
        ready(*old(env)),
    ensures
        kept(*old(env), *final(env)),
        old(env).cursors.instance(name@) is None ==> (r matches Err(EvalError::CursorNotOpen(n)) && n@
            == name@),
        old(env).cursors.instance(name@) matches Some(inst) ==> fetch_outcome(
            inst,
            targets@,
            old(env).scopes@,
            final(env).scopes@,
            r,
        ),
{
    let ghost sc0 = env.scopes@;
    match env.cursors.next_row(name)? {
        Some(values) => {
            if values.len() != targets.len() {
                return Err(EvalError::ColumnCountMismatch { expected: targets.len(), found: values.len() });
            }
            let a = assign_all(targets, &values, env);
            let ghost sc1 = env.scopes@;
            proof {
                let ss = choose|ss: Seq<Seq<Scope>>| #[trigger] assigned_through(ss, targets@, values@, sc0, sc1, a);
                assert(assigned_through(ss, targets@, values@, sc0, sc1, a));
            }
            a?;
            Ok(one())
        },
        None => {
            let mut nulls: Vec<Value> = Vec::new();
            let mut i: usize = 0;
            while i < targets.len()
                invariant
                    i <= targets@.len(),
                    nulls@ == nulls_of(i as nat),
                decreases targets@.len() - i,
            {
                nulls.push(Value::Null);
                proof {
                    assert(nulls@ =~= nulls_of((i + 1) as nat));
                }
                i += 1;
            }
            let a = assign_all(targets, &nulls, env);
            a?;
            Ok(Value::Number(Number::from_int(0)))
        },
    }
}

/// `n` NULLs.
pub open spec fn nulls_of(n: nat) -> Seq<Value> {
    Seq::new(n, |k: int| Value::Null)
}

/// The result of `Err` or of `Ok` of anything.
pub open spec fn unit_of(r: Result<Value, EvalError>) -> Result<(), EvalError> {
    match r {
        Ok(_) => Ok(()),
        Err(x) => Err(x),
    }
}

/// What `FETCH c INTO targets` gives, the cursor's instance being `inst`:
/// the next row of the right width assigned to the targets in turn, giving
/// 1; a row of another width is an error; once the rows are used up the
/// targets are set to NULL, giving 0. An assignment that fails ends it with
/// its error.
pub open spec fn fetch_outcome(
    inst: CursorInstance,
    targets: Seq<String>,
    sc: Seq<Scope>,
    sc2: Seq<Scope>,
    r: Result<Value, EvalError>,
) -> bool {
    if inst.position < inst.rows@.len() {
        let row = inst.rows@[inst.position as int]@;
        if row.len() != targets.len() {
            r matches Err(EvalError::ColumnCountMismatch { expected, found }) && expected == targets.len() && found
                == row.len()
        } else {
            (r matches Ok(v) ==> is_one(v)) && exists|ss: Seq<Seq<Scope>>|
                #[trigger] assigned_through(ss, targets, row, sc, sc2, unit_of(r))
        }
    } else {
        (r matches Ok(v) ==> v matches Value::Number(x) && x.denotes(0, 1)) && exists|ss: Seq<Seq<Scope>>|
            #[trigger] assigned_through(ss, targets, nulls_of(targets.len()), sc, sc2, unit_of(r))
    }
}

/// `FOR targets IN c LOOP body END LOOP`: opens the cursor, runs the body
/// once per row with the targets bound to the row in a scope of their own
/// (each iteration takes a step), and closes the cursor however the loop
/// ends.
fn cursor_for(
    targets: &Vec<String>,
    name: &str,
    body: &Vec<Statement>,
    env: &mut Environment,
    depth: u32,
) -> (r: Result<ExecFlow, EvalError>)
    requires
        ready(*old(env)),
    ensures
        kept(*old(env), *final(env)),
        r is Ok ==> final(env).cursors.instance(name@) is None,
        depth > 1 && old(env).cursors.declared_query(name@) is None ==> (r matches Err(
            EvalError::CursorNotDeclared(n),
        ) && n@ == name@),
        r is Ok ==> exists|ns: Scope, sc3: Seq<Scope>, st2: u64, inst: CursorInstance, so: Seq<Scope>, sto: u64|
            #![trigger mark_opened(ns, sc3), mark_cursor_opened(inst, so, sto, st2)]
            fresh_scope(ns) && inst.position == 0 && cursor_sem(
                targets@,
                name@,
                body@,
                depth - 1,
                Some(inst),
                so.push(ns),
                sto,
                sc3,
                st2,
                r,
            ) && final(env).scopes@ == popped(sc3),
        old(env).cursors.declared_query(name@) matches Some(q) ==> (plain_query(*q, depth - 2, old(env).database.visible())
            && old(env).cursors.instance(name@) is None ==> exists|tables: Seq<QueryTable>, qr: Result<Vec<Vec<Value>>, EvalError>|
            #![trigger mark_tables_loaded(tables), query_outcome(tables, single_rows(tables[0].rows@.len() as int), *q, old(env).scopes@, qr)]
            mark_tables_loaded(tables) && tables.len() == 1 && loaded(tables[0], q.from, old(env).database.visible()) && query_outcome(
                tables,
                single_rows(tables[0].rows@.len() as int),
                *q,
                old(env).scopes@,
                qr,
            ) && cursor_for_outcome(
                qr,
                targets@,
                name@,
                body@,
                depth - 1,
                old(env).scopes@,
                old(env).steps,
                final(env).scopes@,
                final(env).steps,
                r,
            )),
    decreases depth,
{
    let d = deeper(depth)?;
    open_cursor(name, env, d)?;
    let ghost so = env.scopes@;
    let ghost sto = env.steps;
    let ghost inst = env.cursors.instance(name@)->0;
    let ghost before_c = env.cursors.scopes@;
    env.push_scope();
    let ghost pushed = env.scopes@;
    proof {
        assert(pushed =~= so.push(pushed.last()));
        let cs = env.cursors.scopes@;
        assert(keyed(cs.last().declarations@) =~= Seq::empty());
        assert(catalog_get(keyed(cs.last().declarations@), name@) is None);
        assert(cs.drop_last() =~= before_c);
        assert(crate::cursors::cursor_owner(cs, name@) == crate::cursors::cursor_owner(before_c, name@));
        crate::cursors::lemma_cursor_owner(before_c, name@);
        let o = crate::cursors::cursor_owner(before_c, name@);
        if o >= 0 {
            assert(cs[o] == before_c[o]);
        }
    }
    assert(env.cursors.instance(name@) == Some(inst));
    let r = cursor_rows(targets, name, body, env, d);
    let ghost inner = env.scopes@;
    let ghost st2 = env.steps;
    env.pop_scope();
    let _ = env.cursors.close(name);
    proof {
        assert(mark_opened(pushed.last(), inner));
        assert(mark_cursor_opened(inst, so, sto, st2));
    }
    r
}

/// What a cursor `FOR` gives once its cursor's query gave `qr`: the query's
/// error, or the loop over the rows (see `cursor_sem`) in a scope of its own.
pub open spec fn cursor_for_outcome(
    qr: Result<Vec<Vec<Value>>, EvalError>,
    targets: Seq<String>,
    name: Seq<char>,
    body: Seq<Statement>,
    d: int,
    sc: Seq<Scope>,
    st: u64,
    sc2: Seq<Scope>,
    st2: u64,
    r: Result<ExecFlow, EvalError>,
) -> bool {
    match qr {
        Err(x) => r == Err::<ExecFlow, EvalError>(x),
        Ok(rows) => exists|ns: Scope, sc3: Seq<Scope>|
            #[trigger] mark_opened(ns, sc3) && fresh_scope(ns) && sc2 == popped(sc3) && cursor_sem(
                targets,
                name,
                body,
                d,
                Some(CursorInstance { rows, position: 0 }),
                sc.push(ns),
                st,
                sc3,
                st2,
                r,
            ),
    }
}

/// The iterations of a cursor `FOR`, in the loop's scope.
fn cursor_rows(
    targets: &Vec<String>,
    name: &str,
    body: &Vec<Statement>,
    env: &mut Environment,
    depth: u32,
) -> (r: Result<ExecFlow, EvalError>)
    requires
        ready(*old(env)),
    ensures
        kept(*old(env), *final(env)),
        r matches Ok(f) ==> !(f is ExitLoop),
        depth > 0 && old(env).steps == 0 ==> (r == Err::<ExecFlow, EvalError>(EvalError::StepLimitExceeded)
            && *final(env) == *old(env)),
        cursor_sem(
            targets@,
            name@,
            body@,
            depth as int,
            old(env).cursors.instance(name@),
            old(env).scopes@,
            old(env).steps,
            final(env).scopes@,
            final(env).steps,
            r,
        ),
    decreases depth,
{
    let d = deeper(depth)?;
    let mut last: Option<Value> = None;
    let ghost mut fsg: Seq<Result<Option<Seq<Value>>, EvalError>> = Seq::empty();
    let ghost inst0 = old(env).cursors.instance(name@);
    proof {
        assert forall|fs: Seq<Result<Option<Seq<Value>>, EvalError>>, a: Seq<Scope>, b: u64, x: Result<ExecFlow, EvalError>|
            #[trigger] cursor_iter(targets@, body@, d as int, last, fs, 0, env.scopes@, env.steps, a, b, x) && (fs.len()
                > 0 ==> fetch_matches(inst0, name@, fs[0])) implies cursor_sem(
            targets@,
            name@,
            body@,
            depth as int,
            inst0,
            old(env).scopes@,
            old(env).steps,
            a,
            b,
            x,
        ) by {
            assert(mark_fetches(fs));
        }
    }
    loop
        invariant
            ready(*env),
            kept(*old(env), *env),
            d == depth - 1,
            fsg.len() == 0 ==> *env == *old(env) && last is None,
            fsg.len() > 0 ==> old(env).steps > 0,
            inst0 == old(env).cursors.instance(name@),
            forall|fs: Seq<Result<Option<Seq<Value>>, EvalError>>, a: Seq<Scope>, b: u64, x: Result<ExecFlow, EvalError>|
                #[trigger] cursor_iter(targets@, body@, d as int, last, fs, fsg.len() as int, env.scopes@, env.steps, a, b, x)
                    && fs.len() >= fsg.len() && fs.subrange(0, fsg.len() as int) == fsg && (fsg.len() == 0 ==> (fs.len()
                    > 0 ==> fetch_matches(inst0, name@, fs[0]))) ==> cursor_sem(
                    targets@,
                    name@,
                    body@,
                    depth as int,
                    inst0,
                    old(env).scopes@,
                    old(env).steps,
                    a,
                    b,
                    x,
                ),
        decreases env.steps,
    {
        let ghost sc_i = env.scopes@;
        let ghost st_i = env.steps;
        let ghost last_i = last;
        let ghost k = fsg.len() as int;
        match take_step(env) {
            Err(e) => {
                proof {
                    assert(cursor_iter(targets@, body@, d as int, last_i, fsg, k, sc_i, st_i, env.scopes@, env.steps, Err(e)));
                    assert(fsg.subrange(0, k) =~= fsg);
                    assert(mark_fetches(fsg));
                }
                return Err(e);
            },
            Ok(()) => {},
        }
        let ghost inst_now = env.cursors.instance(name@);
        let nr = env.cursors.next_row(name);
        let ghost f = fetched(nr);
        let ghost nfs = fsg.push(f);
        proof {
            assert(fetch_matches(inst_now, name@, f));
            assert(nfs.subrange(0, k) =~= fsg);
            assert(nfs[k] == f);
            assert(mark_fetches(nfs));
        }
        let values = match nr {
            Err(e) => {
                assert(cursor_iter(targets@, body@, d as int, last_i, nfs, k, sc_i, st_i, env.scopes@, env.steps, Err(e)));
                return Err(e);
            },
            Ok(Some(v)) => v,
            Ok(None) => {
                let r = Ok(loop_done(last));
                assert(cursor_iter(targets@, body@, d as int, last_i, nfs, k, sc_i, st_i, env.scopes@, env.steps, r));
                return r;
            },
        };
        if values.len() != targets.len() {
            let r = Err(EvalError::ColumnCountMismatch { expected: targets.len(), found: values.len() });
            assert(cursor_iter(targets@, body@, d as int, last_i, nfs, k, sc_i, st_i, env.scopes@, env.steps, r));
            return r;
        }
        let ghost steps_now = env.steps;
        let ghost mut ss: Seq<Seq<Scope>> = seq![env.scopes@];
        let mut i: usize = 0;
        while i < targets.len()
            invariant
                ready(*env),
                kept(*old(env), *env),
                d == depth - 1,
                targets@.len() == values@.len(),
                i <= targets@.len(),
                env.steps == steps_now,
                ss.len() == i + 1,
                ss[0] == sc_i,
                ss.last() == env.scopes@,
                set_chain(ss, targets@, values@),
            decreases targets@.len() - i,
        {
            let ghost before = env.scopes@;
            env.set(targets[i].as_str(), values[i].clone());
            proof {
                let ns = ss.push(env.scopes@);
                assert(set_in(before, targets@[i as int]@, values@[i as int], env.scopes@));
                assert forall|j: int| 0 <= j < ns.len() - 1 implies #[trigger] set_in(
                    ns[j],
                    targets@[j]@,
                    values@[j],
                    ns[j + 1],
                ) by {
                    if j < i {
                        assert(ns[j] == ss[j] && ns[j + 1] == ss[j + 1]);
                    }
                }
                ss = ns;
            }
            i += 1;
        }
        let ghost sc0 = env.scopes@;
        proof {
            assert(set_all(sc_i, targets@, values@, sc0));
        }
        let fl = execute_statements(body, env, d);
        assert(mark_run(env.scopes@, env.steps, fl));
        let flow = match fl {
            Err(e) => {
                assert(cursor_iter(targets@, body@, d as int, last_i, nfs, k, sc_i, st_i, env.scopes@, env.steps, Err(e)));
                return Err(e);
            },
            Ok(flow) => flow,
        };
        match loop_step(flow, &mut last) {
            Some(g) => {
                let r = Ok(g);
                assert(cursor_iter(targets@, body@, d as int, last_i, nfs, k, sc_i, st_i, env.scopes@, env.steps, r));
                return r;
            },
            None => {},
        }
        proof {
            assert forall|fs: Seq<Result<Option<Seq<Value>>, EvalError>>, a: Seq<Scope>, b: u64, x: Result<ExecFlow, EvalError>|
                #[trigger] cursor_iter(targets@, body@, d as int, last, fs, nfs.len() as int, env.scopes@, env.steps, a, b, x)
                    && fs.len() >= nfs.len() && fs.subrange(0, nfs.len() as int) == nfs implies cursor_iter(
                targets@,
                body@,
                d as int,
                last_i,
                fs,
                k,
                sc_i,
                st_i,
                a,
                b,
                x,
            ) && fs.subrange(0, k) == fsg && (k == 0 ==> fetch_matches(inst0, name@, fs[0])) by {
                assert(fs[k] == fs.subrange(0, nfs.len() as int)[k]);
                assert(fs[k] == f);
                assert(fs.subrange(0, k) =~= fs.subrange(0, nfs.len() as int).subrange(0, k));
                assert(set_all(sc_i, targets@, values@, sc0));
                assert(mark_run(env.scopes@, env.steps, fl));
            }
            fsg = nfs;
        }
    }
}

/// What `SELECT ... INTO targets` gives once its query gave `q`, from the
/// scopes `sc`: the query's error; no row or more than one is an error; a
/// row of another width is an error; else 1, the targets having been
/// assigned the row's values in turn (see `assign_attempt`), ending at `sc2`.
pub open spec fn into_outcome(
    q: Result<Vec<Vec<Value>>, EvalError>,
    targets: Seq<String>,
    sc: Seq<Scope>,
    sc2: Seq<Scope>,
    r: Result<Value, EvalError>,
) -> bool {
    match q {
        Err(x) => r == Err::<Value, EvalError>(x),
        Ok(rows) => if rows@.len() == 0 {
            r == Err::<Value, EvalError>(EvalError::NoDataFound)
        } else if rows@.len() > 1 {
            r == Err::<Value, EvalError>(EvalError::TooManyRows)
        } else if rows@[0]@.len() != targets.len() {
            r matches Err(EvalError::ColumnCountMismatch { expected, found }) && expected == targets.len() && found
                == rows@[0]@.len()
        } else {
            (r matches Ok(v) && is_one(v)) && exists|ss: Seq<Seq<Scope>>|
                #[trigger] attempt_chain(ss, targets, rows@[0]@) && ss.len() == targets.len() + 1 && ss[0] == sc
                    && ss.last() == sc2
        },
    }
}

/// `SELECT list INTO targets FROM ...`: the query must give exactly one
/// row, whose values are assigned to the targets; gives 1.
pub fn execute_select_into(stmt: &SelectIntoTarget, env: &mut Environment, depth: u32) -> (r: Result<Value, EvalError>)
    requires
        ready(*old(env)),
    ensures
        kept(*old(env), *final(env)),
        r matches Ok(v) ==> is_one(v),
        r is Ok ==> exists|ss: Seq<Seq<Scope>>, vals: Seq<Value>|
            #[trigger] attempt_chain(ss, stmt.targets@, vals) && ss.len() == stmt.targets@.len() + 1 && vals.len()
                == stmt.targets@.len() && ss.last() == final(env).scopes@,
        stmt.targets@.len() != stmt.query.select_list@.len() ==> r is Err,
        depth > 1 && stmt.query.joins@.len() == 0 ==> (catalog_get(
            old(env).database.visible(),
            stmt.query.from.table@,
        ) matches Some(t) ==> {
            &&& t.rows.len() == 0 ==> r == Err::<Value, EvalError>(EvalError::NoDataFound)
            &&& stmt.query.where_clause is None && t.rows.len() > 1 ==> r is Err
        }),
        depth > 3 && stmt.query.joins@.len() == 0 && filter_pure(
            stmt.query.where_clause,
            stmt.query.select_list@,
            depth - 3,
        ) && catalog_get(old(env).database.visible(), stmt.query.from.table@) is Some ==> exists|
            tables: Seq<QueryTable>,
            q: Result<Vec<Vec<Value>>, EvalError>,
        |
            #![trigger mark_tables_loaded(tables), query_outcome(tables, single_rows(tables[0].rows@.len() as int), stmt.query, old(env).scopes@, q)]
            mark_tables_loaded(tables) && tables.len() == 1 && loaded(tables[0], stmt.query.from, old(env).database.visible()) && query_outcome(
                tables,
                single_rows(tables[0].rows@.len() as int),
                stmt.query,
                old(env).scopes@,
                q,
            ) && into_outcome(q, stmt.targets@, old(env).scopes@, final(env).scopes@, r),
    decreases depth,
{
    let d = deeper(depth)?;
    let q = materialize_query(&stmt.query, env, d);
    let rows = match q {
        Ok(rows) => rows,
        Err(e) => {
            return Err(e);
        },
    };
    if rows.len() == 0 {
        return Err(EvalError::NoDataFound);
    }
    if rows.len() > 1 {
        return Err(EvalError::TooManyRows);
    }
    if stmt.targets.len() != rows[0].len() {
        return Err(EvalError::ColumnCountMismatch { expected: stmt.targets.len(), found: rows[0].len() });
    }
    let values = &rows[0];
    let ghost before = env.scopes@;
    let ghost mut ss: Seq<Seq<Scope>> = seq![env.scopes@];
    let mut i: usize = 0;
    while i < stmt.targets.len()
        invariant
            ready(*env),
            kept(*old(env), *env),
            i <= stmt.targets@.len(),
            stmt.targets@.len() == values@.len(),
            ss.len() == i + 1,
            ss[0] == before,
            ss.last() == env.scopes@,
            attempt_chain(ss, stmt.targets@, values@),
        decreases stmt.targets@.len() - i,
    {
        let _ = env.assign(stmt.targets[i].as_str(), values[i].clone());
        proof {
            let ns = ss.push(env.scopes@);
            assert forall|j: int| 0 <= j < ns.len() - 1 implies #[trigger] assign_attempt(
                ns[j],
                ns[j + 1],
                stmt.targets@[j]@,
                values@[j],
            ) by {
                if j < i {
                    assert(ns[j] == ss[j] && ns[j + 1] == ss[j + 1]);
                }
            }
            ss = ns;
        }
        i += 1;
    }
    proof {
        assert(attempt_chain(ss, stmt.targets@, values@) && ss[0] == before && ss.last() == env.scopes@);
        assert(values@.len() == stmt.targets@.len());
    }
    Ok(one())
}

/// `after` is `before` once assigning `value` to `name` was tried, its
/// failure ignored: a plain name whose type refuses the value is left as it
/// was, else the value is stored as `assign` stores it; a failed field
/// assignment leaves as many scopes.
pub open spec fn assign_attempt(before: Seq<Scope>, after: Seq<Scope>, name: Seq<char>, value: Value) -> bool {
    if dot_index(name) < 0 {
        if assign_refused(before, name, value) {
            after == before
        } else {
            var_stored(before, after, assign_target(before, name), name, value)
        }
    } else {
        path_stored(before, after, head_of(name), tail_of(name), value) || after.len() == before.len()
    }
}

/// Each scope stack of `ss` follows from the one before it by trying to
/// assign the next of `values` to the next of `targets`.
pub open spec fn attempt_chain(ss: Seq<Seq<Scope>>, targets: Seq<String>, values: Seq<Value>) -> bool {
    &&& ss.len() <= targets.len() + 1
    &&& forall|j: int|
        0 <= j < ss.len() - 1 ==> #[trigger] assign_attempt(ss[j], ss[j + 1], targets[j]@, values[j])
}

/// The variables `vars` after setting each of `entries`, in order.
pub open spec fn set_entries(vars: Seq<(Seq<char>, Value)>, entries: Seq<(Seq<char>, Value)>) -> Seq<
    (Seq<char>, Value),
>
    decreases entries.len(),
{
    if entries.len() == 0 {
        vars
    } else {
        catalog_set(set_entries(vars, entries.drop_last()), entries.last().0, entries.last().1)
    }
}

/// `scopes` is `outer` with one more scope whose variables are the fields
/// `entries` and which binds no query row.
pub open spec fn row_scope(scopes: Seq<Scope>, outer: Seq<Scope>, entries: Seq<(Seq<char>, Value)>) -> bool {
    &&& scopes.len() == outer.len() + 1
    &&& scopes.drop_last() == outer
    &&& keyed(scopes.last().vars@) == set_entries(Seq::empty(), entries)
    &&& scopes.last().query_bindings@.len() == 0
    &&& scopes.last().query_columns@.len() == 0
    &&& scopes.last().query_ambiguous@.len() == 0
}

/// Binds each field of a row as a variable of the innermost scope.
fn bind_row(row: &Fields, env: &mut Environment)
    requires
        ready(*old(env)),
    ensures
        final(env).routines == old(env).routines,
        ready(*final(env)),
        final(env).scopes@.len() == old(env).scopes@.len(),
        final(env).cursors == old(env).cursors,
        final(env).triggers == old(env).triggers,
        final(env).steps == old(env).steps,
        final(env).database == old(env).database,
        final(env).scopes@.drop_last() == old(env).scopes@.drop_last(),
        keyed(final(env).scopes@.last().vars@) == set_entries(
            keyed(old(env).scopes@.last().vars@),
            field_entries(*row),
        ),
        final(env).scopes@.last().query_bindings == old(env).scopes@.last().query_bindings,
        final(env).scopes@.last().query_columns == old(env).scopes@.last().query_columns,
        final(env).scopes@.last().query_ambiguous == old(env).scopes@.last().query_ambiguous,
{
    let n = fields_len(row);
    let ghost entries = field_entries(*row);
    let mut i: usize = 0;
    assert(entries.take(0) =~= Seq::<(Seq<char>, Value)>::empty());
    while i < n
        invariant
            env.routines == old(env).routines,
            ready(*env),
            env.scopes@.len() == old(env).scopes@.len(),
            env.cursors == old(env).cursors,
            env.triggers == old(env).triggers,
            env.steps == old(env).steps,
            env.database == old(env).database,
            i <= n,
            n == crate::expr::fields::field_entries(*row).len(),
            entries == field_entries(*row),
            env.scopes@.drop_last() == old(env).scopes@.drop_last(),
            keyed(env.scopes@.last().vars@) == set_entries(keyed(old(env).scopes@.last().vars@), entries.take(i as int)),
            env.scopes@.last().query_bindings == old(env).scopes@.last().query_bindings,
            env.scopes@.last().query_columns == old(env).scopes@.last().query_columns,
            env.scopes@.last().query_ambiguous == old(env).scopes@.last().query_ambiguous,
        decreases n - i,
    {
        let (k, v) = fields_entry(row, i);
        env.set(k.as_str(), v.clone());
        proof {
            assert(entries.take(i + 1).drop_last() =~= entries.take(i as int));
            assert(entries.take(i + 1).last() == entries[i as int]);
        }
        i += 1;
    }
    assert(entries.take(n as int) =~= entries);
}

/// The `WHERE` condition on a row whose fields are bound as variables in a
/// scope of their own (no condition: every row matches).
fn row_matches(where_clause: &Option<Expr>, row: &Fields, env: &mut Environment, depth: u32) -> (r: Result<
    bool,
    EvalError,
>)
    requires
        ready(*old(env)),
    ensures
        kept(*old(env), *final(env)),
        where_clause is None && depth > 0 ==> r == Ok::<bool, EvalError>(true) && *final(env) == *old(env),
        *where_clause matches Some(w) ==> (pure_expr(w) && depth > expr_height(w) + 2 ==> exists|s: Seq<Scope>|
            #[trigger] condition_outcome(w, s, where_prefix(), r) && row_scope(s, old(env).scopes@, field_entries(*row))),
        *where_clause matches Some(w) ==> (pure_expr(w) && depth > expr_height(w) + 2 ==> final(env).scopes@
            == old(env).scopes@ && final(env).database == old(env).database && final(env).triggers.scopes@
            == old(env).triggers.scopes@ && final(env).steps == old(env).steps),
    decreases depth,
{
    let d = deeper(depth)?;
    match where_clause {
        None => Ok(true),
        Some(w) => {
            env.push_scope();
            let ghost pushed = env.scopes@;
            assert(keyed(pushed.last().vars@) =~= Seq::<(Seq<char>, Value)>::empty());
            assert(pushed.drop_last() =~= old(env).scopes@);
            bind_row(row, env);
            let ghost s = env.scopes@;
            assert(row_scope(s, old(env).scopes@, field_entries(*row)));
            let r = evaluate_condition(w, env, d, "WHERE clause must be BOOLEAN, got ");
            assert(pure_expr(*w) && depth > expr_height(*w) + 2 ==> condition_outcome(*w, s, where_prefix(), r));
            env.pop_scope();
            r
        },
    }
}

/// The message prefix of a non-boolean `WHERE` condition.
pub open spec fn where_prefix() -> Seq<char> {
    "WHERE clause must be BOOLEAN, got "@
}

/// The entries of a row of NULLs over the columns.
pub open spec fn null_entries(columns: Seq<Column>) -> Seq<(Seq<char>, Value)> {
    entries_insert_all(Seq::empty(), column_names(columns), Seq::new(columns.len(), |i: int| Value::Null))
}

/// The row fields of an insert: the listed columns (each must exist)
/// filled in over a row of NULLs, or, without a list, one value per column
/// in order.
fn build_insert_row(table_name: &str, table: &Table, columns: &Option<Vec<String>>, values: &Vec<Value>) -> (r: Result<
    Fields,
    EvalError,
>)
    ensures
        match *columns {
            Some(cols) => {
                let names = cols@.map_values(|c: String| c@);
                let unknown = first_unknown(table.deep_view().columns, names);
                if cols@.len() != values@.len() {
                    r == Err::<Fields, EvalError>(
                        EvalError::ColumnCountMismatch { expected: cols@.len() as usize, found: values@.len() as usize },
                    )
                } else if unknown >= 0 {
                    r matches Err(EvalError::ColumnNotFound { table, column }) && table@ == table_name@ && column@
                        == names[unknown]
                } else {
                    r matches Ok(f) && field_entries(f) == entries_insert_all(
                        null_entries(table.columns@),
                        names,
                        values@,
                    )
                }
            },
            None => if values@.len() != table.columns@.len() {
                r == Err::<Fields, EvalError>(
                    EvalError::ColumnCountMismatch {
                        expected: table.columns@.len() as usize,
                        found: values@.len() as usize,
                    },
                )
            } else {
                r matches Ok(f) && field_entries(f) == entries_insert_all(
                    Seq::empty(),
                    column_names(table.columns@),
                    values@,
                )
            },
        },
{
    match columns {
        Some(cols) => {
            if cols.len() != values.len() {
                return Err(EvalError::ColumnCountMismatch { expected: cols.len(), found: values.len() });
            }
            let ghost names = cols@.map_values(|c: String| c@);
            let ghost cs = table.deep_view().columns;
            proof {
                lemma_first_unknown(cs, names);
                assert(names.skip(0) =~= names);
                assert(values@.skip(0) =~= values@);
            }
            let mut row = Row::blank_from_schema(table.columns.as_slice()).values;
            let ghost start = field_entries(row);
            let mut i: usize = 0;
            while i < cols.len()
                invariant
                    *columns == Some(*cols),
                    cols@.len() == values@.len(),
                    i <= cols@.len(),
                    names == cols@.map_values(|c: String| c@),
                    cs == table.deep_view().columns,
                    start == null_entries(table.columns@),
                    first_unknown(cs, names) < 0 || i <= first_unknown(cs, names),
                    -1 <= first_unknown(cs, names) < names.len(),
                    first_unknown(cs, names) >= 0 ==> !has_column_spec(cs, names[first_unknown(cs, names)]),
                    forall|k: int|
                        0 <= k < names.len() && (first_unknown(cs, names) < 0 || k < first_unknown(cs, names))
                            ==> has_column_spec(cs, #[trigger] names[k]),
                    entries_insert_all(start, names, values@) == entries_insert_all(
                        field_entries(row),
                        names.skip(i as int),
                        values@.skip(i as int),
                    ),
                decreases cols@.len() - i,
            {
                assert(names[i as int] == cols@[i as int]@);
                if !table.has_column(&cols[i]) {
                    assert(first_unknown(cs, names) == i);
                    let column = cols[i].clone();
                    assert(column@ == names[first_unknown(cs, names)]);
                    return Err(EvalError::ColumnNotFound { table: table_name.to_owned(), column });
                }
                proof {
                    assert(names.skip(i as int)[0] == names[i as int]);
                    assert(values@.skip(i as int)[0] == values@[i as int]);
                    assert(names.skip(i as int).drop_first() =~= names.skip(i + 1));
                    assert(values@.skip(i as int).drop_first() =~= values@.skip(i + 1));
                }
                fields_insert(&mut row, cols[i].clone(), values[i].clone());
                i += 1;
            }
            assert(names.skip(i as int).len() == 0);
            Ok(row)
        },
        None => {
            if values.len() != table.columns.len() {
                return Err(
                    EvalError::ColumnCountMismatch { expected: table.columns.len(), found: values.len() },
                );
            }
            Ok(Row::from_values(table.columns.as_slice(), clone_values(values)).values)
        },
    }
}

/// The value of each column in the row fields, NULL where absent.
pub open spec fn column_values(columns: Seq<Column>, row: Seq<(Seq<char>, Value)>) -> Seq<Value> {
    Seq::new(
        columns.len(),
        |c: int|
            match entries_get(row, columns[c].name@) {
                Some(v) => v,
                None => Value::Null,
            },
    )
}

/// The stored row for row fields: every field must be a column of the
/// table (else the first stray field is named); each column takes its
/// field's value, or NULL.
fn normalize_row(table_name: &str, table: &Table, row: &Fields) -> (r: Result<Row, EvalError>)
    ensures
        ({
            let names = entries_keys(field_entries(*row));
            let unknown = first_unknown(table.deep_view().columns, names);
            if unknown >= 0 {
                r matches Err(EvalError::ColumnNotFound { table, column }) && table@ == table_name@ && column@
                    == names[unknown]
            } else {
                r matches Ok(stored) && stored.schema@ == table.columns@ && field_entries(stored.values)
                    == entries_insert_all(
                    Seq::empty(),
                    column_names(table.columns@),
                    column_values(table.columns@, field_entries(*row)),
                )
            }
        }),
{
    let n = fields_len(row);
    let ghost names = entries_keys(field_entries(*row));
    let ghost cs = table.deep_view().columns;
    proof {
        lemma_first_unknown(cs, names);
    }
    let mut i: usize = 0;
    while i < n
        invariant
            i <= n,
            n == crate::expr::fields::field_entries(*row).len(),
            names == entries_keys(field_entries(*row)),
            cs == table.deep_view().columns,
            first_unknown(cs, names) < 0 || i <= first_unknown(cs, names),
            -1 <= first_unknown(cs, names) < names.len(),
            first_unknown(cs, names) >= 0 ==> !has_column_spec(cs, names[first_unknown(cs, names)]),
            forall|k: int|
                0 <= k < names.len() && (first_unknown(cs, names) < 0 || k < first_unknown(cs, names))
                    ==> has_column_spec(cs, #[trigger] names[k]),
        decreases n - i,
    {
        let (k, _) = fields_entry(row, i);
        assert(names[i as int] == k@);
        if !table.has_column(k) {
            return Err(EvalError::ColumnNotFound { table: table_name.to_owned(), column: k.clone() });
        }
        i += 1;
    }
    let ghost want = column_values(table.columns@, field_entries(*row));
    let mut values: Vec<Value> = Vec::new();
    let mut c: usize = 0;
    while c < table.columns.len()
        invariant
            c <= table.columns@.len(),
            values@.len() == c,
            want == column_values(table.columns@, field_entries(*row)),
            forall|x: int| 0 <= x < c ==> values@[x] == #[trigger] want[x],
        decreases table.columns@.len() - c,
    {
        let v = match fields_get(row, table.columns[c].name.as_str()) {
            Some(v) => v.clone(),
            None => Value::Null,
        };
        values.push(v);
        c += 1;
    }
    assert(values@ =~= want);
    Ok(Row::from_values(table.columns.as_slice(), values))
}

/// Puts the table back as it was before a failed statement.
fn restore_table(name: &str, table: &Table, env: &mut Environment)
    requires
        ready(*old(env)),
    ensures
        kept(*old(env), *final(env)),
        final(env).cursors == old(env).cursors,
        final(env).scopes == old(env).scopes,
        final(env).triggers == old(env).triggers,
        catalog_get(old(env).database.visible(), name@) is None ==> final(env).database.visible()
            == old(env).database.visible(),
        catalog_get(old(env).database.visible(), name@) is Some ==> {
            &&& catalog_get(final(env).database.visible(), name@) == Some(table.deep_view())
            &&& same_except(old(env).database.visible(), final(env).database.visible(), name@)
        },
{
    let _ = env.database.replace_table(name, table.clone());
}

/// Runs the row triggers of `table` for `timing` and `event`, in order:
/// each sees `OLD` and the `NEW` the previous one left, and the last
/// `NEW` is the result.
fn fire_row_triggers(
    timing: TriggerTiming,
    event: TriggerEvent,
    table: &str,
    old_row: &Fields,
    new_row: Fields,
    env: &mut Environment,
    depth: u32,
) -> (r: Result<Fields, EvalError>)
    requires
        ready(*old(env)),
    ensures
        depth > 2 && quiet_triggers(matching_in(old(env).triggers.scopes@, table@, timing, event), depth - 3) ==> final(env).database == old(env).database,
        kept(*old(env), *final(env)),
        final(env).triggers.scopes@ == old(env).triggers.scopes@,
        depth > 0 && matching_in(old(env).triggers.scopes@, table@, timing, event).len() == 0 ==> r == Ok::<
            Fields,
            EvalError,
        >(new_row) && *final(env) == *old(env),
        depth > 5 && matching_in(old(env).triggers.scopes@, table@, timing, event).len() > 0 ==> exists|
            f: Result<ExecFlow, EvalError>,
            nv: Option<Value>,
            r0: Result<Fields, EvalError>,
        |
            #![trigger trigger_outcome(f, nv, r0)]
            block_entry(matching_in(old(env).triggers.scopes@, table@, timing, event)[0].body, f) && trigger_outcome(
                f,
                nv,
                r0,
            ) && (r0 is Err ==> r == r0),
        fire_sem(
            matching_in(old(env).triggers.scopes@, table@, timing, event),
            *old_row,
            new_row,
            depth as int,
            old(env).scopes@,
            old(env).steps,
            final(env).scopes@,
            final(env).steps,
            r,
        ),
    decreases depth,
{
    let d = deeper(depth)?;
    let triggers = env.triggers.matching(table, timing, event);
    let mut current = new_row;
    let mut i: usize = 0;
    let ghost mut r0: Result<Fields, EvalError> = Err(EvalError::StepLimitExceeded);
    while i < triggers.len()
        invariant
            ready(*env),
            kept(*old(env), *env),
            d == depth - 1,
            i <= triggers@.len(),
            i == 0 ==> current == new_row && *env == *old(env),
            triggers@ == matching_in(old(env).triggers.scopes@, table@, timing, event),
            env.triggers.scopes@ == old(env).triggers.scopes@,
            depth > 2 && quiet_triggers(triggers@, depth - 3) ==> env.database == old(env).database,
            forall|sc2: Seq<Scope>, st2: u64, x: Result<Fields, EvalError>|
                #[trigger] fire_from(triggers@, i as int, *old_row, current, d as int, env.scopes@, env.steps, sc2, st2, x)
                    ==> fire_sem(triggers@, *old_row, new_row, depth as int, old(env).scopes@, old(env).steps, sc2, st2, x),
            i > 0 && depth > 5 ==> r0 is Ok && exists|f: Result<ExecFlow, EvalError>, nv: Option<Value>| block_entry(
                triggers@[0].body,
                f,
            ) && #[trigger] trigger_outcome(f, nv, r0),
        decreases triggers@.len() - i,
    {
        let t = share(&triggers[i]);
        assert(*t == *triggers@[i as int]);
        let ghost sc_i = env.scopes@;
        let ghost st_i = env.steps;
        let ghost cur_i = current;
        let step = execute_trigger(&t, old_row, current, env, d);
        proof {
            assert(mark_fired(env.scopes@, env.steps, step));
            if d > 1 {
                let (ns, sc3) = choose|ns: Scope, sc3: Seq<Scope>|
                    #[trigger] mark_opened(ns, sc3) && fresh_scope(ns) && env.scopes@ == popped(sc3) && trigger_run(
                        *triggers@[i as int],
                        *old_row,
                        cur_i,
                        d - 1,
                        sc_i.push(ns),
                        st_i,
                        sc3,
                        env.steps,
                        step,
                    );
                assert(fire_step(triggers@[i as int], *old_row, cur_i, d as int, sc_i, st_i, env.scopes@, env.steps, step));
            }
        }
        proof {
            if i == 0 {
                r0 = step;
            }
        }
        let ghost step0 = step;
        current = match step {
            Ok(c) => c,
            Err(e) => {
                assert(fire_from(triggers@, i as int, *old_row, cur_i, d as int, sc_i, st_i, env.scopes@, env.steps, Err(e)));
                return Err(e);
            },
        };
        proof {
            assert forall|sc2: Seq<Scope>, st2: u64, x: Result<Fields, EvalError>|
                #[trigger] fire_from(triggers@, i + 1, *old_row, current, d as int, env.scopes@, env.steps, sc2, st2, x) implies fire_from(
                triggers@,
                i as int,
                *old_row,
                cur_i,
                d as int,
                sc_i,
                st_i,
                sc2,
                st2,
                x,
            ) by {
                assert(mark_fired(env.scopes@, env.steps, step0));
            }
        }
        i += 1;
    }
    assert(fire_from(triggers@, i as int, *old_row, current, d as int, env.scopes@, env.steps, env.scopes@, env.steps, Ok(current)));
    Ok(current)
}

/// One row trigger `t` run with the nesting budget `d` on the rows
/// `old_row` and `new_row`, from `sc` and `st`: in a scope of its own, as
/// `trigger_run` says, the scope being closed afterwards.
pub open spec fn fire_step(
    t: Rc<TriggerDeclaration>,
    old_row: Fields,
    new_row: Fields,
    d: int,
    sc: Seq<Scope>,
    st: u64,
    sc2: Seq<Scope>,
    st2: u64,
    r: Result<Fields, EvalError>,
) -> bool {
    d > 1 ==> exists|ns: Scope, sc3: Seq<Scope>|
        #[trigger] mark_opened(ns, sc3) && fresh_scope(ns) && sc2 == popped(sc3) && trigger_run(
            *t,
            old_row,
            new_row,
            d - 1,
            sc.push(ns),
            st,
            sc3,
            st2,
            r,
        )
}

/// The row triggers `ts` from the `k`-th on, each run with the budget `d`
/// on `old_row` and the `NEW` row the one before left (`cur` for the
/// first): the last `NEW` is the result, or the first trigger's error.
pub open spec fn fire_from(
    ts: Seq<Rc<TriggerDeclaration>>,
    k: int,
    old_row: Fields,
    cur: Fields,
    d: int,
    sc: Seq<Scope>,
    st: u64,
    sc2: Seq<Scope>,
    st2: u64,
    r: Result<Fields, EvalError>,
) -> bool
    decreases ts.len() - k,
{
    if k < 0 || k >= ts.len() {
        r == Ok::<Fields, EvalError>(cur) && sc2 == sc && st2 == st
    } else {
        exists|sc1: Seq<Scope>, st1: u64, rk: Result<Fields, EvalError>|
            #[trigger] mark_fired(sc1, st1, rk) && fire_step(ts[k], old_row, cur, d, sc, st, sc1, st1, rk) && match rk {
                Err(x) => r == Err::<Fields, EvalError>(x) && sc2 == sc1 && st2 == st1,
                Ok(f) => fire_from(ts, k + 1, old_row, f, d, sc1, st1, sc2, st2, r),
            }
    }
}

/// Running the row triggers `ts` in order with the nesting budget `d`: each
/// sees `OLD` as `old_row` and `NEW` as the row the one before left, and the
/// last `NEW` is the result.
pub open spec fn fire_sem(
    ts: Seq<Rc<TriggerDeclaration>>,
    old_row: Fields,
    new_row: Fields,
    d: int,
    sc: Seq<Scope>,
    st: u64,
    sc2: Seq<Scope>,
    st2: u64,
    r: Result<Fields, EvalError>,
) -> bool {
    if d <= 0 {
        r == Err::<Fields, EvalError>(EvalError::StepLimitExceeded) && sc2 == sc && st2 == st
    } else {
        fire_from(ts, 0, old_row, new_row, d - 1, sc, st, sc2, st2, r)
    }
}

/// Every trigger of `ts` has a body that cannot change the database when
/// run with the nesting budget `d` (see `quiet_block`).
pub open spec fn quiet_triggers(ts: Seq<Rc<TriggerDeclaration>>, d: int) -> bool {
    forall|i: int| 0 <= i < ts.len() ==> quiet_block((#[trigger] ts[i]).body, d)
}

/// A marker, true of every argument, naming the scopes, steps and result a
/// trigger reached (see `crate::runtime::semantics::mark_run`).
pub open spec fn mark_fired(sc: Seq<Scope>, st: u64, r: Result<Fields, EvalError>) -> bool {
    true
}

/// Runs one row trigger in a scope of its own where `OLD` and `NEW` are the
/// rows as records; gives `NEW` as the body left it.
fn execute_trigger(
    trigger: &TriggerDeclaration,
    old_row: &Fields,
    new_row: Fields,
    env: &mut Environment,
    depth: u32,
) -> (r: Result<Fields, EvalError>)
    requires
        ready(*old(env)),
    ensures
        depth > 1 && quiet_block(trigger.body, depth - 2) ==> final(env).database == old(env).database,
        kept(*old(env), *final(env)),
        final(env).triggers.scopes@ == old(env).triggers.scopes@,
        depth > 4 ==> exists|f: Result<ExecFlow, EvalError>, nv: Option<Value>| block_entry(trigger.body, f)
            && #[trigger] trigger_outcome(f, nv, r),
        depth > 4 && only_exceptions(trigger.body.declarations@) && trigger.body.statements@.len() == 0 ==> r
            == Ok::<Fields, EvalError>(new_row),
        depth > 1 ==> exists|ns: Scope, sc3: Seq<Scope>|
            #[trigger] mark_opened(ns, sc3) && fresh_scope(ns) && final(env).scopes@ == popped(sc3) && trigger_run(
                *trigger,
                *old_row,
                new_row,
                depth - 1,
                old(env).scopes@.push(ns),
                old(env).steps,
                sc3,
                final(env).steps,
                r,
            ),
    decreases depth,
{
    let d = deeper(depth)?;
    env.push_scope();
    let ghost pushed = env.scopes@;
    let r = run_trigger(trigger, old_row, new_row, env, d);
    let ghost inner = env.scopes@;
    env.pop_scope();
    proof {
        assert(pushed =~= old(env).scopes@.push(pushed.last()));
        assert(mark_opened(pushed.last(), inner));
    }
    r
}

/// Running the trigger `t` on the rows `old_row` and `new_row` with the
/// nesting budget `d`, from the scopes `sc` and `st` steps: `OLD` and `NEW`
/// are set in the innermost scope, the body runs as a block, and the result
/// is what `trigger_outcome` makes of its flow and of `NEW` at the end.
pub open spec fn trigger_run(
    t: TriggerDeclaration,
    old_row: Fields,
    new_row: Fields,
    d: int,
    sc: Seq<Scope>,
    st: u64,
    sc2: Seq<Scope>,
    st2: u64,
    r: Result<Fields, EvalError>,
) -> bool {
    d > 0 ==> exists|sc1: Seq<Scope>, sc_n: Seq<Scope>, f: Result<ExecFlow, EvalError>|
        #![trigger set_in(sc, "OLD"@, Value::Record(old_row), sc1), mark_run(sc_n, st, f)]
        set_in(sc, "OLD"@, Value::Record(old_row), sc1) && set_in(sc1, "NEW"@, Value::Record(new_row), sc_n)
            && block_sem(t.body, d - 1, sc_n, st, sc2, st2, f) && trigger_outcome(f, get_spec(sc2, "NEW"@), r)
}

/// The body of a trigger, in the trigger's scope.
fn run_trigger(
    trigger: &TriggerDeclaration,
    old_row: &Fields,
    new_row: Fields,
    env: &mut Environment,
    depth: u32,
) -> (r: Result<Fields, EvalError>)
    requires
        ready(*old(env)),
    ensures
        depth > 0 && quiet_block(trigger.body, depth - 1) ==> final(env).database == old(env).database,
        kept(*old(env), *final(env)),
        depth > 3 ==> exists|f: Result<ExecFlow, EvalError>| #[trigger] block_entry(trigger.body, f) && trigger_outcome(
            f,
            get_spec(final(env).scopes@, "NEW"@),
            r,
        ),
        depth > 3 && only_exceptions(trigger.body.declarations@) && trigger.body.statements@.len() == 0 ==> r
            == Ok::<Fields, EvalError>(new_row),
        trigger_run(
            *trigger,
            *old_row,
            new_row,
            depth as int,
            old(env).scopes@,
            old(env).steps,
            final(env).scopes@,
            final(env).steps,
            r,
        ),
    decreases depth,
{
    let d = deeper(depth)?;
    env.set("OLD", Value::Record(old_row.clone()));
    let ghost given = new_row;
    let ghost before = env.scopes@.last();
    let ghost sc1 = env.scopes@;
    env.set("NEW", Value::Record(new_row));
    let ghost sc2 = env.scopes@;
    let ghost st0 = env.steps;
    proof {
        reveal_strlit("NEW");
        lemma_dot_index("NEW"@);
        assert("NEW"@[0] != '.' && "NEW"@[1] != '.' && "NEW"@[2] != '.');
        lemma_catalog_set(keyed(before.vars@), "NEW"@, Value::Record(given), "NEW"@);
        assert(get_spec(env.scopes@, "NEW"@) == Some(Value::Record(given)));
    }
    let f = execute_block_in_scope(&trigger.body, env, d);
    proof {
        reveal_strlit("NEW");
    }
    let r = match f {
        Err(e) => Err(e),
        Ok(ExecFlow::ExitLoop(_)) => Err(EvalError::ExitOutsideLoop),
        Ok(ExecFlow::Raise(name)) => Err(EvalError::UnhandledException(name)),
        Ok(ExecFlow::Return(_)) => Err(EvalError::ReturnOutsideRoutine),
        Ok(_) => match env.get("NEW") {
            Some(Value::Record(row)) => Ok(row),
            Some(v) => Err(EvalError::TypeError(concat2("trigger `NEW` must be RECORD, got ", v.type_label()))),
            None => Err(EvalError::TypeError("trigger `NEW` is missing".to_owned())),
        },
    };
    assert(depth > 3 ==> block_entry(trigger.body, f) && trigger_outcome(f, get_spec(env.scopes@, "NEW"@), r));
    proof {
        assert(set_in(old(env).scopes@, "OLD"@, Value::Record(*old_row), sc1));
        assert(mark_run(sc2, st0, f));
        assert(block_sem(trigger.body, d as int, sc2, st0, env.scopes@, env.steps, f));
    }
    r
}

/// What a trigger gives whose body finished with `f`, `NEW` then reading
/// `new`: the body's error; an error for an `EXIT`, a raise or a `RETURN`
/// that got this far; else the record `NEW` holds, or a type error.
pub open spec fn trigger_outcome(f: Result<ExecFlow, EvalError>, new: Option<Value>, r: Result<Fields, EvalError>) -> bool {
    match f {
        Err(x) => r == Err::<Fields, EvalError>(x),
        Ok(ExecFlow::ExitLoop(_)) => r == Err::<Fields, EvalError>(EvalError::ExitOutsideLoop),
        Ok(ExecFlow::Raise(n)) => r == Err::<Fields, EvalError>(EvalError::UnhandledException(n)),
        Ok(ExecFlow::Return(_)) => r == Err::<Fields, EvalError>(EvalError::ReturnOutsideRoutine),
        _ => match new {
            Some(Value::Record(row)) => r == Ok::<Fields, EvalError>(row),
            Some(v) => r matches Err(EvalError::TypeError(m)) && m@ == "trigger `NEW` must be RECORD, got "@
                + type_name_spec(type_of(v)),
            None => r matches Err(EvalError::TypeError(m)) && m@ == "trigger `NEW` is missing"@,
        },
    }
}

/// Each of `es` is free of calls and `SYSDATE`, and shallower than `depth`.
pub open spec fn all_pure(es: Seq<Expr>, depth: int) -> bool {
    forall|i: int| 0 <= i < es.len() ==> pure_expr(#[trigger] es[i]) && depth > expr_height(es[i])
}

/// No row trigger of `table` reacts to `event`, before or after.
pub open spec fn no_row_triggers(env: Environment, table: Seq<char>, event: TriggerEvent) -> bool {
    &&& matching_in(env.triggers.scopes@, table, TriggerTiming::Before, event).len() == 0
    &&& matching_in(env.triggers.scopes@, table, TriggerTiming::After, event).len() == 0
}

/// What the `WHERE` test and the assignments of an `UPDATE` give on a row
/// with the fields `row`, evaluated in `scopes`: `None` when the row does not
/// match, the row with the assigned values stored, or the first error.
pub open spec fn assignment_result(
    stmt: UpdateStatement,
    row: Seq<(Seq<char>, Value)>,
    scopes: Seq<Scope>,
    r: Result<Option<Fields>, EvalError>,
) -> bool {
    match r {
        Ok(None) => stmt.where_clause matches Some(c) && condition_outcome(c, scopes, where_prefix(), Ok(false)),
        Ok(Some(f)) => filter_passes(stmt.where_clause, scopes, where_prefix()) && exists|vals: Seq<Value>|
            #[trigger] values_outcome(assigned_values(stmt), scopes, vals) && field_entries(f)
                == entries_insert_all(row, assigned_columns(stmt), vals),
        Err(x) => {
            ||| stmt.where_clause matches Some(c) && condition_outcome(c, scopes, where_prefix(), Err(x))
            ||| filter_passes(stmt.where_clause, scopes, where_prefix()) && exists|i: int|
                0 <= i < stmt.assignments@.len() && #[trigger] pure_outcome(
                    assigned_values(stmt)[i],
                    scopes,
                    Err(x),
                )
        },
    }
}

/// The values that an `UPDATE` assigns, in order.
pub open spec fn assigned_values(stmt: UpdateStatement) -> Seq<Expr> {
    stmt.assignments@.map_values(|a: UpdateAssignment| a.value)
}

/// The columns that an `UPDATE` assigns, in order.
pub open spec fn assigned_columns(stmt: UpdateStatement) -> Seq<Seq<char>> {
    stmt.assignments@.map_values(|a: UpdateAssignment| a.column@)
}

/// The optional column list of an `INSERT`, as names.
pub open spec fn column_list(cols: Option<Vec<String>>) -> Option<Seq<Seq<char>>> {
    match cols {
        Some(c) => Some(c@.map_values(|s: String| s@)),
        None => None,
    }
}

/// The fields of the row an `INSERT` builds from the values `vals`: the
/// listed columns over a row of NULLs, or one value per column in order.
pub open spec fn insert_entries(columns: Seq<Column>, cols: Option<Seq<Seq<char>>>, vals: Seq<Value>) -> Seq<
    (Seq<char>, Value),
> {
    match cols {
        Some(names) => entries_insert_all(null_entries(columns), names, vals),
        None => entries_insert_all(Seq::empty(), column_names(columns), vals),
    }
}

/// `vals` are the values of the pure expressions `es` in `scopes`.
pub open spec fn values_outcome(es: Seq<Expr>, scopes: Seq<Scope>, vals: Seq<Value>) -> bool {
    &&& vals.len() == es.len()
    &&& forall|i: int| 0 <= i < es.len() ==> pure_outcome(#[trigger] es[i], scopes, succeeded(vals[i]))
}

/// The errors an `INSERT` without row triggers of pure values into the
/// table `t` may give in `scopes`: a value's error, a refused row shape, or
/// a built row with a field the table lacks.
pub open spec fn insert_refusal(stmt: InsertStatement, t: TableView, scopes: Seq<Scope>, x: EvalError) -> bool {
    ||| exists|i: int|
        0 <= i < stmt.values@.len() && #[trigger] pure_outcome(stmt.values@[i], scopes, Err(x))
    ||| exists|vals: Seq<Value>|
        #[trigger] values_outcome(stmt.values@, scopes, vals) && insert_shape_error(
            t.columns,
            stmt.columns,
            vals.len() as int,
            x,
        )
    ||| exists|vals: Seq<Value>|
        #[trigger] values_outcome(stmt.values@, scopes, vals) && !insert_shape_error(
            t.columns,
            stmt.columns,
            vals.len() as int,
            x,
        ) && unknown_field(
            t.columns,
            insert_entries(t.columns, column_list(stmt.columns), vals),
            stmt.table@,
            x,
        )
}

/// The error `x` that the row shape refuses an `INSERT` of `n` values into
/// a table with `columns` with: a count that differs from the column list
/// (or from the table's columns when no list is given), or a listed column
/// the table lacks.
pub open spec fn insert_shape_error(columns: Seq<Column>, cols: Option<Vec<String>>, n: int, x: EvalError) -> bool {
    match cols {
        Some(cs) => {
            ||| cs@.len() != n && x == EvalError::ColumnCountMismatch {
                expected: cs@.len() as usize,
                found: n as usize,
            }
            ||| cs@.len() == n && first_unknown(columns, cs@.map_values(|c: String| c@)) >= 0
                && x is ColumnNotFound
        },
        None => n != columns.len() && x == EvalError::ColumnCountMismatch {
            expected: columns.len() as usize,
            found: n as usize,
        },
    }
}

/// `INSERT INTO t [(columns)] VALUES (values)`: the row goes through the
/// `BEFORE INSERT` triggers, is checked against the table's columns and
/// appended; the `AFTER INSERT` triggers then run, and when one fails the
/// table is put back. Gives 1.
#[verifier::rlimit(40)]
#[verifier::spinoff_prover]
pub fn execute_insert(stmt: &InsertStatement, env: &mut Environment, depth: u32) -> (r: Result<Value, EvalError>)
    requires
        ready(*old(env)),
    ensures
        kept(*old(env), *final(env)),
        depth > 1 && all_pure(stmt.values@, depth - 1) && matching_in(
            old(env).triggers.scopes@,
            stmt.table@,
            TriggerTiming::Before,
            TriggerEvent::Insert,
        ).len() == 0 ==> (catalog_get(old(env).database.visible(), stmt.table@) matches Some(t) ==> (r is Err ==> (
        catalog_get(final(env).database.visible(), stmt.table@) == Some(t) || catalog_get(
            final(env).database.visible(),
            stmt.table@,
        ) is None))),
        depth > 4 && all_pure(stmt.values@, depth - 1) && quiet_triggers(
            matching_in(old(env).triggers.scopes@, stmt.table@, TriggerTiming::After, TriggerEvent::Insert),
            depth - 4,
        ) ==> (catalog_get(old(env).database.visible(), stmt.table@) matches Some(t) ==> (r matches Ok(v)
            ==> is_one(v) && exists|vals: Seq<Value>, f0: Fields, ob: Fields, f1: Fields, sc1: Seq<Scope>, st1: u64|
            #![trigger mark_inserted(vals, f0, ob, f1, sc1, st1)]
            mark_inserted(vals, f0, ob, f1, sc1, st1) && values_outcome(stmt.values@, old(env).scopes@, vals)
                && field_entries(f0) == insert_entries(t.columns, column_list(stmt.columns), vals) && field_entries(ob)
                == null_entries(t.columns) && fire_sem(
                matching_in(old(env).triggers.scopes@, stmt.table@, TriggerTiming::Before, TriggerEvent::Insert),
                ob,
                f0,
                depth - 1,
                old(env).scopes@,
                old(env).steps,
                sc1,
                st1,
                Ok(f1),
            ) && row_appended(t, f1, final(env).database.visible(), stmt.table@))),
        depth > 0 && stmt.values@.len() == 0 && catalog_get(old(env).database.visible(), stmt.table@) is None
            ==> (r matches Err(EvalError::TableNotFound(n)) && n@ == stmt.table@ && *final(env) == *old(env)),
        depth > 0 && all_pure(stmt.values@, depth - 1) && catalog_get(old(env).database.visible(), stmt.table@)
            is None ==> r is Err && *final(env) == *old(env),
        depth > 1 && all_pure(stmt.values@, depth - 1) && no_row_triggers(*old(env), stmt.table@, TriggerEvent::Insert)
            ==> (r matches Ok(v) ==> {
            &&& is_one(v)
            &&& catalog_get(old(env).database.visible(), stmt.table@) matches Some(t)
            &&& catalog_get(final(env).database.visible(), stmt.table@) matches Some(t2)
            &&& t2.columns == t.columns
            &&& t2.constraints == t.constraints
            &&& t2.rows.len() == t.rows.len() + 1
            &&& t2.rows.drop_last() == t.rows
            &&& t2.rows.last().schema == t.columns
            &&& exists|vals: Seq<Value>|
                #[trigger] values_outcome(stmt.values@, old(env).scopes@, vals) && field_entries(t2.rows.last().values)
                    == entries_insert_all(
                    Seq::empty(),
                    column_names(t.columns),
                    column_values(t.columns, insert_entries(t.columns, column_list(stmt.columns), vals)),
                )
            &&& same_except(old(env).database.visible(), final(env).database.visible(), stmt.table@)
        }),
        depth > 1 && all_pure(stmt.values@, depth - 1) && no_row_triggers(*old(env), stmt.table@, TriggerEvent::Insert)
            ==> (catalog_get(old(env).database.visible(), stmt.table@) matches Some(t) ==> (r matches Err(x) ==> {
            &&& *final(env) == *old(env)
            &&& insert_refusal(*stmt, t, old(env).scopes@, x)
        })),
        depth > 1 && all_pure(stmt.values@, depth - 1) && no_row_triggers(*old(env), stmt.table@, TriggerEvent::Insert)
            ==> (catalog_get(old(env).database.visible(), stmt.table@) matches Some(t) ==> ((forall|x: EvalError|
            !#[trigger] insert_refusal(*stmt, t, old(env).scopes@, x)) ==> (r matches Ok(v) && is_one(v)))),
    decreases depth,
{
    let d = deeper(depth)?;
    let ghost pure = all_pure(stmt.values@, depth - 1);
    let mut values: Vec<Value> = Vec::new();
    let mut i: usize = 0;
    while i < stmt.values.len()
        invariant
            ready(*env),
            kept(*old(env), *env),
            d < depth,
            d == depth - 1,
            i <= stmt.values@.len(),
            pure == all_pure(stmt.values@, depth - 1),
            pure ==> *env == *old(env),
            stmt.values@.len() == 0 ==> *env == *old(env),
            values@.len() == i,
            pure ==> forall|k: int|
                0 <= k < i ==> pure_outcome(#[trigger] stmt.values@[k], old(env).scopes@, succeeded(values@[k])),
        decreases stmt.values@.len() - i,
    {
        proof {
            if pure {
                assert(pure_expr(stmt.values@[i as int]) && depth - 1 > expr_height(stmt.values@[i as int]));
            }
        }
        let v = match eval_at(&stmt.values[i], env, d) {
            Ok(v) => v,
            Err(e) => {
                assert(pure ==> pure_outcome(stmt.values@[i as int], old(env).scopes@, Err(e)));
                return Err(e);
            },
        };
        let ghost before = values@;
        values.push(v);
        proof {
            if pure {
                assert forall|k: int|
                    0 <= k < i + 1 implies pure_outcome(#[trigger] stmt.values@[k], old(env).scopes@, succeeded(values@[k])) by {
                    if k < i {
                        assert(values@[k] == before[k]);
                    }
                }
            }
        }
        i += 1;
    }
    proof {
        if pure {
            assert(values_outcome(stmt.values@, old(env).scopes@, values@));
        }
    }
    let name = stmt.table.as_str();
    let original = match env.database.table(name) {
        Some(t) => t,
        None => {
            return Err(EvalError::TableNotFound(stmt.table.clone()));
        },
    };
    let inserted = match build_insert_row(name, &original, &stmt.columns, &values) {
        Ok(f) => f,
        Err(e) => {
            proof {
                if pure {
                    assert(values_outcome(stmt.values@, old(env).scopes@, values@));
                    assert(insert_refusal(*stmt, original.deep_view(), old(env).scopes@, e));
                    assert(!(forall|x: EvalError| !#[trigger] insert_refusal(*stmt, original.deep_view(), old(env).scopes@, x)));
                    assert(catalog_get(old(env).database.visible(), stmt.table@) == Some(original.deep_view()));
                    let tt = catalog_get(old(env).database.visible(), stmt.table@)->0;
                    assert(tt == original.deep_view());
                    assert(insert_refusal(*stmt, tt, old(env).scopes@, e));
                }
            }
            return Err(e);
        },
    };
    let ghost built = inserted;
    let old_row = Row::blank_from_schema(original.columns.as_slice()).values;
    let ghost env_b = *env;
    let before = fire_row_triggers(TriggerTiming::Before, TriggerEvent::Insert, name, &old_row, inserted, env, d)?;
    let ghost sc1 = env.scopes@;
    let ghost st1 = env.steps;
    let final_row = match normalize_row(name, &original, &before) {
        Ok(row) => row,
        Err(e) => {
            proof {
                if pure && no_row_triggers(*old(env), stmt.table@, TriggerEvent::Insert) && depth > 1 {
                    assert(values_outcome(stmt.values@, old(env).scopes@, values@));
                    assert(before == built);
                    assert(field_entries(built) == insert_entries(original.deep_view().columns, column_list(stmt.columns), values@));
                    assert(insert_refusal(*stmt, original.deep_view(), old(env).scopes@, e));
                    assert(!(forall|x: EvalError| !#[trigger] insert_refusal(*stmt, original.deep_view(), old(env).scopes@, x)));
                    assert(catalog_get(old(env).database.visible(), stmt.table@) == Some(original.deep_view()));
                    let tt = catalog_get(old(env).database.visible(), stmt.table@)->0;
                    assert(tt == original.deep_view());
                    assert(insert_refusal(*stmt, tt, old(env).scopes@, e));
                }
            }
            return Err(e);
        },
    };
    let new_values = final_row.values.clone();
    let mut final_table = original.clone();
    let ghost added = final_row.deep_view();
    final_table.push_row(final_row);
    let ghost final_table_view = final_table.deep_view();
    proof {
        assert(final_table.deep_view().rows.drop_last() =~= original.deep_view().rows);
    }
    match env.database.replace_table(name, final_table) {
        Ok(()) => {},
        Err(e) => {
            return Err(map_db_error(e));
        },
    }
    let ghost simple = depth > 1 && pure && no_row_triggers(*old(env), stmt.table@, TriggerEvent::Insert);
    proof {
        if simple {
            assert(catalog_get(old(env).database.visible(), stmt.table@) == Some(original.deep_view()));
            assert(catalog_get(env.database.visible(), stmt.table@) == Some(final_table_view));
        }
    }
    let ghost env_a = *env;
    match fire_row_triggers(TriggerTiming::After, TriggerEvent::Insert, name, &old_row, new_values, env, d) {
        Ok(_) => {
            proof {
                if pure && quiet_triggers(
                    matching_in(old(env).triggers.scopes@, stmt.table@, TriggerTiming::After, TriggerEvent::Insert),
                    depth - 4,
                ) && depth > 4 {
                    assert(env_b == *old(env));
                    assert(field_entries(built) == insert_entries(original.deep_view().columns, column_list(stmt.columns), values@));
                    assert(field_entries(old_row) == null_entries(original.deep_view().columns));
                    assert(values_outcome(stmt.values@, old(env).scopes@, values@));
                    assert(mark_inserted(values@, built, old_row, before, sc1, st1));
                    assert(catalog_get(env_a.database.visible(), stmt.table@) == Some(final_table_view));
                    assert(row_appended(original.deep_view(), before, env.database.visible(), stmt.table@));
                }
            }
            Ok(one())
        },
        Err(e) => {
            restore_table(name, &original, env);
            Err(e)
        },
    }
}

/// The table `table` in `after` is `t` with one more row, the fields `f`
/// stored in the table's column order.
pub open spec fn row_appended(t: TableView, f: Fields, after: Seq<(Seq<char>, TableView)>, table: Seq<char>) -> bool {
    catalog_get(after, table) matches Some(t2) && {
        &&& t2.columns == t.columns
        &&& t2.constraints == t.constraints
        &&& t2.rows.len() == t.rows.len() + 1
        &&& t2.rows.drop_last() == t.rows
        &&& t2.rows.last().schema == t.columns
        &&& field_entries(t2.rows.last().values) == entries_insert_all(
            Seq::empty(),
            column_names(t.columns),
            column_values(t.columns, field_entries(f)),
        )
    }
}

/// A marker, true of every argument, naming the values, rows and state of
/// an insert (see `crate::runtime::semantics::mark_run`).
pub open spec fn mark_inserted(
    vals: Seq<Value>,
    f0: Fields,
    ob: Fields,
    f1: Fields,
    sc1: Seq<Scope>,
    st1: u64,
) -> bool {
    true
}

/// `x` is the error of storing the fields `entries` in the table `table`
/// with `columns`: one of the fields names no column of the table, and `x`
/// names the first such field.
pub open spec fn unknown_field(columns: Seq<Column>, entries: Seq<(Seq<char>, Value)>, table: Seq<char>, x: EvalError) -> bool {
    let names = entries_keys(entries);
    let k = first_unknown(columns, names);
    k >= 0 && (x matches EvalError::ColumnNotFound { table: tn, column } && tn@ == table && column@ == names[k])
}

/// The `i`-th row of `t` gives `res` for an `UPDATE`: its `WHERE` test and
/// assignments evaluated in a scope of its own over `scopes`.
pub open spec fn row_update(
    stmt: UpdateStatement,
    t: TableView,
    scopes: Seq<Scope>,
    i: int,
    res: Result<Option<Fields>, EvalError>,
) -> bool {
    exists|sc: Seq<Scope>|
        #[trigger] row_scope(sc, scopes, field_entries(t.rows[i].values)) && assignment_result(
            stmt,
            field_entries(t.rows[i].values),
            sc,
            res,
        )
}

/// The row `new_row` that an `UPDATE` stores in place of `old_row` of `t`,
/// given its result `res`: the row itself when it did not match, else the
/// updated fields in the table's column order.
pub open spec fn stored_row(t: TableView, res: Result<Option<Fields>, EvalError>, old_row: RowView, new_row: RowView) -> bool {
    match res {
        Ok(None) => new_row == old_row,
        Ok(Some(f)) => new_row.schema == t.columns && field_entries(new_row.values) == entries_insert_all(
            Seq::empty(),
            column_names(t.columns),
            column_values(t.columns, field_entries(f)),
        ),
        Err(_) => false,
    }
}

/// One row of an `UPDATE` whose `BEFORE UPDATE` triggers are `ts`, the row
/// `old_row` giving `res`: a matching row's updated fields go through the
/// triggers (`OLD` the row, `NEW` the updated fields) and what they leave in
/// `NEW` is stored; a row that does not match stays as it is.
pub open spec fn trig_step(
    t: TableView,
    ts: Seq<Rc<TriggerDeclaration>>,
    d: int,
    res: Result<Option<Fields>, EvalError>,
    old_row: RowView,
    fired: Fields,
    new_row: RowView,
    sc: Seq<Scope>,
    st: u64,
    sc2: Seq<Scope>,
    st2: u64,
) -> bool {
    match res {
        Ok(Some(f)) => fire_sem(ts, old_row.values, f, d, sc, st, sc2, st2, Ok(fired)) && stored_row(
            t,
            Ok(Some(fired)),
            old_row,
            new_row,
        ),
        Ok(None) => sc2 == sc && st2 == st && new_row == old_row,
        Err(_) => false,
    }
}

/// The first rows of `t`, as many as `res` holds, were updated in turn with
/// the `BEFORE UPDATE` triggers `ts`: the `i`-th tested and assigned in the
/// scopes `ss[i]` with `sts[i]` steps left, giving `res[i]`, the triggers
/// leaving `fired[i]`, and the row becoming `rows[i]`.
pub open spec fn update_trig_rows(
    stmt: UpdateStatement,
    t: TableView,
    ts: Seq<Rc<TriggerDeclaration>>,
    d: int,
    ss: Seq<Seq<Scope>>,
    sts: Seq<u64>,
    res: Seq<Result<Option<Fields>, EvalError>>,
    fired: Seq<Fields>,
    rows: Seq<RowView>,
) -> bool {
    &&& ss.len() == res.len() + 1
    &&& sts.len() == res.len() + 1
    &&& fired.len() == res.len()
    &&& rows.len() == res.len()
    &&& res.len() <= t.rows.len()
    &&& forall|i: int|
        0 <= i < res.len() ==> #[trigger] row_update(stmt, t, ss[i], i, res[i]) && trig_step(
            t,
            ts,
            d,
            res[i],
            t.rows[i],
            fired[i],
            rows[i],
            ss[i],
            sts[i],
            ss[i + 1],
            sts[i + 1],
        )
}

/// The rows of `res` that matched.
pub open spec fn count_matched(res: Seq<Result<Option<Fields>, EvalError>>) -> nat
    decreases res.len(),
{
    if res.len() == 0 {
        0
    } else {
        count_matched(res.drop_last()) + if res.last() matches Ok(Some(_)) {
            1nat
        } else {
            0nat
        }
    }
}

/// The first rows of `t`, as many as `res` holds, gave the results `res`
/// and become `rows`.
pub open spec fn update_rows(
    stmt: UpdateStatement,
    t: TableView,
    scopes: Seq<Scope>,
    res: Seq<Result<Option<Fields>, EvalError>>,
    rows: Seq<RowView>,
) -> bool {
    &&& res.len() == rows.len()
    &&& res.len() <= t.rows.len()
    &&& forall|i: int|
        0 <= i < res.len() ==> #[trigger] row_update(stmt, t, scopes, i, res[i]) && stored_row(
            t,
            res[i],
            t.rows[i],
            rows[i],
        )
}

/// What an `UPDATE` of the table `t` without row triggers gives, its rows
/// tested and assigned in scopes over `scopes`: on success the number of
/// matching rows, each stored as updated and the others kept, in order, and
/// no other table changed; else the error of the first row that fails, or
/// of an updated row with a field the table lacks, with nothing changed.
pub open spec fn update_outcome(
    stmt: UpdateStatement,
    t: TableView,
    scopes: Seq<Scope>,
    before: Seq<(Seq<char>, TableView)>,
    after: Seq<(Seq<char>, TableView)>,
    r: Result<Value, EvalError>,
) -> bool {
    match r {
        Ok(v) => exists|res: Seq<Result<Option<Fields>, EvalError>>, rows: Seq<RowView>|
            #[trigger] update_rows(stmt, t, scopes, res, rows) && res.len() == t.rows.len() && (v matches Value::Number(
                x,
            ) && x.denotes(count_matched(res) as int, 1)) && catalog_get(after, stmt.table@) == Some(
                TableView { columns: t.columns, constraints: t.constraints, rows },
            ) && same_except(before, after, stmt.table@),
        Err(x) => exists|res: Seq<Result<Option<Fields>, EvalError>>, rows: Seq<RowView>|
            #[trigger] update_rows(stmt, t, scopes, res, rows) && {
                ||| after == before && res.len() < t.rows.len() && row_update(stmt, t, scopes, res.len() as int, Err(x))
                ||| after == before && res.len() < t.rows.len() && exists|f: Fields|
                    #[trigger] row_update(stmt, t, scopes, res.len() as int, Ok(Some(f))) && unknown_field(
                        t.columns,
                        field_entries(f),
                        stmt.table@,
                        x,
                    )
                ||| res.len() == t.rows.len() && count_matched(res) > i64::MAX && x is NumericOverflow
            },
    }
}

/// `UPDATE t SET ... [WHERE ...]`: every assigned column must exist; each
/// matching row takes the assigned values (evaluated with the row's fields
/// as variables), goes through the `BEFORE UPDATE` triggers and is checked
/// against the columns; the rows are stored, then the `AFTER UPDATE`
/// triggers run for each changed row, and when one fails the table is put
/// back. Gives the number of rows changed.
#[verifier::rlimit(40)]
pub fn execute_update(stmt: &UpdateStatement, env: &mut Environment, depth: u32) -> (r: Result<Value, EvalError>)
    requires
        ready(*old(env)),
    ensures
        kept(*old(env), *final(env)),
        depth > 2 && filter_pure(stmt.where_clause, assigned_values(*stmt), depth - 2) && matching_in(
            old(env).triggers.scopes@,
            stmt.table@,
            TriggerTiming::Before,
            TriggerEvent::Update,
        ).len() == 0 ==> (catalog_get(old(env).database.visible(), stmt.table@) matches Some(t) ==> (r is Err && t.rows.len()
            <= i64::MAX ==> (catalog_get(final(env).database.visible(), stmt.table@) == Some(t) || catalog_get(
            final(env).database.visible(),
            stmt.table@,
        ) is None))),
        depth > 0 && catalog_get(old(env).database.visible(), stmt.table@) is None ==> (r matches Err(
            EvalError::TableNotFound(n),
        ) && n@ == stmt.table@ && *final(env) == *old(env)),
        depth > 0 ==> (catalog_get(old(env).database.visible(), stmt.table@) matches Some(t) ==> (first_unknown(
            t.columns,
            assigned_columns(*stmt),
        ) >= 0 ==> (r matches Err(EvalError::ColumnNotFound { table, column }) && table@ == stmt.table@
            && column@ == assigned_columns(*stmt)[first_unknown(t.columns, assigned_columns(*stmt))]
            && *final(env) == *old(env)))),
        depth > 1 && stmt.where_clause is None && all_pure(assigned_values(*stmt), depth - 3) && no_row_triggers(
            *old(env),
            stmt.table@,
            TriggerEvent::Update,
        ) ==> (r matches Ok(v) ==> {
            &&& catalog_get(old(env).database.visible(), stmt.table@) matches Some(t)
            &&& v matches Value::Number(x) && x.denotes(t.rows.len() as int, 1)
            &&& catalog_get(final(env).database.visible(), stmt.table@) matches Some(t2)
            &&& t2.columns == t.columns
            &&& t2.constraints == t.constraints
            &&& t2.rows.len() == t.rows.len()
            &&& same_except(old(env).database.visible(), final(env).database.visible(), stmt.table@)
        }),
        depth > 2 && filter_pure(stmt.where_clause, assigned_values(*stmt), depth - 2) && no_row_triggers(
            *old(env),
            stmt.table@,
            TriggerEvent::Update,
        ) ==> (catalog_get(old(env).database.visible(), stmt.table@) matches Some(t) ==> (first_unknown(
            t.columns,
            assigned_columns(*stmt),
        ) < 0 ==> update_outcome(
            *stmt,
            t,
            old(env).scopes@,
            old(env).database.visible(),
            final(env).database.visible(),
            r,
        ))),
        depth > 2 && filter_pure(stmt.where_clause, assigned_values(*stmt), depth - 2) && depth > 3 && quiet_triggers(
            matching_in(old(env).triggers.scopes@, stmt.table@, TriggerTiming::After, TriggerEvent::Update),
            depth - 4,
        ) ==> (catalog_get(old(env).database.visible(), stmt.table@) matches Some(t) ==> (first_unknown(
            t.columns,
            assigned_columns(*stmt),
        ) < 0 ==> (r matches Ok(v) ==> exists|
            ss: Seq<Seq<Scope>>,
            sts: Seq<u64>,
            res: Seq<Result<Option<Fields>, EvalError>>,
            fired: Seq<Fields>,
            rows: Seq<RowView>,
        |
            #![trigger update_trig_rows(*stmt, t, matching_in(old(env).triggers.scopes@, stmt.table@, TriggerTiming::Before, TriggerEvent::Update), depth - 1, ss, sts, res, fired, rows)]
            update_trig_rows(
                *stmt,
                t,
                matching_in(old(env).triggers.scopes@, stmt.table@, TriggerTiming::Before, TriggerEvent::Update),
                depth - 1,
                ss,
                sts,
                res,
                fired,
                rows,
            ) && ss[0] == old(env).scopes@ && sts[0] == old(env).steps && res.len() == t.rows.len() && (v matches Value::Number(
                x,
            ) && x.denotes(count_matched(res) as int, 1)) && catalog_get(final(env).database.visible(), stmt.table@)
                == Some(TableView { columns: t.columns, constraints: t.constraints, rows })))),
    decreases depth,
{
    let d = deeper(depth)?;
    let ghost nb = depth > 2 && filter_pure(stmt.where_clause, assigned_values(*stmt), depth - 2) && matching_in(
        old(env).triggers.scopes@,
        stmt.table@,
        TriggerTiming::Before,
        TriggerEvent::Update,
    ).len() == 0;
    let ghost trig = depth > 2 && filter_pure(stmt.where_clause, assigned_values(*stmt), depth - 2) && depth > 3 && quiet_triggers(
        matching_in(old(env).triggers.scopes@, stmt.table@, TriggerTiming::After, TriggerEvent::Update),
        depth - 4,
    );
    let ghost tsb = matching_in(old(env).triggers.scopes@, stmt.table@, TriggerTiming::Before, TriggerEvent::Update);
    let ghost plain = depth > 2 && filter_pure(stmt.where_clause, assigned_values(*stmt), depth - 2) && no_row_triggers(
        *old(env),
        stmt.table@,
        TriggerEvent::Update,
    );
    let ghost simple = depth > 1 && stmt.where_clause is None && all_pure(assigned_values(*stmt), depth - 3)
        && no_row_triggers(*old(env), stmt.table@, TriggerEvent::Update);
    let name = stmt.table.as_str();
    let original = match env.database.table(name) {
        Some(t) => t,
        None => {
            return Err(EvalError::TableNotFound(stmt.table.clone()));
        },
    };
    let ghost names = assigned_columns(*stmt);
    proof {
        lemma_first_unknown(original.deep_view().columns, names);
    }
    let mut a: usize = 0;
    while a < stmt.assignments.len()
        invariant
            *env == *old(env),
            ready(*env),
            a <= stmt.assignments@.len(),
            names == assigned_columns(*stmt),
            catalog_get(old(env).database.visible(), stmt.table@) == Some(original.deep_view()),
            first_unknown(original.deep_view().columns, names) < 0 || a <= first_unknown(
                original.deep_view().columns,
                names,
            ),
            -1 <= first_unknown(original.deep_view().columns, names) < names.len(),
            first_unknown(original.deep_view().columns, names) >= 0 ==> !crate::db::table::has_column_spec(
                original.deep_view().columns,
                names[first_unknown(original.deep_view().columns, names)],
            ),
            forall|i: int|
                0 <= i < names.len() && (first_unknown(original.deep_view().columns, names) < 0 || i
                    < first_unknown(original.deep_view().columns, names)) ==> crate::db::table::has_column_spec(
                    original.deep_view().columns,
                    #[trigger] names[i],
                ),
        decreases stmt.assignments@.len() - a,
    {
        assert(names[a as int] == stmt.assignments@[a as int].column@);
        if !original.has_column(&stmt.assignments[a].column) {
            return Err(
                EvalError::ColumnNotFound { table: stmt.table.clone(), column: stmt.assignments[a].column.clone() },
            );
        }
        a += 1;
    }
    assert(first_unknown(original.deep_view().columns, assigned_columns(*stmt)) < 0);
    let mut changed: Vec<(Fields, Fields)> = Vec::new();
    let mut updated: Vec<Row> = Vec::new();
    let mut i: usize = 0;
    let ghost tv = original.deep_view();
    let ghost mut res_g: Seq<Result<Option<Fields>, EvalError>> = Seq::empty();
    let ghost mut ss_g: Seq<Seq<Scope>> = seq![env.scopes@];
    let ghost mut st_g: Seq<u64> = seq![env.steps];
    let ghost mut res_t: Seq<Result<Option<Fields>, EvalError>> = Seq::empty();
    let ghost mut fired_g: Seq<Fields> = Seq::empty();
    while i < original.rows.len()
        invariant
            nb == (depth > 2 && filter_pure(stmt.where_clause, assigned_values(*stmt), depth - 2) && matching_in(
                old(env).triggers.scopes@,
                stmt.table@,
                TriggerTiming::Before,
                TriggerEvent::Update,
            ).len() == 0),
            nb ==> env.database == old(env).database && env.triggers.scopes@ == old(env).triggers.scopes@,
            trig == (depth > 2 && filter_pure(stmt.where_clause, assigned_values(*stmt), depth - 2) && depth > 3 && quiet_triggers(
                matching_in(old(env).triggers.scopes@, stmt.table@, TriggerTiming::After, TriggerEvent::Update),
                depth - 4,
            )),
            tsb == matching_in(old(env).triggers.scopes@, stmt.table@, TriggerTiming::Before, TriggerEvent::Update),
            trig ==> env.triggers.scopes@ == old(env).triggers.scopes@ && res_t.len() == i && update_trig_rows(
                *stmt,
                tv,
                tsb,
                d as int,
                ss_g,
                st_g,
                res_t,
                fired_g,
                updated.deep_view(),
            ) && ss_g[0] == old(env).scopes@ && st_g[0] == old(env).steps && ss_g.last() == env.scopes@ && st_g.last()
                == env.steps && changed@.len() == count_matched(res_t),
            tv == original.deep_view(),
            plain == (depth > 2 && filter_pure(stmt.where_clause, assigned_values(*stmt), depth - 2) && no_row_triggers(
                *old(env),
                stmt.table@,
                TriggerEvent::Update,
            )),
            plain ==> env.scopes@ == old(env).scopes@ && env.database == old(env).database
                && env.triggers.scopes@ == old(env).triggers.scopes@ && res_g.len() == i && update_rows(
                *stmt,
                tv,
                old(env).scopes@,
                res_g,
                updated.deep_view(),
            ) && changed@.len() == count_matched(res_g),
            ready(*env),
            kept(*old(env), *env),
            d < depth,
            i <= original.rows@.len(),
            changed@.len() <= i,
            catalog_get(old(env).database.visible(), stmt.table@) == Some(original.deep_view()),
            first_unknown(original.deep_view().columns, assigned_columns(*stmt)) < 0,
            name@ == stmt.table@,
            d == depth - 1,
            simple == (depth > 1 && stmt.where_clause is None && all_pure(assigned_values(*stmt), depth - 3)
                && no_row_triggers(*old(env), stmt.table@, TriggerEvent::Update)),
            simple ==> env.database == old(env).database && env.triggers.scopes@ == old(env).triggers.scopes@
                && changed@.len() == i && updated@.len() == i,
        decreases original.rows@.len() - i,
    {
        let row = &original.rows[i];
        let ghost rows_before = updated.deep_view();
        assert(tv.rows[i as int] == row.deep_view());
        let ghost res_before = res_g;
        let ghost sc_i = env.scopes@;
        let ghost st_i = env.steps;
        let u = updated_fields(stmt, &row.values, env, d);
        assert(trig ==> row_update(*stmt, tv, sc_i, i as int, u)) by {
            if trig {
                let sc = choose|sc: Seq<Scope>| #[trigger] assignment_result(*stmt, field_entries(row.values), sc, u) && row_scope(
                    sc,
                    sc_i,
                    field_entries(row.values),
                );
                assert(row_scope(sc, sc_i, field_entries(tv.rows[i as int].values)));
            }
        }
        let ghost mut fired_i: Fields = row.values;
        assert(plain ==> row_update(*stmt, tv, old(env).scopes@, i as int, u)) by {
            if plain {
                let sc = choose|sc: Seq<Scope>| #[trigger] assignment_result(*stmt, field_entries(row.values), sc, u) && row_scope(
                    sc,
                    old(env).scopes@,
                    field_entries(row.values),
                );
                assert(row_scope(sc, old(env).scopes@, field_entries(tv.rows[i as int].values)));
            }
        }
        match u {
            Err(e) => {
                assert(plain ==> update_rows(*stmt, tv, old(env).scopes@, res_g, rows_before));
                return Err(e);
            },
            Ok(Some(fields)) => {
                let ghost f0 = fields;
                let fields = fire_row_triggers(
                    TriggerTiming::Before,
                    TriggerEvent::Update,
                    name,
                    &row.values,
                    fields,
                    env,
                    d,
                )?;
                assert(plain ==> fields == f0);
                proof {
                    fired_i = fields;
                    if trig {
                        assert(fire_sem(tsb, tv.rows[i as int].values, f0, d as int, sc_i, st_i, env.scopes@, env.steps, Ok(fields)));
                    }
                }
                let new_row = match normalize_row(name, &original, &fields) {
                    Ok(nr) => nr,
                    Err(e) => {
                        assert(plain ==> update_rows(*stmt, tv, old(env).scopes@, res_g, rows_before));
                        return Err(e);
                    },
                };
                proof {
                    if plain {
                        assert(stored_row(tv, u, tv.rows[i as int], new_row.deep_view()));
                    }
                    if trig {
                        assert(trig_step(tv, tsb, d as int, u, tv.rows[i as int], fired_i, new_row.deep_view(), sc_i, st_i, env.scopes@, env.steps));
                    }
                }
                changed.push((row.values.clone(), new_row.values.clone()));
                updated.push(new_row);
            },
            Ok(None) => {
                let c = row.clone();
                assert(stored_row(tv, u, tv.rows[i as int], c.deep_view()));
                assert(trig ==> trig_step(tv, tsb, d as int, u, tv.rows[i as int], fired_i, c.deep_view(), sc_i, st_i, env.scopes@, env.steps));
                updated.push(c);
            },
        }
        proof {
            if trig {
                let nres = res_t.push(u);
                let nss = ss_g.push(env.scopes@);
                let nst = st_g.push(env.steps);
                let nfi = fired_g.push(fired_i);
                assert(updated.deep_view() =~= rows_before.push(updated@[i as int].deep_view()));
                assert(nres.drop_last() =~= res_t);
                assert forall|k: int| 0 <= k < nres.len() implies #[trigger] row_update(*stmt, tv, nss[k], k, nres[k])
                    && trig_step(
                    tv,
                    tsb,
                    d as int,
                    nres[k],
                    tv.rows[k],
                    nfi[k],
                    updated.deep_view()[k],
                    nss[k],
                    nst[k],
                    nss[k + 1],
                    nst[k + 1],
                ) by {
                    if k < i {
                        assert(nres[k] == res_t[k] && nss[k] == ss_g[k] && nss[k + 1] == ss_g[k + 1] && nst[k] == st_g[k]
                            && nst[k + 1] == st_g[k + 1] && nfi[k] == fired_g[k]);
                        assert(updated.deep_view()[k] == rows_before[k]);
                        assert(row_update(*stmt, tv, ss_g[k], k, res_t[k]));
                    } else {
                        assert(nres[k] == u && nss[k] == sc_i && nss[k + 1] == env.scopes@ && nst[k] == st_i);
                        assert(updated.deep_view()[k] == updated@[i as int].deep_view());
                    }
                }
                res_t = nres;
                ss_g = nss;
                st_g = nst;
                fired_g = nfi;
            }
        }
        proof {
            if plain {
                assert(stored_row(tv, u, tv.rows[i as int], updated@[i as int].deep_view()));
                let nres = res_g.push(u);
                assert(nres.drop_last() =~= res_g);
                assert(updated.deep_view() =~= rows_before.push(updated@[i as int].deep_view()));
                assert forall|k: int| 0 <= k < nres.len() implies #[trigger] row_update(*stmt, tv, old(env).scopes@, k, nres[k])
                    && stored_row(tv, nres[k], tv.rows[k], updated.deep_view()[k]) by {
                    if k < i {
                        assert(nres[k] == res_g[k]);
                        assert(updated.deep_view()[k] == rows_before[k]);
                        assert(row_update(*stmt, tv, old(env).scopes@, k, res_g[k]));
                    } else {
                        assert(nres[k] == u);
                        assert(updated.deep_view()[k] == updated@[i as int].deep_view());
                    }
                }
                res_g = nres;
            }
        }
        i += 1;
    }
    let mut final_table = original.clone();
    final_table.set_rows(updated);
    let ghost final_view = final_table.deep_view();
    assert(final_view.rows.len() == final_table.rows@.len());
    match env.database.replace_table(name, final_table) {
        Ok(()) => {},
        Err(e) => {
            return Err(map_db_error(e));
        },
    }
    let mut k: usize = 0;
    while k < changed.len()
        invariant
            ready(*env),
            kept(*old(env), *env),
            d < depth,
            k <= changed@.len(),
            catalog_get(old(env).database.visible(), stmt.table@) == Some(original.deep_view()),
            first_unknown(original.deep_view().columns, assigned_columns(*stmt)) < 0,
            name@ == stmt.table@,
            d == depth - 1,
            simple == (depth > 1 && stmt.where_clause is None && all_pure(assigned_values(*stmt), depth - 3)
                && no_row_triggers(*old(env), stmt.table@, TriggerEvent::Update)),
            simple ==> env.triggers.scopes@ == old(env).triggers.scopes@ && changed@.len()
                == original.rows@.len(),
            simple ==> catalog_get(env.database.visible(), stmt.table@) == Some(final_view),
            simple ==> final_view.rows.len() == original.deep_view().rows.len() && final_view.columns
                == original.deep_view().columns && final_view.constraints == original.deep_view().constraints,
            simple ==> same_except(old(env).database.visible(), env.database.visible(), stmt.table@),
            plain == (depth > 2 && filter_pure(stmt.where_clause, assigned_values(*stmt), depth - 2) && no_row_triggers(
                *old(env),
                stmt.table@,
                TriggerEvent::Update,
            )),
            plain ==> env.triggers.scopes@ == old(env).triggers.scopes@ && res_g.len() == tv.rows.len() && update_rows(
                *stmt,
                tv,
                old(env).scopes@,
                res_g,
                final_view.rows,
            ) && changed@.len() == count_matched(res_g) && env.scopes@ == old(env).scopes@,
            plain ==> catalog_get(env.database.visible(), stmt.table@) == Some(final_view),
            plain ==> final_view.columns == tv.columns && final_view.constraints == tv.constraints,
            plain ==> same_except(old(env).database.visible(), env.database.visible(), stmt.table@),
            tv == original.deep_view(),
            trig == (depth > 2 && filter_pure(stmt.where_clause, assigned_values(*stmt), depth - 2) && depth > 3 && quiet_triggers(
                matching_in(old(env).triggers.scopes@, stmt.table@, TriggerTiming::After, TriggerEvent::Update),
                depth - 4,
            )),
            tsb == matching_in(old(env).triggers.scopes@, stmt.table@, TriggerTiming::Before, TriggerEvent::Update),
            trig ==> env.triggers.scopes@ == old(env).triggers.scopes@ && res_t.len() == tv.rows.len() && update_trig_rows(
                *stmt,
                tv,
                tsb,
                d as int,
                ss_g,
                st_g,
                res_t,
                fired_g,
                final_view.rows,
            ) && ss_g[0] == old(env).scopes@ && st_g[0] == old(env).steps && changed@.len() == count_matched(res_t),
            trig ==> catalog_get(env.database.visible(), stmt.table@) == Some(final_view),
            final_view.columns == tv.columns && final_view.constraints == tv.constraints,
        decreases changed@.len() - k,
    {
        let (old_fields, new_fields) = &changed[k];
        match fire_row_triggers(TriggerTiming::After, TriggerEvent::Update, name, old_fields, new_fields.clone(), env, d) {
            Ok(_) => {},
            Err(e) => {
                restore_table(name, &original, env);
                return Err(e);
            },
        }
        k += 1;
    }
    let r = count_value(changed.len());
    proof {
        if plain {
            assert(final_view == TableView { columns: tv.columns, constraints: tv.constraints, rows: final_view.rows });
            assert(update_rows(*stmt, tv, old(env).scopes@, res_g, final_view.rows));
        }
    }
    r
}

/// The fields of a row after an `UPDATE`'s assignments, when its `WHERE`
/// condition holds; the row's fields are variables of a scope of their own.
fn updated_fields(stmt: &UpdateStatement, row: &Fields, env: &mut Environment, depth: u32) -> (r: Result<
    Option<Fields>,
    EvalError,
>)
    requires
        ready(*old(env)),
    ensures
        kept(*old(env), *final(env)),
        stmt.where_clause is None ==> (r matches Ok(o) ==> o is Some),
        stmt.where_clause is None && all_pure(assigned_values(*stmt), depth - 2) ==> final(env).database
            == old(env).database && final(env).triggers.scopes@ == old(env).triggers.scopes@,
        depth > 1 && filter_pure(stmt.where_clause, assigned_values(*stmt), depth - 1) ==> exists|sc: Seq<Scope>|
            #[trigger] assignment_result(*stmt, field_entries(*row), sc, r) && row_scope(
                sc,
                old(env).scopes@,
                field_entries(*row),
            ),
        depth > 1 && filter_pure(stmt.where_clause, assigned_values(*stmt), depth - 1) ==> final(env).scopes@
            == old(env).scopes@ && final(env).database == old(env).database && final(env).triggers.scopes@
            == old(env).triggers.scopes@ && final(env).steps == old(env).steps,
    decreases depth,
{
    let d = deeper(depth)?;
    env.push_scope();
    let ghost pushed = env.scopes@;
    assert(keyed(pushed.last().vars@) =~= Seq::<(Seq<char>, Value)>::empty());
    assert(pushed.drop_last() =~= old(env).scopes@);
    bind_row(row, env);
    let ghost sc = env.scopes@;
    assert(row_scope(sc, old(env).scopes@, field_entries(*row)));
    let r = assigned_in_scope(stmt, row, env, d);
    env.pop_scope();
    r
}

/// The `WHERE` test and assignments of an `UPDATE`, in the row's scope.
fn assigned_in_scope(stmt: &UpdateStatement, row: &Fields, env: &mut Environment, depth: u32) -> (r: Result<
    Option<Fields>,
    EvalError,
>)
    requires
        ready(*old(env)),
    ensures
        kept(*old(env), *final(env)),
        stmt.where_clause is None ==> (r matches Ok(o) ==> o is Some),
        stmt.where_clause is None && all_pure(assigned_values(*stmt), depth - 1) ==> *final(env) == *old(env),
        depth > 0 && filter_pure(stmt.where_clause, assigned_values(*stmt), depth as int) ==> *final(env) == *old(
            env,
        ) && assignment_result(*stmt, field_entries(*row), old(env).scopes@, r),
    decreases depth,
{
    let d = deeper(depth)?;
    let ghost pure = filter_pure(stmt.where_clause, assigned_values(*stmt), depth as int);
    match &stmt.where_clause {
        Some(w) => {
            if !evaluate_condition(w, env, d, "WHERE clause must be BOOLEAN, got ")? {
                return Ok(None);
            }
        },
        None => {},
    }
    let mut values: Vec<Value> = Vec::new();
    let mut i: usize = 0;
    while i < stmt.assignments.len()
        invariant
            ready(*env),
            kept(*old(env), *env),
            d < depth,
            d == depth - 1,
            i <= stmt.assignments@.len(),
            values@.len() == i,
            stmt.where_clause is None && all_pure(assigned_values(*stmt), depth - 1) ==> *env == *old(env),
            pure == filter_pure(stmt.where_clause, assigned_values(*stmt), depth as int),
            pure ==> *env == *old(env),
            pure ==> filter_passes(stmt.where_clause, old(env).scopes@, where_prefix()),
            pure ==> forall|k: int|
                0 <= k < i ==> pure_outcome(#[trigger] assigned_values(*stmt)[k], old(env).scopes@, succeeded(values@[k])),
        decreases stmt.assignments@.len() - i,
    {
        proof {
            assert(assigned_values(*stmt)[i as int] == stmt.assignments@[i as int].value);
        }
        let v = match eval_at(&stmt.assignments[i].value, env, d) {
            Ok(v) => v,
            Err(e) => {
                assert(pure ==> pure_outcome(assigned_values(*stmt)[i as int], old(env).scopes@, Err(e)));
                return Err(e);
            },
        };
        let ghost before = values@;
        values.push(v);
        proof {
            if pure {
                assert forall|k: int| 0 <= k < i + 1 implies pure_outcome(
                    #[trigger] assigned_values(*stmt)[k],
                    old(env).scopes@,
                    succeeded(values@[k]),
                ) by {
                    if k < i {
                        assert(values@[k] == before[k]);
                    }
                }
            }
        }
        i += 1;
    }
    let ghost names = assigned_columns(*stmt);
    let ghost vals = values@;
    proof {
        if pure {
            assert(values_outcome(assigned_values(*stmt), old(env).scopes@, vals));
        }
        assert(names.skip(0) =~= names);
        assert(vals.skip(0) =~= vals);
    }
    let mut fields = row.clone();
    let mut k: usize = 0;
    while k < values.len()
        invariant
            k <= values@.len(),
            values@.len() == stmt.assignments@.len(),
            names == assigned_columns(*stmt),
            vals == values@,
            entries_insert_all(field_entries(*row), names, vals) == entries_insert_all(
                field_entries(fields),
                names.skip(k as int),
                vals.skip(k as int),
            ),
        decreases values@.len() - k,
    {
        proof {
            assert(names.skip(k as int)[0] == stmt.assignments@[k as int].column@);
            assert(vals.skip(k as int)[0] == values@[k as int]);
            assert(names.skip(k as int).drop_first() =~= names.skip(k + 1));
            assert(vals.skip(k as int).drop_first() =~= vals.skip(k + 1));
        }
        fields_insert(&mut fields, stmt.assignments[k].column.clone(), values[k].clone());
        k += 1;
    }
    assert(names.skip(k as int).len() == 0);
    Ok(Some(fields))
}

/// The `i`-th row of `t` gives `res` for a `DELETE` with the condition
/// `w`: no condition matches every row, else the condition is tested in a
/// scope of its own over `scopes`.
pub open spec fn row_delete(w: Option<Expr>, t: TableView, scopes: Seq<Scope>, i: int, res: Result<bool, EvalError>) -> bool {
    match w {
        None => res == Ok::<bool, EvalError>(true),
        Some(c) => exists|sc: Seq<Scope>|
            #[trigger] row_scope(sc, scopes, field_entries(t.rows[i].values)) && condition_outcome(
                c,
                sc,
                where_prefix(),
                res,
            ),
    }
}

/// The rows among the first of `rows` that `res` did not match, in order.
pub open spec fn rows_kept(rows: Seq<RowView>, res: Seq<Result<bool, EvalError>>) -> Seq<RowView>
    decreases res.len(),
{
    if res.len() == 0 {
        Seq::empty()
    } else {
        rows_kept(rows, res.drop_last()) + if res.last() == Ok::<bool, EvalError>(false) {
            seq![rows[res.len() - 1]]
        } else {
            Seq::empty()
        }
    }
}

/// The first rows of `t`, as many as `res` holds, were tested in turn for
/// a `DELETE` with the condition `w` and the `BEFORE DELETE` triggers `ts`:
/// the `i`-th tested in the scopes `ss[i]` with `sts[i]` steps left; a
/// matching row goes through the triggers (`OLD` the row, `NEW` the all-NULL
/// row `blank`), which may not fail.
pub open spec fn delete_trig_rows(
    w: Option<Expr>,
    t: TableView,
    ts: Seq<Rc<TriggerDeclaration>>,
    d: int,
    blank: Fields,
    ss: Seq<Seq<Scope>>,
    sts: Seq<u64>,
    res: Seq<Result<bool, EvalError>>,
) -> bool {
    &&& ss.len() == res.len() + 1
    &&& sts.len() == res.len() + 1
    &&& res.len() <= t.rows.len()
    &&& forall|i: int|
        0 <= i < res.len() ==> #[trigger] row_delete(w, t, ss[i], i, res[i]) && match res[i] {
            Ok(true) => exists|f: Fields|
                #[trigger] fire_sem(ts, t.rows[i].values, blank, d, ss[i], sts[i], ss[i + 1], sts[i + 1], Ok(f)),
            Ok(false) => ss[i + 1] == ss[i] && sts[i + 1] == sts[i],
            Err(_) => false,
        }
}

/// The rows that `res` matched.
pub open spec fn count_deleted(res: Seq<Result<bool, EvalError>>) -> nat
    decreases res.len(),
{
    if res.len() == 0 {
        0
    } else {
        count_deleted(res.drop_last()) + if res.last() == Ok::<bool, EvalError>(true) {
            1nat
        } else {
            0nat
        }
    }
}

/// The first rows of `t`, as many as `res` holds, were tested and gave `res`.
pub open spec fn delete_tested(w: Option<Expr>, t: TableView, scopes: Seq<Scope>, res: Seq<Result<bool, EvalError>>) -> bool {
    &&& res.len() <= t.rows.len()
    &&& forall|i: int| 0 <= i < res.len() ==> #[trigger] row_delete(w, t, scopes, i, res[i]) && res[i] is Ok
}

/// What a `DELETE` from the table `t` without row triggers gives: on success
/// the number of matching rows, the table keeping the other rows in order
/// and no other table changed; else the error of the first row whose test
/// fails, with nothing changed.
pub open spec fn delete_outcome(
    stmt: DeleteStatement,
    t: TableView,
    scopes: Seq<Scope>,
    before: Seq<(Seq<char>, TableView)>,
    after: Seq<(Seq<char>, TableView)>,
    r: Result<Value, EvalError>,
) -> bool {
    match r {
        Ok(v) => exists|res: Seq<Result<bool, EvalError>>|
            #[trigger] delete_tested(stmt.where_clause, t, scopes, res) && res.len() == t.rows.len() && (v matches Value::Number(
                x,
            ) && x.denotes(count_deleted(res) as int, 1)) && catalog_get(after, stmt.table@) == Some(
                TableView { columns: t.columns, constraints: t.constraints, rows: rows_kept(t.rows, res) },
            ) && same_except(before, after, stmt.table@),
        Err(x) => exists|res: Seq<Result<bool, EvalError>>|
            #[trigger] delete_tested(stmt.where_clause, t, scopes, res) && {
                ||| after == before && res.len() < t.rows.len() && row_delete(
                    stmt.where_clause,
                    t,
                    scopes,
                    res.len() as int,
                    Err(x),
                )
                ||| res.len() == t.rows.len() && count_deleted(res) > i64::MAX && x is NumericOverflow
            },
    }
}

/// `DELETE FROM t [WHERE ...]`: each matching row goes through the
/// `BEFORE DELETE` triggers (with `NEW` all NULL) and is removed; the
/// `AFTER DELETE` triggers then run for each removed row, and when one fails
/// the table is put back. Gives the number of rows removed.
#[verifier::rlimit(90)]
#[verifier::spinoff_prover]
pub fn execute_delete(stmt: &DeleteStatement, env: &mut Environment, depth: u32) -> (r: Result<Value, EvalError>)
    requires
        ready(*old(env)),
    ensures
        kept(*old(env), *final(env)),
        depth > 2 && filter_pure(stmt.where_clause, Seq::empty(), depth - 1) && matching_in(
            old(env).triggers.scopes@,
            stmt.table@,
            TriggerTiming::Before,
            TriggerEvent::Delete,
        ).len() == 0 ==> (catalog_get(old(env).database.visible(), stmt.table@) matches Some(t) ==> (r is Err && t.rows.len()
            <= i64::MAX ==> (catalog_get(final(env).database.visible(), stmt.table@) == Some(t) || catalog_get(
            final(env).database.visible(),
            stmt.table@,
        ) is None))),
        depth > 0 && catalog_get(old(env).database.visible(), stmt.table@) is None ==> (r matches Err(
            EvalError::TableNotFound(n),
        ) && n@ == stmt.table@ && *final(env) == *old(env)),
        depth > 1 && stmt.where_clause is None && no_row_triggers(*old(env), stmt.table@, TriggerEvent::Delete) ==> (
        catalog_get(old(env).database.visible(), stmt.table@) matches Some(t) ==> {
            &&& r matches Ok(v) ==> (v matches Value::Number(x) && x.denotes(t.rows.len() as int, 1))
            &&& t.rows.len() <= i64::MAX ==> r is Ok
            &&& catalog_get(final(env).database.visible(), stmt.table@) == Some(
                TableView { rows: Seq::empty(), ..t },
            )
            &&& same_except(old(env).database.visible(), final(env).database.visible(), stmt.table@)
        }),
        depth > 2 && filter_pure(stmt.where_clause, Seq::empty(), depth - 1) && no_row_triggers(
            *old(env),
            stmt.table@,
            TriggerEvent::Delete,
        ) ==> (catalog_get(old(env).database.visible(), stmt.table@) matches Some(t) ==> delete_outcome(
            *stmt,
            t,
            old(env).scopes@,
            old(env).database.visible(),
            final(env).database.visible(),
            r,
        )),
        depth > 2 && filter_pure(stmt.where_clause, Seq::empty(), depth - 1) && depth > 3 && quiet_triggers(
            matching_in(old(env).triggers.scopes@, stmt.table@, TriggerTiming::After, TriggerEvent::Delete),
            depth - 4,
        ) ==> (catalog_get(old(env).database.visible(), stmt.table@) matches Some(t) ==> (r matches Ok(v)
            ==> exists|ss: Seq<Seq<Scope>>, sts: Seq<u64>, res: Seq<Result<bool, EvalError>>, blank: Fields|
            #![trigger delete_trig_rows(stmt.where_clause, t, matching_in(old(env).triggers.scopes@, stmt.table@, TriggerTiming::Before, TriggerEvent::Delete), depth - 1, blank, ss, sts, res)]
            delete_trig_rows(
                stmt.where_clause,
                t,
                matching_in(old(env).triggers.scopes@, stmt.table@, TriggerTiming::Before, TriggerEvent::Delete),
                depth - 1,
                blank,
                ss,
                sts,
                res,
            ) && field_entries(blank) == null_entries(t.columns) && ss[0] == old(env).scopes@ && sts[0] == old(
                env,
            ).steps && res.len() == t.rows.len() && (v matches Value::Number(x) && x.denotes(
                count_deleted(res) as int,
                1,
            )) && catalog_get(final(env).database.visible(), stmt.table@) == Some(
                TableView { columns: t.columns, constraints: t.constraints, rows: rows_kept(t.rows, res) },
            ))),
    decreases depth,
{
    let d = deeper(depth)?;
    let ghost nb = depth > 2 && filter_pure(stmt.where_clause, Seq::empty(), depth - 1) && matching_in(
        old(env).triggers.scopes@,
        stmt.table@,
        TriggerTiming::Before,
        TriggerEvent::Delete,
    ).len() == 0;
    let ghost trig = depth > 2 && filter_pure(stmt.where_clause, Seq::empty(), depth - 1) && depth > 3 && quiet_triggers(
        matching_in(old(env).triggers.scopes@, stmt.table@, TriggerTiming::After, TriggerEvent::Delete),
        depth - 4,
    );
    let ghost tsb = matching_in(old(env).triggers.scopes@, stmt.table@, TriggerTiming::Before, TriggerEvent::Delete);
    let ghost plain = depth > 2 && filter_pure(stmt.where_clause, Seq::empty(), depth - 1) && no_row_triggers(
        *old(env),
        stmt.table@,
        TriggerEvent::Delete,
    );
    let ghost simple = depth > 1 && stmt.where_clause is None && no_row_triggers(
        *old(env),
        stmt.table@,
        TriggerEvent::Delete,
    );
    let name = stmt.table.as_str();
    let original = match env.database.table(name) {
        Some(t) => t,
        None => {
            return Err(EvalError::TableNotFound(stmt.table.clone()));
        },
    };
    let blank = Row::blank_from_schema(original.columns.as_slice()).values;
    let mut removed: Vec<Fields> = Vec::new();
    let mut remaining: Vec<Row> = Vec::new();
    let mut i: usize = 0;
    let ghost tv = original.deep_view();
    let ghost mut res_g: Seq<Result<bool, EvalError>> = Seq::empty();
    let ghost mut ss_g: Seq<Seq<Scope>> = seq![env.scopes@];
    let ghost mut st_g: Seq<u64> = seq![env.steps];
    let ghost mut res_t: Seq<Result<bool, EvalError>> = Seq::empty();
    while i < original.rows.len()
        invariant
            nb == (depth > 2 && filter_pure(stmt.where_clause, Seq::empty(), depth - 1) && matching_in(
                old(env).triggers.scopes@,
                stmt.table@,
                TriggerTiming::Before,
                TriggerEvent::Delete,
            ).len() == 0),
            nb ==> env.database == old(env).database && env.triggers.scopes@ == old(env).triggers.scopes@,
            trig == (depth > 2 && filter_pure(stmt.where_clause, Seq::empty(), depth - 1) && depth > 3 && quiet_triggers(
                matching_in(old(env).triggers.scopes@, stmt.table@, TriggerTiming::After, TriggerEvent::Delete),
                depth - 4,
            )),
            tsb == matching_in(old(env).triggers.scopes@, stmt.table@, TriggerTiming::Before, TriggerEvent::Delete),
            field_entries(blank) == null_entries(tv.columns),
            trig ==> env.triggers.scopes@ == old(env).triggers.scopes@ && res_t.len() == i && delete_trig_rows(
                stmt.where_clause,
                tv,
                tsb,
                d as int,
                blank,
                ss_g,
                st_g,
                res_t,
            ) && ss_g[0] == old(env).scopes@ && st_g[0] == old(env).steps && ss_g.last() == env.scopes@ && st_g.last()
                == env.steps && remaining.deep_view() == rows_kept(tv.rows, res_t) && removed@.len() == count_deleted(
                res_t,
            ),
            d == depth - 1,
            tv == original.deep_view(),
            plain == (depth > 2 && filter_pure(stmt.where_clause, Seq::empty(), depth - 1) && no_row_triggers(
                *old(env),
                stmt.table@,
                TriggerEvent::Delete,
            )),
            plain ==> env.scopes@ == old(env).scopes@ && env.database == old(env).database
                && env.triggers.scopes@ == old(env).triggers.scopes@ && res_g.len() == i && delete_tested(
                stmt.where_clause,
                tv,
                old(env).scopes@,
                res_g,
            ) && remaining.deep_view() == rows_kept(tv.rows, res_g) && removed@.len() == count_deleted(res_g),
            ready(*env),
            kept(*old(env), *env),
            d < depth,
            i <= original.rows@.len(),
            removed@.len() <= i,
            catalog_get(old(env).database.visible(), stmt.table@) == Some(original.deep_view()),
            simple == (depth > 1 && stmt.where_clause is None && no_row_triggers(
                *old(env),
                stmt.table@,
                TriggerEvent::Delete,
            )),
            simple ==> *env == *old(env) && removed@.len() == i && remaining@.len() == 0,
            name@ == stmt.table@,
            simple ==> d > 0 && stmt.where_clause is None && no_row_triggers(*old(env), stmt.table@, TriggerEvent::Delete),
        decreases original.rows@.len() - i,
    {
        let row = &original.rows[i];
        assert(tv.rows[i as int] == row.deep_view());
        let ghost kept_before = remaining.deep_view();
        let ghost sc_i = env.scopes@;
        let ghost st_i = env.steps;
        let ghost mut fr_g: Result<Fields, EvalError> = Err(EvalError::StepLimitExceeded);
        let m = row_matches(&stmt.where_clause, &row.values, env, d);
        assert(trig ==> row_delete(stmt.where_clause, tv, sc_i, i as int, m)) by {
            if trig && stmt.where_clause is Some {
                let c = stmt.where_clause->0;
                let sc = choose|sc: Seq<Scope>| #[trigger] condition_outcome(c, sc, where_prefix(), m) && row_scope(
                    sc,
                    sc_i,
                    field_entries(row.values),
                );
                assert(row_scope(sc, sc_i, field_entries(tv.rows[i as int].values)));
            }
        }
        assert(plain ==> row_delete(stmt.where_clause, tv, old(env).scopes@, i as int, m)) by {
            if plain && stmt.where_clause is Some {
                let c = stmt.where_clause->0;
                let sc = choose|sc: Seq<Scope>| #[trigger] condition_outcome(c, sc, where_prefix(), m) && row_scope(
                    sc,
                    old(env).scopes@,
                    field_entries(row.values),
                );
                assert(row_scope(sc, old(env).scopes@, field_entries(tv.rows[i as int].values)));
            }
        }
        let hit = match m {
            Ok(h) => h,
            Err(e) => {
                assert(plain ==> delete_tested(stmt.where_clause, tv, old(env).scopes@, res_g));
                return Err(e);
            },
        };
        if hit {
            let fr = fire_row_triggers(TriggerTiming::Before, TriggerEvent::Delete, name, &row.values, blank.clone(), env, d);
            let ghost fr0 = fr;
            proof {
                fr_g = fr0;
            }
            fr?;
            proof {
                if trig {
                    let f = fr0->Ok_0;
                    assert(fire_sem(tsb, tv.rows[i as int].values, blank, d as int, sc_i, st_i, env.scopes@, env.steps, Ok(f)));
                }
            }
            removed.push(row.values.clone());
        } else {
            let c = row.clone();
            remaining.push(c);
        }
        proof {
            if trig {
                let nres = res_t.push(m);
                let nss = ss_g.push(env.scopes@);
                let nst = st_g.push(env.steps);
                assert(nres.drop_last() =~= res_t);
                if hit {
                    assert(rows_kept(tv.rows, nres) =~= rows_kept(tv.rows, res_t));
                } else {
                    assert(remaining.deep_view() =~= kept_before.push(tv.rows[i as int]));
                    assert(rows_kept(tv.rows, nres) =~= rows_kept(tv.rows, res_t).push(tv.rows[i as int]));
                }
                assert forall|k: int| 0 <= k < nres.len() implies #[trigger] row_delete(stmt.where_clause, tv, nss[k], k, nres[k])
                    && match nres[k] {
                    Ok(true) => exists|f: Fields|
                        #[trigger] fire_sem(tsb, tv.rows[k].values, blank, d as int, nss[k], nst[k], nss[k + 1], nst[k + 1], Ok(f)),
                    Ok(false) => nss[k + 1] == nss[k] && nst[k + 1] == nst[k],
                    Err(_) => false,
                } by {
                    if k < i {
                        assert(nres[k] == res_t[k] && nss[k] == ss_g[k] && nss[k + 1] == ss_g[k + 1] && nst[k] == st_g[k]
                            && nst[k + 1] == st_g[k + 1]);
                        assert(row_delete(stmt.where_clause, tv, ss_g[k], k, res_t[k]));
                    } else {
                        assert(nres[k] == m && nss[k] == sc_i && nss[k + 1] == env.scopes@ && nst[k] == st_i);
                        assert(nst[k + 1] == env.steps);
                        if hit {
                            let f = fr_g->Ok_0;
                            assert(fire_sem(tsb, tv.rows[i as int].values, blank, d as int, sc_i, st_i, env.scopes@, env.steps, Ok(f)));
                        } else {
                            assert(env.scopes@ == sc_i && env.steps == st_i);
                        }
                    }
                }
                res_t = nres;
                ss_g = nss;
                st_g = nst;
            }
            if plain {
                let nres = res_g.push(m);
                assert(nres.drop_last() =~= res_g);
                if hit {
                    assert(rows_kept(tv.rows, nres) =~= rows_kept(tv.rows, res_g));
                } else {
                    assert(remaining.deep_view() =~= kept_before.push(tv.rows[i as int]));
                    assert(rows_kept(tv.rows, nres) =~= rows_kept(tv.rows, res_g).push(tv.rows[i as int]));
                }
                assert forall|k: int| 0 <= k < nres.len() implies #[trigger] row_delete(
                    stmt.where_clause,
                    tv,
                    old(env).scopes@,
                    k,
                    nres[k],
                ) && nres[k] is Ok by {
                    if k < i {
                        assert(nres[k] == res_g[k]);
                        assert(row_delete(stmt.where_clause, tv, old(env).scopes@, k, res_g[k]));
                    } else {
                        assert(nres[k] == m);
                    }
                }
                res_g = nres;
            }
        }
        i += 1;
    }
    let ghost kept_rows = remaining.deep_view();
    let mut final_table = original.clone();
    final_table.set_rows(remaining);
    let ghost final_view = final_table.deep_view();
    proof {
        if trig {
            assert(final_view == TableView { columns: tv.columns, constraints: tv.constraints, rows: rows_kept(tv.rows, res_t) });
        }
        if plain {
            assert(final_view == TableView { columns: tv.columns, constraints: tv.constraints, rows: kept_rows });
        }
    }
    proof {
        if simple {
            assert(final_table.rows@.len() == 0);
            assert(final_table.rows.deep_view() =~= Seq::empty());
            assert(final_table.deep_view() == TableView { rows: Seq::empty(), ..original.deep_view() });
        }
    }
    match env.database.replace_table(name, final_table) {
        Ok(()) => {},
        Err(e) => {
            return Err(map_db_error(e));
        },
    }
    let mut k: usize = 0;
    while k < removed.len()
        invariant
            ready(*env),
            kept(*old(env), *env),
            d < depth,
            k <= removed@.len(),
            catalog_get(old(env).database.visible(), stmt.table@) == Some(original.deep_view()),
            removed@.len() <= original.rows@.len(),
            simple == (depth > 1 && stmt.where_clause is None && no_row_triggers(
                *old(env),
                stmt.table@,
                TriggerEvent::Delete,
            )),
            simple ==> removed@.len() == original.rows@.len(),
            name@ == stmt.table@,
            simple ==> d > 0 && no_row_triggers(*old(env), stmt.table@, TriggerEvent::Delete),
            simple ==> env.triggers == old(env).triggers,
            d == depth - 1,
            plain == (depth > 2 && filter_pure(stmt.where_clause, Seq::empty(), depth - 1) && no_row_triggers(
                *old(env),
                stmt.table@,
                TriggerEvent::Delete,
            )),
            plain ==> env.triggers.scopes@ == old(env).triggers.scopes@ && res_g.len() == tv.rows.len()
                && delete_tested(stmt.where_clause, tv, old(env).scopes@, res_g) && removed@.len() == count_deleted(
                res_g,
            ),
            plain ==> catalog_get(env.database.visible(), stmt.table@) == Some(
                TableView { columns: tv.columns, constraints: tv.constraints, rows: rows_kept(tv.rows, res_g) },
            ),
            plain ==> same_except(old(env).database.visible(), env.database.visible(), stmt.table@),
            tv == original.deep_view(),
            trig == (depth > 2 && filter_pure(stmt.where_clause, Seq::empty(), depth - 1) && depth > 3 && quiet_triggers(
                matching_in(old(env).triggers.scopes@, stmt.table@, TriggerTiming::After, TriggerEvent::Delete),
                depth - 4,
            )),
            tsb == matching_in(old(env).triggers.scopes@, stmt.table@, TriggerTiming::Before, TriggerEvent::Delete),
            field_entries(blank) == null_entries(tv.columns),
            trig ==> env.triggers.scopes@ == old(env).triggers.scopes@ && res_t.len() == tv.rows.len() && delete_trig_rows(
                stmt.where_clause,
                tv,
                tsb,
                d as int,
                blank,
                ss_g,
                st_g,
                res_t,
            ) && ss_g[0] == old(env).scopes@ && st_g[0] == old(env).steps && removed@.len() == count_deleted(res_t),
            trig ==> catalog_get(env.database.visible(), stmt.table@) == Some(
                TableView { columns: tv.columns, constraints: tv.constraints, rows: rows_kept(tv.rows, res_t) },
            ),
            simple ==> catalog_get(env.database.visible(), stmt.table@) == Some(
                TableView { rows: Seq::empty(), ..original.deep_view() },
            ),
            simple ==> same_except(old(env).database.visible(), env.database.visible(), stmt.table@),
        decreases removed@.len() - k,
    {
        match fire_row_triggers(TriggerTiming::After, TriggerEvent::Delete, name, &removed[k], blank.clone(), env, d) {
            Ok(_) => {},
            Err(e) => {
                restore_table(name, &original, env);
                return Err(e);
            },
        }
        k += 1;
    }
    count_value(removed.len())
}

} // verus!
