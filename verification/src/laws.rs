use vstd::prelude::*;

use std::rc::Rc;

use crate::ast::{Expr, TriggerDeclaration, TriggerEvent, TriggerTiming};
use crate::db::catalog::{catalog_get, catalog_set, lemma_catalog_set, names_unique};
use crate::db::database::Database;
use crate::db::table::TableView;
use crate::expr::eval::{binary_outcome, values_equal_spec};
use crate::expr::fields::{entries_get, field_entries, Fields};
use crate::expr::value::{
    accepts, type_from_name_spec, type_name_spec, type_of, upper, upper_char, DataType, Value,
};
use crate::parser::collapse_quotes;
use crate::cursors::{CursorInstance, Cursors};
use crate::runtime::env::{
    assign_target, dot_index, get_spec, owner_scope, var_lookup, var_stored, Scope,
};
use crate::runtime::exec::{assignment_outcome, pure_outcome, ExecFlow};
use crate::runtime::names::lookup;
use crate::runtime::names::keyed;
use crate::triggers::{matching_in, matching_list, trigger_matches};
use crate::ast::{BinaryOp, ExceptionCondition, ExceptionHandler};
use crate::runtime::exec::handler_catches;
use crate::parser::expr::{expr_at, operator_at, primary_at};
use crate::parser::lexer::{Sym, Token};
use crate::parser::stream::sym_is;

verus! {

/// Upper-casing a name that is already upper-case leaves it as it is.
proof fn lemma_upper_fixed(s: Seq<char>)
    requires
        forall|i: int| 0 <= i < s.len() ==> 'A' <= #[trigger] s[i] <= 'Z',
    ensures
        upper(s) == s,
{
    assert(upper(s) =~= s) by {
        assert forall|i: int| 0 <= i < s.len() implies upper(s)[i] == s[i] by {
            assert(upper_char(s[i]) == s[i]);
        }
    }
}

/// Every type's name denotes that type again.
pub proof fn law_type_name_round_trip(t: DataType)
    ensures
        type_from_name_spec(type_name_spec(t)) == Some(t),
{
    let n = type_name_spec(t);
    assert forall|i: int| 0 <= i < n.len() implies 'A' <= #[trigger] n[i] <= 'Z' by {}
    lemma_upper_fixed(n);
    let u = upper(n);
    assert(u == n);
    let b = seq!['B', 'O', 'O', 'L'];
    if t != DataType::Bool {
        assert(n != b) by {
            if n.len() == b.len() {
                assert(n[0] != b[0] || n[1] != b[1] || n[2] != b[2] || n[3] != b[3]);
            }
        }
    }
    assert forall|x: DataType| x != t implies type_name_spec(x) != n by {
        let m = type_name_spec(x);
        if m.len() == n.len() {
            assert(m[0] != n[0] || m[1] != n[1] || m[2] != n[2] || m[3] != n[3]);
        }
    }
}

/// A value fits the type it has, and NULL fits every type.
pub proof fn law_value_fits_its_type(v: Value, t: DataType)
    ensures
        accepts(type_of(v), v),
        accepts(t, Value::Null),
{
}

/// `=` holds between a value that is not a record and itself.
pub proof fn law_equality_reflexive(v: Value)
    requires
        !(v is Record),
    ensures
        values_equal_spec(v, v),
{
}

/// Reading a plain variable right after `set` stored it in the innermost
/// scope gives the stored value.
pub proof fn law_get_after_set(before: Seq<Scope>, after: Seq<Scope>, name: Seq<char>, v: Value)
    requires
        before.len() > 0,
        before.last().wf(),
        after.len() == before.len(),
        after.drop_last() == before.drop_last(),
        keyed(after.last().vars@) == catalog_set(keyed(before.last().vars@), name, v),
        dot_index(name) < 0,
    ensures
        get_spec(after, name) == Some(v),
{
    lemma_catalog_set(keyed(before.last().vars@), name, v, name);
}

/// No scope inside the owner of `name` binds it.
proof fn lemma_owner_innermost(scopes: Seq<Scope>, name: Seq<char>, j: int)
    requires
        owner_scope(scopes, name) < j < scopes.len(),
    ensures
        lookup(scopes[j].vars, name) is None,
    decreases scopes.len(),
{
    lemma_owner_binds(scopes, name);
    if lookup(scopes.last().vars, name) is None && j < scopes.len() - 1 {
        assert(owner_scope(scopes, name) == owner_scope(scopes.drop_last(), name));
        lemma_owner_innermost(scopes.drop_last(), name, j);
        assert(scopes.drop_last()[j] == scopes[j]);
    }
}

/// The owner of `name` binds it.
proof fn lemma_owner_binds(scopes: Seq<Scope>, name: Seq<char>)
    ensures
        -1 <= owner_scope(scopes, name) < scopes.len(),
        owner_scope(scopes, name) >= 0 ==> lookup(scopes[owner_scope(scopes, name)].vars, name) is Some,
    decreases scopes.len(),
{
    if scopes.len() > 0 && lookup(scopes.last().vars, name) is None {
        lemma_owner_binds(scopes.drop_last(), name);
    }
}

/// A name bound in scope `i` and in no scope inside it reads as its value
/// there.
proof fn lemma_var_lookup_at(scopes: Seq<Scope>, name: Seq<char>, i: int, v: Value)
    requires
        0 <= i < scopes.len(),
        lookup(scopes[i].vars, name) == Some(v),
        forall|j: int| i < j < scopes.len() ==> (#[trigger] lookup(scopes[j].vars, name)) is None,
    ensures
        var_lookup(scopes, name) == Some(v),
    decreases scopes.len(),
{
    if i < scopes.len() - 1 {
        assert(lookup(scopes.last().vars, name) is None);
        let rest = scopes.drop_last();
        assert forall|j: int| i < j < rest.len() implies (#[trigger] lookup(rest[j].vars, name)) is None by {
            assert(rest[j] == scopes[j]);
            assert(lookup(scopes[j].vars, name) is None);
        }
        lemma_var_lookup_at(rest, name, i, v);
    }
}

/// Reading a plain variable right after a successful assignment gives the
/// assigned value, whichever scope the assignment wrote.
pub proof fn law_get_after_assign(before: Seq<Scope>, after: Seq<Scope>, name: Seq<char>, v: Value)
    requires
        before.len() > 0,
        dot_index(name) < 0,
        var_stored(before, after, assign_target(before, name), name, v),
    ensures
        get_spec(after, name) == Some(v),
{
    let i = assign_target(before, name);
    lemma_owner_binds(before, name);
    assert forall|j: int| i < j < after.len() implies (#[trigger] lookup(after[j].vars, name)) is None by {
        assert(after[j] == before[j]);
        lemma_owner_innermost(before, name, j);
    }
    lemma_var_lookup_at(after, name, i, v);
}

/// After an assignment statement `name := e` (with `e` free of calls and
/// `SYSDATE`, `name` plain) produced the value `v`, `v` is what `e`
/// evaluates to before the assignment, and reading `name` gives `v`.
pub proof fn law_assignment_statement_stores_value(
    before: Seq<Scope>,
    after: Seq<Scope>,
    name: Seq<char>,
    e: Expr,
    v: Value,
)
    requires
        before.len() > 0,
        dot_index(name) < 0,
        assignment_outcome(before, after, name, e, Ok(ExecFlow::Value(v))),
    ensures
        pure_outcome(e, before, Ok(v)),
        get_spec(after, name) == Some(v),
{
    law_get_after_assign(before, after, name, v);
}

/// Reading a plain variable right after it was declared in the innermost
/// scope gives its initial value.
pub proof fn law_get_after_declare(before: Seq<Scope>, after: Seq<Scope>, name: Seq<char>, v: Value)
    requires
        before.len() > 0,
        dot_index(name) < 0,
        after.len() == before.len(),
        after.drop_last() == before.drop_last(),
        lookup(after.last().vars, name) == Some(v),
    ensures
        get_spec(after, name) == Some(v),
{
}

/// One fetch of the cursor `name`: it gives the row at the cursor's
/// position and moves past it.
pub open spec fn fetch_step(before: Cursors, after: Cursors, name: Seq<char>, row: Seq<Value>) -> bool {
    match before.instance(name) {
        Some(inst) => {
            &&& inst.position < inst.rows@.len()
            &&& row == inst.rows@[inst.position as int]@
            &&& after.instance(name) matches Some(next) && next.rows == inst.rows && next.position
                == inst.position + 1
        },
        None => false,
    }
}

/// A cursor gives its rows in order: after it is opened on `rows`, the
/// `k`-th fetch gives `rows[k]`.
pub proof fn law_fetches_follow_rows(
    states: Seq<Cursors>,
    fetched: Seq<Seq<Value>>,
    name: Seq<char>,
    rows: Vec<Vec<Value>>,
)
    requires
        states.len() == fetched.len() + 1,
        states[0].instance(name) == Some(CursorInstance { rows, position: 0 }),
        forall|i: int| 0 <= i < fetched.len() ==> fetch_step(states[i], #[trigger] states[i + 1], name, fetched[i]),
    ensures
        forall|i: int| 0 <= i < fetched.len() ==> fetched[i] == (#[trigger] rows@[i])@,
{
    assert forall|i: int| 0 <= i < fetched.len() implies fetched[i] == (#[trigger] rows@[i])@ by {
        lemma_fetch_position(states, fetched, name, rows, i);
        assert(fetch_step(states[i], states[i + 1], name, fetched[i]));
    }
}

/// After `i` fetches the cursor is at position `i`.
proof fn lemma_fetch_position(
    states: Seq<Cursors>,
    fetched: Seq<Seq<Value>>,
    name: Seq<char>,
    rows: Vec<Vec<Value>>,
    i: int,
)
    requires
        states.len() == fetched.len() + 1,
        states[0].instance(name) == Some(CursorInstance { rows, position: 0 }),
        forall|k: int| 0 <= k < fetched.len() ==> fetch_step(states[k], #[trigger] states[k + 1], name, fetched[k]),
        0 <= i <= fetched.len(),
    ensures
        states[i].instance(name) matches Some(inst) && inst.rows == rows && inst.position == i,
    decreases i,
{
    if i > 0 {
        lemma_fetch_position(states, fetched, name, rows, i - 1);
        assert(fetch_step(states[i - 1], states[(i - 1) + 1], name, fetched[i - 1]));
    }
}

/// The variables a scope binds are gone once it is closed: opening a scope
/// and closing it again gives back the scopes as they were.
pub proof fn law_scope_closed(before: Seq<Scope>, inner: Seq<Scope>, after: Seq<Scope>, name: Seq<char>)
    requires
        inner.drop_last() == before,
        inner.len() == before.len() + 1,
        after == inner.drop_last(),
    ensures
        after == before,
        var_lookup(after, name) == var_lookup(before, name),
{
}

/// Whatever a transaction wrote, rolling it back shows the tables as they
/// were committed before it: writes inside a transaction keep the committed
/// tables, and a rollback makes them the visible ones.
pub proof fn law_rollback_discards(before: Database, during: Database, after: Database)
    requires
        during.committed() == before.committed(),
        after.visible() == during.committed(),
    ensures
        after.visible() == before.committed(),
{
}

/// A commit makes what the transaction saw the committed tables, and what
/// is visible stays the same.
pub proof fn law_commit_publishes(during: Database, after: Database)
    requires
        after.committed() == during.visible(),
        after.visible() == during.visible(),
    ensures
        after.committed() == after.visible(),
{
}

/// After a table is stored under a name, reading that name gives it back.
pub proof fn law_read_after_write(tables: Seq<(Seq<char>, TableView)>, name: Seq<char>, t: TableView)
    requires
        names_unique(tables),
    ensures
        catalog_get(catalog_set(tables, name, t), name) == Some(t),
{
    lemma_catalog_set(tables, name, t, name);
}

/// `matching_list` over a list with one more trigger at the end.
proof fn lemma_matching_list_push(
    decls: Seq<Rc<TriggerDeclaration>>,
    t: Rc<TriggerDeclaration>,
    table: Seq<char>,
    timing: TriggerTiming,
    event: TriggerEvent,
)
    ensures
        matching_list(decls.push(t), table, timing, event) == if trigger_matches(*t, table, timing, event) {
            matching_list(decls, table, timing, event).push(t)
        } else {
            matching_list(decls, table, timing, event)
        },
{
    assert(decls.push(t).drop_last() =~= decls);
}

/// A trigger declared in the innermost scope runs after every matching
/// trigger declared before it (outer scopes first), when it matches; a
/// trigger that does not match changes nothing.
pub proof fn law_new_trigger_fires_last(
    before: Seq<Vec<Rc<TriggerDeclaration>>>,
    after: Seq<Vec<Rc<TriggerDeclaration>>>,
    t: Rc<TriggerDeclaration>,
    table: Seq<char>,
    timing: TriggerTiming,
    event: TriggerEvent,
)
    requires
        before.len() > 0,
        after.len() == before.len(),
        after.drop_last() == before.drop_last(),
        after.last()@ == before.last()@.push(t),
    ensures
        matching_in(after, table, timing, event) == if trigger_matches(*t, table, timing, event) {
            matching_in(before, table, timing, event).push(t)
        } else {
            matching_in(before, table, timing, event)
        },
{
    lemma_matching_list_push(before.last()@, t, table, timing, event);
    let base = matching_in(before.drop_last(), table, timing, event);
    let old_last = matching_list(before.last()@, table, timing, event);
    assert(base + old_last.push(t) =~= (base + old_last).push(t));
}

/// `s` with every `q` doubled, as a quoted literal writes it.
pub open spec fn double_quotes(s: Seq<char>, q: char) -> Seq<char>
    decreases s.len(),
{
    if s.len() == 0 {
        s
    } else if s[0] == q {
        seq![q, q] + double_quotes(s.drop_first(), q)
    } else {
        seq![s[0]] + double_quotes(s.drop_first(), q)
    }
}

/// Reading a quoted literal gives back the text it was written from:
/// collapsing the doubled quotes undoes doubling them.
pub proof fn law_quotes_round_trip(s: Seq<char>, q: char)
    ensures
        collapse_quotes(double_quotes(s, q), q) == s,
    decreases s.len(),
{
    if s.len() > 0 {
        law_quotes_round_trip(s.drop_first(), q);
        let rest = double_quotes(s.drop_first(), q);
        if s[0] == q {
            let d = seq![q, q] + rest;
            assert(d.subrange(2, d.len() as int) =~= rest);
            assert(seq![q] + s.drop_first() =~= s);
        } else {
            let d = seq![s[0]] + rest;
            assert(d.drop_first() =~= rest);
            assert(seq![s[0]] + s.drop_first() =~= s);
        }
    }
}


/// The triggers that `matching_list` picks from `decls` are exactly those of
/// `table` at `timing` on `event`.
proof fn lemma_matching_list_exact(
    decls: Seq<Rc<TriggerDeclaration>>,
    table: Seq<char>,
    timing: TriggerTiming,
    event: TriggerEvent,
)
    ensures
        forall|k: int|
            0 <= k < matching_list(decls, table, timing, event).len() ==> {
                let t = #[trigger] matching_list(decls, table, timing, event)[k];
                &&& t.table@ == table
                &&& t.timing == timing
                &&& t.event == event
                &&& decls.contains(t)
            },
        forall|j: int|
            0 <= j < decls.len() && (#[trigger] decls[j]).table@ == table && decls[j].timing == timing
                && decls[j].event == event ==> matching_list(decls, table, timing, event).contains(decls[j]),
    decreases decls.len(),
{
    if decls.len() > 0 {
        let init = decls.drop_last();
        lemma_matching_list_exact(init, table, timing, event);
        let rest = matching_list(init, table, timing, event);
        let ml = matching_list(decls, table, timing, event);
        assert forall|k: int| 0 <= k < ml.len() implies {
            let t = #[trigger] ml[k];
            &&& t.table@ == table
            &&& t.timing == timing
            &&& t.event == event
            &&& decls.contains(t)
        } by {
            if k < rest.len() {
                assert(ml[k] == rest[k]);
                let t = rest[k];
                let w = choose|w: int| 0 <= w < init.len() && init[w] == t;
                assert(decls[w] == t);
            } else {
                assert(ml[k] == decls.last());
                assert(decls[decls.len() - 1] == decls.last());
            }
        }
        assert forall|j: int|
            0 <= j < decls.len() && (#[trigger] decls[j]).table@ == table && decls[j].timing == timing
                && decls[j].event == event implies ml.contains(decls[j]) by {
            if j < decls.len() - 1 {
                assert(init[j] == decls[j]);
                assert(rest.contains(decls[j]));
                let w = choose|w: int| 0 <= w < rest.len() && rest[w] == decls[j];
                assert(ml[w] == decls[j]);
            } else {
                assert(ml[ml.len() - 1] == decls[j]);
            }
        }
    }
}

/// A trigger fires for a row change only when it was declared on the changed
/// table, at that timing and for that event; and every trigger so declared,
/// in any scope, fires. Whatever `Triggers::matching` returns for `table`
/// (it returns `matching_in` of its scopes) belongs to `table`.
pub proof fn law_triggers_fire_for_their_table(
    scopes: Seq<Vec<Rc<TriggerDeclaration>>>,
    table: Seq<char>,
    timing: TriggerTiming,
    event: TriggerEvent,
)
    ensures
        forall|k: int|
            0 <= k < matching_in(scopes, table, timing, event).len() ==> {
                let t = #[trigger] matching_in(scopes, table, timing, event)[k];
                &&& t.table@ == table
                &&& t.timing == timing
                &&& t.event == event
            },
        forall|i: int, j: int|
            0 <= i < scopes.len() && 0 <= j < scopes[i]@.len() && (#[trigger] scopes[i]@[j]).table@ == table
                && scopes[i]@[j].timing == timing && scopes[i]@[j].event == event ==> matching_in(
                scopes,
                table,
                timing,
                event,
            ).contains(scopes[i]@[j]),
    decreases scopes.len(),
{
    if scopes.len() > 0 {
        let init = scopes.drop_last();
        law_triggers_fire_for_their_table(init, table, timing, event);
        lemma_matching_list_exact(scopes.last()@, table, timing, event);
        let a = matching_in(init, table, timing, event);
        let b = matching_list(scopes.last()@, table, timing, event);
        let m = matching_in(scopes, table, timing, event);
        assert(m == a + b);
        assert forall|k: int| 0 <= k < m.len() implies {
            let t = #[trigger] m[k];
            &&& t.table@ == table
            &&& t.timing == timing
            &&& t.event == event
        } by {
            if k < a.len() {
                assert(m[k] == a[k]);
            } else {
                assert(m[k] == b[k - a.len()]);
            }
        }
        assert forall|i: int, j: int|
            0 <= i < scopes.len() && 0 <= j < scopes[i]@.len() && (#[trigger] scopes[i]@[j]).table@ == table
                && scopes[i]@[j].timing == timing && scopes[i]@[j].event == event implies m.contains(scopes[i]@[j]) by {
            if i < scopes.len() - 1 {
                assert(init[i] == scopes[i]);
                assert(a.contains(scopes[i]@[j]));
                let w = choose|w: int| 0 <= w < a.len() && a[w] == scopes[i]@[j];
                assert(m[w] == scopes[i]@[j]);
            } else {
                assert(scopes.last() == scopes[i]);
                assert(b.contains(scopes[i]@[j]));
                let w = choose|w: int| 0 <= w < b.len() && b[w] == scopes[i]@[j];
                assert(m[a.len() + w] == scopes[i]@[j]);
            }
        }
    }
}


/// `OR` binds loosest: wherever tokens spell an expression whose top
/// operator is `OR` and that does not start with `(`, it is spelled at the
/// outermost level, so an `OR` is never the operand of another operator
/// unless parenthesized. In particular `a OR b AND c` can only be read as
/// `a OR (b AND c)`.
pub proof fn law_or_binds_loosest(toks: Seq<Token>, level: int, i: int, e: Expr, j: int)
    requires
        expr_at(toks, level, i, e, j),
        !sym_is(toks, i, Sym::LParen),
        e matches Expr::Binary { op: BinaryOp::Or, .. },
    ensures
        level == 7,
    decreases j - i, level + 1,
{
    if level >= 2 {
        if expr_at(toks, level - 1, i, e, j) {
            law_or_binds_loosest(toks, level - 1, i, e, j);
        } else {
            match e {
                Expr::Binary { left, op, right } => {
                    let k = choose|k: int|
                        i < k < j - 1 && expr_at(toks, level, i, *left, k) && #[trigger] operator_at(
                            toks,
                            k,
                            level as u32,
                        ) == Some(op) && expr_at(toks, level - 1, k + 1, *right, j);
                    assert(operator_at(toks, k, level as u32) == Some(BinaryOp::Or));
                },
                _ => {},
            }
        }
    } else if level == 1 {
        if !sym_is(toks, i, Sym::Minus) && !crate::parser::stream::word_is(toks, i, "NOT"@) {
            law_or_binds_loosest(toks, 0, i, e, j);
        }
    } else if level == 0 {
        assert(primary_at(toks, i, e, j));
    }
}

/// `AND` binds tighter than `OR` and looser than the comparisons: wherever
/// tokens spell an expression whose top operator is `AND` and that does not
/// start with `(`, it is spelled at the level of `AND` or of `OR`.
pub proof fn law_and_binds_below_or(toks: Seq<Token>, level: int, i: int, e: Expr, j: int)
    requires
        expr_at(toks, level, i, e, j),
        !sym_is(toks, i, Sym::LParen),
        e matches Expr::Binary { op: BinaryOp::And, .. },
    ensures
        level == 6 || level == 7,
    decreases j - i, level + 1,
{
    if level >= 2 {
        if expr_at(toks, level - 1, i, e, j) {
            law_and_binds_below_or(toks, level - 1, i, e, j);
        } else {
            match e {
                Expr::Binary { left, op, right } => {
                    let k = choose|k: int|
                        i < k < j - 1 && expr_at(toks, level, i, *left, k) && #[trigger] operator_at(
                            toks,
                            k,
                            level as u32,
                        ) == Some(op) && expr_at(toks, level - 1, k + 1, *right, j);
                    assert(operator_at(toks, k, level as u32) == Some(BinaryOp::And));
                },
                _ => {},
            }
        }
    } else if level == 1 {
        if !sym_is(toks, i, Sym::Minus) && !crate::parser::stream::word_is(toks, i, "NOT"@) {
            law_and_binds_below_or(toks, 0, i, e, j);
        }
    } else if level == 0 {
        assert(primary_at(toks, i, e, j));
    }
}


/// A runtime error (no signal name) is caught only by `WHEN OTHERS`, and a
/// `WHEN name` handler catches only a `RAISE` of that very name.
pub proof fn law_handlers_catch_their_signal(h: ExceptionHandler, signal: Option<Seq<char>>)
    ensures
        handler_catches(h, None) ==> h.condition is Others,
        handler_catches(h, signal) && (h.condition matches ExceptionCondition::Named(n)) ==> (signal matches Some(s)
            && h.condition->Named_0@ == s),
        h.condition is Others ==> handler_catches(h, signal),
{
}


/// Two records compare equal under `=` only when they hold the same field
/// names with equal values: a field of the first that the second lacks, or
/// holds with a different number (or a number against another kind of
/// value), makes `=` false (and a missing field makes `!=` true).
pub proof fn law_record_equality(x: Fields, y: Fields, name: Seq<char>, t: bool)
    ensures
        binary_outcome(BinaryOp::Eq, Value::Record(x), Value::Record(y), Ok(Value::Bool(t))) && entries_get(
            field_entries(x),
            name,
        ) is Some && entries_get(field_entries(y), name) is None ==> !t,
        binary_outcome(BinaryOp::Eq, Value::Record(x), Value::Record(y), Ok(Value::Bool(t))) && entries_get(
            field_entries(x),
            name,
        ) is Some && entries_get(field_entries(y), name) is Some && entries_get(field_entries(x), name)->0 is Number
            && entries_get(field_entries(x), name) != entries_get(field_entries(y), name) ==> !t,
        binary_outcome(BinaryOp::Neq, Value::Record(x), Value::Record(y), Ok(Value::Bool(t))) && entries_get(
            field_entries(x),
            name,
        ) is Some && entries_get(field_entries(y), name) is None ==> t,
{
}


/// The lowest level an operator's expression can be spelled at: `*` and `/`
/// bind tightest, then `+` and `-`, then the orderings, then `=` and `!=`,
/// then `AND`, then `OR`.
pub open spec fn binding_level(op: BinaryOp) -> int {
    match op {
        BinaryOp::Mul | BinaryOp::Div => 2,
        BinaryOp::Add | BinaryOp::Sub => 3,
        BinaryOp::Lt | BinaryOp::Lte | BinaryOp::Gt | BinaryOp::Gte => 4,
        BinaryOp::Eq | BinaryOp::Neq => 5,
        BinaryOp::And => 6,
        BinaryOp::Or => 7,
    }
}

/// Operator precedence: wherever tokens spell an expression whose top
/// operator is `op` and that does not start with `(`, it is spelled at
/// `op`'s binding level or looser; so an operand of a tighter operator is
/// never, unparenthesized, an expression of a looser one (`a + b * c` is
/// `a + (b * c)`, `a = b AND c` is `(a = b) AND c`).
pub proof fn law_operator_precedence(toks: Seq<Token>, level: int, i: int, e: Expr, j: int)
    requires
        expr_at(toks, level, i, e, j),
        !sym_is(toks, i, Sym::LParen),
        e is Binary,
    ensures
        binding_level(e->Binary_op) <= level <= 7,
    decreases j - i, level + 1,
{
    if level >= 2 {
        if expr_at(toks, level - 1, i, e, j) {
            law_operator_precedence(toks, level - 1, i, e, j);
        } else {
            match e {
                Expr::Binary { left, op, right } => {
                    let k = choose|k: int|
                        i < k < j - 1 && expr_at(toks, level, i, *left, k) && #[trigger] operator_at(
                            toks,
                            k,
                            level as u32,
                        ) == Some(op) && expr_at(toks, level - 1, k + 1, *right, j);
                    assert(operator_at(toks, k, level as u32) == Some(op));
                },
                _ => {},
            }
        }
    } else if level == 1 {
        if !sym_is(toks, i, Sym::Minus) && !crate::parser::stream::word_is(toks, i, "NOT"@) {
            law_operator_precedence(toks, 0, i, e, j);
        }
    } else if level == 0 {
        assert(primary_at(toks, i, e, j));
    }
}

} // verus!
