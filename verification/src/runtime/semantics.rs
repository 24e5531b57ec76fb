use vstd::prelude::*;

use crate::cursors::CursorInstance;
use crate::ast::{Block, Declaration, ExceptionHandler, Expr, IfBranch, Statement};
use crate::db::catalog::catalog_set;
use crate::expr::eval::EvalError;
use crate::expr::number::{fits_i64, Number};
use crate::expr::value::{accepts, type_from_name_spec, upper, DataType, Value};
use crate::runtime::env::{dot_index, expects_message, unknown_type_message, Scope};
use crate::runtime::exec::{
    assignment_outcome, bound_outcome, condition_outcome, exit_prefix, expr_height, flow_outcome, handler_catches,
    number_below, pure_expr, pure_outcome, succeeded, ExecFlow,
};
use crate::runtime::names::{keyed, lookup};
use crate::expr::time::{timestamp_in_range, Now};
use crate::runtime::exec::sysdate_of;

verus! {

// What running statements does to the variable scopes and the step budget.
//
// Each relation below takes the nesting budget `d` of the run, the scopes
// `sc` and steps `st` before, the scopes `sc2` and steps `st2` after, and
// the outcome `r`. It pins the run down for blocks, declarations without
// `SYSDATE`, assignments to plain names, expression statements, `IF`,
// `WHILE`, `LOOP`, range `FOR`, `EXIT`, `RAISE`, `RETURN`, `COMMIT` and
// `ROLLBACK`, as long as each expression involved is free of calls and
// `SYSDATE` and the nesting budget suffices for it. It says nothing of the
// other statements (calls, data statements, cursors), nor of what follows
// them.

/// A marker, true of every argument: it states nothing, and serves only as
/// the trigger by which the relations below name the state and outcome
/// between two runs (Verus matches no trigger on a recursive call).
pub open spec fn mark_run(sc: Seq<Scope>, st: u64, f: Result<ExecFlow, EvalError>) -> bool {
    true
}

/// `SYSDATE` gives a variable of the type written `t` a value of its own:
/// `DATE`, `TIMESTAMP` or `DATETIME`, in any letter case.
pub open spec fn sysdate_type(t: Seq<char>) -> bool {
    upper(t) == "DATE"@ || upper(t) == "TIMESTAMP"@ || upper(t) == "DATETIME"@
}

/// A marker, true of every argument, naming a clock reading and the value
/// taken from it (see `mark_run`).
pub open spec fn mark_clock(now: Now, v: Value) -> bool {
    true
}

/// A marker, true of every argument, naming the scopes that running
/// declarations reached (see `mark_run`).
pub open spec fn mark_declared(sc: Seq<Scope>, st: u64, r: Result<(), EvalError>) -> bool {
    true
}

/// A marker, true of every argument, naming the scope a block or loop
/// opened and the scopes it ended with (see `mark_run`).
pub open spec fn mark_opened(ns: Scope, sc: Seq<Scope>) -> bool {
    true
}

/// The scope binds nothing and types nothing.
pub open spec fn fresh_scope(s: Scope) -> bool {
    &&& s.vars@.len() == 0
    &&& s.types@.len() == 0
    &&& s.query_ambiguous@.len() == 0
    &&& s.query_bindings@.len() == 0
    &&& s.query_columns@.len() == 0
}

/// The scopes after the innermost one is closed (the outermost never is).
pub open spec fn popped(s: Seq<Scope>) -> Seq<Scope> {
    if s.len() > 1 {
        s.drop_last()
    } else {
        s
    }
}

/// The expression can be evaluated with the nesting budget `d`, changing
/// nothing.
pub open spec fn expr_ready(e: Expr, d: int) -> bool {
    pure_expr(e) && d > expr_height(e)
}

/// The condition can be tested with the nesting budget `d`, changing
/// nothing.
pub open spec fn cond_ready(e: Expr, d: int) -> bool {
    pure_expr(e) && d > expr_height(e) + 1
}

/// The flow of statements that ran out: their last value, if any.
pub open spec fn done_flow(last: Option<Value>) -> ExecFlow {
    match last {
        Some(v) => ExecFlow::Value(v),
        None => ExecFlow::NoValue,
    }
}

/// How a loop whose body finished with `flow` ends: `None` to go on, or the
/// loop's own flow (an exit leaves with its value, the last value or NULL).
pub open spec fn loop_exit(flow: ExecFlow, last: Option<Value>) -> Option<ExecFlow> {
    match flow {
        ExecFlow::Value(_) => None,
        ExecFlow::NoValue => None,
        ExecFlow::Raise(n) => Some(ExecFlow::Raise(n)),
        ExecFlow::Return(v) => Some(ExecFlow::Return(v)),
        ExecFlow::ExitLoop(Some(v)) => Some(ExecFlow::Value(v)),
        ExecFlow::ExitLoop(None) => Some(
            ExecFlow::Value(
                match last {
                    Some(v) => v,
                    None => Value::Null,
                },
            ),
        ),
    }
}

/// The last value after a body that finished with `flow`.
pub open spec fn next_last(flow: ExecFlow, last: Option<Value>) -> Option<Value> {
    match flow {
        ExecFlow::Value(v) => Some(v),
        _ => last,
    }
}

/// The first handler from `i` on that catches `sig`.
pub open spec fn first_catch(hs: Seq<ExceptionHandler>, sig: Option<Seq<char>>, i: int) -> Option<int>
    decreases hs.len() - i,
{
    if i < 0 || i >= hs.len() {
        None
    } else if handler_catches(hs[i], sig) {
        Some(i)
    } else {
        first_catch(hs, sig, i + 1)
    }
}

/// The handler at `k` is the first from `i` on that catches `sig`.
pub proof fn lemma_first_catch(hs: Seq<ExceptionHandler>, sig: Option<Seq<char>>, i: int, k: int)
    requires
        0 <= i <= k < hs.len(),
        handler_catches(hs[k], sig),
        forall|j: int| 0 <= j < k ==> !handler_catches(#[trigger] hs[j], sig),
    ensures
        first_catch(hs, sig, i) == Some(k),
    decreases k - i,
{
    if i < k {
        lemma_first_catch(hs, sig, i + 1, k);
    }
}

/// No handler from `i` on catches `sig`.
pub proof fn lemma_no_catch(hs: Seq<ExceptionHandler>, sig: Option<Seq<char>>, i: int)
    requires
        0 <= i,
        forall|j: int| 0 <= j < hs.len() ==> !handler_catches(#[trigger] hs[j], sig),
    ensures
        first_catch(hs, sig, i) is None,
    decreases hs.len() - i,
{
    if i < hs.len() {
        lemma_no_catch(hs, sig, i + 1);
    }
}

/// `sc2` is `sc` with `name` set to `v` in the innermost scope, untyped.
pub open spec fn set_in(sc: Seq<Scope>, name: Seq<char>, v: Value, sc2: Seq<Scope>) -> bool {
    &&& sc2.len() == sc.len()
    &&& sc2.drop_last() == sc.drop_last()
    &&& keyed(sc2.last().vars@) == catalog_set(keyed(sc.last().vars@), name, v)
    &&& sc2.last().types == sc.last().types
    &&& sc2.last().query_bindings == sc.last().query_bindings
    &&& sc2.last().query_columns == sc.last().query_columns
    &&& sc2.last().query_ambiguous == sc.last().query_ambiguous
}

/// `sc2` is `sc` with `name` declared in the innermost scope with the type
/// `t` and the value `v`.
pub open spec fn declared_in(sc: Seq<Scope>, sc2: Seq<Scope>, name: Seq<char>, v: Value, t: DataType) -> bool {
    &&& sc2.len() == sc.len()
    &&& sc2.drop_last() == sc.drop_last()
    &&& lookup(sc2.last().vars, name) == Some(v)
    &&& lookup(sc2.last().types, name) == Some(t)
    &&& forall|k: Seq<char>| k != name ==> #[trigger] lookup(sc2.last().vars, k) == lookup(sc.last().vars, k)
    &&& forall|k: Seq<char>| k != name ==> #[trigger] lookup(sc2.last().types, k) == lookup(sc.last().types, k)
    &&& sc2.last().query_bindings == sc.last().query_bindings
    &&& sc2.last().query_columns == sc.last().query_columns
    &&& sc2.last().query_ambiguous == sc.last().query_ambiguous
}

/// What declaring `name` of the type written `ty` with the value `v` gives:
/// an unknown type or a refused value is a type error that changes nothing.
pub open spec fn declare_outcome(
    sc: Seq<Scope>,
    name: Seq<char>,
    v: Value,
    ty: Seq<char>,
    sc2: Seq<Scope>,
    r: Result<(), EvalError>,
) -> bool {
    match type_from_name_spec(ty) {
        None => (r matches Err(EvalError::TypeError(m)) && m@ == unknown_type_message(ty, name)) && sc2 == sc,
        Some(t) => if !accepts(t, v) {
            (r matches Err(EvalError::TypeError(m)) && m@ == expects_message(name, t, v)) && sc2 == sc
        } else {
            r is Ok && declared_in(sc, sc2, name, v, t)
        },
    }
}

/// The declarations `ds` from the `i`-th on, their initial values
/// evaluated with the budget `x`: exceptions need nothing, a variable is
/// declared with its initial value or NULL; the first error stops.
pub open spec fn decl_list(
    ds: Seq<Declaration>,
    i: int,
    x: int,
    sc: Seq<Scope>,
    st: u64,
    sc2: Seq<Scope>,
    st2: u64,
    r: Result<(), EvalError>,
) -> bool
    decreases ds.len() - i,
{
    if i < 0 || i >= ds.len() {
        r is Ok && sc2 == sc && st2 == st
    } else if ds[i].trigger is Some || ds[i].routine is Some || ds[i].cursor_query is Some {
        true
    } else if upper(ds[i].declared_type@) == "EXCEPTION"@ {
        decl_list(ds, i + 1, x, sc, st, sc2, st2, r)
    } else {
        match ds[i].init_value {
            Some(Expr::Sysdate) => (x <= 0 && !sysdate_type(ds[i].declared_type@)) || exists|
                now: Now,
                v: Value,
                sc1: Seq<Scope>,
                dr: Result<(), EvalError>,
            |
                #![trigger mark_clock(now, v), declare_outcome(sc, ds[i].name@, v, ds[i].declared_type@, sc1, dr)]
                timestamp_in_range(now.local) && timestamp_in_range(now.utc) && match sysdate_of(
                    ds[i].declared_type@,
                    now,
                ) {
                    Some(w) => v == w,
                    None => x > 0 && v is Date,
                } && declare_outcome(sc, ds[i].name@, v, ds[i].declared_type@, sc1, dr) && match dr {
                    Err(y) => r == Err::<(), EvalError>(y) && sc2 == sc1 && st2 == st,
                    Ok(()) => decl_list(ds, i + 1, x, sc1, st, sc2, st2, r),
                },
            Some(e) => expr_ready(e, x) ==> exists|vr: Result<Value, EvalError>|
                #[trigger] pure_outcome(e, sc, vr) && match vr {
                    Err(y) => r == Err::<(), EvalError>(y) && sc2 == sc && st2 == st,
                    Ok(v) => exists|sc1: Seq<Scope>, dr: Result<(), EvalError>|
                        #[trigger] declare_outcome(sc, ds[i].name@, v, ds[i].declared_type@, sc1, dr) && match dr {
                            Err(y) => r == Err::<(), EvalError>(y) && sc2 == sc1 && st2 == st,
                            Ok(()) => decl_list(ds, i + 1, x, sc1, st, sc2, st2, r),
                        },
                },
            None => exists|sc1: Seq<Scope>, dr: Result<(), EvalError>|
                #[trigger] declare_outcome(sc, ds[i].name@, Value::Null, ds[i].declared_type@, sc1, dr) && match dr {
                    Err(y) => r == Err::<(), EvalError>(y) && sc2 == sc1 && st2 == st,
                    Ok(()) => decl_list(ds, i + 1, x, sc1, st, sc2, st2, r),
                },
        }
    }
}

/// Running the declarations `ds` with the nesting budget `d`.
pub open spec fn decls_sem(
    ds: Seq<Declaration>,
    d: int,
    sc: Seq<Scope>,
    st: u64,
    sc2: Seq<Scope>,
    st2: u64,
    r: Result<(), EvalError>,
) -> bool {
    if d <= 0 {
        r == Err::<(), EvalError>(EvalError::StepLimitExceeded) && sc2 == sc && st2 == st
    } else {
        decl_list(ds, 0, d - 1, sc, st, sc2, st2, r)
    }
}

/// Running one statement with the nesting budget `d`.
pub open spec fn stmt_sem(
    s: Statement,
    d: int,
    sc: Seq<Scope>,
    st: u64,
    sc2: Seq<Scope>,
    st2: u64,
    r: Result<ExecFlow, EvalError>,
) -> bool
    decreases d, 0int, 0int,
{
    if d <= 0 {
        r == Err::<ExecFlow, EvalError>(EvalError::StepLimitExceeded) && sc2 == sc && st2 == st
    } else {
        match s {
            Statement::Block(b) => exists|ns: Scope, sc3: Seq<Scope>|
                #[trigger] mark_opened(ns, sc3) && block_sem(*b, d - 1, sc.push(ns), st, sc3, st2, r) && fresh_scope(ns)
                    && sc2 == popped(sc3),
            Statement::If { condition, then_branch, elsif_branches, else_branch } => if_sem(
                condition,
                then_branch@,
                elsif_branches@,
                else_branch,
                d - 1,
                sc,
                st,
                sc2,
                st2,
                r,
            ),
            Statement::While { condition, body } => while_sem(condition, body@, d - 1, sc, st, sc2, st2, r),
            Statement::Loop { body } => loop_sem(body@, d - 1, sc, st, sc2, st2, r),
            Statement::For { variable, start, end, body } => for_sem(
                variable@,
                start,
                end,
                body@,
                d - 1,
                sc,
                st,
                sc2,
                st2,
                r,
            ),
            Statement::Exit { condition: None } => r == Ok::<ExecFlow, EvalError>(ExecFlow::ExitLoop(None)) && sc2
                == sc && st2 == st,
            Statement::Exit { condition: Some(c) } => cond_ready(c, d - 1) ==> sc2 == sc && st2 == st && exists|
                cr: Result<bool, EvalError>,
            |
                #[trigger] condition_outcome(c, sc, exit_prefix(), cr) && match cr {
                    Ok(true) => r == Ok::<ExecFlow, EvalError>(ExecFlow::ExitLoop(None)),
                    Ok(false) => r == Ok::<ExecFlow, EvalError>(ExecFlow::NoValue),
                    Err(x) => r == Err::<ExecFlow, EvalError>(x),
                },
            Statement::Raise { name } => (r matches Ok(ExecFlow::Raise(n)) && n == name) && sc2 == sc && st2 == st,
            Statement::Commit => r == Ok::<ExecFlow, EvalError>(ExecFlow::NoValue) && sc2 == sc && st2 == st,
            Statement::Rollback => r == Ok::<ExecFlow, EvalError>(ExecFlow::NoValue) && sc2 == sc && st2 == st,
            Statement::Return(None) => r == Ok::<ExecFlow, EvalError>(ExecFlow::Return(None)) && sc2 == sc && st2
                == st,
            Statement::Return(Some(e)) => expr_ready(e, d - 1) ==> sc2 == sc && st2 == st && match r {
                Ok(ExecFlow::Return(Some(v))) => pure_outcome(e, sc, succeeded(v)),
                Err(x) => pure_outcome(e, sc, Err(x)),
                _ => false,
            },
            Statement::Expression(e) => expr_ready(e, d - 1) ==> sc2 == sc && st2 == st && flow_outcome(e, sc, r),
            Statement::Assignment { name, value } => expr_ready(value, d - 1) && dot_index(name@) < 0 ==> st2 == st
                && assignment_outcome(sc, sc2, name@, value, r),
            _ => true,
        }
    }
}

/// The statements `ss` from the `i`-th on, each run with the budget `e`,
/// `last` being the last value so far: a raise, a return or an exit stops
/// them, as does the first error.
pub open spec fn list_sem(
    ss: Seq<Statement>,
    i: int,
    e: int,
    last: Option<Value>,
    sc: Seq<Scope>,
    st: u64,
    sc2: Seq<Scope>,
    st2: u64,
    r: Result<ExecFlow, EvalError>,
) -> bool
    decreases e + 1, 1int, ss.len() - i,
{
    if e < 0 {
        false
    } else if i < 0 || i >= ss.len() {
        r == Ok::<ExecFlow, EvalError>(done_flow(last)) && sc2 == sc && st2 == st
    } else {
        exists|sc1: Seq<Scope>, st1: u64, f: Result<ExecFlow, EvalError>|
            #[trigger] mark_run(sc1, st1, f) && stmt_sem(ss[i], e, sc, st, sc1, st1, f) && match f {
                Err(x) => r == Err::<ExecFlow, EvalError>(x) && sc2 == sc1 && st2 == st1,
                Ok(ExecFlow::Value(v)) => list_sem(ss, i + 1, e, Some(v), sc1, st1, sc2, st2, r),
                Ok(ExecFlow::NoValue) => list_sem(ss, i + 1, e, last, sc1, st1, sc2, st2, r),
                Ok(ExecFlow::Raise(n)) => r == Ok::<ExecFlow, EvalError>(ExecFlow::Raise(n)) && sc2 == sc1 && st2
                    == st1,
                Ok(ExecFlow::Return(v)) => r == Ok::<ExecFlow, EvalError>(ExecFlow::Return(v)) && sc2 == sc1 && st2
                    == st1,
                Ok(ExecFlow::ExitLoop(v)) => r == Ok::<ExecFlow, EvalError>(
                    ExecFlow::ExitLoop(
                        match v {
                            Some(x) => Some(x),
                            None => last,
                        },
                    ),
                ) && sc2 == sc1 && st2 == st1,
            }
    }
}

/// Running the statements `ss` in order with the nesting budget `d`.
pub open spec fn stmts_sem(
    ss: Seq<Statement>,
    d: int,
    sc: Seq<Scope>,
    st: u64,
    sc2: Seq<Scope>,
    st2: u64,
    r: Result<ExecFlow, EvalError>,
) -> bool
    decreases d, 2int, 0int,
{
    if d <= 0 {
        r == Err::<ExecFlow, EvalError>(EvalError::StepLimitExceeded) && sc2 == sc && st2 == st
    } else {
        list_sem(ss, 0, d - 1, None, sc, st, sc2, st2, r)
    }
}

/// A block's signal `sig` (`None` for a runtime error), which would end it
/// with `f`, meets the handlers `hs`: the first that catches it runs with
/// the budget `e`; with none, `f` stands.
pub open spec fn handled(
    hs: Seq<ExceptionHandler>,
    sig: Option<Seq<char>>,
    f: Result<ExecFlow, EvalError>,
    e: int,
    sc: Seq<Scope>,
    st: u64,
    sc2: Seq<Scope>,
    st2: u64,
    r: Result<ExecFlow, EvalError>,
) -> bool
    decreases e + 1, 3int, 0int,
{
    match first_catch(hs, sig, 0) {
        Some(i) => 0 <= i < hs.len() && e >= 0 && stmts_sem(hs[i].statements@, e, sc, st, sc2, st2, r),
        None => r == f && sc2 == sc && st2 == st,
    }
}

/// Running a block in the current scope with the nesting budget `d`: its
/// declarations, then its statements; a runtime error in either goes to
/// the handlers, and so does a raise that the statements end with.
pub open spec fn block_sem(
    b: Block,
    d: int,
    sc: Seq<Scope>,
    st: u64,
    sc2: Seq<Scope>,
    st2: u64,
    r: Result<ExecFlow, EvalError>,
) -> bool
    decreases d, 4int, 0int,
{
    if d <= 0 {
        r == Err::<ExecFlow, EvalError>(EvalError::StepLimitExceeded) && sc2 == sc && st2 == st
    } else {
        exists|sc1: Seq<Scope>, st1: u64, dr: Result<(), EvalError>|
            #[trigger] mark_declared(sc1, st1, dr) && decls_sem(b.declarations@, d - 1, sc, st, sc1, st1, dr) && match dr {
                Err(x) => handled(
                    b.exception_handlers@,
                    None,
                    Err(x),
                    d - 1,
                    sc1,
                    st1,
                    sc2,
                    st2,
                    r,
                ),
                Ok(()) => exists|sc3: Seq<Scope>, st3: u64, f: Result<ExecFlow, EvalError>|
                    #[trigger] mark_run(sc3, st3, f) && stmts_sem(b.statements@, d - 1, sc1, st1, sc3, st3, f) && match f {
                        Ok(ExecFlow::Raise(name)) => handled(
                            b.exception_handlers@,
                            Some(name@),
                            f,
                            d - 1,
                            sc3,
                            st3,
                            sc2,
                            st2,
                            r,
                        ),
                        Ok(_) => r == f && sc2 == sc3 && st2 == st3,
                        Err(_) => handled(b.exception_handlers@, None, f, d - 1, sc3, st3, sc2, st2, r),
                    },
            }
    }
}

/// The `ELSIF` branches from the `i`-th on and the `ELSE` branch of an `IF`
/// run with the budget `w`: the first branch whose condition holds runs.
pub open spec fn elsif_sem(
    bs: Seq<IfBranch>,
    i: int,
    els: Option<Vec<Statement>>,
    w: int,
    sc: Seq<Scope>,
    st: u64,
    sc2: Seq<Scope>,
    st2: u64,
    r: Result<ExecFlow, EvalError>,
) -> bool
    decreases w, 3int, bs.len() - i,
{
    if w <= 0 {
        false
    } else if i < 0 || i >= bs.len() {
        match els {
            None => r == Ok::<ExecFlow, EvalError>(ExecFlow::NoValue) && sc2 == sc && st2 == st,
            Some(ss) => stmts_sem(ss@, w - 1, sc, st, sc2, st2, r),
        }
    } else if !cond_ready(bs[i].condition, w - 1) {
        true
    } else {
        exists|cr: Result<bool, EvalError>|
            #[trigger] condition_outcome(bs[i].condition, sc, exit_prefix(), cr) && match cr {
                Err(x) => r == Err::<ExecFlow, EvalError>(x) && sc2 == sc && st2 == st,
                Ok(true) => stmts_sem(bs[i].statements@, w - 1, sc, st, sc2, st2, r),
                Ok(false) => elsif_sem(bs, i + 1, els, w, sc, st, sc2, st2, r),
            }
    }
}

/// An `IF` run with the budget `w`.
pub open spec fn if_sem(
    c: Expr,
    then_branch: Seq<Statement>,
    bs: Seq<IfBranch>,
    els: Option<Vec<Statement>>,
    w: int,
    sc: Seq<Scope>,
    st: u64,
    sc2: Seq<Scope>,
    st2: u64,
    r: Result<ExecFlow, EvalError>,
) -> bool
    decreases w, 4int, 0int,
{
    if w <= 0 {
        r == Err::<ExecFlow, EvalError>(EvalError::StepLimitExceeded) && sc2 == sc && st2 == st
    } else if !cond_ready(c, w - 1) {
        true
    } else {
        exists|cr: Result<bool, EvalError>|
            #[trigger] condition_outcome(c, sc, exit_prefix(), cr) && match cr {
                Err(x) => r == Err::<ExecFlow, EvalError>(x) && sc2 == sc && st2 == st,
                Ok(true) => stmts_sem(then_branch, w - 1, sc, st, sc2, st2, r),
                Ok(false) => elsif_sem(bs, 0, els, w, sc, st, sc2, st2, r),
            }
    }
}

/// What follows a loop body that finished with `f` after `steps`: its
/// error, the loop's end, or (with `go`) the next iteration.
pub open spec fn after_body(
    f: Result<ExecFlow, EvalError>,
    last: Option<Value>,
    sc1: Seq<Scope>,
    st1: u64,
    sc2: Seq<Scope>,
    st2: u64,
    r: Result<ExecFlow, EvalError>,
) -> bool {
    match f {
        Err(x) => r == Err::<ExecFlow, EvalError>(x) && sc2 == sc1 && st2 == st1,
        Ok(flow) => match loop_exit(flow, last) {
            Some(g) => r == Ok::<ExecFlow, EvalError>(g) && sc2 == sc1 && st2 == st1,
            None => true,
        },
    }
}

/// The body went on (it neither failed nor left the loop).
pub open spec fn goes_on(f: Result<ExecFlow, EvalError>, last: Option<Value>) -> bool {
    f matches Ok(flow) && loop_exit(flow, last) is None
}

/// The iterations of `WHILE c LOOP body`, from the scopes `sc` and `st`
/// steps, `last` being the last value so far; each takes a step.
pub open spec fn while_iter(
    c: Expr,
    body: Seq<Statement>,
    e: int,
    last: Option<Value>,
    sc: Seq<Scope>,
    st: u64,
    sc2: Seq<Scope>,
    st2: u64,
    r: Result<ExecFlow, EvalError>,
) -> bool
    decreases e + 1, 3int, st,
{
    if e < 0 {
        false
    } else if st == 0 {
        r == Err::<ExecFlow, EvalError>(EvalError::StepLimitExceeded) && sc2 == sc && st2 == st
    } else if !cond_ready(c, e) {
        true
    } else {
        exists|cr: Result<bool, EvalError>|
            #[trigger] condition_outcome(c, sc, exit_prefix(), cr) && match cr {
                Err(x) => r == Err::<ExecFlow, EvalError>(x) && sc2 == sc && st2 == (st - 1) as u64,
                Ok(false) => r == Ok::<ExecFlow, EvalError>(done_flow(last)) && sc2 == sc && st2 == (st - 1) as u64,
                Ok(true) => exists|sc1: Seq<Scope>, st1: u64, f: Result<ExecFlow, EvalError>|
                    #[trigger] mark_run(sc1, st1, f) && stmts_sem(body, e, sc, (st - 1) as u64, sc1, st1, f) && st1 < st && after_body(
                        f,
                        last,
                        sc1,
                        st1,
                        sc2,
                        st2,
                        r,
                    ) && (goes_on(f, last) ==> while_iter(
                        c,
                        body,
                        e,
                        next_last(f->Ok_0, last),
                        sc1,
                        st1,
                        sc2,
                        st2,
                        r,
                    )),
            }
    }
}

/// A `WHILE` loop run with the budget `w`.
pub open spec fn while_sem(
    c: Expr,
    body: Seq<Statement>,
    w: int,
    sc: Seq<Scope>,
    st: u64,
    sc2: Seq<Scope>,
    st2: u64,
    r: Result<ExecFlow, EvalError>,
) -> bool
    decreases w, 4int, 0int,
{
    if w <= 0 {
        r == Err::<ExecFlow, EvalError>(EvalError::StepLimitExceeded) && sc2 == sc && st2 == st
    } else {
        while_iter(c, body, w - 1, None, sc, st, sc2, st2, r)
    }
}

/// The iterations of `LOOP body`; each takes a step.
pub open spec fn loop_iter(
    body: Seq<Statement>,
    e: int,
    last: Option<Value>,
    sc: Seq<Scope>,
    st: u64,
    sc2: Seq<Scope>,
    st2: u64,
    r: Result<ExecFlow, EvalError>,
) -> bool
    decreases e + 1, 3int, st,
{
    if e < 0 {
        false
    } else if st == 0 {
        r == Err::<ExecFlow, EvalError>(EvalError::StepLimitExceeded) && sc2 == sc && st2 == st
    } else {
        exists|sc1: Seq<Scope>, st1: u64, f: Result<ExecFlow, EvalError>|
            #[trigger] mark_run(sc1, st1, f) && stmts_sem(body, e, sc, (st - 1) as u64, sc1, st1, f) && st1 < st && after_body(
                f,
                last,
                sc1,
                st1,
                sc2,
                st2,
                r,
            ) && (goes_on(f, last) ==> loop_iter(body, e, next_last(f->Ok_0, last), sc1, st1, sc2, st2, r))
    }
}

/// A `LOOP` run with the budget `w`.
pub open spec fn loop_sem(
    body: Seq<Statement>,
    w: int,
    sc: Seq<Scope>,
    st: u64,
    sc2: Seq<Scope>,
    st2: u64,
    r: Result<ExecFlow, EvalError>,
) -> bool
    decreases w, 4int, 0int,
{
    if w <= 0 {
        r == Err::<ExecFlow, EvalError>(EvalError::StepLimitExceeded) && sc2 == sc && st2 == st
    } else {
        loop_iter(body, w - 1, None, sc, st, sc2, st2, r)
    }
}

/// The number after `cur` fits: its numerator and denominator before
/// reduction are within `i64`.
pub open spec fn next_fits(cur: Number) -> bool {
    fits_i64(cur.numer() * 1 + 1 * cur.denom()) && fits_i64(cur.denom() * 1)
}

/// The iterations of a range `FOR` from `cur` up to `lastb`, the variable
/// `var` set to each number in the innermost scope; each takes a step.
pub open spec fn range_iter(
    var: Seq<char>,
    cur: Number,
    lastb: Number,
    body: Seq<Statement>,
    e: int,
    last: Option<Value>,
    sc: Seq<Scope>,
    st: u64,
    sc2: Seq<Scope>,
    st2: u64,
    r: Result<ExecFlow, EvalError>,
) -> bool
    decreases e + 1, 3int, st,
{
    if e < 0 {
        false
    } else if number_below(lastb, cur) {
        r == Ok::<ExecFlow, EvalError>(done_flow(last)) && sc2 == sc && st2 == st
    } else if st == 0 {
        r == Err::<ExecFlow, EvalError>(EvalError::StepLimitExceeded) && sc2 == sc && st2 == st
    } else {
        exists|sc0: Seq<Scope>, sc1: Seq<Scope>, st1: u64, f: Result<ExecFlow, EvalError>|
            #![trigger set_in(sc, var, Value::Number(cur), sc0), mark_run(sc1, st1, f)]
            stmts_sem(body, e, sc0, (st - 1) as u64, sc1, st1, f) && set_in(
                sc,
                var,
                Value::Number(cur),
                sc0,
            ) && st1 < st && after_body(f, last, sc1, st1, sc2, st2, r) && (goes_on(f, last) ==> {
                ||| exists|n: Number|
                    #[trigger] n.denotes(cur.numer() * 1 + 1 * cur.denom(), cur.denom() * 1) && range_iter(
                        var,
                        n,
                        lastb,
                        body,
                        e,
                        next_last(f->Ok_0, last),
                        sc1,
                        st1,
                        sc2,
                        st2,
                        r,
                    )
                ||| !next_fits(cur) && r == Err::<ExecFlow, EvalError>(EvalError::NumericOverflow) && sc2 == sc1
                    && st2 == st1
            })
    }
}

/// The iterations of a range `FOR` run with the budget `d`.
pub open spec fn range_sem(
    var: Seq<char>,
    first: Number,
    lastb: Number,
    body: Seq<Statement>,
    d: int,
    sc: Seq<Scope>,
    st: u64,
    sc2: Seq<Scope>,
    st2: u64,
    r: Result<ExecFlow, EvalError>,
) -> bool
    decreases d, 4int, 0int,
{
    if d <= 0 {
        r == Err::<ExecFlow, EvalError>(EvalError::StepLimitExceeded) && sc2 == sc && st2 == st
    } else {
        range_iter(var, first, lastb, body, d - 1, None, sc, st, sc2, st2, r)
    }
}

/// A range `FOR` run with the budget `w`: the bounds are evaluated, then the
/// iterations run in a scope of their own.
pub open spec fn for_sem(
    var: Seq<char>,
    start: Expr,
    end: Expr,
    body: Seq<Statement>,
    w: int,
    sc: Seq<Scope>,
    st: u64,
    sc2: Seq<Scope>,
    st2: u64,
    r: Result<ExecFlow, EvalError>,
) -> bool
    decreases w, 5int, 0int,
{
    if w <= 0 {
        r == Err::<ExecFlow, EvalError>(EvalError::StepLimitExceeded) && sc2 == sc && st2 == st
    } else if !(expr_ready(start, w - 1) && expr_ready(end, w - 1)) {
        true
    } else {
        exists|a: Result<Number, EvalError>|
            #[trigger] bound_outcome(start, sc, a) && match a {
                Err(x) => r == Err::<ExecFlow, EvalError>(x) && sc2 == sc && st2 == st,
                Ok(n1) => exists|b: Result<Number, EvalError>|
                    #[trigger] bound_outcome(end, sc, b) && match b {
                        Err(x) => r == Err::<ExecFlow, EvalError>(x) && sc2 == sc && st2 == st,
                        Ok(n2) => exists|ns: Scope, sc3: Seq<Scope>|
                            #[trigger] mark_opened(ns, sc3) && range_sem(var, n1, n2, body, w - 1, sc.push(ns), st, sc3, st2, r)
                                && fresh_scope(ns) && sc2 == popped(sc3),
                    },
            }
    }
}


/// `r` holds exactly the values `acc`.
pub open spec fn values_are(r: Result<Vec<Value>, EvalError>, acc: Seq<Value>) -> bool {
    r matches Ok(vs) && vs@ == acc
}

/// Collecting the values of the statements `ss` from the `i`-th on, each
/// run with the budget `e`, after the values `acc`: a statement without a
/// value gives NULL; an exit gives its value (or NULL) and stops; a raise or
/// a return is an error, as is the first error.
pub open spec fn collect_list(
    ss: Seq<Statement>,
    i: int,
    e: int,
    acc: Seq<Value>,
    sc: Seq<Scope>,
    st: u64,
    sc2: Seq<Scope>,
    st2: u64,
    r: Result<Vec<Value>, EvalError>,
) -> bool
    decreases ss.len() - i,
{
    if i < 0 || i >= ss.len() {
        values_are(r, acc) && sc2 == sc && st2 == st
    } else {
        exists|sc1: Seq<Scope>, st1: u64, f: Result<ExecFlow, EvalError>|
            #[trigger] mark_run(sc1, st1, f) && stmt_sem(ss[i], e, sc, st, sc1, st1, f) && match f {
                Err(x) => r == Err::<Vec<Value>, EvalError>(x) && sc2 == sc1 && st2 == st1,
                Ok(ExecFlow::Value(v)) => collect_list(ss, i + 1, e, acc.push(v), sc1, st1, sc2, st2, r),
                Ok(ExecFlow::NoValue) => collect_list(ss, i + 1, e, acc.push(Value::Null), sc1, st1, sc2, st2, r),
                Ok(ExecFlow::Raise(n)) => r == Err::<Vec<Value>, EvalError>(EvalError::UnhandledException(n))
                    && sc2 == sc1 && st2 == st1,
                Ok(ExecFlow::Return(_)) => r == Err::<Vec<Value>, EvalError>(EvalError::ReturnOutsideRoutine)
                    && sc2 == sc1 && st2 == st1,
                Ok(ExecFlow::ExitLoop(v)) => values_are(
                    r,
                    acc.push(
                        match v {
                            Some(x) => x,
                            None => Value::Null,
                        },
                    ),
                ) && sc2 == sc1 && st2 == st1,
            }
    }
}

/// Collecting the statement values of a block in the current scope with the
/// nesting budget `d`: its declarations run first; when they fail, the
/// first handler of runtime errors runs (a `RETURN` there is an error) and
/// the statements follow, else the error stands.
pub open spec fn collect_sem(
    b: Block,
    d: int,
    sc: Seq<Scope>,
    st: u64,
    sc2: Seq<Scope>,
    st2: u64,
    r: Result<Vec<Value>, EvalError>,
) -> bool {
    if d <= 0 {
        r == Err::<Vec<Value>, EvalError>(EvalError::StepLimitExceeded) && sc2 == sc && st2 == st
    } else {
        exists|sc1: Seq<Scope>, st1: u64, dr: Result<(), EvalError>|
            #[trigger] mark_declared(sc1, st1, dr) && decls_sem(b.declarations@, d - 1, sc, st, sc1, st1, dr) && match dr {
                Ok(()) => collect_list(b.statements@, 0, d - 1, Seq::empty(), sc1, st1, sc2, st2, r),
                Err(x) => match first_catch(b.exception_handlers@, None, 0) {
                    None => r == Err::<Vec<Value>, EvalError>(x) && sc2 == sc1 && st2 == st1,
                    Some(h) => 0 <= h < b.exception_handlers@.len() && exists|
                        sc3: Seq<Scope>,
                        st3: u64,
                        f: Result<ExecFlow, EvalError>,
                    |
                        #[trigger] mark_run(sc3, st3, f) && stmts_sem(
                            b.exception_handlers@[h].statements@,
                            d - 1,
                            sc1,
                            st1,
                            sc3,
                            st3,
                            f,
                        ) && match f {
                            Err(y) => r == Err::<Vec<Value>, EvalError>(y) && sc2 == sc3 && st2 == st3,
                            Ok(ExecFlow::Return(_)) => r == Err::<Vec<Value>, EvalError>(
                                EvalError::ReturnOutsideRoutine,
                            ) && sc2 == sc3 && st2 == st3,
                            Ok(_) => collect_list(b.statements@, 0, d - 1, Seq::empty(), sc3, st3, sc2, st2, r),
                        },
                },
            }
    }
}


/// `sc2` is `sc` with each of `targets` set in turn to the value at its
/// place in `row`, in the innermost scope.
pub open spec fn set_all(sc: Seq<Scope>, targets: Seq<String>, row: Seq<Value>, sc2: Seq<Scope>) -> bool {
    exists|ss: Seq<Seq<Scope>>|
        #[trigger] set_chain(ss, targets, row) && ss.len() == targets.len() + 1 && ss[0] == sc && ss.last() == sc2
}

/// Each scope stack of `ss` follows from the one before it by setting the
/// next of `targets` to the next of `row`.
pub open spec fn set_chain(ss: Seq<Seq<Scope>>, targets: Seq<String>, row: Seq<Value>) -> bool {
    &&& ss.len() <= targets.len() + 1
    &&& ss.len() <= row.len() + 1
    &&& forall|j: int| 0 <= j < ss.len() - 1 ==> #[trigger] set_in(ss[j], targets[j]@, row[j], ss[j + 1])
}

/// A fetch's result, its row taken by its view.
pub open spec fn fetched(nr: Result<Option<Vec<Value>>, EvalError>) -> Result<Option<Seq<Value>>, EvalError> {
    match nr {
        Err(x) => Err(x),
        Ok(None) => Ok(None),
        Ok(Some(v)) => Ok(Some(v@)),
    }
}

/// The fetch `f` of the cursor `name` whose instance is `inst`: an error
/// when it is not open, nothing once its rows are used up, else the next row.
pub open spec fn fetch_matches(inst: Option<CursorInstance>, name: Seq<char>, f: Result<Option<Seq<Value>>, EvalError>) -> bool {
    match inst {
        None => f matches Err(EvalError::CursorNotOpen(n)) && n@ == name,
        Some(i) => if i.position >= i.rows@.len() {
            f == Ok::<Option<Seq<Value>>, EvalError>(None)
        } else {
            f == Ok::<Option<Seq<Value>>, EvalError>(Some(i.rows@[i.position as int]@))
        },
    }
}

/// The iterations of a cursor `FOR` from the `k`-th fetch on, the fetches
/// giving `fs`: each takes a step and fetches; a fetched row of the right
/// width is set to the targets and the body runs; the loop ends when the
/// rows are used up.
pub open spec fn cursor_iter(
    targets: Seq<String>,
    body: Seq<Statement>,
    e: int,
    last: Option<Value>,
    fs: Seq<Result<Option<Seq<Value>>, EvalError>>,
    k: int,
    sc: Seq<Scope>,
    st: u64,
    sc2: Seq<Scope>,
    st2: u64,
    r: Result<ExecFlow, EvalError>,
) -> bool
    decreases st,
{
    if e < 0 || k < 0 {
        false
    } else if st == 0 {
        r == Err::<ExecFlow, EvalError>(EvalError::StepLimitExceeded) && sc2 == sc && st2 == st
    } else if k >= fs.len() {
        false
    } else {
        match fs[k] {
            Err(x) => r == Err::<ExecFlow, EvalError>(x) && sc2 == sc && st2 == (st - 1) as u64,
            Ok(None) => r == Ok::<ExecFlow, EvalError>(done_flow(last)) && sc2 == sc && st2 == (st - 1) as u64,
            Ok(Some(row)) => if row.len() != targets.len() {
                (r matches Err(EvalError::ColumnCountMismatch { expected, found }) && expected == targets.len()
                    && found == row.len()) && sc2 == sc && st2 == (st - 1) as u64
            } else {
                exists|sc0: Seq<Scope>, sc1: Seq<Scope>, st1: u64, f: Result<ExecFlow, EvalError>|
                    #![trigger set_all(sc, targets, row, sc0), mark_run(sc1, st1, f)]
                    set_all(sc, targets, row, sc0) && stmts_sem(body, e, sc0, (st - 1) as u64, sc1, st1, f) && st1
                        < st && after_body(f, last, sc1, st1, sc2, st2, r) && (goes_on(f, last) ==> cursor_iter(
                        targets,
                        body,
                        e,
                        next_last(f->Ok_0, last),
                        fs,
                        k + 1,
                        sc1,
                        st1,
                        sc2,
                        st2,
                        r,
                    ))
            },
        }
    }
}

/// The iterations of a cursor `FOR` over the cursor `name`, whose instance
/// is `inst` at the start, run with the budget `d`: the first fetch reads
/// that instance; later ones read what the body left.
pub open spec fn cursor_sem(
    targets: Seq<String>,
    name: Seq<char>,
    body: Seq<Statement>,
    d: int,
    inst: Option<CursorInstance>,
    sc: Seq<Scope>,
    st: u64,
    sc2: Seq<Scope>,
    st2: u64,
    r: Result<ExecFlow, EvalError>,
) -> bool {
    if d <= 0 {
        r == Err::<ExecFlow, EvalError>(EvalError::StepLimitExceeded) && sc2 == sc && st2 == st
    } else {
        exists|fs: Seq<Result<Option<Seq<Value>>, EvalError>>|
            #[trigger] mark_fetches(fs) && (fs.len() > 0 ==> fetch_matches(inst, name, fs[0])) && cursor_iter(
                targets,
                body,
                d - 1,
                None,
                fs,
                0,
                sc,
                st,
                sc2,
                st2,
                r,
            )
    }
}

/// A marker, true of every argument, naming the instance a cursor loop
/// opened, the scopes and steps it opened them with, and the steps it ended
/// with (see `mark_run`).
pub open spec fn mark_cursor_opened(inst: CursorInstance, sc: Seq<Scope>, st: u64, st2: u64) -> bool {
    true
}

/// A marker, true of every argument, naming the fetches a cursor loop made
/// (see `mark_run`).
pub open spec fn mark_fetches(fs: Seq<Result<Option<Seq<Value>>, EvalError>>) -> bool {
    true
}


/// Running the statement `s` with the nesting budget `d` cannot change the
/// database: it is a block, `IF`, loop, `EXIT`, `RAISE`, `RETURN`,
/// expression or assignment whose expressions are free of calls and
/// `SYSDATE`, and whose inner statements are so too; no data, cursor,
/// call, `COMMIT` or `ROLLBACK` statement is reached within the budget.
pub open spec fn quiet_stmt(s: Statement, d: int) -> bool
    decreases d, 0int,
{
    if d <= 0 {
        true
    } else {
        match s {
            Statement::Block(b) => quiet_block(*b, d - 1),
            Statement::If { condition, then_branch, elsif_branches, else_branch } => {
                &&& pure_expr(condition)
                &&& (d - 2 > 0 ==> quiet_list(then_branch@, d - 2))
                &&& forall|i: int|
                    0 <= i < elsif_branches@.len() ==> pure_expr((#[trigger] elsif_branches@[i]).condition) && (d - 2
                        > 0 ==> quiet_list(elsif_branches@[i].statements@, d - 2))
                &&& (else_branch matches Some(st) ==> (d - 2 > 0 ==> quiet_list(st@, d - 2)))
            },
            Statement::While { condition, body } => pure_expr(condition) && (d - 2 > 0 ==> quiet_list(body@, d - 2)),
            Statement::Loop { body } => d - 2 > 0 ==> quiet_list(body@, d - 2),
            Statement::For { variable, start, end, body } => pure_expr(start) && pure_expr(end) && (d - 3 > 0
                ==> quiet_list(body@, d - 3)),
            Statement::Exit { condition } => condition matches Some(c) ==> pure_expr(c),
            Statement::Raise { name } => true,
            Statement::Return(v) => v matches Some(e) ==> pure_expr(e),
            Statement::Expression(e) => pure_expr(e),
            Statement::Assignment { name, value } => pure_expr(value),
            _ => false,
        }
    }
}

/// Running the statements `ss` with the nesting budget `d` cannot change
/// the database (see `quiet_stmt`).
pub open spec fn quiet_list(ss: Seq<Statement>, d: int) -> bool
    decreases d, 1int,
{
    if d <= 0 {
        true
    } else {
        forall|i: int| 0 <= i < ss.len() ==> quiet_stmt(#[trigger] ss[i], d - 1)
    }
}

/// The declarations' initial values are free of calls (`SYSDATE` alone is
/// allowed).
pub open spec fn quiet_decls(ds: Seq<Declaration>) -> bool {
    forall|i: int|
        0 <= i < ds.len() ==> ((#[trigger] ds[i]).init_value matches Some(e) ==> (pure_expr(e) || e is Sysdate))
}

/// Running the block `b` in the current scope with the nesting budget `d`
/// cannot change the database (see `quiet_stmt`).
pub open spec fn quiet_block(b: Block, d: int) -> bool
    decreases d, 2int,
{
    if d <= 0 {
        true
    } else {
        &&& quiet_decls(b.declarations@)
        &&& (d - 1 > 0 ==> quiet_list(b.statements@, d - 1))
        &&& forall|h: int|
            0 <= h < b.exception_handlers@.len() ==> (d - 1 > 0 ==> quiet_list(
                (#[trigger] b.exception_handlers@[h]).statements@,
                d - 1,
            ))
    }
}

} // verus!
