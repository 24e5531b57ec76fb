use vstd::prelude::*;

use crate::ast::{share, UnaryOp, Block, Declaration, ExceptionCondition, ExceptionHandler, Expr, IfBranch, Statement};
use crate::expr::eval::{binary_outcome, eval_binary, eval_unary, unary_outcome, EvalError};
use crate::expr::number::Number;
use crate::expr::time::{clock_now, timestamp_in_range, Now};
use crate::expr::value::{chars_of, type_from_name_spec, type_name_spec, type_of, upper, upper_equals, DateTime, Value};
use crate::db::catalog::catalog_set;
use crate::runtime::names::{keyed, lookup};
use crate::runtime::dml::{all_pure, data_outcome};
use crate::runtime::routine::call_run;
use crate::runtime::semantics::{
    quiet_block, quiet_decls, quiet_list, quiet_stmt,    mark_clock, sysdate_type,    collect_list, collect_sem, block_sem, cond_ready, decl_list, declare_outcome, mark_declared, decls_sem, elsif_sem, expr_ready, for_sem,
    fresh_scope, handled, if_sem, lemma_first_catch, lemma_no_catch, list_sem, loop_iter, loop_sem, mark_opened,
    popped, mark_run, range_iter, range_sem, set_in, stmt_sem, stmts_sem, while_iter, while_sem,
};
use crate::runtime::env::{
    assign_refused, assign_target, dot_index, expects_message, head_of, owner_type, path_value, resolve_plain,
    tail_of, unknown_type_message, var_stored, Environment, Resolution, Scope, STEP_BUDGET,
};

verus! {

/// How a statement, statement list or block finished.
#[derive(Debug)]
pub enum ExecFlow {
    /// Finished with a value (the last value produced).
    Value(Value),
    /// Finished without producing a value.
    NoValue,
    /// An `EXIT` left the enclosing loop, with the last value produced.
    ExitLoop(Option<Value>),
    /// A named exception was raised and not handled.
    Raise(String),
    /// A `RETURN` left the enclosing routine.
    Return(Option<Value>),
}

/// The nesting budget of one top-level execution: every nested block,
/// statement, expression, routine call and trigger run goes one level down.
pub const MAX_DEPTH: u32 = 1000;

/// `new` is a well-formed environment with the scopes of `old` (as many
/// variable, cursor and trigger scopes) and no more steps left.
pub open spec fn kept(old: Environment, new: Environment) -> bool {
    &&& new.wf()
    &&& new.scopes@.len() == old.scopes@.len()
    &&& new.cursors.scopes@.len() == old.cursors.scopes@.len()
    &&& new.triggers.scopes@.len() == old.triggers.scopes@.len()
    &&& new.triggers.scopes@.drop_last() == old.triggers.scopes@.drop_last()
    &&& forall|n: Seq<char>|
        #[trigger] old.routines.declared(n) is Some ==> new.routines.declared(n) == old.routines.declared(n)
    &&& new.steps <= old.steps
}

/// The environment is well formed with parallel scope stacks.
pub open spec fn ready(env: Environment) -> bool {
    &&& env.wf()
    &&& env.cursors.scopes@.len() >= 1
    &&& env.triggers.scopes@.len() >= 1
}

/// One level down the nesting budget.
pub fn deeper(depth: u32) -> (r: Result<u32, EvalError>)
    ensures
        depth == 0 ==> r == Err::<u32, EvalError>(EvalError::StepLimitExceeded),
        depth > 0 ==> r == Ok::<u32, EvalError>((depth - 1) as u32),
{
    if depth == 0 {
        Err(EvalError::StepLimitExceeded)
    } else {
        Ok(depth - 1)
    }
}

/// Takes one step of the budget.
pub fn take_step(env: &mut Environment) -> (r: Result<(), EvalError>)
    requires
        old(env).wf(),
    ensures
        old(env).steps == 0 ==> (r == Err::<(), EvalError>(EvalError::StepLimitExceeded) && *final(env) == *old(env)),
        old(env).steps > 0 ==> (r is Ok && final(env).steps == old(env).steps - 1),
        kept(*old(env), *final(env)),
        final(env).scopes == old(env).scopes,
        final(env).database == old(env).database,
        final(env).cursors == old(env).cursors,
        final(env).triggers == old(env).triggers,
        final(env).routines == old(env).routines,
{
    if env.steps == 0 {
        return Err(EvalError::StepLimitExceeded);
    }
    env.steps = env.steps - 1;
    Ok(())
}

/// Runs a block in a new scope with a fresh step budget and gives its
/// value: the last value its statements produced, or NULL. An `EXIT`
/// outside a loop, an unhandled exception and a `RETURN` outside a routine
/// are errors. The block's variables, cursors and triggers are gone
/// afterwards.
pub fn execute_block(block: &Block, env: &mut Environment) -> (r: Result<Value, EvalError>)
    requires
        ready(*old(env)),
    ensures
        ready(*final(env)),
        final(env).scopes@.len() == old(env).scopes@.len(),
        final(env).cursors.scopes@.len() == old(env).cursors.scopes@.len(),
        final(env).triggers.scopes@.len() == old(env).triggers.scopes@.len(),
        forall|n: Seq<char>|
            #[trigger] old(env).routines.declared(n) is Some ==> final(env).routines.declared(n) == old(env).routines.declared(n),
        exists|f: Result<ExecFlow, EvalError>| #[trigger] block_entry(*block, f) && r == top_result(f),
        exists|ns: Scope, sc3: Seq<Scope>, st2: u64, f: Result<ExecFlow, EvalError>|
            #![trigger mark_opened(ns, sc3), mark_run(sc3, st2, f)]
            fresh_scope(ns) && block_sem(*block, MAX_DEPTH as int, old(env).scopes@.push(ns), STEP_BUDGET, sc3, st2, f)
                && final(env).scopes@ == popped(sc3) && r == top_result(f),
{
    env.steps = STEP_BUDGET;
    env.push_scope();
    let ghost pushed = env.scopes@;
    let flow = execute_block_in_scope(block, env, MAX_DEPTH);
    let ghost inner = env.scopes@;
    let ghost st2 = env.steps;
    env.pop_scope();
    proof {
        assert(pushed =~= old(env).scopes@.push(pushed.last()));
        assert(mark_opened(pushed.last(), inner));
        assert(mark_run(inner, st2, flow));
    }
    let r = match flow {
        Err(e) => Err(e),
        Ok(f) => flow_result(f),
    };
    assert(block_entry(*block, flow) && r == top_result(flow));
    r
}

/// The value of a top-level run that finished with `f`: the last value, or
/// NULL; an `EXIT`, a raise or a `RETURN` that got this far is an error.
pub open spec fn top_result(f: Result<ExecFlow, EvalError>) -> Result<Value, EvalError> {
    match f {
        Err(e) => Err(e),
        Ok(ExecFlow::Value(v)) => Ok(v),
        Ok(ExecFlow::NoValue) => Ok(Value::Null),
        Ok(ExecFlow::ExitLoop(_)) => Err(EvalError::ExitOutsideLoop),
        Ok(ExecFlow::Raise(n)) => Err(EvalError::UnhandledException(n)),
        Ok(ExecFlow::Return(_)) => Err(EvalError::ReturnOutsideRoutine),
    }
}

/// Evaluates an expression at top level, with a fresh step budget.
pub fn eval(expr: &Expr, env: &mut Environment) -> (r: Result<Value, EvalError>)
    requires
        ready(*old(env)),
    ensures
        ready(*final(env)),
        final(env).scopes@.len() == old(env).scopes@.len(),
        *expr matches Expr::Literal(v) ==> r == Ok::<Value, EvalError>(v),
        pure_expr(*expr) && expr_height(*expr) < MAX_DEPTH ==> {
            &&& pure_outcome(*expr, old(env).scopes@, r)
            &&& final(env).scopes == old(env).scopes
            &&& final(env).database == old(env).database
        },
{
    env.steps = STEP_BUDGET;
    eval_at(expr, env, MAX_DEPTH)
}

/// Runs a block in a new scope with a fresh step budget and gives the value
/// of each statement of its `BEGIN` section (NULL for one that produces
/// none), stopping after an `EXIT`. A failure of the declarations is
/// handled by the first handler that catches runtime errors, after which
/// the statements run.
pub fn execute_block_collect_values(block: &Block, env: &mut Environment) -> (r: Result<
    Vec<Value>,
    EvalError,
>)
    requires
        ready(*old(env)),
    ensures
        ready(*final(env)),
        final(env).scopes@.len() == old(env).scopes@.len(),
        final(env).cursors.scopes@.len() == old(env).cursors.scopes@.len(),
        final(env).triggers.scopes@.len() == old(env).triggers.scopes@.len(),
        r matches Ok(values) ==> values@.len() <= block.statements@.len(),
        exists|ns: Scope, sc3: Seq<Scope>, st2: u64|
            #![trigger mark_opened(ns, sc3), mark_run(sc3, st2, Ok(ExecFlow::NoValue))]
            fresh_scope(ns) && collect_sem(*block, MAX_DEPTH as int, old(env).scopes@.push(ns), STEP_BUDGET, sc3, st2, r)
                && final(env).scopes@ == popped(sc3),
{
    env.steps = STEP_BUDGET;
    env.push_scope();
    let ghost pushed = env.scopes@;
    let r = collect_in_scope(block, env, MAX_DEPTH);
    let ghost inner = env.scopes@;
    let ghost st2 = env.steps;
    env.pop_scope();
    proof {
        assert(pushed =~= old(env).scopes@.push(pushed.last()));
        assert(mark_opened(pushed.last(), inner));
        assert(mark_run(inner, st2, Ok(ExecFlow::NoValue)));
    }
    r
}

/// Every statement is an expression without calls or `SYSDATE`, shallow
/// enough to be evaluated from `depth`.
pub open spec fn expression_statements(st: Seq<Statement>, depth: int) -> bool {
    forall|i: int|
        0 <= i < st.len() ==> (#[trigger] st[i] matches Statement::Expression(e) && pure_expr(e) && depth
            > expr_height(e) + 2)
}

/// The expression of an expression statement.
pub open spec fn stmt_expr(s: Statement) -> Expr {
    match s {
        Statement::Expression(e) => e,
        _ => Expr::Literal(Value::Null),
    }
}

/// The statement values of a block, in the block's scope.
fn collect_in_scope(block: &Block, env: &mut Environment, depth: u32) -> (r: Result<Vec<Value>, EvalError>)
    requires
        ready(*old(env)),
    ensures
        kept(*old(env), *final(env)),
        r matches Ok(values) ==> values@.len() <= block.statements@.len(),
        collect_sem(*block, depth as int, old(env).scopes@, old(env).steps, final(env).scopes@, final(env).steps, r),
    decreases depth,
{
    let d = deeper(depth)?;
    let ghost hs = block.exception_handlers@;
    let dr = execute_declarations(block, env, d);
    let ghost sc1 = env.scopes@;
    let ghost st1 = env.steps;
    assert(mark_declared(sc1, st1, dr));
    match dr {
        Ok(()) => {},
        Err(err) => match find_handler(&block.exception_handlers, None) {
            Some(i) => {
                proof {
                    lemma_first_catch(hs, None, 0, i as int);
                }
                let f = execute_statements(&block.exception_handlers[i].statements, env, d);
                assert(mark_run(env.scopes@, env.steps, f));
                match f {
                    Err(e) => {
                        return Err(e);
                    },
                    Ok(ExecFlow::Return(_)) => {
                        return Err(EvalError::ReturnOutsideRoutine);
                    },
                    Ok(_) => {},
                }
            },
            None => {
                proof {
                    lemma_no_catch(hs, None, 0);
                }
                return Err(err);
            },
        },
    }
    proof {
        assert forall|a: Seq<Scope>, b: u64, x: Result<Vec<Value>, EvalError>|
            #[trigger] collect_list(block.statements@, 0, d as int, Seq::empty(), env.scopes@, env.steps, a, b, x) implies collect_sem(
            *block,
            depth as int,
            old(env).scopes@,
            old(env).steps,
            a,
            b,
            x,
        ) by {
            assert(mark_declared(sc1, st1, dr));
        }
    }
    let mut results: Vec<Value> = Vec::new();
    let mut i: usize = 0;
    assert(results@ =~= Seq::<Value>::empty());
    while i < block.statements.len()
        invariant
            ready(*env),
            kept(*old(env), *env),
            d < depth,
            i <= block.statements@.len(),
            results@.len() == i,
            d == depth - 1,
            forall|a: Seq<Scope>, b: u64, x: Result<Vec<Value>, EvalError>|
                #[trigger] collect_list(block.statements@, i as int, d as int, results@, env.scopes@, env.steps, a, b, x)
                    ==> collect_sem(*block, depth as int, old(env).scopes@, old(env).steps, a, b, x),
        decreases block.statements@.len() - i,
    {
        let ghost sc_i = env.scopes@;
        let ghost st_i = env.steps;
        let ghost acc = results@;
        let flow = execute_statement(&block.statements[i], env, d);
        assert(mark_run(env.scopes@, env.steps, flow));
        match flow {
            Err(e) => {
                assert(collect_list(block.statements@, i as int, d as int, acc, sc_i, st_i, env.scopes@, env.steps, Err(e)));
                return Err(e);
            },
            Ok(ExecFlow::Value(v)) => results.push(v),
            Ok(ExecFlow::NoValue) => results.push(Value::Null),
            Ok(ExecFlow::Raise(name)) => {
                let r = Err(EvalError::UnhandledException(name));
                assert(collect_list(block.statements@, i as int, d as int, acc, sc_i, st_i, env.scopes@, env.steps, r));
                return r;
            },
            Ok(ExecFlow::Return(_)) => {
                let r = Err(EvalError::ReturnOutsideRoutine);
                assert(collect_list(block.statements@, i as int, d as int, acc, sc_i, st_i, env.scopes@, env.steps, r));
                return r;
            },
            Ok(ExecFlow::ExitLoop(v)) => {
                results.push(
                    match v {
                        Some(x) => x,
                        None => Value::Null,
                    },
                );
                let r = Ok(results);
                assert(collect_list(block.statements@, i as int, d as int, acc, sc_i, st_i, env.scopes@, env.steps, r));
                return r;
            },
        }
        proof {
            assert forall|a: Seq<Scope>, b: u64, x: Result<Vec<Value>, EvalError>|
                #[trigger] collect_list(block.statements@, i + 1, d as int, results@, env.scopes@, env.steps, a, b, x) implies collect_list(
                block.statements@,
                i as int,
                d as int,
                acc,
                sc_i,
                st_i,
                a,
                b,
                x,
            ) by {
                assert(mark_run(env.scopes@, env.steps, flow));
            }
        }
        i += 1;
    }
    let r = Ok(results);
    assert(collect_list(block.statements@, i as int, d as int, results@, env.scopes@, env.steps, env.scopes@, env.steps, r));
    r
}

/// The value of a finished top-level block.
pub fn flow_result(flow: ExecFlow) -> (r: Result<Value, EvalError>)
    ensures
        match flow {
            ExecFlow::Value(v) => r == Ok::<Value, EvalError>(v),
            ExecFlow::NoValue => r == Ok::<Value, EvalError>(Value::Null),
            ExecFlow::ExitLoop(_) => r == Err::<Value, EvalError>(EvalError::ExitOutsideLoop),
            ExecFlow::Raise(n) => r == Err::<Value, EvalError>(EvalError::UnhandledException(n)),
            ExecFlow::Return(_) => r == Err::<Value, EvalError>(EvalError::ReturnOutsideRoutine),
        },
{
    match flow {
        ExecFlow::Value(v) => Ok(v),
        ExecFlow::NoValue => Ok(Value::Null),
        ExecFlow::ExitLoop(_) => Err(EvalError::ExitOutsideLoop),
        ExecFlow::Raise(n) => Err(EvalError::UnhandledException(n)),
        ExecFlow::Return(_) => Err(EvalError::ReturnOutsideRoutine),
    }
}

/// A handler catches a signal: `OTHERS` catches everything, a named
/// handler catches the raise of that name (`None` is a runtime error).
pub open spec fn handler_catches(h: ExceptionHandler, signal: Option<Seq<char>>) -> bool {
    match h.condition {
        ExceptionCondition::Others => true,
        ExceptionCondition::Named(n) => signal matches Some(s) && n@ == s,
    }
}

/// The first handler that catches the signal.
pub fn find_handler(handlers: &Vec<ExceptionHandler>, signal: Option<&str>) -> (r: Option<usize>)
    ensures
        r matches Some(i) ==> match handlers@[i as int].condition {
            ExceptionCondition::Others => true,
            ExceptionCondition::Named(n) => signal matches Some(s) && n@ == s@,
        },
        match r {
            Some(i) => i < handlers@.len() && handler_catches(
                handlers@[i as int],
                match signal {
                    Some(s) => Some(s@),
                    None => None,
                },
            ) && forall|j: int|
                0 <= j < i ==> !handler_catches(
                    #[trigger] handlers@[j],
                    match signal {
                        Some(s) => Some(s@),
                        None => None,
                    },
                ),
            None => forall|j: int|
                0 <= j < handlers@.len() ==> !handler_catches(
                    #[trigger] handlers@[j],
                    match signal {
                        Some(s) => Some(s@),
                        None => None,
                    },
                ),
        },
{
    let ghost sig = match signal {
        Some(s) => Some(s@),
        None => None,
    };
    let mut i: usize = 0;
    while i < handlers.len()
        invariant
            i <= handlers@.len(),
            sig == (match signal {
                Some(s) => Some(s@),
                None => None,
            }),
            forall|j: int| 0 <= j < i ==> !handler_catches(#[trigger] handlers@[j], sig),
        decreases handlers@.len() - i,
    {
        let caught = match &handlers[i].condition {
            ExceptionCondition::Others => true,
            ExceptionCondition::Named(n) => match signal {
                Some(s) => crate::expr::value::str_equal(n.as_str(), s),
                None => false,
            },
        };
        if caught {
            return Some(i);
        }
        i += 1;
    }
    None
}

/// What a block whose statements raise `name` first gives, with its
/// `handlers`: the flow of the first handler that catches the raise, as far
/// as `list_flow` tells, or the raise itself when none does.
pub open spec fn raise_handled(handlers: Seq<ExceptionHandler>, name: Seq<char>, r: Result<ExecFlow, EvalError>) -> bool {
    &&& (forall|j: int| 0 <= j < handlers.len() ==> !handler_catches(#[trigger] handlers[j], Some(name))) ==> (r matches Ok(
        ExecFlow::Raise(n),
    ) && n@ == name)
    &&& forall|i: int|
        0 <= i < handlers.len() && handler_catches(#[trigger] handlers[i], Some(name)) && (forall|j: int|
            0 <= j < i ==> !handler_catches(#[trigger] handlers[j], Some(name))) ==> list_flow(handlers[i].statements@, r)
}

/// What running `block` gives, as far as its first statement tells, when
/// its declarations need nothing at run time: no value for no statements,
/// a raise handled as `raise_handled` says, a plain `EXIT` or `RETURN`
/// passed on.
pub open spec fn block_entry(block: Block, r: Result<ExecFlow, EvalError>) -> bool {
    only_exceptions(block.declarations@) ==> {
        let st = block.statements@;
        &&& (st.len() == 0 ==> r matches Ok(ExecFlow::NoValue))
        &&& (st.len() > 0 ==> match st[0] {
            Statement::Raise { name } => raise_handled(block.exception_handlers@, name@, r),
            Statement::Exit { condition: None } => r matches Ok(ExecFlow::ExitLoop(None)),
            Statement::Return(None) => r matches Ok(ExecFlow::Return(None)),
            _ => true,
        })
    }
}

/// Runs a block in the current scope: its declarations, then its
/// statements. A runtime error (in either) is caught by the first handler
/// that catches every signal; an unhandled named raise by the first
/// handler of that name or `OTHERS`.
pub fn execute_block_in_scope(block: &Block, env: &mut Environment, depth: u32) -> (r: Result<
    ExecFlow,
    EvalError,
>)
    requires
        ready(*old(env)),
    ensures
        quiet_block(*block, depth as int) ==> final(env).database == old(env).database,
        block_sem(*block, depth as int, old(env).scopes@, old(env).steps, final(env).scopes@, final(env).steps, r),
        kept(*old(env), *final(env)),
        depth > 2 ==> block_entry(*block, r),
        depth > 2 && only_exceptions(block.declarations@) && block.statements@.len() == 0 ==> *final(env)
            == *old(env),
    decreases depth,
{
    let d = deeper(depth)?;
    let ghost hs = block.exception_handlers@;
    let ghost sc0 = env.scopes@;
    let ghost st0 = env.steps;
    let dr = execute_declarations(block, env, d);
    let ghost sc1 = env.scopes@;
    let ghost st1 = env.steps;
    assert(mark_declared(sc1, st1, dr));
    match dr {
        Err(err) => match find_handler(&block.exception_handlers, None) {
            Some(i) => {
                proof {
                    lemma_first_catch(hs, None, 0, i as int);
                }
                let r = execute_statements(&block.exception_handlers[i].statements, env, d);
                assert(handled(hs, None, Err(err), d as int, sc1, st1, env.scopes@, env.steps, r));
                assert(decls_sem(block.declarations@, d as int, sc0, st0, sc1, st1, dr));
                r
            },
            None => {
                proof {
                    lemma_no_catch(hs, None, 0);
                }
                assert(handled(hs, None, Err(err), d as int, sc1, st1, env.scopes@, env.steps, Err(err)));
                assert(decls_sem(block.declarations@, d as int, sc0, st0, sc1, st1, dr));
                Err(err)
            },
        },
        Ok(()) => {
            let f = execute_statements(&block.statements, env, d);
            let ghost sc3 = env.scopes@;
            let ghost st3 = env.steps;
            assert(mark_run(sc3, st3, f));
            assert(decls_sem(block.declarations@, d as int, sc0, st0, sc1, st1, dr));
            assert(stmts_sem(block.statements@, d as int, sc1, st1, sc3, st3, f));
            match f {
                Ok(ExecFlow::Raise(name)) => match find_handler(&block.exception_handlers, Some(name.as_str())) {
                    Some(i) => {
                        proof {
                            lemma_first_catch(hs, Some(name@), 0, i as int);
                        }
                        let r = execute_statements(&block.exception_handlers[i].statements, env, d);
                        assert(handled(hs, Some(name@), f, d as int, sc3, st3, env.scopes@, env.steps, r));
                        r
                    },
                    None => {
                        proof {
                            lemma_no_catch(hs, Some(name@), 0);
                        }
                        let r = Ok(ExecFlow::Raise(name));
                        assert(handled(hs, Some(name@), f, d as int, sc3, st3, env.scopes@, env.steps, r));
                        r
                    },
                },
                Ok(flow) => Ok(flow),
                Err(err) => match find_handler(&block.exception_handlers, None) {
                    Some(i) => {
                        proof {
                            lemma_first_catch(hs, None, 0, i as int);
                        }
                        let r = execute_statements(&block.exception_handlers[i].statements, env, d);
                        assert(handled(hs, None, f, d as int, sc3, st3, env.scopes@, env.steps, r));
                        r
                    },
                    None => {
                        proof {
                            lemma_no_catch(hs, None, 0);
                        }
                        assert(handled(hs, None, f, d as int, sc3, st3, env.scopes@, env.steps, Err(err)));
                        Err(err)
                    },
                },
            }
        },
    }
}

/// The value `SYSDATE` gives a variable whose type is written `t`, the
/// clock reading `now`: the local date, the local date and time, or the UTC
/// instant at offset 0; none for other types.
pub open spec fn sysdate_of(t: Seq<char>, now: Now) -> Option<Value> {
    if upper(t) == "DATE"@ {
        Some(Value::Date(now.local.date))
    } else if upper(t) == "TIMESTAMP"@ {
        Some(Value::Timestamp(now.local))
    } else if upper(t) == "DATETIME"@ {
        Some(Value::DateTime(DateTime { utc: now.utc, offset_seconds: 0 }))
    } else {
        None
    }
}

/// The value `SYSDATE` initializes a variable of the named type with, read
/// from the clock reading `now`: the local date for `DATE`, the local date
/// and time for `TIMESTAMP`, the UTC instant (offset 0) for `DATETIME`;
/// `None` for other types.
pub fn sysdate_value(type_text: &str, now: Now) -> (r: Option<Value>)
    ensures
        upper(type_text@) == "DATE"@ ==> r == Some(Value::Date(now.local.date)),
        upper(type_text@) == "TIMESTAMP"@ ==> r == Some(Value::Timestamp(now.local)),
        upper(type_text@) == "DATETIME"@ ==> r == Some(
            Value::DateTime(DateTime { utc: now.utc, offset_seconds: 0 }),
        ),
        upper(type_text@) != "DATE"@ && upper(type_text@) != "TIMESTAMP"@ && upper(type_text@)
            != "DATETIME"@ ==> r is None,
        r == sysdate_of(type_text@, now),
{
    proof {
        reveal_strlit("DATE");
        reveal_strlit("TIMESTAMP");
        reveal_strlit("DATETIME");
        assert("DATE"@.len() != "TIMESTAMP"@.len());
        assert("DATE"@.len() != "DATETIME"@.len());
        assert("DATETIME"@.len() != "TIMESTAMP"@.len());
    }
    let c = chars_of(type_text);
    if upper_equals(c.as_slice(), "DATE") {
        Some(Value::Date(now.local.date))
    } else if upper_equals(c.as_slice(), "TIMESTAMP") {
        Some(Value::Timestamp(now.local))
    } else if upper_equals(c.as_slice(), "DATETIME") {
        Some(Value::DateTime(DateTime { utc: now.utc, offset_seconds: 0 }))
    } else {
        None
    }
}

/// Every declaration declares an exception, which needs nothing at run time.
pub open spec fn only_exceptions(decls: Seq<Declaration>) -> bool {
    forall|i: int|
        0 <= i < decls.len() ==> {
            &&& (#[trigger] decls[i]).trigger is None
            &&& decls[i].routine is None
            &&& decls[i].cursor_query is None
            &&& upper(decls[i].declared_type@) == "EXCEPTION"@
        }
}

/// Every declaration declares a variable without an initial value.
pub open spec fn only_nulls(decls: Seq<Declaration>) -> bool {
    forall|i: int|
        0 <= i < decls.len() ==> {
            &&& (#[trigger] decls[i]).trigger is None
            &&& decls[i].routine is None
            &&& decls[i].cursor_query is None
            &&& upper(decls[i].declared_type@) != "EXCEPTION"@
            &&& decls[i].init_value is None
        }
}

/// The declaration names a known type.
pub open spec fn type_known(d: Declaration) -> bool {
    type_from_name_spec(d.declared_type@) is Some
}

/// What declaring the variables `decls`, each NULL, in the innermost of
/// `before` gives: when every type is known, each name reads NULL there and
/// nothing else changed; else the error of the first unknown type.
pub open spec fn nulls_declared(decls: Seq<Declaration>, before: Seq<Scope>, after: Seq<Scope>, r: Result<(), EvalError>) -> bool {
    match r {
        Ok(()) => {
            &&& forall|j: int| 0 <= j < decls.len() ==> #[trigger] type_known(decls[j])
            &&& after.drop_last() == before.drop_last()
            &&& forall|j: int| 0 <= j < decls.len() ==> lookup(after.last().vars, #[trigger] decls[j].name@) == Some(Value::Null)
            &&& forall|k: Seq<char>| (forall|j: int| 0 <= j < decls.len() ==> #[trigger] decls[j].name@ != k) ==> #[trigger] lookup(
                after.last().vars,
                k,
            ) == lookup(before.last().vars, k)
        },
        Err(x) => exists|i: int|
            0 <= i < decls.len() && (forall|j: int| 0 <= j < i ==> #[trigger] type_known(decls[j])) && !#[trigger] type_known(
                decls[i],
            ) && (x matches EvalError::TypeError(m) && m@ == unknown_type_message(decls[i].declared_type@, decls[i].name@)),
    }
}

/// Runs the declarations of a block in order: triggers, routines and
/// cursors are registered, exceptions need nothing, variables are declared
/// with their initial value (NULL when none is given).
fn execute_declarations(block: &Block, env: &mut Environment, depth: u32) -> (r: Result<(), EvalError>)
    requires
        ready(*old(env)),
    ensures
        quiet_decls(block.declarations@) ==> final(env).database == old(env).database,
        r is Ok ==> forall|k: int|
            0 <= k < block.declarations@.len() ==> ((#[trigger] block.declarations@[k]).trigger is None ==> (
            block.declarations@[k].routine matches Some(rt) ==> final(env).routines.declared(rt.name@) is Some)),
        decls_sem(block.declarations@, depth as int, old(env).scopes@, old(env).steps, final(env).scopes@, final(env).steps, r),
        kept(*old(env), *final(env)),
        depth > 0 && only_exceptions(block.declarations@) ==> r is Ok && *final(env) == *old(env),
        depth > 0 && only_nulls(block.declarations@) ==> nulls_declared(
            block.declarations@,
            old(env).scopes@,
            final(env).scopes@,
            r,
        ),
    decreases depth,
{
    let d = deeper(depth)?;
    let mut i: usize = 0;
    let ghost decls = block.declarations@;
    while i < block.declarations.len()
        invariant
            quiet_decls(block.declarations@) ==> env.database == old(env).database,
            ready(*env),
            kept(*old(env), *env),
            i <= block.declarations@.len(),
            d < depth,
            decls == block.declarations@,
            d == depth - 1,
            forall|k: int|
                0 <= k < i ==> ((#[trigger] decls[k]).trigger is None ==> (decls[k].routine matches Some(rt)
                    ==> env.routines.declared(rt.name@) is Some)),
            forall|sc2: Seq<Scope>, st2: u64, r2: Result<(), EvalError>|
                #[trigger] decl_list(decls, i as int, d as int, env.scopes@, env.steps, sc2, st2, r2) ==> decls_sem(
                    decls,
                    depth as int,
                    old(env).scopes@,
                    old(env).steps,
                    sc2,
                    st2,
                    r2,
                ),
            only_exceptions(block.declarations@) ==> *env == *old(env),
            only_nulls(decls) ==> {
                &&& forall|j: int| 0 <= j < i ==> #[trigger] type_known(decls[j])
                &&& env.scopes@.drop_last() == old(env).scopes@.drop_last()
                &&& forall|j: int| 0 <= j < i ==> lookup(env.scopes@.last().vars, #[trigger] decls[j].name@) == Some(Value::Null)
                &&& forall|k: Seq<char>| (forall|j: int| 0 <= j < i ==> #[trigger] decls[j].name@ != k) ==> #[trigger] lookup(
                    env.scopes@.last().vars,
                    k,
                ) == lookup(old(env).scopes@.last().vars, k)
            },
        decreases block.declarations@.len() - i,
    {
        proof {
            reveal_strlit("EXCEPTION");
        }
        let ghost before = env.scopes@;
        let ghost at = i as int;
        let ghost st_i = env.steps;
        let ghost mut ghost_now: Now = arbitrary();
        let decl = &block.declarations[i];
        proof {
            if decls[at].trigger is Some || decls[at].routine is Some || decls[at].cursor_query is Some || (upper(
                decls[at].declared_type@,
            ) != "EXCEPTION"@ && (decls[at].init_value matches Some(e) && !expr_ready(e, d as int) && !(e is Sysdate))) {
                assert forall|a: Seq<Scope>, b: u64, c: Result<(), EvalError>|
                    #[trigger] decls_sem(decls, depth as int, old(env).scopes@, old(env).steps, a, b, c) by {
                    assert(decl_list(decls, at, d as int, before, st_i, a, b, c));
                }
            }
        }
        i += 1;
        match &decl.trigger {
            Some(t) => {
                env.triggers.declare(share(t))?;
                continue;
            },
            None => {},
        }
        match &decl.routine {
            Some(rt) => {
                let ghost before_r = env.routines;
                let dr = env.routines.declare(share(rt));
                proof {
                    if dr is Ok {
                        crate::db::catalog::lemma_catalog_set(keyed(before_r.declarations@), rt.name@, *rt, rt.name@);
                        crate::db::catalog::lemma_name_index(keyed(before_r.declarations@), rt.name@);
                    }
                }
                dr?;
                continue;
            },
            None => {},
        }
        match &decl.cursor_query {
            Some(q) => {
                env.cursors.declare(decl.name.clone(), share(q))?;
                continue;
            },
            None => {},
        }
        let tc = chars_of(decl.declared_type.as_str());
        if upper_equals(tc.as_slice(), "EXCEPTION") {
            proof {
                assert forall|a: Seq<Scope>, b: u64, c: Result<(), EvalError>|
                    #[trigger] decl_list(decls, i as int, d as int, env.scopes@, env.steps, a, b, c) implies decl_list(
                    decls,
                    at,
                    d as int,
                    before,
                    st_i,
                    a,
                    b,
                    c,
                ) by {}
            }
            continue;
        }
        let value = match &decl.init_value {
            Some(Expr::Sysdate) => {
                let now = clock_now();
                let sv = sysdate_value(decl.declared_type.as_str(), now);
                let v = match sv {
                    Some(v) => v,
                    None => match eval_at(&Expr::Sysdate, env, d) {
                        Ok(v) => v,
                        Err(e) => {
                            assert(!sysdate_type(decls[at].declared_type@));
                            assert(decl_list(decls, at, d as int, before, st_i, env.scopes@, env.steps, Err(e)));
                            return Err(e);
                        },
                    },
                };
                proof {
                    ghost_now = now;
                }
                v
            },
            Some(e) => {
                let res = eval_at(e, env, d);
                match res {
                    Err(y) => {
                        assert(expr_ready(*e, d as int) ==> decl_list(decls, at, d as int, before, st_i, env.scopes@, env.steps, Err(y)));
                        return Err(y);
                    },
                    Ok(v) => v,
                }
            },
            None => Value::Null,
        };
        let ghost sc_v = env.scopes@;
        assert(mark_clock(ghost_now, value));
        let dres = env.declare(decl.name.clone(), value, decl.declared_type.as_str());
        assert(declare_outcome(sc_v, decls[at].name@, value, decls[at].declared_type@, env.scopes@, dres));
        assert(mark_declared(env.scopes@, env.steps, dres));
        assert(decls[at].init_value matches Some(Expr::Sysdate) ==> sc_v == before && timestamp_in_range(ghost_now.local)
            && timestamp_in_range(ghost_now.utc) && match sysdate_of(decls[at].declared_type@, ghost_now) {
            Some(w) => value == w,
            None => d > 0 && value is Date,
        });
        assert((decls[at].init_value matches Some(e) && expr_ready(e, d as int)) ==> pure_outcome(decls[at].init_value->0, before, succeeded(value)) && sc_v == before);
        match dres {
            Err(e) => {
                assert(decl_list(decls, at, d as int, before, st_i, env.scopes@, env.steps, Err(e)));
                proof {
                    if only_nulls(decls) {
                        assert(value == Value::Null);
                        assert(decl.declared_type@ == decls[at].declared_type@);
                        assert(!type_known(decls[at]));
                        assert(e matches EvalError::TypeError(m) && m@ == unknown_type_message(decls[at].declared_type@, decls[at].name@));
                        assert(nulls_declared(decls, old(env).scopes@, env.scopes@, Err(e)));
                    }
                }
                return Err(e);
            },
            Ok(()) => {},
        }
        proof {
            assert forall|a: Seq<Scope>, b: u64, c: Result<(), EvalError>|
                #[trigger] decl_list(decls, i as int, d as int, env.scopes@, env.steps, a, b, c) implies decl_list(
                decls,
                at,
                d as int,
                before,
                st_i,
                a,
                b,
                c,
            ) by {
                assert(declare_outcome(sc_v, decls[at].name@, value, decls[at].declared_type@, env.scopes@, dres));
            }
            if only_nulls(decls) {
                assert(type_known(decls[at]));
                assert forall|k: Seq<char>| (forall|j: int| 0 <= j < i ==> #[trigger] decls[j].name@ != k) implies #[trigger] lookup(
                    env.scopes@.last().vars,
                    k,
                ) == lookup(old(env).scopes@.last().vars, k) by {
                    assert(decls[at].name@ != k);
                    assert(forall|j: int| 0 <= j < at ==> #[trigger] decls[j].name@ != k);
                }
                assert forall|j: int| 0 <= j < i implies lookup(env.scopes@.last().vars, #[trigger] decls[j].name@) == Some(Value::Null) by {
                    if j < at && decls[j].name@ != decls[at].name@ {
                        assert(lookup(before.last().vars, decls[j].name@) == Some(Value::Null));
                    }
                }
            }
        }
    }
    proof {
        if only_nulls(decls) {
            assert(nulls_declared(decls, old(env).scopes@, env.scopes@, Ok(())));
        }
        assert(decl_list(decls, i as int, d as int, env.scopes@, env.steps, env.scopes@, env.steps, Ok(())));
    }
    Ok(())
}

/// The expression has no call and no `SYSDATE`.
pub open spec fn pure_expr(e: Expr) -> bool
    decreases e,
{
    match e {
        Expr::Literal(_) => true,
        Expr::Var(_) => true,
        Expr::Unary { op, expr } => pure_expr(*expr),
        Expr::Binary { left, op, right } => pure_expr(*left) && pure_expr(*right),
        Expr::Sysdate => false,
        Expr::Call { name, args } => false,
    }
}

/// The nesting height of an expression.
pub open spec fn expr_height(e: Expr) -> nat
    decreases e,
{
    match e {
        Expr::Unary { op, expr } => expr_height(*expr) + 1,
        Expr::Binary { left, op, right } => {
            let l = expr_height(*left);
            let rr = expr_height(*right);
            (if l > rr {
                l
            } else {
                rr
            }) + 1
        },
        _ => 0,
    }
}

/// What reading the name `name` gives in `scopes`: the resolved head (an
/// ambiguous column is an error), then, for a dotted name, the field path
/// inside it; a name that resolves to nothing is undefined.
pub open spec fn var_outcome(scopes: Seq<Scope>, name: Seq<char>, r: Result<Value, EvalError>) -> bool {
    let head = if dot_index(name) >= 0 {
        head_of(name)
    } else {
        name
    };
    match resolve_plain(scopes, head) {
        Resolution::Ambiguous => r matches Err(EvalError::AmbiguousColumn(n)) && n@ == head,
        Resolution::Missing => r matches Err(EvalError::UndefinedVariable(n)) && n@ == name,
        Resolution::Found(v) => {
            let found = if dot_index(name) >= 0 {
                path_value(v, tail_of(name))
            } else {
                Some(v)
            };
            match found {
                Some(x) => r == Ok::<Value, EvalError>(x),
                None => r matches Err(EvalError::UndefinedVariable(n)) && n@ == name,
            }
        },
    }
}

/// `Ok(v)`: the outcome of an evaluation that gave `v`.
pub open spec fn succeeded(v: Value) -> Result<Value, EvalError> {
    Ok(v)
}

/// What evaluating `e`, an expression without calls or `SYSDATE`, gives in
/// `scopes`: a literal is its value; a name is read as `var_outcome` says;
/// an operator applies, as `unary_outcome` or `binary_outcome` says, to the
/// values of its operands, evaluated left to right, the first error being
/// the result.
pub open spec fn pure_outcome(e: Expr, scopes: Seq<Scope>, r: Result<Value, EvalError>) -> bool
    decreases e,
{
    match e {
        Expr::Literal(v) => r == Ok::<Value, EvalError>(v),
        Expr::Var(n) => var_outcome(scopes, n@, r),
        Expr::Unary { op, expr } => {
            ||| r is Err && pure_outcome(*expr, scopes, r)
            ||| exists|v: Value| #[trigger] unary_outcome(op, v, r) && pure_outcome(*expr, scopes, succeeded(v))
        },
        Expr::Binary { left, op, right } => {
            ||| r is Err && pure_outcome(*left, scopes, r)
            ||| r is Err && exists|a: Value|
                pure_outcome(*left, scopes, #[trigger] succeeded(a)) && pure_outcome(*right, scopes, r)
            ||| exists|a: Value, b: Value|
                #[trigger] binary_outcome(op, a, b, r) && pure_outcome(*left, scopes, succeeded(a)) && pure_outcome(
                    *right,
                    scopes,
                    succeeded(b),
                )
        },
        Expr::Sysdate => false,
        Expr::Call { name, args } => false,
    }
}

/// Evaluates an expression. Names are resolved from the innermost scope
/// outward (query rows first); `SYSDATE` is today's local date; a call runs
/// a function. An expression without calls or `SYSDATE` changes nothing.
pub fn eval_at(expr: &Expr, env: &mut Environment, depth: u32) -> (r: Result<Value, EvalError>)
    requires
        ready(*old(env)),
    ensures
        pure_expr(*expr) ==> *final(env) == *old(env),
        kept(*old(env), *final(env)),
        pure_expr(*expr) && depth > expr_height(*expr) ==> *final(env) == *old(env),
        pure_expr(*expr) && depth > expr_height(*expr) ==> pure_outcome(*expr, old(env).scopes@, r),
        depth > 0 ==> (*expr matches Expr::Literal(v) ==> r == Ok::<Value, EvalError>(v)),
        depth > 0 ==> (*expr matches Expr::Var(n) ==> var_outcome(old(env).scopes@, n@, r)),
        *expr is Sysdate && depth > 0 ==> (r matches Ok(Value::Date(_))) && *final(env) == *old(env),
        depth == 0 ==> r == Err::<Value, EvalError>(EvalError::StepLimitExceeded) && *final(env) == *old(env),
    decreases depth,
{
    let d = deeper(depth)?;
    match expr {
        Expr::Literal(v) => Ok(v.clone()),
        Expr::Var(name) => {
            let res = env.resolve(name.as_str());
            let r = match res {
                Err(e) => Err(e),
                Ok(Some(v)) => Ok(v),
                Ok(None) => Err(EvalError::UndefinedVariable(name.clone())),
            };
            r
        },
        Expr::Unary { op, expr: inner } => {
            let ghost pure = pure_expr(*expr) && depth > expr_height(*expr);
            proof {
                if pure {
                    assert(pure_expr(**inner) && d > expr_height(**inner));
                }
            }
            let v = eval_at(inner, env, d)?;
            let r = eval_unary(op, v);
            proof {
                if pure {
                    assert(pure_outcome(**inner, old(env).scopes@, succeeded(v)));
                }
            }
            r
        },
        Expr::Binary { left, op, right } => {
            let ghost pure = pure_expr(*expr) && depth > expr_height(*expr);
            proof {
                if pure {
                    assert(pure_expr(**left) && pure_expr(**right));
                    assert(d > expr_height(**left) && d > expr_height(**right));
                }
            }
            let a = eval_at(left, env, d)?;
            proof {
                if pure {
                    assert(pure_outcome(**left, old(env).scopes@, succeeded(a)));
                }
            }
            let b = eval_at(right, env, d)?;
            let r = eval_binary(op, a, b);
            proof {
                if pure {
                    assert(pure_outcome(**right, old(env).scopes@, succeeded(b)));
                }
            }
            r
        },
        Expr::Sysdate => Ok(Value::Date(clock_now().local.date)),
        Expr::Call { name, args } => {
            match crate::runtime::routine::call_routine(name.as_str(), args, env, true, d)? {
                Some(v) => Ok(v),
                None => Ok(Value::Null),
            }
        },
    }
}

/// The truth of a condition value: TRUE and FALSE as they are, NULL as
/// false; any other value is a type error whose message is `prefix`
/// followed by the value's type.
pub fn condition_value(v: Value, prefix: &str) -> (r: Result<bool, EvalError>)
    ensures
        match v {
            Value::Bool(b) => r == Ok::<bool, EvalError>(b),
            Value::Null => r == Ok::<bool, EvalError>(false),
            _ => r matches Err(EvalError::TypeError(m)) && m@ == prefix@ + type_name_spec(type_of(v)),
        },
{
    match v {
        Value::Bool(b) => Ok(b),
        Value::Null => Ok(false),
        other => {
            let mut m = prefix.to_owned();
            m.append(other.type_label());
            Err(EvalError::TypeError(m))
        },
    }
}

/// What `condition_value` gives for `v`.
pub open spec fn condition_of(v: Value, prefix: Seq<char>, r: Result<bool, EvalError>) -> bool {
    match v {
        Value::Bool(b) => r == Ok::<bool, EvalError>(b),
        Value::Null => r == Ok::<bool, EvalError>(false),
        _ => r matches Err(EvalError::TypeError(m)) && m@ == prefix + type_name_spec(type_of(v)),
    }
}

/// What testing the pure condition `e` in `scopes` gives: its error, or the
/// truth of its value (see `condition_of`).
pub open spec fn condition_outcome(e: Expr, scopes: Seq<Scope>, prefix: Seq<char>, r: Result<bool, EvalError>) -> bool {
    ||| r matches Err(x) && pure_outcome(e, scopes, Err(x))
    ||| exists|v: Value| pure_outcome(e, scopes, #[trigger] succeeded(v)) && condition_of(v, prefix, r)
}

/// The optional condition `w` and the expressions `es` are free of calls
/// and `SYSDATE`, and shallow enough to be evaluated from `depth`.
pub open spec fn filter_pure(w: Option<Expr>, es: Seq<Expr>, depth: int) -> bool {
    &&& w matches Some(c) ==> pure_expr(c) && depth > expr_height(c) + 2
    &&& forall|i: int| 0 <= i < es.len() ==> pure_expr(#[trigger] es[i]) && depth - 1 > expr_height(es[i])
}

/// The optional condition `w` holds in `scopes` (no condition always holds).
pub open spec fn filter_passes(w: Option<Expr>, scopes: Seq<Scope>, prefix: Seq<char>) -> bool {
    match w {
        Some(c) => condition_outcome(c, scopes, prefix, Ok(true)),
        None => true,
    }
}

/// What testing the optional condition `w` and then evaluating `es` in
/// `scopes` gives: `None` when the condition fails, the values when it
/// holds, or the first error.
pub open spec fn filtered_outcome(
    w: Option<Expr>,
    prefix: Seq<char>,
    es: Seq<Expr>,
    scopes: Seq<Scope>,
    r: Result<Option<Seq<Value>>, EvalError>,
) -> bool {
    match r {
        Ok(None) => w matches Some(c) && condition_outcome(c, scopes, prefix, Ok(false)),
        Ok(Some(vs)) => filter_passes(w, scopes, prefix) && vs.len() == es.len() && forall|i: int|
            0 <= i < es.len() ==> pure_outcome(#[trigger] es[i], scopes, succeeded(vs[i])),
        Err(x) => {
            ||| w matches Some(c) && condition_outcome(c, scopes, prefix, Err(x))
            ||| filter_passes(w, scopes, prefix) && exists|i: int|
                0 <= i < es.len() && #[trigger] pure_outcome(es[i], scopes, Err(x))
        },
    }
}

/// Evaluates a condition (see `condition_value`).
pub fn evaluate_condition(expr: &Expr, env: &mut Environment, depth: u32, prefix: &str) -> (r: Result<
    bool,
    EvalError,
>)
    requires
        ready(*old(env)),
    ensures
        pure_expr(*expr) ==> *final(env) == *old(env),
        kept(*old(env), *final(env)),
        pure_expr(*expr) && depth > expr_height(*expr) + 1 ==> *final(env) == *old(env) && condition_outcome(
            *expr,
            old(env).scopes@,
            prefix@,
            r,
        ),
    decreases depth,
{
    let d = deeper(depth)?;
    let v = eval_at(expr, env, d)?;
    assert(pure_expr(*expr) && depth > expr_height(*expr) + 1 ==> pure_outcome(*expr, old(env).scopes@, succeeded(v)));
    condition_value(v, prefix)
}

/// Runs statements in order, stopping at a raise, a return or an exit; the
/// flow carries the last value produced.
pub fn execute_statements(stmts: &Vec<Statement>, env: &mut Environment, depth: u32) -> (r: Result<
    ExecFlow,
    EvalError,
>)
    requires
        ready(*old(env)),
    ensures
        quiet_list(stmts@, depth as int) ==> final(env).database == old(env).database,
        stmts_sem(stmts@, depth as int, old(env).scopes@, old(env).steps, final(env).scopes@, final(env).steps, r),
        kept(*old(env), *final(env)),
        stmts@.len() == 0 && depth > 0 ==> (r matches Ok(ExecFlow::NoValue) && *final(env) == *old(env)),
        depth > 1 ==> list_flow(stmts@, r),
        depth > 0 && expression_statements(stmts@, depth as int) ==> *final(env) == *old(env) && expressions_flow(
            stmts@,
            old(env).scopes@,
            r,
        ),
        stmts@.len() > 0 && depth > 1 ==> (stmts@[0] matches Statement::Raise { name } ==> (r matches Ok(
            ExecFlow::Raise(n),
        ) && n == name && *final(env) == *old(env))),
        stmts@.len() > 0 && depth > 1 ==> (stmts@[0] matches Statement::Exit { condition: None } ==> (r matches Ok(
            ExecFlow::ExitLoop(None),
        ) && *final(env) == *old(env))),
        stmts@.len() > 0 && depth > 1 ==> (stmts@[0] matches Statement::Return(None) ==> (r matches Ok(
            ExecFlow::Return(None),
        ) && *final(env) == *old(env))),
    decreases depth,
{
    let d = deeper(depth)?;
    let mut last: Option<Value> = None;
    let mut i: usize = 0;
    while i < stmts.len()
        invariant
            quiet_list(stmts@, depth as int) ==> env.database == old(env).database,
            ready(*env),
            kept(*old(env), *env),
            i <= stmts@.len(),
            d < depth,
            i == 0 ==> *env == *old(env) && last is None,
            d == depth - 1,
            expression_statements(stmts@, depth as int) ==> *env == *old(env) && (i > 0 ==> (last matches Some(v)
                && pure_outcome(stmt_expr(stmts@[i - 1]), old(env).scopes@, succeeded(v)))),
            i > 0 && depth > 1 ==> !(stmts@[0] is Raise) && !(stmts@[0] matches Statement::Exit { condition: None })
                && !(stmts@[0] matches Statement::Return(None)),
            forall|sc2: Seq<Scope>, st2: u64, r2: Result<ExecFlow, EvalError>|
                #[trigger] list_sem(stmts@, i as int, d as int, last, env.scopes@, env.steps, sc2, st2, r2) ==> stmts_sem(
                    stmts@,
                    depth as int,
                    old(env).scopes@,
                    old(env).steps,
                    sc2,
                    st2,
                    r2,
                ),
        decreases stmts@.len() - i,
    {
        let ghost sc_i = env.scopes@;
        let ghost st_i = env.steps;
        let ghost last_i = last;
        let flow = execute_statement(&stmts[i], env, d);
        assert(expression_statements(stmts@, depth as int) ==> flow_outcome(stmt_expr(stmts@[i as int]), old(env).scopes@, flow));
        assert(stmt_sem(stmts@[i as int], d as int, sc_i, st_i, env.scopes@, env.steps, flow));
        assert(mark_run(env.scopes@, env.steps, flow));
        match flow {
            Err(e) => {
                assert(list_sem(stmts@, i as int, d as int, last_i, sc_i, st_i, env.scopes@, env.steps, Err(e)));
                return Err(e);
            },
            Ok(ExecFlow::Value(v)) => {
                last = Some(v);
            },
            Ok(ExecFlow::NoValue) => {},
            Ok(ExecFlow::Raise(name)) => {
                let r = Ok(ExecFlow::Raise(name));
                assert(list_sem(stmts@, i as int, d as int, last_i, sc_i, st_i, env.scopes@, env.steps, r));
                return r;
            },
            Ok(ExecFlow::Return(v)) => {
                let r = Ok(ExecFlow::Return(v));
                assert(list_sem(stmts@, i as int, d as int, last_i, sc_i, st_i, env.scopes@, env.steps, r));
                return r;
            },
            Ok(ExecFlow::ExitLoop(v)) => {
                let r = Ok(
                    ExecFlow::ExitLoop(
                        match v {
                            Some(x) => Some(x),
                            None => last,
                        },
                    ),
                );
                assert(list_sem(stmts@, i as int, d as int, last_i, sc_i, st_i, env.scopes@, env.steps, r));
                return r;
            },
        }
        proof {
            assert forall|sc2: Seq<Scope>, st2: u64, r2: Result<ExecFlow, EvalError>|
                #[trigger] list_sem(stmts@, i + 1, d as int, last, env.scopes@, env.steps, sc2, st2, r2) implies list_sem(
                    stmts@,
                    i as int,
                    d as int,
                    last_i,
                    sc_i,
                    st_i,
                    sc2,
                    st2,
                    r2,
                ) by {
                assert(stmt_sem(stmts@[i as int], d as int, sc_i, st_i, env.scopes@, env.steps, flow));
                assert(mark_run(env.scopes@, env.steps, flow));
            }
        }
        i += 1;
    }
    let r = Ok(
        match last {
            Some(v) => ExecFlow::Value(v),
            None => ExecFlow::NoValue,
        },
    );
    assert(list_sem(stmts@, i as int, d as int, last, env.scopes@, env.steps, env.scopes@, env.steps, r));
    r
}

/// The outcome `r` of evaluating the pure expression `e` in `scopes`, as
/// carried by a statement's flow: a value, or the error.
pub open spec fn flow_outcome(e: Expr, scopes: Seq<Scope>, r: Result<ExecFlow, EvalError>) -> bool {
    match r {
        Ok(ExecFlow::Value(v)) => pure_outcome(e, scopes, succeeded(v)),
        Err(x) => pure_outcome(e, scopes, Err(x)),
        _ => false,
    }
}

/// What `name := e` gives, `e` being pure and `name` plain: the value of
/// `e`, stored as `assign` stores it; or the error of `e`, with nothing
/// changed; or, when the variable's type refuses the value, a type error.
pub open spec fn assignment_outcome(
    before: Seq<Scope>,
    after: Seq<Scope>,
    name: Seq<char>,
    e: Expr,
    r: Result<ExecFlow, EvalError>,
) -> bool {
    match r {
        Ok(ExecFlow::Value(v)) => {
            &&& pure_outcome(e, before, succeeded(v))
            &&& !assign_refused(before, name, v)
            &&& var_stored(before, after, assign_target(before, name), name, v)
        },
        Err(x) => {
            ||| pure_outcome(e, before, Err(x)) && after == before
            ||| exists|v: Value|
                pure_outcome(e, before, #[trigger] succeeded(v)) && assign_refused(before, name, v) && after
                    == before && (x matches EvalError::TypeError(m) && m@ == expects_message(
                    name,
                    owner_type(before, name)->0,
                    v,
                ))
        },
        _ => false,
    }
}

/// The message prefix of a non-boolean `EXIT WHEN` condition.
pub open spec fn exit_prefix() -> Seq<char> {
    "IF condition must be BOOLEAN, got "@
}

/// The flow of a call statement whose call gave `cr`.
pub open spec fn call_flow(cr: Result<Option<Value>, EvalError>) -> Result<ExecFlow, EvalError> {
    match cr {
        Err(x) => Err(x),
        Ok(Some(v)) => Ok(ExecFlow::Value(v)),
        Ok(None) => Ok(ExecFlow::NoValue),
    }
}

/// Runs one statement.
pub fn execute_statement(stmt: &Statement, env: &mut Environment, depth: u32) -> (r: Result<
    ExecFlow,
    EvalError,
>)
    requires
        ready(*old(env)),
    ensures
        quiet_stmt(*stmt, depth as int) ==> final(env).database == old(env).database,
        stmt_sem(*stmt, depth as int, old(env).scopes@, old(env).steps, final(env).scopes@, final(env).steps, r),
        depth > 0 ==> data_outcome(*stmt, depth - 1, *old(env), *final(env), r),
        *stmt matches Statement::Call { name, args } ==> (depth > 2 && all_pure(args@, depth - 2) ==> (old(
            env,
        ).routines.declared(name@) matches Some(rt) ==> (args@.len() == rt.parameters@.len() ==> exists|
            cr: Result<Option<Value>, EvalError>,
        |
            #[trigger] call_run(
                *rt,
                args@,
                false,
                depth - 2,
                old(env).scopes@,
                old(env).steps,
                final(env).scopes@,
                final(env).steps,
                cr,
            ) && r == call_flow(cr)))),
        kept(*old(env), *final(env)),
        depth > 0 ==> (*stmt matches Statement::Raise { name } ==> (r matches Ok(ExecFlow::Raise(n))
            && n == name && *final(env) == *old(env))),
        *stmt matches Statement::Exit { condition: None } && depth > 0 ==> (r matches Ok(
            ExecFlow::ExitLoop(None),
        ) && *final(env) == *old(env)),
        *stmt matches Statement::Return(None) && depth > 0 ==> (r matches Ok(ExecFlow::Return(None))
            && *final(env) == *old(env)),
        *stmt is Commit && depth > 0 ==> (r matches Ok(ExecFlow::NoValue) && !final(env).database.in_transaction()
            && final(env).database.committed() == old(env).database.visible()),
        *stmt is Rollback && depth > 0 ==> (r matches Ok(ExecFlow::NoValue) && !final(env).database.in_transaction()
            && final(env).database.visible() == old(env).database.committed()),
        *stmt matches Statement::Exit { condition: Some(c) } ==> (pure_expr(c) && depth > expr_height(c) + 2 ==> {
            &&& *final(env) == *old(env)
            &&& match r {
                Ok(ExecFlow::ExitLoop(None)) => condition_outcome(c, old(env).scopes@, exit_prefix(), Ok(true)),
                Ok(ExecFlow::NoValue) => condition_outcome(c, old(env).scopes@, exit_prefix(), Ok(false)),
                Err(x) => condition_outcome(c, old(env).scopes@, exit_prefix(), Err(x)),
                _ => false,
            }
        }),
        *stmt matches Statement::Expression(e) ==> (pure_expr(e) && depth > expr_height(e) + 1 ==> flow_outcome(
            e,
            old(env).scopes@,
            r,
        ) && *final(env) == *old(env)),
        *stmt matches Statement::Return(Some(e)) ==> (pure_expr(e) && depth > expr_height(e) + 1 ==> (match r {
            Ok(ExecFlow::Return(Some(v))) => pure_outcome(e, old(env).scopes@, succeeded(v)),
            Err(x) => pure_outcome(e, old(env).scopes@, Err(x)),
            _ => false,
        }) && *final(env) == *old(env)),
        *stmt matches Statement::Assignment { name, value } ==> (pure_expr(value) && dot_index(name@) < 0 && depth
            > expr_height(value) + 1 ==> assignment_outcome(old(env).scopes@, final(env).scopes@, name@, value, r)),
    decreases depth,
{
    let d = deeper(depth)?;
    match stmt {
        Statement::Block(b) => {
            env.push_scope();
            let ghost pushed = env.scopes@;
            let r = execute_block_in_scope(b, env, d);
            let ghost inner = env.scopes@;
            env.pop_scope();
            proof {
                assert(pushed =~= old(env).scopes@.push(pushed.last()));
                assert(mark_opened(pushed.last(), inner));
                assert(fresh_scope(pushed.last()));
                assert(block_sem(**b, d as int, old(env).scopes@.push(pushed.last()), old(env).steps, inner, env.steps, r));
                assert(env.scopes@ == popped(inner));
            }
            r
        },
        Statement::If { condition, then_branch, elsif_branches, else_branch } => execute_if(
            condition,
            then_branch,
            elsif_branches,
            else_branch,
            env,
            d,
        ),
        Statement::While { condition, body } => execute_while(condition, body, env, d),
        Statement::Loop { body } => execute_loop(body, env, d),
        Statement::For { variable, start, end, body } => execute_for(variable, start, end, body, env, d),
        Statement::Exit { condition } => match condition {
            None => Ok(ExecFlow::ExitLoop(None)),
            Some(c) => {
                let cr = evaluate_condition(c, env, d, "IF condition must be BOOLEAN, got ");
                assert(cond_ready(*c, d as int) ==> condition_outcome(*c, old(env).scopes@, exit_prefix(), cr));
                match cr {
                    Err(x) => Err(x),
                    Ok(true) => Ok(ExecFlow::ExitLoop(None)),
                    Ok(false) => Ok(ExecFlow::NoValue),
                }
            },
        },
        Statement::Raise { name } => Ok(ExecFlow::Raise(name.clone())),
        Statement::Commit => {
            env.database.commit_transaction();
            Ok(ExecFlow::NoValue)
        },
        Statement::Rollback => {
            env.database.rollback_transaction();
            Ok(ExecFlow::NoValue)
        },
        Statement::Return(value) => match value {
            Some(e) => {
                let v = eval_at(e, env, d)?;
                assert(pure_expr(*e) && depth > expr_height(*e) + 1 ==> pure_outcome(
                    *e,
                    old(env).scopes@,
                    succeeded(v),
                ));
                Ok(ExecFlow::Return(Some(v)))
            },
            None => Ok(ExecFlow::Return(None)),
        },
        Statement::Expression(e) => {
            let v = eval_at(e, env, d)?;
            assert(pure_expr(*e) && depth > expr_height(*e) + 1 ==> pure_outcome(*e, old(env).scopes@, succeeded(v)));
            Ok(ExecFlow::Value(v))
        },
        Statement::Assignment { name, value } => {
            let v = eval_at(value, env, d)?;
            let ghost pure = pure_expr(*value) && dot_index(name@) < 0 && depth > expr_height(*value) + 1;
            assert(pure ==> pure_outcome(*value, old(env).scopes@, succeeded(v)) && *env == *old(env));
            env.assign(name.as_str(), v.clone())?;
            Ok(ExecFlow::Value(v))
        },
        Statement::Call { name, args } => {
            let cr = crate::runtime::routine::call_routine(name.as_str(), args, env, false, d);
            let ghost cr0 = cr;
            let r = match cr {
                Err(e) => Err(e),
                Ok(Some(v)) => Ok(ExecFlow::Value(v)),
                Ok(None) => Ok(ExecFlow::NoValue),
            };
            assert(r == call_flow(cr0));
            r
        },
        _ => crate::runtime::dml::execute_data_statement(stmt, env, d),
    }
}

/// What running `stmts`, all of them pure expression statements, in
/// `scopes` gives: the value of the last, no value for none, or the error
/// of one of them.
pub open spec fn expressions_flow(stmts: Seq<Statement>, scopes: Seq<Scope>, r: Result<ExecFlow, EvalError>) -> bool {
    match r {
        Ok(ExecFlow::Value(v)) => stmts.len() > 0 && pure_outcome(stmt_expr(stmts.last()), scopes, succeeded(v)),
        Ok(ExecFlow::NoValue) => stmts.len() == 0,
        Err(x) => exists|i: int| 0 <= i < stmts.len() && pure_outcome(stmt_expr(#[trigger] stmts[i]), scopes, Err(x)),
        _ => false,
    }
}

/// What running `stmts` gives, as far as its first statement tells: no
/// value for no statements; the flow of a raise, a plain `EXIT` or a plain
/// `RETURN` that comes first.
pub open spec fn list_flow(stmts: Seq<Statement>, r: Result<ExecFlow, EvalError>) -> bool {
    &&& (stmts.len() == 0 ==> r matches Ok(ExecFlow::NoValue))
    &&& (stmts.len() > 0 ==> match stmts[0] {
        Statement::Exit { condition: None } => r matches Ok(ExecFlow::ExitLoop(None)),
        Statement::Raise { name } => r matches Ok(ExecFlow::Raise(n)) && n == name,
        Statement::Return(None) => r matches Ok(ExecFlow::Return(None)),
        _ => true,
    })
}

/// `IF ... THEN ... ELSIF ... ELSE ... END IF`: the branch of the first
/// true condition runs, else the `ELSE` branch, else nothing.
fn execute_if(
    condition: &Expr,
    then_branch: &Vec<Statement>,
    elsif_branches: &Vec<IfBranch>,
    else_branch: &Option<Vec<Statement>>,
    env: &mut Environment,
    depth: u32,
) -> (r: Result<ExecFlow, EvalError>)
    requires
        ready(*old(env)),
    ensures
        (pure_expr(*condition) && (depth - 1 > 0 ==> quiet_list(then_branch@, depth - 1)) && (forall|i: int| 0 <= i < elsif_branches@.len() ==> pure_expr((#[trigger] elsif_branches@[i]).condition) && (depth - 1 > 0 ==> quiet_list(elsif_branches@[i].statements@, depth - 1))) && (*else_branch matches Some(st) ==> (depth - 1 > 0 ==> quiet_list(st@, depth - 1)))) ==> final(env).database == old(env).database,
        if_sem(*condition, then_branch@, elsif_branches@, *else_branch, depth as int, old(env).scopes@, old(env).steps, final(env).scopes@, final(env).steps, r),
        kept(*old(env), *final(env)),
    decreases depth,
{
    let d = deeper(depth)?;
    let ghost sc0 = env.scopes@;
    let ghost st0 = env.steps;
    let ghost ready0 = cond_ready(*condition, d as int);
    let c = evaluate_condition(condition, env, d, "IF condition must be BOOLEAN, got ");
    assert(ready0 ==> condition_outcome(*condition, sc0, exit_prefix(), c) && env.scopes@ == sc0 && env.steps == st0);
    let holds = match c {
        Err(e) => {
            return Err(e);
        },
        Ok(b) => b,
    };
    if holds {
        let r = execute_statements(then_branch, env, d);
        return r;
    }
    proof {
        assert forall|a: Seq<Scope>, b: u64, x: Result<ExecFlow, EvalError>|
            #[trigger] elsif_sem(elsif_branches@, 0, *else_branch, depth as int, env.scopes@, env.steps, a, b, x) implies if_sem(
            *condition,
            then_branch@,
            elsif_branches@,
            *else_branch,
            depth as int,
            sc0,
            st0,
            a,
            b,
            x,
        ) by {}
    }
    let mut i: usize = 0;
    while i < elsif_branches.len()
        invariant
            (pure_expr(*condition) && (depth - 1 > 0 ==> quiet_list(then_branch@, depth - 1)) && (forall|i: int| 0 <= i < elsif_branches@.len() ==> pure_expr((#[trigger] elsif_branches@[i]).condition) && (depth - 1 > 0 ==> quiet_list(elsif_branches@[i].statements@, depth - 1))) && (*else_branch matches Some(st) ==> (depth - 1 > 0 ==> quiet_list(st@, depth - 1)))) ==> env.database == old(env).database,
            ready(*env),
            kept(*old(env), *env),
            i <= elsif_branches@.len(),
            d == depth - 1,
            sc0 == old(env).scopes@,
            st0 == old(env).steps,
            forall|a: Seq<Scope>, b: u64, x: Result<ExecFlow, EvalError>|
                #[trigger] elsif_sem(elsif_branches@, i as int, *else_branch, depth as int, env.scopes@, env.steps, a, b, x)
                    ==> if_sem(*condition, then_branch@, elsif_branches@, *else_branch, depth as int, sc0, st0, a, b, x),
        decreases elsif_branches@.len() - i,
    {
        let branch = &elsif_branches[i];
        let ghost sc_i = env.scopes@;
        let ghost st_i = env.steps;
        proof {
            if !cond_ready(elsif_branches@[i as int].condition, d as int) {
                assert forall|a: Seq<Scope>, b: u64, x: Result<ExecFlow, EvalError>|
                    #[trigger] if_sem(*condition, then_branch@, elsif_branches@, *else_branch, depth as int, sc0, st0, a, b, x) by {
                    assert(elsif_sem(elsif_branches@, i as int, *else_branch, depth as int, sc_i, st_i, a, b, x));
                }
            }
        }
        let h = evaluate_condition(&branch.condition, env, d, "IF condition must be BOOLEAN, got ");
        assert(cond_ready(elsif_branches@[i as int].condition, d as int) ==> condition_outcome(
            elsif_branches@[i as int].condition,
            sc_i,
            exit_prefix(),
            h,
        ) && env.scopes@ == sc_i && env.steps == st_i);
        match h {
            Err(e) => {
                assert(elsif_sem(elsif_branches@, i as int, *else_branch, depth as int, sc_i, st_i, env.scopes@, env.steps, Err(e)));
                return Err(e);
            },
            Ok(true) => {
                let r = execute_statements(&branch.statements, env, d);
                assert(elsif_sem(elsif_branches@, i as int, *else_branch, depth as int, sc_i, st_i, env.scopes@, env.steps, r));
                return r;
            },
            Ok(false) => {},
        }
        proof {
            assert forall|a: Seq<Scope>, b: u64, x: Result<ExecFlow, EvalError>|
                #[trigger] elsif_sem(elsif_branches@, i + 1, *else_branch, depth as int, env.scopes@, env.steps, a, b, x) implies elsif_sem(
                elsif_branches@,
                i as int,
                *else_branch,
                depth as int,
                sc_i,
                st_i,
                a,
                b,
                x,
            ) by {}
        }
        i += 1;
    }
    let ghost sc_e = env.scopes@;
    let ghost st_e = env.steps;
    let r = match else_branch {
        Some(stmts) => execute_statements(stmts, env, d),
        None => Ok(ExecFlow::NoValue),
    };
    assert(elsif_sem(elsif_branches@, i as int, *else_branch, depth as int, sc_e, st_e, env.scopes@, env.steps, r));
    r
}

/// What a loop gives when its body finished with `flow`: `None` to go on,
/// or the loop's own flow. An exit ends the loop with the exit's value or
/// the last value, or NULL.
pub fn loop_step(flow: ExecFlow, last: &mut Option<Value>) -> (r: Option<ExecFlow>)
    ensures
        match flow {
            ExecFlow::Value(v) => r is None && *final(last) == Some(v),
            ExecFlow::NoValue => r is None && *final(last) == *old(last),
            ExecFlow::Raise(n) => r == Some(ExecFlow::Raise(n)),
            ExecFlow::Return(v) => r == Some(ExecFlow::Return(v)),
            ExecFlow::ExitLoop(Some(v)) => r == Some(ExecFlow::Value(v)),
            ExecFlow::ExitLoop(None) => r == Some(
                ExecFlow::Value(
                    match *old(last) {
                        Some(v) => v,
                        None => Value::Null,
                    },
                ),
            ),
        },
{
    match flow {
        ExecFlow::Value(v) => {
            *last = Some(v);
            None
        },
        ExecFlow::NoValue => None,
        ExecFlow::Raise(n) => Some(ExecFlow::Raise(n)),
        ExecFlow::Return(v) => Some(ExecFlow::Return(v)),
        ExecFlow::ExitLoop(Some(v)) => Some(ExecFlow::Value(v)),
        ExecFlow::ExitLoop(None) => {
            let v = match last.take() {
                Some(v) => v,
                None => Value::Null,
            };
            Some(ExecFlow::Value(v))
        },
    }
}

/// The flow of a loop that ran out: its last value, if any.
pub fn loop_done(last: Option<Value>) -> (r: ExecFlow)
    ensures
        match last {
            Some(v) => r == ExecFlow::Value(v),
            None => r == ExecFlow::NoValue,
        },
{
    match last {
        Some(v) => ExecFlow::Value(v),
        None => ExecFlow::NoValue,
    }
}

/// `WHILE cond LOOP body END LOOP`; each iteration takes a step.
fn execute_while(condition: &Expr, body: &Vec<Statement>, env: &mut Environment, depth: u32) -> (r: Result<
    ExecFlow,
    EvalError,
>)
    requires
        ready(*old(env)),
    ensures
        (pure_expr(*condition) && (depth - 1 > 0 ==> quiet_list(body@, depth - 1))) ==> final(env).database == old(env).database,
        while_sem(*condition, body@, depth as int, old(env).scopes@, old(env).steps, final(env).scopes@, final(env).steps, r),
        kept(*old(env), *final(env)),
        r matches Ok(f) ==> !(f is ExitLoop),
        depth > 0 && old(env).steps == 0 ==> (r == Err::<ExecFlow, EvalError>(EvalError::StepLimitExceeded)
            && *final(env) == *old(env)),
    decreases depth,
{
    let d = deeper(depth)?;
    let mut last: Option<Value> = None;
    let ghost mut first: bool = true;
    loop
        invariant
            (pure_expr(*condition) && (depth - 1 > 0 ==> quiet_list(body@, depth - 1))) ==> env.database == old(env).database,
            ready(*env),
            kept(*old(env), *env),
            d == depth - 1,
            first ==> *env == *old(env) && last is None,
            !first ==> old(env).steps > 0,
            forall|a: Seq<Scope>, b: u64, x: Result<ExecFlow, EvalError>|
                #[trigger] while_iter(*condition, body@, d as int, last, env.scopes@, env.steps, a, b, x) ==> while_sem(
                    *condition,
                    body@,
                    depth as int,
                    old(env).scopes@,
                    old(env).steps,
                    a,
                    b,
                    x,
                ),
        decreases env.steps,
    {
        let ghost sc_i = env.scopes@;
        let ghost st_i = env.steps;
        let ghost last_i = last;
        match take_step(env) {
            Err(e) => {
                assert(while_iter(*condition, body@, d as int, last_i, sc_i, st_i, env.scopes@, env.steps, Err(e)));
                return Err(e);
            },
            Ok(()) => {},
        }
        proof {
            if !cond_ready(*condition, d as int) {
                assert forall|a: Seq<Scope>, b: u64, x: Result<ExecFlow, EvalError>|
                    #[trigger] while_sem(*condition, body@, depth as int, old(env).scopes@, old(env).steps, a, b, x) by {
                    assert(while_iter(*condition, body@, d as int, last_i, sc_i, st_i, a, b, x));
                }
            }
        }
        let c = evaluate_condition(condition, env, d, "IF condition must be BOOLEAN, got ");
        assert(cond_ready(*condition, d as int) ==> condition_outcome(*condition, sc_i, exit_prefix(), c)
            && env.scopes@ == sc_i && env.steps == st_i - 1);
        let holds = match c {
            Err(e) => {
                assert(while_iter(*condition, body@, d as int, last_i, sc_i, st_i, env.scopes@, env.steps, Err(e)));
                return Err(e);
            },
            Ok(b) => b,
        };
        if !holds {
            let r = Ok(loop_done(last));
            assert(while_iter(*condition, body@, d as int, last_i, sc_i, st_i, env.scopes@, env.steps, r));
            return r;
        }
        let ghost sc_b = env.scopes@;
        let f = execute_statements(body, env, d);
        assert(mark_run(env.scopes@, env.steps, f));
        assert(cond_ready(*condition, d as int) ==> stmts_sem(body@, d as int, sc_i, (st_i - 1) as u64, env.scopes@, env.steps, f));
        let flow = match f {
            Err(e) => {
                assert(while_iter(*condition, body@, d as int, last_i, sc_i, st_i, env.scopes@, env.steps, Err(e)));
                return Err(e);
            },
            Ok(flow) => flow,
        };
        match loop_step(flow, &mut last) {
            Some(g) => {
                let r = Ok(g);
                assert(while_iter(*condition, body@, d as int, last_i, sc_i, st_i, env.scopes@, env.steps, r));
                return r;
            },
            None => {},
        }
        proof {
            assert forall|a: Seq<Scope>, b: u64, x: Result<ExecFlow, EvalError>|
                #[trigger] while_iter(*condition, body@, d as int, last, env.scopes@, env.steps, a, b, x) implies while_iter(
                *condition,
                body@,
                d as int,
                last_i,
                sc_i,
                st_i,
                a,
                b,
                x,
            ) by {
                assert(mark_run(env.scopes@, env.steps, f));
            }
            first = false;
        }
    }
}

/// `LOOP body END LOOP`; each iteration takes a step.
fn execute_loop(body: &Vec<Statement>, env: &mut Environment, depth: u32) -> (r: Result<ExecFlow, EvalError>)
    requires
        ready(*old(env)),
    ensures
        (depth - 1 > 0 ==> quiet_list(body@, depth - 1)) ==> final(env).database == old(env).database,
        loop_sem(body@, depth as int, old(env).scopes@, old(env).steps, final(env).scopes@, final(env).steps, r),
        kept(*old(env), *final(env)),
        r matches Ok(f) ==> (f is Value || f is Raise || f is Return),
        depth > 0 && old(env).steps == 0 ==> (r == Err::<ExecFlow, EvalError>(EvalError::StepLimitExceeded)
            && *final(env) == *old(env)),
    decreases depth,
{
    let d = deeper(depth)?;
    let mut last: Option<Value> = None;
    let ghost mut first: bool = true;
    loop
        invariant
            (depth - 1 > 0 ==> quiet_list(body@, depth - 1)) ==> env.database == old(env).database,
            ready(*env),
            kept(*old(env), *env),
            d == depth - 1,
            first ==> *env == *old(env) && last is None,
            !first ==> old(env).steps > 0,
            forall|a: Seq<Scope>, b: u64, x: Result<ExecFlow, EvalError>|
                #[trigger] loop_iter(body@, d as int, last, env.scopes@, env.steps, a, b, x) ==> loop_sem(
                    body@,
                    depth as int,
                    old(env).scopes@,
                    old(env).steps,
                    a,
                    b,
                    x,
                ),
        decreases env.steps,
    {
        let ghost sc_i = env.scopes@;
        let ghost st_i = env.steps;
        let ghost last_i = last;
        match take_step(env) {
            Err(e) => {
                assert(loop_iter(body@, d as int, last_i, sc_i, st_i, env.scopes@, env.steps, Err(e)));
                return Err(e);
            },
            Ok(()) => {},
        }
        let f = execute_statements(body, env, d);
        assert(mark_run(env.scopes@, env.steps, f));
        let flow = match f {
            Err(e) => {
                assert(loop_iter(body@, d as int, last_i, sc_i, st_i, env.scopes@, env.steps, Err(e)));
                return Err(e);
            },
            Ok(flow) => flow,
        };
        match loop_step(flow, &mut last) {
            Some(g) => {
                let r = Ok(g);
                assert(loop_iter(body@, d as int, last_i, sc_i, st_i, env.scopes@, env.steps, r));
                return r;
            },
            None => {},
        }
        proof {
            assert forall|a: Seq<Scope>, b: u64, x: Result<ExecFlow, EvalError>|
                #[trigger] loop_iter(body@, d as int, last, env.scopes@, env.steps, a, b, x) implies loop_iter(
                body@,
                d as int,
                last_i,
                sc_i,
                st_i,
                a,
                b,
                x,
            ) by {
                assert(mark_run(env.scopes@, env.steps, f));
            }
            first = false;
        }
    }
}

/// The number a `FOR` bound evaluates to; other values are type errors.
pub fn expect_number(v: Value) -> (r: Result<Number, EvalError>)
    ensures
        match v {
            Value::Number(n) => r == Ok::<Number, EvalError>(n),
            _ => r matches Err(EvalError::TypeError(m)) && m@ == "FOR bounds must be NUMBER, got "@
                + type_name_spec(type_of(v)),
        },
{
    match v {
        Value::Number(n) => Ok(n),
        other => {
            let mut m = "FOR bounds must be NUMBER, got ".to_owned();
            m.append(other.type_label());
            Err(EvalError::TypeError(m))
        },
    }
}

/// What the pure bound `e` of a `FOR` gives in `scopes`: its number, its
/// error, or a type error for a value that is no number.
pub open spec fn bound_outcome(e: Expr, scopes: Seq<Scope>, n: Result<Number, EvalError>) -> bool {
    match n {
        Ok(x) => pure_outcome(e, scopes, succeeded(Value::Number(x))),
        Err(x) => {
            ||| pure_outcome(e, scopes, Err(x))
            ||| exists|v: Value|
                pure_outcome(e, scopes, #[trigger] succeeded(v)) && !(v is Number) && (x matches EvalError::TypeError(
                    m,
                ) && m@ == "FOR bounds must be NUMBER, got "@ + type_name_spec(type_of(v)))
        },
    }
}

/// `FOR variable IN start..end LOOP body END LOOP`: the variable takes
/// `start`, `start + 1`, ... while it is at most `end`, in a scope of its
/// own; each iteration takes a step.
fn execute_for(
    variable: &String,
    start: &Expr,
    end: &Expr,
    body: &Vec<Statement>,
    env: &mut Environment,
    depth: u32,
) -> (r: Result<ExecFlow, EvalError>)
    requires
        ready(*old(env)),
    ensures
        (pure_expr(*start) && pure_expr(*end) && (depth - 2 > 0 ==> quiet_list(body@, depth - 2))) ==> final(env).database == old(env).database,
        for_sem(variable@, *start, *end, body@, depth as int, old(env).scopes@, old(env).steps, final(env).scopes@, final(env).steps, r),
        kept(*old(env), *final(env)),
        r matches Ok(f) ==> !(f is ExitLoop),
    decreases depth,
{
    let d = deeper(depth)?;
    let ghost pure = pure_expr(*start) && pure_expr(*end) && depth > expr_height(*start) + 1 && depth
        > expr_height(*end) + 1;
    let a = match eval_at(start, env, d) {
        Err(e) => Err(e),
        Ok(v) => {
            assert(pure ==> pure_outcome(*start, old(env).scopes@, succeeded(v)));
            expect_number(v)
        },
    };
    let first = match a {
        Err(e) => {
            assert(pure ==> bound_outcome(*start, old(env).scopes@, a) && *env == *old(env));
            return Err(e);
        },
        Ok(n) => n,
    };
    let b = match eval_at(end, env, d) {
        Err(e) => Err(e),
        Ok(v) => {
            assert(pure ==> pure_outcome(*end, old(env).scopes@, succeeded(v)));
            expect_number(v)
        },
    };
    let last_bound = match b {
        Err(e) => {
            assert(pure ==> bound_outcome(*start, old(env).scopes@, a) && bound_outcome(*end, old(env).scopes@, b)
                && *env == *old(env));
            return Err(e);
        },
        Ok(n) => n,
    };
    env.push_scope();
    let ghost pushed = env.scopes@;
    let r = run_range(variable, first, last_bound, body, env, d);
    let ghost inner = env.scopes@;
    env.pop_scope();
    proof {
        assert(pure ==> pushed =~= old(env).scopes@.push(pushed.last()));
        assert(mark_opened(pushed.last(), inner));
        assert(pure ==> bound_outcome(*start, old(env).scopes@, a) && bound_outcome(*end, old(env).scopes@, b));
    }
    r
}

/// `a` is below `b`.
pub open spec fn number_below(a: Number, b: Number) -> bool {
    a.numer() * b.denom() < b.numer() * a.denom()
}

/// The iterations of a range `FOR`, in the loop's scope.
fn run_range(
    variable: &String,
    first: Number,
    last_bound: Number,
    body: &Vec<Statement>,
    env: &mut Environment,
    depth: u32,
) -> (r: Result<ExecFlow, EvalError>)
    requires
        ready(*old(env)),
    ensures
        (depth - 1 > 0 ==> quiet_list(body@, depth - 1)) ==> final(env).database == old(env).database,
        range_sem(variable@, first, last_bound, body@, depth as int, old(env).scopes@, old(env).steps, final(env).scopes@, final(env).steps, r),
        kept(*old(env), *final(env)),
        r matches Ok(f) ==> !(f is ExitLoop),
        depth > 0 && number_below(last_bound, first) ==> (r matches Ok(ExecFlow::NoValue) && *final(env)
            == *old(env)),
        depth > 0 && !number_below(last_bound, first) && old(env).steps == 0 ==> (r == Err::<
            ExecFlow,
            EvalError,
        >(EvalError::StepLimitExceeded) && *final(env) == *old(env)),
    decreases depth,
{
    let d = deeper(depth)?;
    let one = Number::from_int(1);
    let mut current = first;
    let mut last: Option<Value> = None;
    let ghost mut at_first: bool = true;
    loop
        invariant
            (depth - 1 > 0 ==> quiet_list(body@, depth - 1)) ==> env.database == old(env).database,
            ready(*env),
            kept(*old(env), *env),
            d == depth - 1,
            one.numer() == 1 && one.denom() == 1,
            at_first ==> *env == *old(env) && last is None && current == first,
            !at_first ==> old(env).steps > 0 && !number_below(last_bound, first),
            forall|a: Seq<Scope>, b: u64, x: Result<ExecFlow, EvalError>|
                #[trigger] range_iter(variable@, current, last_bound, body@, d as int, last, env.scopes@, env.steps, a, b, x)
                    ==> range_sem(variable@, first, last_bound, body@, depth as int, old(env).scopes@, old(env).steps, a, b, x),
        decreases env.steps,
    {
        let ghost sc_i = env.scopes@;
        let ghost st_i = env.steps;
        let ghost last_i = last;
        let ghost cur_i = current;
        if last_bound.less_than(&current) {
            let r = Ok(loop_done(last));
            assert(range_iter(variable@, cur_i, last_bound, body@, d as int, last_i, sc_i, st_i, env.scopes@, env.steps, r));
            return r;
        }
        match take_step(env) {
            Err(e) => {
                assert(range_iter(variable@, cur_i, last_bound, body@, d as int, last_i, sc_i, st_i, env.scopes@, env.steps, Err(e)));
                return Err(e);
            },
            Ok(()) => {},
        }
        env.set(variable.as_str(), Value::Number(current));
        let ghost sc0 = env.scopes@;
        assert(set_in(sc_i, variable@, Value::Number(cur_i), sc0));
        let f = execute_statements(body, env, d);
        assert(mark_run(env.scopes@, env.steps, f));
        let flow = match f {
            Err(e) => {
                assert(range_iter(variable@, cur_i, last_bound, body@, d as int, last_i, sc_i, st_i, env.scopes@, env.steps, Err(e)));
                return Err(e);
            },
            Ok(flow) => flow,
        };
        match loop_step(flow, &mut last) {
            Some(g) => {
                let r = Ok(g);
                assert(range_iter(variable@, cur_i, last_bound, body@, d as int, last_i, sc_i, st_i, env.scopes@, env.steps, r));
                return r;
            },
            None => {},
        }
        proof {
            at_first = false;
        }
        current = match current.checked_add(&one) {
            Some(n) => n,
            None => {
                let r = Err(EvalError::NumericOverflow);
                assert(range_iter(variable@, cur_i, last_bound, body@, d as int, last_i, sc_i, st_i, env.scopes@, env.steps, r));
                return r;
            },
        };
        proof {
            assert(current.denotes(cur_i.numer() * 1 + 1 * cur_i.denom(), cur_i.denom() * 1));
            assert forall|a: Seq<Scope>, b: u64, x: Result<ExecFlow, EvalError>|
                #[trigger] range_iter(variable@, current, last_bound, body@, d as int, last, env.scopes@, env.steps, a, b, x) implies range_iter(
                variable@,
                cur_i,
                last_bound,
                body@,
                d as int,
                last_i,
                sc_i,
                st_i,
                a,
                b,
                x,
            ) by {
                assert(mark_run(env.scopes@, env.steps, f));
                assert(set_in(sc_i, variable@, Value::Number(cur_i), sc0));
                assert(current.denotes(cur_i.numer() * 1 + 1 * cur_i.denom(), cur_i.denom() * 1));
            }
        }
    }
}

} // verus!
