use vstd::prelude::*;

use crate::ast::{Expr, RoutineDeclaration, RoutineKind, RoutineParameter};
use crate::expr::eval::{concat4, EvalError};
use crate::expr::value::{accepts, type_from_name_spec, type_name_spec, type_of, DataType, Value};
use crate::routines::unknown_return_message;
use crate::runtime::env::{concat5, concat6, expects_message, unknown_type_message, Environment, Scope};
use crate::runtime::exec::{block_entry, deeper, eval_at, execute_block_in_scope, kept, pure_outcome, ready, succeeded, ExecFlow};
use crate::runtime::dml::{all_pure, values_outcome};
use crate::runtime::semantics::{block_sem, declared_in, fresh_scope, mark_opened, mark_run, popped};

verus! {

/// `routine `R` expects T, got U`.
pub open spec fn return_type_message(routine: Seq<char>, t: DataType, v: Value) -> Seq<char> {
    "routine `"@ + routine + "` expects "@ + type_name_spec(t) + ", got "@ + type_name_spec(type_of(v))
}

/// Checks a function's result against its declared return type (none:
/// anything goes).
pub fn validate_return_value(routine: &str, return_type: &Option<String>, value: &Value) -> (r: Result<
    (),
    EvalError,
>)
    ensures
        match return_type {
            None => r is Ok,
            Some(t) => match type_from_name_spec(t@) {
                None => r matches Err(EvalError::TypeError(m)) && m@ == unknown_return_message(
                    t@,
                    routine@,
                ),
                Some(dt) => if accepts(dt, *value) {
                    r is Ok
                } else {
                    r matches Err(EvalError::TypeError(m)) && m@ == return_type_message(
                        routine@,
                        dt,
                        *value,
                    )
                },
            },
        },
{
    match return_type {
        None => Ok(()),
        Some(t) => match DataType::from_name(t.as_str()) {
            None => Err(
                EvalError::TypeError(
                    concat5("unknown return type `", t.as_str(), "` for routine `", routine, "`"),
                ),
            ),
            Some(dt) => {
                if dt.accept(value) {
                    Ok(())
                } else {
                    Err(
                        EvalError::TypeError(
                            concat6("routine `", routine, "` expects ", dt.name(), ", got ", value.type_label()),
                        ),
                    )
                }
            },
        },
    }
}

/// Calls the routine `name`: its arguments are evaluated in order, then
/// bound to its parameters (with their declared types) in a new scope where
/// its body runs. A procedure gives nothing and cannot be used in an
/// expression; a function gives its returned (or last) value, checked
/// against its return type.
pub fn call_routine(name: &str, args: &Vec<Expr>, env: &mut Environment, in_expression: bool, depth: u32) -> (r: Result<
    Option<Value>,
    EvalError,
>)
    requires
        ready(*old(env)),
    ensures
        kept(*old(env), *final(env)),
        depth > 0 && old(env).routines.declared(name@) is None ==> (r matches Err(EvalError::RoutineNotDeclared(n))
            && n@ == name@),
        old(env).routines.declared(name@) matches Some(rt) ==> {
            &&& args@.len() != rt.parameters@.len() ==> r is Err
            &&& rt.kind == RoutineKind::Procedure && in_expression ==> r is Err
            &&& rt.kind == RoutineKind::Procedure && r is Ok ==> r == Ok::<Option<Value>, EvalError>(None)
            &&& rt.kind == RoutineKind::Function ==> (r matches Ok(v) ==> v is Some)
        },
        depth > 1 && all_pure(args@, depth - 1) ==> (old(env).routines.declared(name@) matches Some(rt) ==> (
        args@.len() == rt.parameters@.len() ==> call_run(
            *rt,
            args@,
            in_expression,
            depth - 1,
            old(env).scopes@,
            old(env).steps,
            final(env).scopes@,
            final(env).steps,
            r,
        ))),
    decreases depth,
{
    let d = deeper(depth)?;
    let routine = match env.routines.get(name) {
        Some(rt) => rt,
        None => {
            return Err(EvalError::RoutineNotDeclared(name.to_owned()));
        },
    };
    let mut values: Vec<Value> = Vec::new();
    let mut i: usize = 0;
    while i < args.len()
        invariant
            ready(*env),
            kept(*old(env), *env),
            d < depth,
            i <= args@.len(),
            values@.len() == i,
            old(env).routines.declared(name@) == Some(routine),
            d == depth - 1,
            all_pure(args@, depth - 1) ==> *env == *old(env) && forall|k: int|
                0 <= k < i ==> pure_outcome(#[trigger] args@[k], old(env).scopes@, succeeded(values@[k])),
        decreases args@.len() - i,
    {
        let v = match eval_at(&args[i], env, d) {
            Ok(v) => v,
            Err(e) => {
                assert(all_pure(args@, depth - 1) ==> pure_outcome(args@[i as int], old(env).scopes@, Err(e)));
                return Err(e);
            },
        };
        let ghost before = values@;
        values.push(v);
        proof {
            if all_pure(args@, depth - 1) {
                assert forall|k: int| 0 <= k < i + 1 implies pure_outcome(#[trigger] args@[k], old(env).scopes@, succeeded(values@[k])) by {
                    if k < i {
                        assert(values@[k] == before[k]);
                    }
                }
            }
        }
        i += 1;
    }
    assert(all_pure(args@, depth - 1) ==> values_outcome(args@, old(env).scopes@, values@));
    if values.len() != routine.parameters.len() {
        return Err(
            EvalError::RoutineArgumentCountMismatch {
                routine: routine.name.clone(),
                expected: routine.parameters.len(),
                found: values.len(),
            },
        );
    }
    env.push_scope();
    let ghost pushed = env.scopes@;
    let r = run_routine(&routine, &values, env, in_expression, d);
    let ghost inner = env.scopes@;
    env.pop_scope();
    proof {
        assert(mark_opened(pushed.last(), inner));
        assert(all_pure(args@, depth - 1) ==> pushed =~= old(env).scopes@.push(pushed.last()));
    }
    r
}

/// The parameter's declared type is known and takes `v`.
pub open spec fn param_accepts(p: RoutineParameter, v: Value) -> bool {
    type_from_name_spec(p.declared_type@) matches Some(t) && accepts(t, v)
}

/// Every parameter takes its value.
pub open spec fn params_accepted(ps: Seq<RoutineParameter>, vs: Seq<Value>) -> bool {
    forall|k: int| 0 <= k < ps.len() ==> #[trigger] param_accepts(ps[k], vs[k])
}

/// `r` is the type error of the first parameter that does not take its
/// value: its type is unknown, or refuses the value.
pub open spec fn parameter_refused(ps: Seq<RoutineParameter>, vs: Seq<Value>, r: Result<Option<Value>, EvalError>) -> bool {
    exists|i: int|
        0 <= i < ps.len() && (forall|k: int| 0 <= k < i ==> #[trigger] param_accepts(ps[k], vs[k])) && match type_from_name_spec(
            #[trigger] ps[i].declared_type@,
        ) {
            None => r matches Err(EvalError::TypeError(m)) && m@ == unknown_type_message(ps[i].declared_type@, ps[i].name@),
            Some(t) => !accepts(t, vs[i]) && (r matches Err(EvalError::TypeError(m)) && m@ == expects_message(
                ps[i].name@,
                t,
                vs[i],
            )),
        }
}

/// The value a function's body gives when it finished with `flow`: the
/// returned or last value, or NULL.
pub open spec fn returned_value(flow: ExecFlow) -> Value {
    match flow {
        ExecFlow::Value(v) => v,
        ExecFlow::Return(Some(v)) => v,
        _ => Value::Null,
    }
}

/// What a call of `routine` gives once its body finished with `f`: the
/// body's error; for a procedure nothing, or a type error when it stands in
/// an expression; for a function an error for an `EXIT` or a raise that got
/// this far, else its value checked against its return type.
pub open spec fn routine_outcome(
    routine: RoutineDeclaration,
    in_expression: bool,
    f: Result<ExecFlow, EvalError>,
    r: Result<Option<Value>, EvalError>,
) -> bool {
    match f {
        Err(x) => r == Err::<Option<Value>, EvalError>(x),
        Ok(flow) => match routine.kind {
            RoutineKind::Procedure => if in_expression {
                r matches Err(EvalError::TypeError(m)) && m@ == "routine `"@ + routine.name@ + "` is a procedure"@
                    + " and cannot be used in an expression"@
            } else {
                r == Ok::<Option<Value>, EvalError>(None)
            },
            RoutineKind::Function => match flow {
                ExecFlow::ExitLoop(_) => r == Err::<Option<Value>, EvalError>(EvalError::ExitOutsideLoop),
                ExecFlow::Raise(n) => r == Err::<Option<Value>, EvalError>(EvalError::UnhandledException(n)),
                _ => {
                    let v = returned_value(flow);
                    match routine.return_type {
                        None => r == Ok::<Option<Value>, EvalError>(Some(v)),
                        Some(t) => match type_from_name_spec(t@) {
                            None => r matches Err(EvalError::TypeError(m)) && m@ == unknown_return_message(
                                t@,
                                routine.name@,
                            ),
                            Some(dt) => if accepts(dt, v) {
                                r == Ok::<Option<Value>, EvalError>(Some(v))
                            } else {
                                r matches Err(EvalError::TypeError(m)) && m@ == return_type_message(
                                    routine.name@,
                                    dt,
                                    v,
                                )
                            },
                        },
                    }
                },
            },
        },
    }
}

/// What running the routine `rt` with the argument values `vals` and the
/// nesting budget `d` gives, from `sc` and `st` steps: the type error of the
/// first parameter that refuses its value; else the parameters declared in
/// turn, the body run as a block, and its flow made the call's result.
pub open spec fn routine_run(
    rt: RoutineDeclaration,
    vals: Seq<Value>,
    in_expression: bool,
    d: int,
    sc: Seq<Scope>,
    st: u64,
    sc2: Seq<Scope>,
    st2: u64,
    r: Result<Option<Value>, EvalError>,
) -> bool {
    &&& d > 3 && !params_accepted(rt.parameters@, vals) ==> parameter_refused(rt.parameters@, vals, r)
    &&& d > 0 && params_accepted(rt.parameters@, vals) ==> exists|ss: Seq<Seq<Scope>>, f: Result<ExecFlow, EvalError>|
        #![trigger params_chain(ss, rt.parameters@, vals), mark_run(ss.last(), st, f)]
        params_chain(ss, rt.parameters@, vals) && ss.len() == vals.len() + 1 && ss[0] == sc && block_sem(
            *rt.body,
            d - 1,
            ss.last(),
            st,
            sc2,
            st2,
            f,
        ) && routine_outcome(rt, in_expression, f, r)
}

/// What calling the routine `rt` with the pure arguments `args` and the
/// nesting budget `d` gives, from `sc` and `st` steps: an argument's error,
/// or the routine run on the arguments' values in a scope of its own.
pub open spec fn call_run(
    rt: RoutineDeclaration,
    args: Seq<Expr>,
    in_expression: bool,
    d: int,
    sc: Seq<Scope>,
    st: u64,
    sc2: Seq<Scope>,
    st2: u64,
    r: Result<Option<Value>, EvalError>,
) -> bool {
    ||| r matches Err(x) && sc2 == sc && exists|i: int| 0 <= i < args.len() && #[trigger] pure_outcome(args[i], sc, Err(x))
    ||| exists|vals: Seq<Value>, ns: Scope, sc3: Seq<Scope>|
        #![trigger values_outcome(args, sc, vals), mark_opened(ns, sc3)]
        values_outcome(args, sc, vals) && fresh_scope(ns) && sc2 == popped(sc3) && routine_run(
            rt,
            vals,
            in_expression,
            d,
            sc.push(ns),
            st,
            sc3,
            st2,
            r,
        )
}

/// Each scope stack of `ss` follows from the one before it by declaring the
/// next parameter of `ps` with the next of `vs`.
pub open spec fn params_chain(ss: Seq<Seq<Scope>>, ps: Seq<RoutineParameter>, vs: Seq<Value>) -> bool {
    &&& ss.len() <= ps.len() + 1
    &&& ss.len() <= vs.len() + 1
    &&& forall|j: int|
        0 <= j < ss.len() - 1 ==> #[trigger] declared_in(
            ss[j],
            ss[j + 1],
            ps[j].name@,
            vs[j],
            type_from_name_spec(ps[j].declared_type@)->0,
        )
}

/// The body of a call, in the call's scope.
fn run_routine(
    routine: &RoutineDeclaration,
    values: &Vec<Value>,
    env: &mut Environment,
    in_expression: bool,
    depth: u32,
) -> (r: Result<Option<Value>, EvalError>)
    requires
        ready(*old(env)),
        values@.len() == routine.parameters@.len(),
    ensures
        kept(*old(env), *final(env)),
        routine_run(
            *routine,
            values@,
            in_expression,
            depth as int,
            old(env).scopes@,
            old(env).steps,
            final(env).scopes@,
            final(env).steps,
            r,
        ),
        r is Err || (routine.kind == RoutineKind::Procedure && !in_expression) || routine.kind == RoutineKind::Function,
        routine.kind == RoutineKind::Procedure && r is Ok ==> r == Ok::<Option<Value>, EvalError>(None),
        routine.kind == RoutineKind::Function ==> (r matches Ok(v) ==> v is Some),
        depth > 3 && !params_accepted(routine.parameters@, values@) ==> parameter_refused(
            routine.parameters@,
            values@,
            r,
        ),
        depth > 3 && params_accepted(routine.parameters@, values@) ==> exists|f: Result<ExecFlow, EvalError>| #[trigger]
            block_entry(*routine.body, f) && routine_outcome(*routine, in_expression, f, r),
        depth > 0 && params_accepted(routine.parameters@, values@) ==> exists|
            ss: Seq<Seq<Scope>>,
            f: Result<ExecFlow, EvalError>,
        |
            #![trigger params_chain(ss, routine.parameters@, values@), mark_run(ss.last(), old(env).steps, f)]
            params_chain(ss, routine.parameters@, values@) && ss.len() == values@.len() + 1
                && ss[0] == old(env).scopes@
                && block_sem(*routine.body, depth - 1, ss.last(), old(env).steps, final(env).scopes@, final(env).steps, f)
                && routine_outcome(*routine, in_expression, f, r),
    decreases depth,
{
    let d = deeper(depth)?;
    let mut i: usize = 0;
    let ghost mut ss: Seq<Seq<Scope>> = seq![env.scopes@];
    while i < values.len()
        invariant
            ss.len() == i + 1,
            ss[0] == old(env).scopes@,
            ss.last() == env.scopes@,
            env.steps == old(env).steps,
            params_chain(ss, routine.parameters@, values@),
            ready(*env),
            kept(*old(env), *env),
            values@.len() == routine.parameters@.len(),
            i <= values@.len(),
            d == depth - 1,
            forall|k: int| 0 <= k < i ==> #[trigger] param_accepts(routine.parameters@[k], values@[k]),
        decreases values@.len() - i,
    {
        let p = &routine.parameters[i];
        match env.declare(p.name.clone(), values[i].clone(), p.declared_type.as_str()) {
            Err(e) => {
                let r = Err(e);
                assert(!param_accepts(routine.parameters@[i as int], values@[i as int]));
                assert(parameter_refused(routine.parameters@, values@, r));
                return r;
            },
            Ok(()) => {},
        }
        proof {
            let ns = ss.push(env.scopes@);
            assert forall|j: int| 0 <= j < ns.len() - 1 implies #[trigger] declared_in(
                ns[j],
                ns[j + 1],
                routine.parameters@[j].name@,
                values@[j],
                type_from_name_spec(routine.parameters@[j].declared_type@)->0,
            ) by {
                if j < i {
                    assert(ns[j] == ss[j] && ns[j + 1] == ss[j + 1]);
                }
            }
            ss = ns;
        }
        i += 1;
    }
    let ghost sc_p = env.scopes@;
    let f = execute_block_in_scope(&routine.body, env, d);
    let r = match f {
        Err(e) => Err(e),
        Ok(flow) => match routine.kind {
            RoutineKind::Procedure => {
                if in_expression {
                    let mut m = concat4("routine `", routine.name.as_str(), "` is a procedure", "");
                    m.append(" and cannot be used in an expression");
                    proof {
                        reveal_strlit("");
                        assert(m@ =~= "routine `"@ + routine.name@ + "` is a procedure"@
                            + " and cannot be used in an expression"@);
                    }
                    Err(EvalError::TypeError(m))
                } else {
                    Ok(None)
                }
            },
            RoutineKind::Function => match flow {
                ExecFlow::ExitLoop(_) => Err(EvalError::ExitOutsideLoop),
                ExecFlow::Raise(n) => Err(EvalError::UnhandledException(n)),
                other => {
                    let value = match other {
                        ExecFlow::Value(v) => v,
                        ExecFlow::Return(Some(v)) => v,
                        _ => Value::Null,
                    };
                    match validate_return_value(routine.name.as_str(), &routine.return_type, &value) {
                        Ok(()) => Ok(Some(value)),
                        Err(e) => Err(e),
                    }
                },
            },
        },
    };
    assert(depth > 3 ==> block_entry(*routine.body, f) && routine_outcome(*routine, in_expression, f, r));
    proof {
        assert(params_chain(ss, routine.parameters@, values@));
        assert(mark_run(ss.last(), old(env).steps, f));
    }
    r
}

} // verus!
