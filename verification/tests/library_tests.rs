use crucible::ast::{Expr, JoinKind};
use crucible::runtime::query::combine_join;
use crucible::db::DbError;
use crucible::expr::{eval, DataType, Date, EvalError, Number, Value};
use crucible::parser::{parse_block, parse_expression, parse_string_literal, ParseError};
use crucible::runtime::dml::map_db_error;
use crucible::runtime::{execute_block, execute_block_collect_values, Environment};

fn num(n: i64) -> Value {
    Value::Number(Number::from_int(n))
}

fn text(s: &str) -> Value {
    Value::Text(s.to_string())
}

fn run(src: &str, env: &mut Environment) -> Result<Value, EvalError> {
    let block = parse_block(src).expect("Failed to parse block");
    execute_block(&block, env)
}

fn eval_text(src: &str) -> Result<Value, EvalError> {
    let expr = parse_expression(src).expect("Failed to parse");
    let mut env = Environment::default();
    eval(&expr, &mut env)
}

fn seed(env: &mut Environment) {
    env.database_mut().create_table(
        "employees".to_string(),
        vec!["id".to_string(), "name".to_string(), "salary".to_string()],
    );
    env.database_mut()
        .insert_row("employees", vec![num(1), text("Alice"), num(100)])
        .expect("insert");
    env.database_mut()
        .insert_row("employees", vec![num(2), text("Bob"), num(200)])
        .expect("insert");
    env.database_mut().create_table(
        "departments".to_string(),
        vec!["employee_id".to_string(), "department".to_string()],
    );
    env.database_mut()
        .insert_row("departments", vec![num(1), text("Sales")])
        .expect("insert");
    env.database_mut()
        .insert_row("departments", vec![num(3), text("Ops")])
        .expect("insert");
}

#[test]
fn type_names_round_trip() {
    for t in [
        DataType::Number,
        DataType::Text,
        DataType::Bool,
        DataType::Date,
        DataType::Timestamp,
        DataType::DateTime,
        DataType::Record,
        DataType::Null,
    ] {
        assert_eq!(DataType::from_name(t.name()), Some(t));
    }
    assert_eq!(DataType::from_name("bool"), Some(DataType::Bool));
    assert_eq!(DataType::from_name("varchar"), None);
}

#[test]
fn string_literal_collapses_doubled_quotes() {
    assert_eq!(parse_string_literal("'it''s'"), "it's");
    assert_eq!(parse_string_literal("\"a\"\"b\""), "a\"b");
    assert_eq!(parse_string_literal("'a\"\"b'"), "a\"\"b");
    assert_eq!(parse_string_literal("''''''"), "''");
    assert_eq!(parse_string_literal("xabcx"), "abc");
}

#[test]
fn lexer_errors_are_syntax_errors() {
    assert!(matches!(parse_expression("'open"), Err(ParseError::Syntax(_))));
    assert!(matches!(parse_expression("1 @ 2"), Err(ParseError::Syntax(_))));
    assert!(matches!(parse_block("BEGIN x := 1; END; extra"), Err(ParseError::Syntax(_))));
    assert!(matches!(parse_block("BEGIN x := ; END;"), Err(ParseError::Syntax(_))));
}

#[test]
fn invalid_date_literal_is_a_structure_error() {
    assert_eq!(
        parse_expression("DATE '2026-02-30'"),
        Err(ParseError::UnexpectedStructure)
    );
    assert_eq!(
        parse_expression("DATE '2024-02-29'"),
        Ok(Expr::Literal(Value::Date(Date { year: 2024, month: 2, day: 29 })))
    );
}

#[test]
fn decimal_literals_are_exact() {
    assert_eq!(eval_text("0.5 + 0.25"), Ok(Value::Number(Number::from_ratio(3, 4).unwrap())));
    assert_eq!(eval_text("1 / 4 + 1 / 4"), eval_text("0.5"));
    assert_eq!(eval_text("7 - 10"), Ok(num(-3)));
    assert_eq!(eval_text("-(2 * 3)"), Ok(num(-6)));
}

#[test]
fn operator_errors_and_nulls() {
    assert_eq!(eval_text("1 / 0"), Err(EvalError::DivisionByZero));
    assert_eq!(
        eval_text("1 + TRUE"),
        Err(EvalError::TypeError("cannot add NUMBER and BOOLEAN".to_string()))
    );
    assert_eq!(
        eval_text("NOT 1"),
        Err(EvalError::TypeError("cannot apply NOT to value of type NUMBER".to_string()))
    );
    assert_eq!(eval_text("'ab' + 'cd'"), Ok(text("abcd")));
    assert_eq!(eval_text("'abc' < 'abd'"), Ok(Value::Bool(true)));
    assert_eq!(eval_text("1 = 1.0"), Ok(Value::Bool(true)));
    assert_eq!(eval_text("undefined_name"), Err(EvalError::UndefinedVariable("undefined_name".to_string())));
}

#[test]
fn get_after_set_and_record_fields() {
    let mut env = Environment::default();
    env.set("x", num(4));
    assert_eq!(env.get("x"), Some(num(4)));
    env.set("r", Value::Null);
    let result = run("BEGIN r.a := 1; r.b := r.a + 1; END;", &mut env);
    assert_eq!(result, Ok(num(2)));
    assert_eq!(env.get("r.b"), Some(num(2)));
    assert_eq!(env.get("r.missing"), Some(Value::Null));
}

#[test]
fn record_typed_variable_refuses_field_assignment_on_number() {
    let mut env = Environment::default();
    let result = run("DECLARE n NUMBER := 1; BEGIN n.a := 2; END;", &mut env);
    assert_eq!(
        result,
        Err(EvalError::TypeError("variable `n` expects RECORD, got NUMBER".to_string()))
    );
}

#[test]
fn functions_and_procedures() {
    let mut env = Environment::default();
    let result = run(
        "DECLARE FUNCTION add(a NUMBER, b NUMBER) RETURN NUMBER IS BEGIN RETURN a + b; END; BEGIN add(1, 2) * 10; END;",
        &mut env,
    );
    assert_eq!(result, Ok(num(30)));
    let result = run("BEGIN add(1); END;", &mut env);
    assert_eq!(
        result,
        Err(EvalError::RoutineArgumentCountMismatch { routine: "add".to_string(), expected: 2, found: 1 })
    );
    let result = run("BEGIN missing(1); END;", &mut env);
    assert_eq!(result, Err(EvalError::RoutineNotDeclared("missing".to_string())));
    let result = run(
        "DECLARE FUNCTION add(a NUMBER) RETURN NUMBER IS BEGIN RETURN a; END; BEGIN 1; END;",
        &mut env,
    );
    assert_eq!(result, Err(EvalError::RoutineAlreadyDeclared("add".to_string())));
    let result = run(
        "DECLARE PROCEDURE p IS BEGIN 1; END; BEGIN p() + 1; END;",
        &mut env,
    );
    assert_eq!(
        result,
        Err(EvalError::TypeError(
            "routine `p` is a procedure and cannot be used in an expression".to_string()
        ))
    );
    let result = run(
        "DECLARE FUNCTION f RETURN NUMBER IS BEGIN RETURN 'x'; END; BEGIN f(); END;",
        &mut env,
    );
    assert_eq!(
        result,
        Err(EvalError::TypeError("routine `f` expects NUMBER, got TEXT".to_string()))
    );
    let result = run(
        "DECLARE FUNCTION g(a WHATEVER) RETURN NUMBER IS BEGIN RETURN 1; END; BEGIN 1; END;",
        &mut env,
    );
    assert_eq!(
        result,
        Err(EvalError::TypeError(
            "unknown type `WHATEVER` for parameter `a` in routine `g`".to_string()
        ))
    );
}

#[test]
fn control_flow_errors() {
    let mut env = Environment::default();
    assert_eq!(run("BEGIN EXIT; END;", &mut env), Err(EvalError::ExitOutsideLoop));
    assert_eq!(run("BEGIN RETURN 1; END;", &mut env), Err(EvalError::ReturnOutsideRoutine));
    assert_eq!(
        run("DECLARE e EXCEPTION; BEGIN RAISE e; END;", &mut env),
        Err(EvalError::UnhandledException("e".to_string()))
    );
    assert_eq!(
        run("BEGIN IF 1 THEN 2; END IF; END;", &mut env),
        Err(EvalError::TypeError("IF condition must be BOOLEAN, got NUMBER".to_string()))
    );
    assert_eq!(
        run("BEGIN FOR i IN 'a'..2 LOOP 1; END LOOP; END;", &mut env),
        Err(EvalError::TypeError("FOR bounds must be NUMBER, got TEXT".to_string()))
    );
    assert_eq!(
        run("DECLARE e EXCEPTION; BEGIN RAISE e; EXCEPTION WHEN OTHERS THEN 5; END;", &mut env),
        Ok(num(5))
    );
}

#[test]
fn exit_keeps_last_loop_value_and_empty_range_gives_null() {
    let mut env = Environment::default();
    assert_eq!(run("DECLARE x NUMBER := 0; BEGIN LOOP x := x + 2; EXIT; END LOOP; END;", &mut env), Ok(num(2)));
    assert_eq!(run("BEGIN FOR i IN 3..1 LOOP 1; END LOOP; END;", &mut env), Ok(Value::Null));
}

#[test]
fn select_into_errors() {
    let mut env = Environment::default();
    seed(&mut env);
    assert_eq!(
        run("BEGIN SELECT salary INTO s FROM employees WHERE id = 9; END;", &mut env),
        Err(EvalError::NoDataFound)
    );
    assert_eq!(
        run("BEGIN SELECT salary INTO s FROM employees; END;", &mut env),
        Err(EvalError::TooManyRows)
    );
    assert_eq!(
        run("BEGIN SELECT id, salary INTO s FROM employees WHERE id = 1; END;", &mut env),
        Err(EvalError::ColumnCountMismatch { expected: 1, found: 2 })
    );
    assert_eq!(
        run("BEGIN SELECT id INTO s FROM nowhere; END;", &mut env),
        Err(EvalError::TableNotFound("nowhere".to_string()))
    );
}

#[test]
fn joins_keep_unmatched_rows_by_kind() {
    let mut env = Environment::default();
    seed(&mut env);
    let count = |kind: &str, env: &mut Environment| {
        let src = format!(
            "DECLARE CURSOR c IS SELECT e.name, d.department FROM employees e {} departments d ON e.id = d.employee_id; n NUMBER := 0; BEGIN FOR a, b IN c LOOP n := n + 1; END LOOP; n; END;",
            kind
        );
        run(&src, env)
    };
    assert_eq!(count("JOIN", &mut env), Ok(num(1)));
    assert_eq!(count("LEFT JOIN", &mut env), Ok(num(2)));
    assert_eq!(count("RIGHT JOIN", &mut env), Ok(num(2)));
    assert_eq!(count("OUTER JOIN", &mut env), Ok(num(3)));
}

#[test]
fn join_errors() {
    let mut env = Environment::default();
    seed(&mut env);
    env.database_mut().create_table("other".to_string(), vec!["id".to_string()]);
    env.database_mut().insert_row("other", vec![num(1)]).expect("insert");
    assert_eq!(
        run("BEGIN SELECT id INTO x FROM employees JOIN other ON 1 = 1 WHERE name = 'Alice'; END;", &mut env),
        Err(EvalError::AmbiguousColumn("id".to_string()))
    );
    assert_eq!(
        run("BEGIN SELECT name INTO x FROM employees e JOIN other e ON TRUE; END;", &mut env),
        Err(EvalError::QueryQualifierAlreadyDeclared("e".to_string()))
    );
}

#[test]
fn cursor_errors_and_exhaustion() {
    let mut env = Environment::default();
    seed(&mut env);
    assert_eq!(run("BEGIN OPEN c; END;", &mut env), Err(EvalError::CursorNotDeclared("c".to_string())));
    assert_eq!(
        run("DECLARE CURSOR c IS SELECT id FROM employees; BEGIN CLOSE c; END;", &mut env),
        Err(EvalError::CursorNotOpen("c".to_string()))
    );
    assert_eq!(
        run("DECLARE CURSOR c IS SELECT id FROM employees; BEGIN OPEN c; OPEN c; END;", &mut env),
        Err(EvalError::CursorAlreadyOpen("c".to_string()))
    );
    assert_eq!(
        run(
            "DECLARE CURSOR c IS SELECT id FROM employees; CURSOR c IS SELECT id FROM employees; BEGIN 1; END;",
            &mut env
        ),
        Err(EvalError::CursorAlreadyDeclared("c".to_string()))
    );
    env.set("last_id", num(7));
    let result = run(
        "DECLARE CURSOR c IS SELECT id FROM employees; BEGIN OPEN c; FETCH c INTO last_id; FETCH c INTO last_id; FETCH c INTO last_id; END;",
        &mut env,
    );
    assert_eq!(result, Ok(num(0)));
    assert_eq!(env.get("last_id"), Some(Value::Null));
}

#[test]
fn triggers_refuse_duplicates_and_after_failure_restores_table() {
    let mut env = Environment::default();
    seed(&mut env);
    assert_eq!(
        run(
            "DECLARE TRIGGER t BEFORE INSERT ON employees BEGIN 1; END; TRIGGER t AFTER DELETE ON employees BEGIN 1; END; BEGIN 1; END;",
            &mut env
        ),
        Err(EvalError::TriggerAlreadyDeclared("t".to_string()))
    );
    let result = run(
        "DECLARE TRIGGER boom AFTER INSERT ON employees BEGIN x := 1 / 0; END; BEGIN INSERT INTO employees VALUES (5, 'Eve', 1); END;",
        &mut env,
    );
    assert_eq!(result, Err(EvalError::DivisionByZero));
    let table = env.database().table("employees").expect("table");
    assert_eq!(table.rows().len(), 2);
}

#[test]
fn insert_errors() {
    let mut env = Environment::default();
    seed(&mut env);
    assert_eq!(
        run("BEGIN INSERT INTO employees (id, name) VALUES (1); END;", &mut env),
        Err(EvalError::ColumnCountMismatch { expected: 2, found: 1 })
    );
    assert_eq!(
        run("BEGIN INSERT INTO employees (id, age) VALUES (1, 2); END;", &mut env),
        Err(EvalError::ColumnNotFound { table: "employees".to_string(), column: "age".to_string() })
    );
    assert_eq!(
        run("BEGIN UPDATE employees SET age = 1; END;", &mut env),
        Err(EvalError::ColumnNotFound { table: "employees".to_string(), column: "age".to_string() })
    );
    assert_eq!(run("BEGIN DROP TABLE nowhere; END;", &mut env), Err(EvalError::TableNotFound("nowhere".to_string())));
    assert_eq!(
        run("BEGIN UPDATE employees SET salary = 0 WHERE 1; END;", &mut env),
        Err(EvalError::TypeError("WHERE clause must be BOOLEAN, got NUMBER".to_string()))
    );
}

#[test]
fn update_and_delete_count_rows() {
    let mut env = Environment::default();
    seed(&mut env);
    assert_eq!(run("BEGIN UPDATE employees SET salary = salary * 2; END;", &mut env), Ok(num(2)));
    assert_eq!(run("BEGIN DELETE FROM employees WHERE salary > 1000; END;", &mut env), Ok(num(0)));
    assert_eq!(run("BEGIN DELETE FROM employees; END;", &mut env), Ok(num(2)));
}

#[test]
fn constraint_errors() {
    let mut env = Environment::default();
    seed(&mut env);
    assert_eq!(run("BEGIN ALTER TABLE employees ADD CONSTRAINT c (salary); END;", &mut env), Ok(num(1)));
    assert_eq!(
        run("BEGIN ALTER TABLE employees ADD CONSTRAINT c (salary); END;", &mut env),
        Err(EvalError::ConstraintAlreadyExists { table: "employees".to_string(), constraint: "c".to_string() })
    );
    assert_eq!(
        run("BEGIN ALTER TABLE employees ADD CONSTRAINT d (age); END;", &mut env),
        Err(EvalError::ColumnNotFound { table: "employees".to_string(), column: "age".to_string() })
    );
}

#[test]
fn sysdate_follows_declared_type() {
    let mut env = Environment::default();
    let d = run("DECLARE x DATE := SYSDATE; BEGIN x; END;", &mut env).expect("date");
    match d {
        Value::Date(date) => assert!((1..=12).contains(&date.month)),
        other => panic!("expected a date, got {:?}", other),
    }
    let t = run("DECLARE x TIMESTAMP := SYSDATE; BEGIN x; END;", &mut env).expect("timestamp");
    assert!(matches!(t, Value::Timestamp(ts) if ts.hour < 24));
    let dt = run("DECLARE x DATETIME := SYSDATE; BEGIN x; END;", &mut env).expect("datetime");
    assert!(matches!(dt, Value::DateTime(v) if v.offset_seconds == 0));
    assert!(matches!(eval_text("SYSDATE"), Ok(Value::Date(_))));
}

#[test]
fn collect_values_gives_one_value_per_statement() {
    let mut env = Environment::default();
    let block = parse_block("DECLARE x NUMBER := 1; BEGIN x := x + 1; COMMIT; x * 10; END;").expect("parse");
    let values = execute_block_collect_values(&block, &mut env).expect("run");
    assert_eq!(values, vec![num(2), Value::Null, num(20)]);
}

#[test]
fn database_errors_map_to_runtime_errors() {
    assert_eq!(
        map_db_error(DbError::TableNotFound("t".to_string())),
        EvalError::TableNotFound("t".to_string())
    );
    assert_eq!(
        map_db_error(DbError::ColumnNotFound { table: "t".to_string(), column: "c".to_string() }),
        EvalError::ColumnNotFound { table: "t".to_string(), column: "c".to_string() }
    );
    assert_eq!(
        map_db_error(DbError::ColumnCountMismatch { expected: 1, found: 2 }),
        EvalError::ColumnCountMismatch { expected: 1, found: 2 }
    );
    assert_eq!(
        map_db_error(DbError::ConstraintAlreadyExists { table: "t".to_string(), constraint: "k".to_string() }),
        EvalError::ConstraintAlreadyExists { table: "t".to_string(), constraint: "k".to_string() }
    );
}

#[test]
fn rollback_restores_committed_tables_and_commit_keeps_them() {
    let mut env = Environment::default();
    seed(&mut env);
    assert_eq!(run("BEGIN DELETE FROM employees; ROLLBACK; END;", &mut env), Ok(num(2)));
    assert_eq!(env.database().table("employees").expect("table").rows().len(), 2);
    assert_eq!(run("BEGIN DELETE FROM employees WHERE id = 1; COMMIT; ROLLBACK; END;", &mut env), Ok(num(1)));
    assert_eq!(env.database().table("employees").expect("table").rows().len(), 1);
}

#[test]
fn combine_join_orders_pairs_then_unmatched_rows() {
    let left = vec![vec![Some(0)], vec![Some(1)]];
    let hits = vec![vec![false, true], vec![false, false]];
    assert_eq!(
        combine_join(&left, 1, 2, JoinKind::Inner, &hits),
        vec![vec![Some(0), Some(1)]]
    );
    assert_eq!(
        combine_join(&left, 1, 2, JoinKind::Left, &hits),
        vec![vec![Some(0), Some(1)], vec![Some(1), None]]
    );
    assert_eq!(
        combine_join(&left, 1, 2, JoinKind::Right, &hits),
        vec![vec![Some(0), Some(1)], vec![None, Some(0)]]
    );
    assert_eq!(
        combine_join(&left, 1, 2, JoinKind::Outer, &hits),
        vec![vec![Some(0), Some(1)], vec![Some(1), None], vec![None, Some(0)]]
    );
}

#[test]
fn update_reports_missing_table_and_first_unknown_column() {
    let mut env = Environment::default();
    seed(&mut env);
    assert_eq!(
        run("BEGIN UPDATE nowhere SET a = 1; END;", &mut env),
        Err(EvalError::TableNotFound("nowhere".to_string()))
    );
    assert_eq!(
        run("BEGIN UPDATE employees SET salary = 1, bonus = 2, perk = 3; END;", &mut env),
        Err(EvalError::ColumnNotFound {
            table: "employees".to_string(),
            column: "bonus".to_string()
        })
    );
    assert_eq!(
        run("BEGIN DELETE FROM nowhere; END;", &mut env),
        Err(EvalError::TableNotFound("nowhere".to_string()))
    );
}

#[test]
fn select_without_into_in_a_block_is_refused() {
    assert_eq!(
        parse_block("BEGIN SELECT id FROM employees; END;"),
        Err(ParseError::Syntax("expected `INTO`".to_string()))
    );
}

#[test]
fn insert_without_triggers_appends_one_row() {
    let mut env = Environment::default();
    seed(&mut env);
    assert_eq!(
        run("BEGIN INSERT INTO employees VALUES (3, 'Carol', 300); END;", &mut env),
        Ok(num(1))
    );
    let table = env.database().table("employees").expect("table");
    assert_eq!(table.rows().len(), 3);
    assert_eq!(table.rows()[2].get("name"), Some(&text("Carol")));
}

#[test]
fn loop_left_by_a_plain_exit_gives_null() {
    let mut env = Environment::default();
    assert_eq!(run("BEGIN LOOP EXIT; END LOOP; END;", &mut env), Ok(Value::Null));
}

#[test]
fn empty_range_and_false_condition_skip_the_body() {
    let mut env = Environment::default();
    assert_eq!(
        run("BEGIN FOR i IN 3..1 LOOP RAISE boom; END LOOP; END;", &mut env),
        Ok(Value::Null)
    );
    assert_eq!(
        run("BEGIN WHILE FALSE LOOP RAISE boom; END LOOP; END;", &mut env),
        Ok(Value::Null)
    );
}

#[test]
fn for_bound_that_is_no_number_is_a_type_error() {
    let mut env = Environment::default();
    assert_eq!(
        run("BEGIN FOR i IN 'a'..2 LOOP EXIT; END LOOP; END;", &mut env),
        Err(EvalError::TypeError("FOR bounds must be NUMBER, got TEXT".to_string()))
    );
}

#[test]
fn unhandled_first_raise_is_an_error() {
    let mut env = Environment::default();
    assert_eq!(
        run("BEGIN RAISE boom; END;", &mut env),
        Err(EvalError::UnhandledException("boom".to_string()))
    );
    assert_eq!(
        run("BEGIN RAISE boom; EXCEPTION WHEN OTHERS THEN END;", &mut env),
        Ok(Value::Null)
    );
}

#[test]
fn procedure_in_an_expression_is_refused() {
    let mut env = Environment::default();
    assert_eq!(
        run("DECLARE x NUMBER; PROCEDURE p IS BEGIN END; BEGIN x := p(); END;", &mut env),
        Err(EvalError::TypeError(
            "routine `p` is a procedure and cannot be used in an expression".to_string()
        ))
    );
}

#[test]
fn variables_without_initial_value_read_null() {
    let mut env = Environment::default();
    assert_eq!(run("DECLARE a NUMBER; b NUMBER; BEGIN b; END;", &mut env), Ok(Value::Null));
    assert_eq!(
        run("DECLARE a NUMBER; b NOPE; BEGIN a; END;", &mut env),
        Err(EvalError::TypeError("unknown type `NOPE` for variable `b`".to_string()))
    );
}

#[test]
fn empty_text_is_neither_expression_nor_block() {
    assert_eq!(
        parse_expression(""),
        Err(ParseError::Syntax("expected an expression".to_string()))
    );
    assert_eq!(parse_block(""), Err(ParseError::Syntax("expected `BEGIN`".to_string())));
}

#[test]
fn select_into_skips_a_refused_target_and_assigns_the_rest() {
    let mut env = Environment::default();
    seed(&mut env);
    assert_eq!(
        run(
            "DECLARE a NUMBER; b NUMBER; BEGIN SELECT name, salary INTO a, b FROM employees WHERE id = 1; b; END;",
            &mut env
        ),
        Ok(num(100))
    );
}
