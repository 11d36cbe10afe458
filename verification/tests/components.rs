use rslogo::{
    execute_command, parse_boolean, Canvas, Command, InterpError, Num, ProcTable, QueriesStruct,
    Scope, Value,
};
use rslogo::text::{preprocess, split_tokens};
use rslogo::utils::extract_commands;
use rslogo::value::{value_add, value_div, value_eq, value_mul, value_sub};

#[test]
fn preprocess_trims_and_filters() {
    let lines = preprocess("  PENUP  \r\n\n// a comment\n  // also a comment\nFORWARD \"1\n");
    let texts: Vec<&str> = lines.iter().map(|s| s.as_str()).collect();
    assert_eq!(texts, vec!["PENUP", "FORWARD \"1"]);
}

#[test]
fn tokens_split_on_blanks() {
    let toks = split_tokens("FORWARD  + \"1\t\"2");
    let texts: Vec<&str> = toks.iter().map(|s| s.as_str()).collect();
    assert_eq!(texts, vec!["FORWARD", "+", "\"1", "\"2"]);
}

#[test]
fn flat_script_gives_one_command_per_line() {
    let lines = vec!["PENUP", "PENDOWN", "FORWARD \"1", "SETX \"2"];
    let mut table = ProcTable::new();
    let (cmds, end) = extract_commands(&lines, 0, &mut table).unwrap();
    assert_eq!(cmds.len(), 4);
    assert_eq!(end, 4);
}

#[test]
fn parse_boolean_reads_bare_words() {
    assert_eq!(parse_boolean("TRUE"), Ok(true));
    assert_eq!(parse_boolean("FALSE"), Ok(false));
    assert!(parse_boolean("\"TRUE").is_err());
    assert!(parse_boolean("yes").is_err());
}

#[test]
fn fixed_point_arithmetic_is_exact() {
    let n = |i: i32| Value::Number(Num::from_int(i));
    assert_eq!(value_add(n(2), n(3)), Ok(n(5)));
    assert_eq!(value_sub(n(2), n(3)), Ok(n(-1)));
    assert_eq!(value_mul(n(6), n(7)), Ok(n(42)));
    assert_eq!(value_div(n(7), n(2)), Ok(Value::Number(Num { micro: 3_500_000 })));
    // One third truncates toward zero at the sixth decimal.
    assert_eq!(value_div(n(1), n(3)), Ok(Value::Number(Num { micro: 333_333 })));
    assert_eq!(value_div(n(-1), n(3)), Ok(Value::Number(Num { micro: -333_333 })));
    assert_eq!(value_eq(n(3), n(3)), Ok(Value::Boolean(true)));
    assert_eq!(
        value_add(n(1), Value::Boolean(true)),
        Err(InterpError::TypeMismatch)
    );
}

#[test]
fn fractional_literals_parse_to_millionths() {
    let (globals, _q, _c) = rslogo::run_program(
        "MAKE \"A \"1.5\nMAKE \"B \"-0.25\nMAKE \"C \".5\nMAKE \"D \"2.\nMAKE \"E \"0.1234567",
        100,
        100,
        1000,
    )
    .unwrap();
    assert_eq!(globals.get("A"), Some(Value::Number(Num { micro: 1_500_000 })));
    assert_eq!(globals.get("B"), Some(Value::Number(Num { micro: -250_000 })));
    assert_eq!(globals.get("C"), Some(Value::Number(Num { micro: 500_000 })));
    assert_eq!(globals.get("D"), Some(Value::Number(Num { micro: 2_000_000 })));
    // Digits beyond the sixth are read but do not contribute.
    assert_eq!(globals.get("E"), Some(Value::Number(Num { micro: 123_456 })));
}

#[test]
fn rounding_to_coordinates_is_half_away_from_zero() {
    let (_g, q, _c) = rslogo::run_program("SETX \"2.5\nSETY \"-2.5", 100, 100, 1000).unwrap();
    assert_eq!(q.xcor, 3);
    assert_eq!(q.ycor, -3);
}

#[test]
fn boolean_literals_and_logic() {
    let script = "MAKE \"T \"TRUE\nIF AND :T OR \"FALSE \"TRUE [\nSETX \"9\n]";
    let (_g, q, _c) = rslogo::run_program(script, 100, 100, 1000).unwrap();
    assert_eq!(q.xcor, 9);
}

#[test]
fn comparisons_follow_operand_order() {
    // GT and LT take the first-popped (leftmost) operand as the left side.
    let script = "IF GT \"3 \"2 [\nSETX \"1\n]\nIF LT \"2 \"3 [\nSETY \"1\n]";
    let (_g, q, _c) = rslogo::run_program(script, 100, 100, 1000).unwrap();
    assert_eq!((q.xcor, q.ycor), (1, 1));
}

#[test]
fn procedure_not_found_at_run_time() {
    // A hand-built call to an unregistered name fails when executed.
    let cmd = Command::Procedure("NOPE".to_string(), Vec::new());
    let mut globals = Scope::new();
    let mut frame = Scope::new();
    let table = ProcTable::new();
    let mut queries = QueriesStruct::new(10, 10);
    let mut canvas = Canvas::new(10, 10);
    let r = execute_command(
        &cmd,
        &mut globals,
        &table,
        false,
        &mut frame,
        &mut queries,
        &mut canvas,
        100,
    );
    assert_eq!(r, Err(InterpError::ProcedureNotFound));
}

#[test]
fn scope_set_and_get_round_trip() {
    let mut s = Scope::new();
    assert_eq!(s.get("X"), None);
    s.set("X", Value::Number(Num::from_int(1)));
    s.set("Y", Value::Boolean(true));
    s.set("X", Value::Number(Num::from_int(7)));
    assert_eq!(s.get("X"), Some(Value::Number(Num::from_int(7))));
    assert_eq!(s.get("Y"), Some(Value::Boolean(true)));
    assert_eq!(s.get("Z"), None);
}

#[test]
fn checked_arithmetic_reports_overflow() {
    let big = Num { micro: i64::MAX };
    assert_eq!(big.checked_add(Num::from_int(1)), None);
    assert_eq!(big.checked_mul(Num::from_int(2)), None);
    assert_eq!(Num::from_int(5).checked_add(Num::from_int(7)), Some(Num::from_int(12)));
}

#[test]
fn error_messages_match_their_variants() {
    assert_eq!(
        InterpError::InvalidCommand.message(),
        "Invalid command or wrong number of arguments"
    );
    assert_eq!(InterpError::ProcedureNotFound.message(), "Procedure not found");
    assert_eq!(
        InterpError::LeftoverOperands.message(),
        "There are still some values in the stack"
    );
    assert_eq!(
        InterpError::ParamCountMismatch.message(),
        "Number of parameters does not match"
    );
}
