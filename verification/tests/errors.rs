use rslogo::{run_program, InterpError};

const FUEL: u64 = 1_000_000;

fn expect_err(script: &str) -> InterpError {
    match run_program(script, 200, 200, FUEL) {
        Ok(_) => panic!("expected an error"),
        Err(e) => e,
    }
}

#[test]
fn unknown_command_is_invalid() {
    assert_eq!(expect_err("BLAH"), InterpError::InvalidCommand);
}

#[test]
fn penup_takes_no_operand() {
    assert_eq!(expect_err("PENUP \"1"), InterpError::InvalidCommand);
}

#[test]
fn bad_quoted_literal() {
    assert_eq!(expect_err("FORWARD \"XYZ"), InterpError::BadLiteral);
}

#[test]
fn exponent_literals_are_rejected() {
    assert_eq!(expect_err("FORWARD \"1e5"), InterpError::BadLiteral);
}

#[test]
fn bare_unknown_token() {
    assert_eq!(expect_err("FORWARD FOO"), InterpError::UnexpectedValue);
}

#[test]
fn operator_without_operands() {
    assert_eq!(expect_err("FORWARD -"), InterpError::MissingOperand);
}

#[test]
fn two_leftover_operands() {
    assert_eq!(expect_err("FORWARD \"1 \"2"), InterpError::LeftoverOperands);
}

#[test]
fn if_line_must_end_with_bracket() {
    let e = expect_err("IF EQ \"1 \"1\nSETX \"5\n]");
    assert_eq!(e, InterpError::IfBlockStart);
    assert_eq!(e.message(), "IF expression does not start with [");
}

#[test]
fn while_line_must_end_with_bracket() {
    assert_eq!(expect_err("WHILE EQ \"1 \"1\n]"), InterpError::WhileBlockStart);
}

#[test]
fn unclosed_block_is_reported() {
    assert_eq!(expect_err("IF EQ \"1 \"1 [\nSETX \"5"), InterpError::MissingClosingBracket);
}

#[test]
fn unclosed_procedure_is_reported() {
    assert_eq!(expect_err("TO P\nSETX \"5"), InterpError::MissingEnd);
}

#[test]
fn stray_closer_is_reported() {
    assert_eq!(expect_err("]"), InterpError::UnexpectedClose);
    assert_eq!(expect_err("END"), InterpError::UnexpectedClose);
}

#[test]
fn to_needs_a_name() {
    assert_eq!(expect_err("TO\nEND"), InterpError::ToArity);
}

#[test]
fn procedure_arity_is_checked() {
    assert_eq!(expect_err("TO P \"A\nEND\nP \"1 \"2"), InterpError::ParamCountMismatch);
}

#[test]
fn undefined_variable_read() {
    let e = expect_err("FORWARD :NOPE");
    assert_eq!(e, InterpError::UndefinedVariable);
    assert_eq!(e.message(), "BASE operation: Key error");
}

#[test]
fn boolean_where_number_expected() {
    assert_eq!(expect_err("FORWARD \"TRUE"), InterpError::TypeMismatch);
}

#[test]
fn number_where_boolean_expected() {
    assert_eq!(expect_err("IF \"1 [\n]"), InterpError::TypeMismatch);
}

#[test]
fn and_requires_booleans() {
    assert_eq!(expect_err("IF AND \"1 \"2 [\n]"), InterpError::TypeMismatch);
}

#[test]
fn comparing_boolean_to_number_is_an_error() {
    assert_eq!(expect_err("IF EQ \"TRUE \"1 [\n]"), InterpError::TypeMismatch);
}

#[test]
fn fractional_turn_is_rejected() {
    assert_eq!(expect_err("TURN \"1.5"), InterpError::NotWhole);
}

#[test]
fn color_must_be_in_palette() {
    assert_eq!(expect_err("SETPENCOLOR \"16"), InterpError::BadColor);
    assert_eq!(expect_err("SETPENCOLOR \"-1"), InterpError::BadColor);
}

#[test]
fn coordinate_overflow_is_reported() {
    assert_eq!(expect_err("SETX \"99999999999"), InterpError::Overflow);
}

#[test]
fn make_requires_quoted_name() {
    assert_eq!(expect_err("MAKE X \"1"), InterpError::InvalidCommand);
}

#[test]
fn call_before_definition_is_invalid() {
    // The table grows at parse time, so a use before its TO fails.
    assert_eq!(expect_err("P \"1\nTO P \"A\nEND"), InterpError::InvalidCommand);
}

#[test]
fn coordinate_range_bounds_moves() {
    // The distance itself is out of the surface's coordinate range.
    assert_eq!(expect_err("FORWARD \"9999999999"), InterpError::Overflow);
}

#[test]
fn out_of_range_endpoint_draws_nothing() {
    // The endpoint would leave the surface's coordinate range, so the
    // move fails and no segment is recorded.
    let script =
        "SETHEADING \"90\nSETX \"536000000\nPENDOWN\nFORWARD \"10000000\nSETY \"1";
    match run_program(script, 200, 200, FUEL) {
        Ok(_) => panic!("expected an error"),
        Err(e) => assert_eq!(e, InterpError::Overflow),
    }
}
