use rslogo::{run_program, InterpError, Num, Value};

const FUEL: u64 = 1_000_000;

fn expect_err(script: &str) -> InterpError {
    match run_program(script, 200, 200, FUEL) {
        Ok(_) => panic!("expected an error"),
        Err(e) => e,
    }
}

#[test]
fn pen_up_moves_do_not_draw() {
    let script = "FORWARD \"100";
    let (_globals, queries, canvas) = run_program(script, 200, 200, FUEL).unwrap();
    assert_eq!(canvas.segments.len(), 0);
    let (ex, ey) = unsvg::get_end_coordinates(100, 100, 0, 100);
    assert_eq!((queries.xcor, queries.ycor), (ex, ey));
    assert_eq!((queries.xcor, queries.ycor), (100, 0));
    assert!(!queries.is_pen_down);
}

#[test]
fn pen_down_draws_and_tracks_position() {
    let script = "PENDOWN\nFORWARD \"50";
    let (_globals, queries, canvas) = run_program(script, 200, 200, FUEL).unwrap();
    assert_eq!(canvas.segments.len(), 1);
    let seg = canvas.segments[0];
    assert_eq!((seg.x, seg.y), (100, 100));
    assert_eq!(seg.direction, 0);
    assert_eq!(seg.length, 50);
    assert_eq!(seg.color, 7);
    assert_eq!((queries.xcor, queries.ycor), (100, 50));
}

#[test]
fn if_false_has_no_effect() {
    let script = "MAKE \"X \"1\nIF EQ :X \"2 [\nMAKE \"Y \"5\nFORWARD \"10\n]";
    let (globals, queries, canvas) = run_program(script, 200, 200, FUEL).unwrap();
    assert_eq!(globals.get("Y"), None);
    assert_eq!(globals.get("X"), Some(Value::Number(Num::from_int(1))));
    assert_eq!((queries.xcor, queries.ycor), (100, 100));
    assert_eq!(canvas.segments.len(), 0);
}

#[test]
fn if_true_runs_body() {
    let script = "MAKE \"X \"2\nIF EQ :X \"2 [\nMAKE \"Y \"5\n]";
    let (globals, _queries, _canvas) = run_program(script, 200, 200, FUEL).unwrap();
    assert_eq!(globals.get("Y"), Some(Value::Number(Num::from_int(5))));
}

#[test]
fn while_false_runs_zero_iterations() {
    let script = "PENDOWN\nWHILE EQ \"1 \"2 [\nFORWARD \"10\n]";
    let (_globals, queries, canvas) = run_program(script, 200, 200, FUEL).unwrap();
    assert_eq!(canvas.segments.len(), 0);
    assert_eq!((queries.xcor, queries.ycor), (100, 100));
}

#[test]
fn counter_loop_runs_exactly_three_times() {
    // The counter goes 0, 1, 2, 3; the loop draws once per iteration.
    let script = "PENDOWN\nMAKE \"X \"0\nWHILE LT :X \"3 [\nFORWARD \"10\nMAKE \"X + :X \"1\n]";
    let (globals, queries, canvas) = run_program(script, 200, 200, FUEL).unwrap();
    assert_eq!(canvas.segments.len(), 3);
    for seg in &canvas.segments {
        assert_eq!(seg.length, 10);
    }
    assert_eq!(globals.get("X"), Some(Value::Number(Num::from_int(3))));
    assert_eq!((queries.xcor, queries.ycor), (100, 70));
}

#[test]
fn subtraction_pops_left_operand_first() {
    // The scan runs right to left, so the first operand popped — the
    // leftmost written — is the left side of the subtraction: 4 - 2.
    let script = "MAKE \"D - \"4 \"2\nSETX - \"4 \"2";
    let (globals, queries, _canvas) = run_program(script, 200, 200, FUEL).unwrap();
    assert_eq!(globals.get("D"), Some(Value::Number(Num::from_int(2))));
    assert_eq!(queries.xcor, 2);
}

#[test]
fn procedure_locals_are_invisible_to_caller() {
    let script = "MAKE \"B \"9\nTO P \"A\nMAKE \"B :A\nEND\nP \"5";
    let (globals, _queries, _canvas) = run_program(script, 200, 200, FUEL).unwrap();
    // The callee's MAKE wrote its own frame; the global B is untouched.
    assert_eq!(globals.get("B"), Some(Value::Number(Num::from_int(9))));
    assert_eq!(globals.get("A"), None);
}

#[test]
fn addassign_targets_globals_only() {
    // C exists only as the callee's formal parameter, so ADDASSIGN fails.
    let script = "TO Q \"C\nADDASSIGN \"C \"1\nEND\nQ \"3";
    let err = expect_err(script);
    assert_eq!(err, InterpError::VariableNotDefined);
    assert_eq!(err.message(), "variable not defined");
}

#[test]
fn addassign_accumulates_in_globals() {
    let script = "MAKE \"C \"10\nTO Q \"D\nADDASSIGN \"C :D\nEND\nQ \"3\nADDASSIGN \"C \"1";
    let (globals, _queries, _canvas) = run_program(script, 200, 200, FUEL).unwrap();
    assert_eq!(globals.get("C"), Some(Value::Number(Num::from_int(14))));
}

#[test]
fn division_by_zero_fails() {
    let script = "MAKE \"X / \"1 \"0";
    let err = expect_err(script);
    assert_eq!(err, InterpError::DivideByZero);
    assert_eq!(err.message(), "divide by 0");
}

#[test]
fn division_by_zero_aborts_before_any_draw() {
    let script = "PENDOWN\nFORWARD / \"10 \"0";
    let err = expect_err(script);
    assert_eq!(err, InterpError::DivideByZero);
}

#[test]
fn recursive_procedure_draws_n_segments() {
    let script = "TO R \"N\nIF GT :N \"0 [\nFORWARD \"10\nMAKE \"M - :N \"1\nR :M\n]\nEND\nPENDOWN\nR \"3";
    let (_globals, _queries, canvas) = run_program(script, 200, 200, FUEL).unwrap();
    assert_eq!(canvas.segments.len(), 3);
}

#[test]
fn queries_read_live_turtle_state() {
    let script = "SETX \"10\nSETY \"20\nSETHEADING \"45\nSETPENCOLOR \"3\nMAKE \"A XCOR\nMAKE \"B YCOR\nMAKE \"C HEADING\nMAKE \"D COLOR";
    let (globals, _queries, _canvas) = run_program(script, 200, 200, FUEL).unwrap();
    assert_eq!(globals.get("A"), Some(Value::Number(Num::from_int(10))));
    assert_eq!(globals.get("B"), Some(Value::Number(Num::from_int(20))));
    assert_eq!(globals.get("C"), Some(Value::Number(Num::from_int(45))));
    assert_eq!(globals.get("D"), Some(Value::Number(Num::from_int(3))));
}

#[test]
fn heading_accumulates_without_wraparound() {
    let script = "TURN \"300\nTURN \"300\nTURN \"-45";
    let (_globals, queries, _canvas) = run_program(script, 200, 200, FUEL).unwrap();
    assert_eq!(queries.heading, 555);
}

#[test]
fn turning_changes_draw_direction() {
    let script = "PENDOWN\nTURN \"90\nFORWARD \"30";
    let (_globals, queries, canvas) = run_program(script, 200, 200, FUEL).unwrap();
    assert_eq!(canvas.segments.len(), 1);
    assert_eq!(canvas.segments[0].direction, 90);
    // Facing 90 degrees (right), a forward move increases x.
    assert_eq!((queries.xcor, queries.ycor), (130, 100));
}

#[test]
fn back_left_right_use_heading_offsets() {
    let script = "PENDOWN\nBACK \"10\nRIGHT \"10\nLEFT \"10";
    let (_globals, _queries, canvas) = run_program(script, 300, 300, FUEL).unwrap();
    assert_eq!(canvas.segments.len(), 3);
    assert_eq!(canvas.segments[0].direction, 180);
    assert_eq!(canvas.segments[1].direction, 90);
    assert_eq!(canvas.segments[2].direction, 270);
}

#[test]
fn comments_and_blank_lines_are_ignored() {
    let script = "// a comment line\n\n   \nPENDOWN\n// another\nFORWARD \"10";
    let (_globals, _queries, canvas) = run_program(script, 200, 200, FUEL).unwrap();
    assert_eq!(canvas.segments.len(), 1);
}

#[test]
fn out_of_fuel_is_reported() {
    let err = match run_program("PENUP", 200, 200, 0) {
        Ok(_) => panic!("expected an error"),
        Err(e) => e,
    };
    assert_eq!(err, InterpError::OutOfFuel);
}

#[test]
fn empty_script_runs() {
    let (_globals, queries, canvas) = run_program("", 64, 48, FUEL).unwrap();
    assert_eq!((queries.xcor, queries.ycor), (32, 24));
    assert_eq!(queries.heading, 0);
    assert_eq!(queries.color, 7);
    assert!(!queries.is_pen_down);
    assert_eq!(canvas.segments.len(), 0);
}

#[test]
fn procedure_redefinition_overwrites() {
    let script = "TO P\nSETX \"1\nEND\nTO P\nSETX \"2\nEND\nP";
    let (_globals, queries, _canvas) = run_program(script, 200, 200, FUEL).unwrap();
    assert_eq!(queries.xcor, 2);
}

#[test]
fn nested_blocks_parse_and_run() {
    let script = "MAKE \"X \"0\nWHILE LT :X \"2 [\nIF EQ :X \"1 [\nSETY \"5\n]\nMAKE \"X + :X \"1\n]";
    let (globals, queries, _canvas) = run_program(script, 200, 200, FUEL).unwrap();
    assert_eq!(globals.get("X"), Some(Value::Number(Num::from_int(2))));
    assert_eq!(queries.ycor, 5);
}
