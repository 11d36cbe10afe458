//! The execution engine: a tree-walking interpreter over commands,
//! threading the global scope, the active procedure frame, the procedure
//! table, the turtle state and the drawing surface.
//!
//! Every function here returns exactly what the functional model of
//! `semantics` returns: success, the final state, and each error are all
//! fixed by the model.
use crate::canvas::{Canvas, COORD_LIMIT};
use crate::commands::{cmds_view, lemma_cmds_view_len, CmdView, Command};
use crate::operations::OpView;
use crate::parser::parse_operation;
use crate::scope::{ProcTable, Scope};
use crate::semantics::{
    active_scope, bind_params, eval_args, eval_op, exec_block, exec_cmd, lemma_eval_args_prefix,
    move_offset, step_move, SState,
};
use crate::text::preprocess;
use crate::utils::{extract_commands, strs_view, Closer, QueriesStruct};
use crate::value::{InterpError, Value};
use vstd::prelude::*;

verus! {

/// The machine state the model sees, assembled from the engine's parts.
pub open spec fn pack_state(
    globals: Map<Seq<char>, Value>,
    locals: Map<Seq<char>, Value>,
    in_proc: bool,
    q: QueriesStruct,
    segments: Seq<crate::canvas::Segment>,
) -> SState {
    SState { globals, locals, in_proc, q, segments }
}

/// The engine agrees with the model: it succeeds exactly when the model
/// does, ends in the model's state on success, and reports the model's
/// error otherwise.
pub open spec fn run_matches(
    spec_r: Result<SState, InterpError>,
    r: Result<(), InterpError>,
    final_st: SState,
) -> bool {
    match spec_r {
        Ok(st2) => r == Ok::<(), InterpError>(()) && final_st == st2,
        Err(e) => r == Err::<(), InterpError>(e),
    }
}

/// The control commands, whose bodies may leave partial effects behind
/// when an error aborts them; every other command either completes or
/// changes nothing.
pub open spec fn compound_cmd(c: CmdView) -> bool {
    match c {
        CmdView::If(_, _) => true,
        CmdView::While(_, _) => true,
        CmdView::Procedure(_, _) => true,
        _ => false,
    }
}

/// The heading reduced to `[0, 360)`.
fn norm360(h: i32) -> (d: u32)
    ensures
        d == (h as int) % 360,
        d < 360,
{
    if h >= 0 {
        let r = (h as u32) % 360;
        assert(r == (h as int) % 360) by {
            assert((h as u32) as int == h as int);
        };
        r
    } else {
        let m = ((-(h as i64)) as u64) % 360;
        let d = ((360 - m) % 360) as u32;
        assert(d == (h as int) % 360) by {
            let hi = h as int;
            let mi = m as int;
            assert(mi == (-hi) % 360);
            vstd::arithmetic::div_mod::lemma_fundamental_div_mod(-hi, 360);
            let q = (-hi) / 360;
            assert(-hi == 360 * q + mi);
            if mi == 0 {
                assert(hi == (-q) * 360 + 0) by (nonlinear_arith)
                    requires
                        -hi == 360 * q + mi,
                        mi == 0,
                ;
                vstd::arithmetic::div_mod::lemma_fundamental_div_mod_converse_mod(hi, 360, -q, 0);
            } else {
                assert(hi == (-q - 1) * 360 + (360 - mi)) by (nonlinear_arith)
                    requires
                        -hi == 360 * q + mi,
                ;
                vstd::arithmetic::div_mod::lemma_fundamental_div_mod_converse_mod(
                    hi,
                    360,
                    -q - 1,
                    360 - mi,
                );
            }
        };
        d
    }
}

/// Moves the turtle by one evaluated distance: with the pen down the
/// surface draws and records the segment, with the pen up it only
/// projects; either way the turtle adopts the surface's endpoint.  An
/// error changes nothing.
fn move_turtle(
    off: u32,
    dist: Value,
    queries: &mut QueriesStruct,
    canvas: &mut Canvas,
    Ghost(c): Ghost<CmdView>,
    Ghost(st_g): Ghost<SState>,
) -> (r: Result<(), InterpError>)
    requires
        old(queries).wf(),
        move_offset(c) == off as int,
        off <= 270,
        st_g.q == *old(queries),
        st_g.segments == old(canvas)@,
    ensures
        final(queries).wf(),
        run_matches(
            step_move(c, dist, st_g),
            r,
            SState { q: *final(queries), segments: final(canvas)@, ..st_g },
        ),
        r is Err ==> *final(queries) == *old(queries) && final(canvas)@ == old(canvas)@,
{
    let n = match dist {
        Value::Number(n) => n,
        Value::Boolean(_) => {
            return Err(InterpError::TypeMismatch);
        },
    };
    let len = match n.round_to_i32() {
        Some(l) => l,
        None => {
            return Err(InterpError::Overflow);
        },
    };
    if len < -COORD_LIMIT || len > COORD_LIMIT {
        return Err(InterpError::Overflow);
    }
    let d = norm360(queries.heading) as i32 + (off as i32);
    // Ask the surface for the endpoint first, so that a move that would
    // leave the coordinate range fails before anything is drawn.
    let p = canvas.project_move(queries.xcor, queries.ycor, d, len);
    if p.0 < -COORD_LIMIT || p.0 > COORD_LIMIT || p.1 < -COORD_LIMIT || p.1 > COORD_LIMIT {
        return Err(InterpError::Overflow);
    }
    if queries.is_pen_down {
        let p2 = canvas.draw_move(queries.xcor, queries.ycor, d, len, queries.color);
        queries.xcor = p2.0;
        queries.ycor = p2.1;
    } else {
        queries.xcor = p.0;
        queries.ycor = p.1;
    }
    Ok(())
}

/// Executes one command against the engine state.  `fuel` bounds the
/// depth of nested blocks, procedure calls, and loop iterations.
#[verifier::rlimit(100)]
pub fn execute_command(
    command: &Command,
    variable_table: &mut Scope,
    dummy_procedures: &ProcTable,
    is_in_procedure: bool,
    procedure_args: &mut Scope,
    queries: &mut QueriesStruct,
    canvas: &mut Canvas,
    fuel: u64,
) -> (r: Result<(), InterpError>)
    requires
        old(variable_table).wf(),
        old(procedure_args).wf(),
        old(queries).wf(),
        dummy_procedures.wf(),
    ensures
        final(variable_table).wf(),
        final(procedure_args).wf(),
        final(queries).wf(),
        run_matches(
            exec_cmd(
                command@,
                dummy_procedures@,
                pack_state(
                    old(variable_table)@,
                    old(procedure_args)@,
                    is_in_procedure,
                    *old(queries),
                    old(canvas)@,
                ),
                fuel as nat,
            ),
            r,
            pack_state(
                final(variable_table)@,
                final(procedure_args)@,
                is_in_procedure,
                *final(queries),
                final(canvas)@,
            ),
        ),
        r is Err && !compound_cmd(command@) ==> final(variable_table)@ == old(variable_table)@
            && final(procedure_args)@ == old(procedure_args)@ && *final(queries) == *old(queries)
            && final(canvas)@ == old(canvas)@,
    decreases fuel, 0nat, 1nat,
{
    let ghost st0 = pack_state(
        old(variable_table)@,
        old(procedure_args)@,
        is_in_procedure,
        *old(queries),
        old(canvas)@,
    );
    if fuel == 0 {
        return Err(InterpError::OutOfFuel);
    }
    match command {
        Command::Penup => {
            queries.is_pen_down = false;
            Ok(())
        },
        Command::Pendown => {
            queries.is_pen_down = true;
            Ok(())
        },
        Command::Forward(op) => {
            let v = match eval_in_active(op, variable_table, is_in_procedure, procedure_args,
                queries) {
                Ok(v) => v,
                Err(e) => {
                    return Err(e);
                },
            };
            move_turtle(0, v, queries, canvas, Ghost(command@), Ghost(st0))
        },
        Command::Back(op) => {
            let v = match eval_in_active(op, variable_table, is_in_procedure, procedure_args,
                queries) {
                Ok(v) => v,
                Err(e) => {
                    return Err(e);
                },
            };
            move_turtle(180, v, queries, canvas, Ghost(command@), Ghost(st0))
        },
        Command::Right(op) => {
            let v = match eval_in_active(op, variable_table, is_in_procedure, procedure_args,
                queries) {
                Ok(v) => v,
                Err(e) => {
                    return Err(e);
                },
            };
            move_turtle(90, v, queries, canvas, Ghost(command@), Ghost(st0))
        },
        Command::Left(op) => {
            let v = match eval_in_active(op, variable_table, is_in_procedure, procedure_args,
                queries) {
                Ok(v) => v,
                Err(e) => {
                    return Err(e);
                },
            };
            move_turtle(270, v, queries, canvas, Ghost(command@), Ghost(st0))
        },
        Command::Setpencolor(op) => {
            execute_setter(Setter::PenColor, op, variable_table, dummy_procedures,
                is_in_procedure, procedure_args, queries, canvas, Ghost(command@))
        },
        Command::Turn(op) => {
            execute_setter(Setter::TurnBy, op, variable_table, dummy_procedures,
                is_in_procedure, procedure_args, queries, canvas, Ghost(command@))
        },
        Command::Setheading(op) => {
            execute_setter(Setter::Heading, op, variable_table, dummy_procedures,
                is_in_procedure, procedure_args, queries, canvas, Ghost(command@))
        },
        Command::Setx(op) => {
            execute_setter(Setter::X, op, variable_table, dummy_procedures, is_in_procedure,
                procedure_args, queries, canvas, Ghost(command@))
        },
        Command::Sety(op) => {
            execute_setter(Setter::Y, op, variable_table, dummy_procedures, is_in_procedure,
                procedure_args, queries, canvas, Ghost(command@))
        },
        Command::Make(name, op) => {
            execute_assign(false, name, op, variable_table, dummy_procedures, is_in_procedure,
                procedure_args, queries, canvas, Ghost(command@))
        },
        Command::Addassign(name, op) => {
            execute_assign(true, name, op, variable_table, dummy_procedures, is_in_procedure,
                procedure_args, queries, canvas, Ghost(command@))
        },
        Command::If(cond, body) => {
            let v = match eval_in_active(cond, variable_table, is_in_procedure, procedure_args,
                queries) {
                Ok(v) => v,
                Err(e) => {
                    return Err(e);
                },
            };
            match v {
                Value::Boolean(true) => execute_block(
                    body,
                    variable_table,
                    dummy_procedures,
                    is_in_procedure,
                    procedure_args,
                    queries,
                    canvas,
                    fuel - 1,
                ),
                Value::Boolean(false) => Ok(()),
                Value::Number(_) => Err(InterpError::TypeMismatch),
            }
        },
        Command::While(cond, body) => {
            proof {
                assert(command@ == CmdView::While(cond@, cmds_view(*body)));
            }
            execute_while(
                cond,
                body,
                variable_table,
                dummy_procedures,
                is_in_procedure,
                procedure_args,
                queries,
                canvas,
                fuel,
            )
        },
        Command::Procedure(name, arg_ops) => {
            proof {
                assert(command@ == CmdView::Procedure(name@, arg_ops.deep_view()));
            }
            execute_call(
                name,
                arg_ops,
                variable_table,
                dummy_procedures,
                is_in_procedure,
                procedure_args,
                queries,
                canvas,
                fuel,
            )
        },
    }
}


/// Runs one `WHILE` command: the condition is re-evaluated before every
/// iteration, and the body runs in the same frame each time.
#[verifier::rlimit(100)]
fn execute_while(
    cond: &crate::operations::Operation,
    body: &Vec<Command>,
    variable_table: &mut Scope,
    dummy_procedures: &ProcTable,
    is_in_procedure: bool,
    procedure_args: &mut Scope,
    queries: &mut QueriesStruct,
    canvas: &mut Canvas,
    fuel: u64,
) -> (r: Result<(), InterpError>)
    requires
        old(variable_table).wf(),
        old(procedure_args).wf(),
        old(queries).wf(),
        dummy_procedures.wf(),
        fuel >= 1,
    ensures
        final(variable_table).wf(),
        final(procedure_args).wf(),
        final(queries).wf(),
        run_matches(
            exec_cmd(
                CmdView::While(cond@, cmds_view(*body)),
                dummy_procedures@,
                pack_state(
                    old(variable_table)@,
                    old(procedure_args)@,
                    is_in_procedure,
                    *old(queries),
                    old(canvas)@,
                ),
                fuel as nat,
            ),
            r,
            pack_state(
                final(variable_table)@,
                final(procedure_args)@,
                is_in_procedure,
                *final(queries),
                final(canvas)@,
            ),
        ),
    decreases fuel, 0nat, 0nat,
{
    let ghost c = CmdView::While(cond@, cmds_view(*body));
    let ghost st0 = pack_state(
        old(variable_table)@,
        old(procedure_args)@,
        is_in_procedure,
        *old(queries),
        old(canvas)@,
    );
    let mut f = fuel;
    let mut done = false;
    let mut result: Result<(), InterpError> = Ok(());
    while !done
        invariant
            variable_table.wf(),
            procedure_args.wf(),
            queries.wf(),
            dummy_procedures.wf(),
            f <= fuel,
            c == CmdView::While(cond@, cmds_view(*body)),
            st0 == pack_state(
                old(variable_table)@,
                old(procedure_args)@,
                is_in_procedure,
                *old(queries),
                old(canvas)@,
            ),
            !done ==> f >= 1 && exec_cmd(c, dummy_procedures@, st0, fuel as nat) == exec_cmd(
                c,
                dummy_procedures@,
                pack_state(
                    variable_table@,
                    procedure_args@,
                    is_in_procedure,
                    *queries,
                    canvas@,
                ),
                f as nat,
            ),
            done ==> run_matches(
                exec_cmd(c, dummy_procedures@, st0, fuel as nat),
                result,
                pack_state(
                    variable_table@,
                    procedure_args@,
                    is_in_procedure,
                    *queries,
                    canvas@,
                ),
            ),
        decreases f, (if done {
            0int
        } else {
            1int
        }),
    {
        let ghost cur = pack_state(
            variable_table@,
            procedure_args@,
            is_in_procedure,
            *queries,
            canvas@,
        );
        let v = match eval_in_active(cond, variable_table, is_in_procedure, procedure_args,
            queries) {
            Ok(v) => v,
            Err(e) => {
                proof {
                    assert(exec_cmd(c, dummy_procedures@, cur, f as nat) == Err::<
                        SState,
                        InterpError,
                    >(e));
                }
                result = Err(e);
                done = true;
                continue;
            },
        };
        match v {
            Value::Boolean(false) => {
                proof {
                    assert(exec_cmd(c, dummy_procedures@, cur, f as nat) == Ok::<
                        SState,
                        InterpError,
                    >(cur));
                }
                result = Ok(());
                done = true;
            },
            Value::Number(n) => {
                proof {
                    assert(exec_cmd(c, dummy_procedures@, cur, f as nat) == Err::<
                        SState,
                        InterpError,
                    >(InterpError::TypeMismatch));
                }
                result = Err(InterpError::TypeMismatch);
                done = true;
            },
            Value::Boolean(true) => {
                if f == 1 {
                    // The body and the next test would need fuel that is
                    // no longer there: at budget zero the model stops
                    // with this same error whatever the body holds.
                    proof {
                        let bv = cmds_view(*body);
                        if bv.len() == 0 {
                            assert(exec_block(bv, dummy_procedures@, cur, 0) == Ok::<
                                SState,
                                InterpError,
                            >(cur));
                        } else {
                            assert(exec_cmd(bv[0], dummy_procedures@, cur, 0) == Err::<
                                SState,
                                InterpError,
                            >(InterpError::OutOfFuel));
                        }
                    }
                    result = Err(InterpError::OutOfFuel);
                    done = true;
                } else {
                    match execute_block(
                        body,
                        variable_table,
                        dummy_procedures,
                        is_in_procedure,
                        procedure_args,
                        queries,
                        canvas,
                        f - 1,
                    ) {
                        Ok(u) => {
                            proof {
                                assert(exec_cmd(c, dummy_procedures@, cur, f as nat) == exec_cmd(
                                    c,
                                    dummy_procedures@,
                                    pack_state(
                                        variable_table@,
                                        procedure_args@,
                                        is_in_procedure,
                                        *queries,
                                        canvas@,
                                    ),
                                    (f - 1) as nat,
                                ));
                            }
                            f = f - 1;
                        },
                        Err(e) => {
                            proof {
                                assert(exec_cmd(c, dummy_procedures@, cur, f as nat) == Err::<
                                    SState,
                                    InterpError,
                                >(e));
                            }
                            result = Err(e);
                            done = true;
                        },
                    }
                }
            },
        }
    }
    result
}

/// Runs one procedure call: the arguments are evaluated in the caller's
/// active scope, bound to the formals in a fresh frame, and the body runs
/// with that frame active; the caller's frame is untouched.
#[verifier::rlimit(100)]
fn execute_call(
    name: &String,
    arg_ops: &Vec<crate::operations::Operation>,
    variable_table: &mut Scope,
    dummy_procedures: &ProcTable,
    is_in_procedure: bool,
    procedure_args: &mut Scope,
    queries: &mut QueriesStruct,
    canvas: &mut Canvas,
    fuel: u64,
) -> (r: Result<(), InterpError>)
    requires
        old(variable_table).wf(),
        old(procedure_args).wf(),
        old(queries).wf(),
        dummy_procedures.wf(),
        fuel >= 1,
    ensures
        final(variable_table).wf(),
        final(procedure_args).wf(),
        final(queries).wf(),
        run_matches(
            exec_cmd(
                CmdView::Procedure(name@, arg_ops.deep_view()),
                dummy_procedures@,
                pack_state(
                    old(variable_table)@,
                    old(procedure_args)@,
                    is_in_procedure,
                    *old(queries),
                    old(canvas)@,
                ),
                fuel as nat,
            ),
            r,
            pack_state(
                final(variable_table)@,
                final(procedure_args)@,
                is_in_procedure,
                *final(queries),
                final(canvas)@,
            ),
        ),
    decreases fuel, 0nat, 0nat,
{
    let ghost c = CmdView::Procedure(name@, arg_ops.deep_view());
    let ghost st0 = pack_state(
        old(variable_table)@,
        old(procedure_args)@,
        is_in_procedure,
        *old(queries),
        old(canvas)@,
    );
    let p = match dummy_procedures.get(name.as_str()) {
        Some(p) => p,
        None => {
            return Err(InterpError::ProcedureNotFound);
        },
    };
    if p.args.len() != arg_ops.len() {
        return Err(InterpError::ParamCountMismatch);
    }
    let ghost scope0 = active_scope(st0);
    let ghost opviews = arg_ops.deep_view();
    let mut vals: Vec<Value> = Vec::new();
    let mut i: usize = 0;
    while i < arg_ops.len()
        invariant
            i <= arg_ops@.len(),
            variable_table.wf(),
            procedure_args.wf(),
            queries.wf(),
            dummy_procedures.wf(),
            fuel >= 1,
            c == CmdView::Procedure(name@, arg_ops.deep_view()),
            st0 == pack_state(
                old(variable_table)@,
                old(procedure_args)@,
                is_in_procedure,
                *old(queries),
                old(canvas)@,
            ),
            variable_table@ == st0.globals,
            procedure_args@ == st0.locals,
            *queries == st0.q,
            canvas@ == st0.segments,
            st0.in_proc == is_in_procedure,
            dummy_procedures@.contains_key(name@),
            dummy_procedures@[name@].params.len() == arg_ops.deep_view().len(),
            opviews == arg_ops.deep_view(),
            scope0 == active_scope(st0),
            vals@ == Seq::new(i as nat, |k: int| eval_op(opviews[k], scope0, st0.q)->Ok_0),
            forall|k: int| 0 <= k < i ==> eval_op(#[trigger] opviews[k], scope0, st0.q) is Ok,
        decreases arg_ops@.len() - i,
    {
        let v = match eval_in_active(&arg_ops[i], variable_table, is_in_procedure,
            procedure_args, queries) {
            Ok(v) => v,
            Err(e) => {
                proof {
                    assert(opviews[i as int] == arg_ops@[i as int]@);
                    lemma_eval_args_prefix(opviews, scope0, st0.q, i as int);
                    assert(eval_args(opviews.skip(i as int), scope0, st0.q) == Err::<
                        Seq<Value>,
                        InterpError,
                    >(e));
                    assert(exec_cmd(c, dummy_procedures@, st0, fuel as nat) == Err::<
                        SState,
                        InterpError,
                    >(e));
                }
                return Err(e);
            },
        };
        let ghost old_vals = vals@;
        vals.push(v);
        proof {
            assert(opviews[i as int] == arg_ops@[i as int]@);
            assert(vals@ =~= Seq::new(
                (i + 1) as nat,
                |k: int| eval_op(opviews[k], scope0, st0.q)->Ok_0,
            ));
        }
        i = i + 1;
    }
    proof {
        lemma_eval_args_prefix(opviews, scope0, st0.q, opviews.len() as int);
        assert(opviews.skip(opviews.len() as int) =~= Seq::<crate::operations::OpView>::empty());
        assert(eval_args(opviews.skip(opviews.len() as int), scope0, st0.q) == Ok::<
            Seq<Value>,
            InterpError,
        >(Seq::empty()));
        assert(Seq::new(opviews.len(), |k: int| eval_op(opviews[k], scope0, st0.q)->Ok_0)
            + Seq::<Value>::empty() =~= vals@);
    }
    // Bind the formals, in order, in a fresh frame.
    let mut frame = Scope::new();
    let mut k: usize = 0;
    while k < p.args.len()
        invariant
            k <= p.args@.len(),
            p.args@.len() == vals@.len(),
            frame.wf(),
            frame@ == bind_params(p.args.deep_view().take(k as int), vals@.take(k as int)),
        decreases p.args@.len() - k,
    {
        frame.set(p.args[k].as_str(), vals[k]);
        proof {
            assert(p.args.deep_view().take(k + 1 as int).drop_last() =~= p.args.deep_view().take(
                k as int,
            ));
            assert(vals@.take(k + 1 as int).drop_last() =~= vals@.take(k as int));
            assert(p.args.deep_view().take(k + 1 as int).last() == p.args@[k as int]@);
            assert(vals@.take(k + 1 as int).last() == vals@[k as int]);
        }
        k = k + 1;
    }
    proof {
        assert(p.args.deep_view().take(p.args@.len() as int) =~= p.args.deep_view());
        assert(vals@.take(vals@.len() as int) =~= vals@);
    }
    match execute_block(
        &p.commands,
        variable_table,
        dummy_procedures,
        true,
        &mut frame,
        queries,
        canvas,
        fuel - 1,
    ) {
        Ok(u) => Ok(()),
        Err(e) => Err(e),
    }
}


/// Which turtle field a one-operand command writes.
#[derive(Debug, Clone, Copy, PartialEq, Eq, Structural)]
enum Setter {
    PenColor,
    TurnBy,
    Heading,
    X,
    Y,
}

/// The command a setter stands for.
spec fn setter_cmd(s: Setter, op: OpView) -> CmdView {
    match s {
        Setter::PenColor => CmdView::Setpencolor(op),
        Setter::TurnBy => CmdView::Turn(op),
        Setter::Heading => CmdView::Setheading(op),
        Setter::X => CmdView::Setx(op),
        Setter::Y => CmdView::Sety(op),
    }
}

/// Runs one command that writes a single turtle field from its evaluated
/// operand.
#[verifier::rlimit(100)]
fn execute_setter(
    kind: Setter,
    op: &crate::operations::Operation,
    variable_table: &mut Scope,
    dummy_procedures: &ProcTable,
    is_in_procedure: bool,
    procedure_args: &mut Scope,
    queries: &mut QueriesStruct,
    canvas: &mut Canvas,
    Ghost(c): Ghost<CmdView>,
) -> (r: Result<(), InterpError>)
    requires
        old(variable_table).wf(),
        old(procedure_args).wf(),
        old(queries).wf(),
        dummy_procedures.wf(),
        c == setter_cmd(kind, op@),
    ensures
        final(variable_table).wf(),
        final(procedure_args).wf(),
        final(queries).wf(),
        final(variable_table)@ == old(variable_table)@,
        final(procedure_args)@ == old(procedure_args)@,
        final(canvas)@ == old(canvas)@,
        r is Err ==> *final(queries) == *old(queries),
        run_matches(
            exec_cmd(
                c,
                dummy_procedures@,
                pack_state(
                    old(variable_table)@,
                    old(procedure_args)@,
                    is_in_procedure,
                    *old(queries),
                    old(canvas)@,
                ),
                1nat,
            ),
            r,
            pack_state(
                old(variable_table)@,
                old(procedure_args)@,
                is_in_procedure,
                *final(queries),
                old(canvas)@,
            ),
        ),
{
    let v = match eval_in_active(op, variable_table, is_in_procedure, procedure_args, queries) {
        Ok(v) => v,
        Err(e) => {
            return Err(e);
        },
    };
    let n = match v {
        Value::Number(n) => n,
        Value::Boolean(_) => {
            return Err(InterpError::TypeMismatch);
        },
    };
    match kind {
        Setter::PenColor => {
            let w = match n.as_whole() {
                Some(w) => w,
                None => {
                    return Err(InterpError::NotWhole);
                },
            };
            if w < 0 || w > 15 {
                return Err(InterpError::BadColor);
            }
            queries.color = w as u32;
            Ok(())
        },
        Setter::TurnBy => {
            let w = match n.as_whole() {
                Some(w) => w,
                None => {
                    return Err(InterpError::NotWhole);
                },
            };
            let h = (queries.heading as i64) + w;
            if h < i32::MIN as i64 || h > i32::MAX as i64 {
                return Err(InterpError::Overflow);
            }
            queries.heading = h as i32;
            Ok(())
        },
        Setter::Heading => {
            let w = match n.as_whole() {
                Some(w) => w,
                None => {
                    return Err(InterpError::NotWhole);
                },
            };
            if w < i32::MIN as i64 || w > i32::MAX as i64 {
                return Err(InterpError::Overflow);
            }
            queries.heading = w as i32;
            Ok(())
        },
        Setter::X => {
            let w = match n.round_to_i32() {
                Some(w) => w,
                None => {
                    return Err(InterpError::Overflow);
                },
            };
            if w < -COORD_LIMIT || w > COORD_LIMIT {
                return Err(InterpError::Overflow);
            }
            queries.xcor = w;
            Ok(())
        },
        Setter::Y => {
            let w = match n.round_to_i32() {
                Some(w) => w,
                None => {
                    return Err(InterpError::Overflow);
                },
            };
            if w < -COORD_LIMIT || w > COORD_LIMIT {
                return Err(InterpError::Overflow);
            }
            queries.ycor = w;
            Ok(())
        },
    }
}

/// Runs `MAKE` or `ADDASSIGN`.  `MAKE` writes the active scope;
/// `ADDASSIGN` reads and writes the global scope whatever the frame.
#[verifier::rlimit(100)]
fn execute_assign(
    is_add: bool,
    name: &String,
    op: &crate::operations::Operation,
    variable_table: &mut Scope,
    dummy_procedures: &ProcTable,
    is_in_procedure: bool,
    procedure_args: &mut Scope,
    queries: &mut QueriesStruct,
    canvas: &mut Canvas,
    Ghost(c): Ghost<CmdView>,
) -> (r: Result<(), InterpError>)
    requires
        old(variable_table).wf(),
        old(procedure_args).wf(),
        old(queries).wf(),
        dummy_procedures.wf(),
        c == (if is_add {
            CmdView::Addassign(name@, op@)
        } else {
            CmdView::Make(name@, op@)
        }),
    ensures
        final(variable_table).wf(),
        final(procedure_args).wf(),
        final(queries).wf(),
        *final(queries) == *old(queries),
        final(canvas)@ == old(canvas)@,
        r is Err ==> final(variable_table)@ == old(variable_table)@ && final(procedure_args)@
            == old(procedure_args)@,
        run_matches(
            exec_cmd(
                c,
                dummy_procedures@,
                pack_state(
                    old(variable_table)@,
                    old(procedure_args)@,
                    is_in_procedure,
                    *old(queries),
                    old(canvas)@,
                ),
                1nat,
            ),
            r,
            pack_state(
                final(variable_table)@,
                final(procedure_args)@,
                is_in_procedure,
                *old(queries),
                old(canvas)@,
            ),
        ),
{
    if is_add {
        let cur = match variable_table.get(name.as_str()) {
            Some(v) => v,
            None => {
                return Err(InterpError::VariableNotDefined);
            },
        };
        let cur_n = match cur {
            Value::Number(n) => n,
            Value::Boolean(_) => {
                return Err(InterpError::TypeMismatch);
            },
        };
        let v = match eval_in_active(op, variable_table, is_in_procedure, procedure_args,
            queries) {
            Ok(v) => v,
            Err(e) => {
                return Err(e);
            },
        };
        let inc = match v {
            Value::Number(n) => n,
            Value::Boolean(_) => {
                return Err(InterpError::TypeMismatch);
            },
        };
        let sum = match cur_n.checked_add(inc) {
            Some(s) => s,
            None => {
                return Err(InterpError::Overflow);
            },
        };
        variable_table.set(name.as_str(), Value::Number(sum));
        Ok(())
    } else {
        let v = match eval_in_active(op, variable_table, is_in_procedure, procedure_args,
            queries) {
            Ok(v) => v,
            Err(e) => {
                return Err(e);
            },
        };
        if is_in_procedure {
            procedure_args.set(name.as_str(), v);
        } else {
            variable_table.set(name.as_str(), v);
        }
        Ok(())
    }
}

/// Evaluates an expression in the active scope.
fn eval_in_active(
    op: &crate::operations::Operation,
    variable_table: &Scope,
    is_in_procedure: bool,
    procedure_args: &Scope,
    queries: &QueriesStruct,
) -> (r: Result<Value, InterpError>)
    requires
        variable_table.wf(),
        procedure_args.wf(),
        queries.wf(),
    ensures
        r == eval_op(
            op@,
            if is_in_procedure {
                procedure_args@
            } else {
                variable_table@
            },
            *queries,
        ),
{
    if is_in_procedure {
        parse_operation(op, procedure_args, queries)
    } else {
        parse_operation(op, variable_table, queries)
    }
}

/// Executes a command sequence in order, stopping at the first error.
#[verifier::rlimit(100)]
pub fn execute_block(
    commands: &Vec<Command>,
    variable_table: &mut Scope,
    dummy_procedures: &ProcTable,
    is_in_procedure: bool,
    procedure_args: &mut Scope,
    queries: &mut QueriesStruct,
    canvas: &mut Canvas,
    fuel: u64,
) -> (r: Result<(), InterpError>)
    requires
        old(variable_table).wf(),
        old(procedure_args).wf(),
        old(queries).wf(),
        dummy_procedures.wf(),
    ensures
        final(variable_table).wf(),
        final(procedure_args).wf(),
        final(queries).wf(),
        run_matches(
            exec_block(
                cmds_view(*commands),
                dummy_procedures@,
                pack_state(
                    old(variable_table)@,
                    old(procedure_args)@,
                    is_in_procedure,
                    *old(queries),
                    old(canvas)@,
                ),
                fuel as nat,
            ),
            r,
            pack_state(
                final(variable_table)@,
                final(procedure_args)@,
                is_in_procedure,
                *final(queries),
                final(canvas)@,
            ),
        ),
    decreases fuel, 1nat, 0nat,
{
    let ghost st0 = pack_state(
        old(variable_table)@,
        old(procedure_args)@,
        is_in_procedure,
        *old(queries),
        old(canvas)@,
    );
    let ghost cv = cmds_view(*commands);
    proof {
        lemma_cmds_view_len(*commands, 0);
        assert(cv.skip(0) =~= cv);
    }
    let n = commands.len();
    let mut i: usize = 0;
    while i < n
        invariant
            i <= n,
            n == commands@.len(),
            variable_table.wf(),
            procedure_args.wf(),
            queries.wf(),
            dummy_procedures.wf(),
            cv == cmds_view(*commands),
            cv.len() == n,
            st0 == pack_state(
                old(variable_table)@,
                old(procedure_args)@,
                is_in_procedure,
                *old(queries),
                old(canvas)@,
            ),
            forall|k: int| 0 <= k < n ==> cv[k] == #[trigger] (commands@[k]@),
            exec_block(cv, dummy_procedures@, st0, fuel as nat) == exec_block(
                cv.skip(i as int),
                dummy_procedures@,
                pack_state(
                    variable_table@,
                    procedure_args@,
                    is_in_procedure,
                    *queries,
                    canvas@,
                ),
                fuel as nat,
            ),
        decreases n - i,
    {
        let ghost cur = pack_state(
            variable_table@,
            procedure_args@,
            is_in_procedure,
            *queries,
            canvas@,
        );
        match execute_command(
            &commands[i],
            variable_table,
            dummy_procedures,
            is_in_procedure,
            procedure_args,
            queries,
            canvas,
            fuel,
        ) {
            Ok(u) => {
                proof {
                    assert(cv[i as int] == commands@[i as int]@);
                    assert(cv.skip(i as int)[0] == cv[i as int]);
                    assert(cv.skip(i as int).drop_first() =~= cv.skip(i as int + 1));
                }
            },
            Err(e) => {
                proof {
                    assert(cv[i as int] == commands@[i as int]@);
                    assert(cv.skip(i as int)[0] == cv[i as int]);
                    assert(exec_block(cv.skip(i as int), dummy_procedures@, cur, fuel as nat)
                        == Err::<SState, InterpError>(e));
                }
                return Err(e);
            },
        }
        i = i + 1;
    }
    proof {
        assert(cv.skip(n as int) =~= Seq::<CmdView>::empty());
    }
    Ok(())
}

/// The initial turtle for a canvas of the given size.
pub open spec fn init_queries(width: u32, height: u32) -> QueriesStruct {
    QueriesStruct {
        xcor: (width / 2) as i32,
        ycor: (height / 2) as i32,
        heading: 0,
        color: 7,
        is_pen_down: false,
    }
}

/// The state a run starts from: empty scopes, the initial turtle, and a
/// blank surface.
pub open spec fn init_state(width: u32, height: u32) -> SState {
    pack_state(
        Map::empty(),
        Map::empty(),
        false,
        init_queries(width, height),
        Seq::empty(),
    )
}

/// What a whole run produces: the script's statement lines are parsed
/// into a command tree and a procedure table, and the commands run
/// against the initial state under the given step budget.
pub open spec fn run_spec(text: Seq<char>, width: u32, height: u32, fuel: nat) -> Result<
    SState,
    InterpError,
> {
    match crate::utils::extract_spec(
        crate::text::clean_lines(text),
        0,
        Closer::TopLevel,
        Map::empty(),
    ) {
        Ok(parsed) => exec_block(parsed.0, parsed.2, init_state(width, height), fuel),
        Err(e) => Err(e),
    }
}

/// Parses and runs a whole script on a fresh canvas.  On success the
/// global scope, the final turtle and the drawn surface come back.
pub fn run_program(source: &str, width: u32, height: u32, fuel: u64) -> (r: Result<
    (Scope, QueriesStruct, Canvas),
    InterpError,
>)
    requires
        1 <= width <= crate::utils::MAX_CANVAS_DIM,
        1 <= height <= crate::utils::MAX_CANVAS_DIM,
    ensures
        match r {
            Ok(out) => {
                &&& out.0.wf()
                &&& out.1.wf()
                &&& run_spec(source@, width, height, fuel as nat) matches Ok(st) && st.globals
                    == out.0@ && st.q == out.1 && st.segments == out.2@
            },
            Err(e) => run_spec(source@, width, height, fuel as nat) == Err::<SState, InterpError>(
                e,
            ),
        },
{
    let lines = preprocess(source);
    let n = lines.len();
    let mut refs: Vec<&str> = Vec::new();
    let mut i: usize = 0;
    while i < n
        invariant
            i <= n,
            n == lines@.len(),
            refs@.len() == i,
            forall|k: int| 0 <= k < i ==> (#[trigger] refs@[k])@ == lines@[k]@,
        decreases n - i,
    {
        refs.push(lines[i].as_str());
        i = i + 1;
    }
    proof {
        assert(strs_view(refs@) =~= lines.deep_view());
    }
    let mut procs = ProcTable::new();
    let (cmds, _end) = match extract_commands(&refs, 0, &mut procs) {
        Ok(p) => p,
        Err(e) => {
            return Err(e);
        },
    };
    let mut globals = Scope::new();
    let mut frame = Scope::new();
    let mut queries = QueriesStruct::new(width, height);
    let mut canvas = Canvas::new(width, height);
    proof {
        assert(queries == init_queries(width, height));
        assert(pack_state(globals@, frame@, false, queries, canvas@) == init_state(
            width,
            height,
        ));
    }
    match execute_block(
        &cmds,
        &mut globals,
        &procs,
        false,
        &mut frame,
        &mut queries,
        &mut canvas,
        fuel,
    ) {
        Ok(u) => Ok((globals, queries, canvas)),
        Err(e) => Err(e),
    }
}

} // verus!
