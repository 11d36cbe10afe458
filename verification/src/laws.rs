//! Laws of the interpreter: properties of the execution and parsing
//! models that hold for every script, proved once and for all.
use crate::commands::CmdView;
use crate::num::Num;
use crate::operations::OpView;
use crate::parser::parse_command_spec;
use crate::scope::ProcView;
use crate::semantics::{active_scope, eval_op, exec_block, exec_cmd, SState};
use crate::text::tokenize;
use crate::utils::{extract_spec, Closer};
use crate::utils::QueriesStruct;
use crate::value::{InterpError, Value};
use vstd::prelude::*;

verus! {

/// A command that only lifts or lowers the pen, or moves the turtle.
pub open spec fn pen_or_move(c: CmdView) -> bool {
    match c {
        CmdView::Penup => true,
        CmdView::Pendown => false,
        CmdView::Forward(_) => true,
        CmdView::Back(_) => true,
        CmdView::Left(_) => true,
        CmdView::Right(_) => true,
        _ => false,
    }
}

pub open spec fn pen_up_moves_only(cmds: Seq<CmdView>) -> bool {
    forall|i: int| 0 <= i < cmds.len() ==> pen_or_move(#[trigger] cmds[i])
}

/// With the pen up, a script of `PENUP` and movement commands draws
/// nothing: the segment record, the scopes, the heading, the color and
/// the pen stay exactly as they were, and the coordinates are whatever
/// chain of pure-geometry projections the moves produced.
pub proof fn lemma_pen_up_draws_nothing(
    cmds: Seq<CmdView>,
    procs: Map<Seq<char>, ProcView>,
    st: SState,
    fuel: nat,
    st2: SState,
)
    requires
        pen_up_moves_only(cmds),
        !st.q.is_pen_down,
        exec_block(cmds, procs, st, fuel) == Ok::<SState, InterpError>(st2),
    ensures
        st2.segments == st.segments,
        !st2.q.is_pen_down,
        st2.globals == st.globals,
        st2.locals == st.locals,
        st2.in_proc == st.in_proc,
        st2.q.heading == st.q.heading,
        st2.q.color == st.q.color,
    decreases cmds.len(),
{
    if cmds.len() > 0 {
        let c = cmds[0];
        match exec_cmd(c, procs, st, fuel) {
            Ok(mid) => {
                assert(mid.segments == st.segments && !mid.q.is_pen_down && mid.globals
                    == st.globals && mid.locals == st.locals && mid.in_proc == st.in_proc
                    && mid.q.heading == st.q.heading && mid.q.color == st.q.color) by {
                    match c {
                        CmdView::Penup => {},
                        CmdView::Forward(op) => {},
                        CmdView::Back(op) => {},
                        CmdView::Left(op) => {},
                        CmdView::Right(op) => {},
                        _ => {
                            assert(false);
                        },
                    }
                };
                lemma_pen_up_draws_nothing(cmds.drop_first(), procs, mid, fuel, st2);
            },
            Err(_) => {
                assert(false);
            },
        }
    }
}

/// A movement command is exactly one pure-geometry projection step: it
/// evaluates its distance and hands the turtle to the surface's endpoint
/// function, whether or not anything is drawn.
pub proof fn lemma_move_is_projection(
    c: CmdView,
    op: OpView,
    procs: Map<Seq<char>, ProcView>,
    st: SState,
    fuel: nat,
)
    requires
        fuel >= 1,
        c == CmdView::Forward(op) || c == CmdView::Back(op) || c == CmdView::Left(op) || c
            == CmdView::Right(op),
    ensures
        exec_cmd(c, procs, st, fuel) == (match eval_op(op, active_scope(st), st.q) {
            Ok(v) => crate::semantics::step_move(c, v, st),
            Err(e) => Err(e),
        }),
{
}

/// An `IF` whose condition is false has no effect at all: no variable
/// writes, no draws, no turtle change.
pub proof fn lemma_if_false_no_effect(
    cond: OpView,
    body: Seq<CmdView>,
    procs: Map<Seq<char>, ProcView>,
    st: SState,
    fuel: nat,
)
    requires
        fuel >= 1,
        eval_op(cond, active_scope(st), st.q) == Ok::<Value, InterpError>(
            Value::Boolean(false),
        ),
    ensures
        exec_cmd(CmdView::If(cond, body), procs, st, fuel) == Ok::<SState, InterpError>(st),
{
}

/// A `WHILE` whose condition is false from the start executes zero
/// iterations: the state comes back unchanged.
pub proof fn lemma_while_false_zero_iterations(
    cond: OpView,
    body: Seq<CmdView>,
    procs: Map<Seq<char>, ProcView>,
    st: SState,
    fuel: nat,
)
    requires
        fuel >= 1,
        eval_op(cond, active_scope(st), st.q) == Ok::<Value, InterpError>(
            Value::Boolean(false),
        ),
    ensures
        exec_cmd(CmdView::While(cond, body), procs, st, fuel) == Ok::<SState, InterpError>(st),
{
}

/// One `WHILE` iteration unfolds: with a true condition, the body runs
/// once and the loop resumes on the body's result with one unit of fuel
/// spent.
pub proof fn lemma_while_unfold(
    cond: OpView,
    body: Seq<CmdView>,
    procs: Map<Seq<char>, ProcView>,
    st: SState,
    fuel: nat,
)
    requires
        fuel >= 1,
        eval_op(cond, active_scope(st), st.q) == Ok::<Value, InterpError>(Value::Boolean(true)),
    ensures
        exec_cmd(CmdView::While(cond, body), procs, st, fuel) == (match exec_block(
            body,
            procs,
            st,
            (fuel - 1) as nat,
        ) {
            Ok(st2) => exec_cmd(CmdView::While(cond, body), procs, st2, (fuel - 1) as nat),
            Err(e) => Err(e),
        }),
{
}

/// A `WHILE` whose condition turns false after `n` body runs executes
/// exactly `n` iterations: given the chain of states the body steps
/// through, the loop ends in the last one.
pub proof fn lemma_while_n_iterations(
    cond: OpView,
    body: Seq<CmdView>,
    procs: Map<Seq<char>, ProcView>,
    states: Seq<SState>,
    fuel: nat,
)
    requires
        states.len() >= 1,
        fuel >= states.len(),
        forall|i: int|
            0 <= i < states.len() - 1 ==> eval_op(
                cond,
                active_scope(#[trigger] states[i]),
                states[i].q,
            ) == Ok::<Value, InterpError>(Value::Boolean(true)),
        forall|i: int|
            0 <= i < states.len() - 1 ==> exec_block(
                body,
                procs,
                #[trigger] states[i],
                (fuel - 1 - i) as nat,
            ) == Ok::<SState, InterpError>(states[i + 1]),
        eval_op(cond, active_scope(states.last()), states.last().q) == Ok::<Value, InterpError>(
            Value::Boolean(false),
        ),
    ensures
        exec_cmd(CmdView::While(cond, body), procs, states[0], fuel) == Ok::<SState, InterpError>(
            states.last(),
        ),
    decreases states.len(),
{
    if states.len() == 1 {
        lemma_while_false_zero_iterations(cond, body, procs, states[0], fuel);
    } else {
        lemma_while_unfold(cond, body, procs, states[0], fuel);
        let rest = states.drop_first();
        assert forall|i: int| 0 <= i < rest.len() - 1 implies exec_block(
            body,
            procs,
            #[trigger] rest[i],
            (fuel - 2 - i) as nat,
        ) == Ok::<SState, InterpError>(rest[i + 1]) by {
            assert(rest[i] == states[i + 1]);
            assert(rest[i + 1] == states[i + 2]);
        }
        assert forall|i: int| 0 <= i < rest.len() - 1 implies eval_op(
            cond,
            active_scope(#[trigger] rest[i]),
            rest[i].q,
        ) == Ok::<Value, InterpError>(Value::Boolean(true)) by {
            assert(rest[i] == states[i + 1]);
        }
        assert(rest.last() == states.last());
        assert(exec_block(body, procs, states[0], (fuel - 1) as nat) == Ok::<SState, InterpError>(
            states[1],
        ));
        lemma_while_n_iterations(cond, body, procs, rest, (fuel - 1) as nat);
        assert(rest[0] == states[1]);
    }
}

/// Procedure frames are isolated: whatever a call does, the caller's own
/// frame and its "inside a procedure" flag come back untouched, so a
/// `MAKE` inside the callee is invisible to the caller.
pub proof fn lemma_call_preserves_caller_frame(
    name: Seq<char>,
    args: Seq<OpView>,
    procs: Map<Seq<char>, ProcView>,
    st: SState,
    fuel: nat,
    st2: SState,
)
    requires
        exec_cmd(CmdView::Procedure(name, args), procs, st, fuel) == Ok::<SState, InterpError>(
            st2,
        ),
    ensures
        st2.locals == st.locals,
        st2.in_proc == st.in_proc,
{
}

/// Inside a procedure, `MAKE` writes the local frame only: the global
/// scope is untouched.
pub proof fn lemma_make_in_procedure_is_local(
    name: Seq<char>,
    op: OpView,
    procs: Map<Seq<char>, ProcView>,
    st: SState,
    fuel: nat,
    st2: SState,
)
    requires
        st.in_proc,
        exec_cmd(CmdView::Make(name, op), procs, st, fuel) == Ok::<SState, InterpError>(st2),
    ensures
        st2.globals == st.globals,
{
}

/// `ADDASSIGN` always targets the global scope: on a name absent there it
/// fails with the dedicated error, even when the active frame holds that
/// name.
pub proof fn lemma_addassign_requires_global(
    name: Seq<char>,
    op: OpView,
    procs: Map<Seq<char>, ProcView>,
    st: SState,
    fuel: nat,
)
    requires
        fuel >= 1,
        !st.globals.contains_key(name),
    ensures
        exec_cmd(CmdView::Addassign(name, op), procs, st, fuel) == Err::<SState, InterpError>(
            InterpError::VariableNotDefined,
        ),
{
}

/// Division by zero fails deterministically with its dedicated error.
pub proof fn lemma_divide_by_zero(
    a: OpView,
    b: OpView,
    scope: Map<Seq<char>, Value>,
    q: QueriesStruct,
    x: Num,
)
    requires
        eval_op(a, scope, q) == Ok::<Value, InterpError>(Value::Number(x)),
        eval_op(b, scope, q) matches Ok(v) && v matches Value::Number(y) && y.as_int() == 0,
    ensures
        eval_op(OpView::Divide(Box::new(a), Box::new(b)), scope, q) == Err::<Value, InterpError>(
            InterpError::DivideByZero,
        ),
{
}

/// A statement whose operand fails to evaluate does nothing: the error
/// is the whole outcome, and the model result carries no state change.
pub proof fn lemma_move_error_aborts(
    op: OpView,
    procs: Map<Seq<char>, ProcView>,
    st: SState,
    fuel: nat,
    e: InterpError,
)
    requires
        fuel >= 1,
        eval_op(op, active_scope(st), st.q) == Err::<Value, InterpError>(e),
    ensures
        exec_cmd(CmdView::Forward(op), procs, st, fuel) == Err::<SState, InterpError>(e),
        exec_cmd(CmdView::Setx(op), procs, st, fuel) == Err::<SState, InterpError>(e),
{
}

/// A line whose first token opens or closes no block.
pub open spec fn plain_line(line: Seq<char>) -> bool {
    let toks = tokenize(line);
    &&& toks.len() > 0
    &&& toks[0] != "IF"@
    &&& toks[0] != "WHILE"@
    &&& toks[0] != "TO"@
    &&& toks[0] != "]"@
    &&& toks[0] != "END"@
}

/// A script with no control blocks and no procedure definitions reduces
/// to a flat command sequence with one leaf command per statement line.
pub proof fn lemma_flat_script(
    lines: Seq<Seq<char>>,
    i: int,
    procs: Map<Seq<char>, ProcView>,
)
    requires
        0 <= i <= lines.len(),
        forall|k: int| i <= k < lines.len() ==> plain_line(#[trigger] lines[k]),
        forall|k: int|
            i <= k < lines.len() ==> parse_command_spec(tokenize(#[trigger] lines[k]), procs)
                is Ok,
    ensures
        extract_spec(lines, i, Closer::TopLevel, procs) matches Ok(out) && out.0.len()
            == lines.len() - i && out.1 == lines.len() && out.2 == procs && forall|k: int|
            i <= k < lines.len() ==> out.0[k - i] == parse_command_spec(
                tokenize(lines[k]),
                procs,
            )->Ok_0,
    decreases lines.len() - i,
{
    if i < lines.len() {
        lemma_flat_script(lines, i + 1, procs);
        let cmd = parse_command_spec(tokenize(lines[i]), procs)->Ok_0;
        match extract_spec(lines, i + 1, Closer::TopLevel, procs) {
            Ok(out1) => {
                assert(extract_spec(lines, i, Closer::TopLevel, procs) matches Ok(out)
                    && out.0 == seq![cmd] + out1.0);
                let out = (seq![cmd] + out1.0, out1.1, out1.2);
                assert forall|k: int| i <= k < lines.len() implies out.0[k - i]
                    == parse_command_spec(tokenize(lines[k]), procs)->Ok_0 by {
                    if k > i {
                        assert(out.0[k - i] == out1.0[k - i - 1]);
                    }
                }
            },
            Err(_) => {
                assert(false);
            },
        }
    }
}

} // verus!
