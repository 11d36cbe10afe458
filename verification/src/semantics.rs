//! The functional model of execution.
//!
//! [`exec_cmd`] defines what one command does to the machine state, and
//! [`exec_block`] what a command sequence does; both are total, consuming
//! one unit of fuel for each command entered and each loop iteration.  The
//! executable interpreter is proved to return exactly what this model
//! returns.
use crate::canvas::{end_coords, Segment, COORD_LIMIT};
use crate::num::{micro_wf, round_whole, Num, SCALE};
use crate::operations::{OpView, Query};
use crate::commands::CmdView;
use crate::scope::ProcView;
use crate::utils::QueriesStruct;
use crate::value::{
    v_add, v_and, v_div, v_eq, v_gt, v_lt, v_mul, v_ne, v_or, v_sub, InterpError, Value,
};
use vstd::prelude::*;

verus! {

/// Everything a command can read or change: the two scopes, the flag
/// saying which one is active, the turtle, and the drawn segments.
pub struct SState {
    pub globals: Map<Seq<char>, Value>,
    pub locals: Map<Seq<char>, Value>,
    pub in_proc: bool,
    pub q: QueriesStruct,
    pub segments: Seq<Segment>,
}

/// The scope that variable reads and `MAKE` writes use.
pub open spec fn active_scope(st: SState) -> Map<Seq<char>, Value> {
    if st.in_proc {
        st.locals
    } else {
        st.globals
    }
}

/// The value a turtle query reads.
pub open spec fn query_value(k: Query, q: QueriesStruct) -> Value {
    match k {
        Query::Xcor => Value::Number(Num { micro: (q.xcor as int * SCALE as int) as i64 }),
        Query::Ycor => Value::Number(Num { micro: (q.ycor as int * SCALE as int) as i64 }),
        Query::Heading => Value::Number(Num { micro: (q.heading as int * SCALE as int) as i64 }),
        Query::Color => Value::Number(Num { micro: (q.color as int * SCALE as int) as i64 }),
    }
}

/// Evaluates an expression against a scope and the live turtle state.
/// Operands are evaluated left to right; the first error wins.
pub open spec fn eval_op(op: OpView, scope: Map<Seq<char>, Value>, q: QueriesStruct) -> Result<
    Value,
    InterpError,
>
    decreases op,
{
    match op {
        OpView::Literal(v) => Ok(v),
        OpView::Variable(name) => if scope.contains_key(name) {
            Ok(scope[name])
        } else {
            Err(InterpError::UndefinedVariable)
        },
        OpView::Query(k) => Ok(query_value(k, q)),
        OpView::Add(a, b) => match (eval_op(*a, scope, q), eval_op(*b, scope, q)) {
            (Ok(l), Ok(r)) => v_add(l, r),
            (Err(e), _) => Err(e),
            (_, Err(e)) => Err(e),
        },
        OpView::Subtract(a, b) => match (eval_op(*a, scope, q), eval_op(*b, scope, q)) {
            (Ok(l), Ok(r)) => v_sub(l, r),
            (Err(e), _) => Err(e),
            (_, Err(e)) => Err(e),
        },
        OpView::Multiply(a, b) => match (eval_op(*a, scope, q), eval_op(*b, scope, q)) {
            (Ok(l), Ok(r)) => v_mul(l, r),
            (Err(e), _) => Err(e),
            (_, Err(e)) => Err(e),
        },
        OpView::Divide(a, b) => match (eval_op(*a, scope, q), eval_op(*b, scope, q)) {
            (Ok(l), Ok(r)) => v_div(l, r),
            (Err(e), _) => Err(e),
            (_, Err(e)) => Err(e),
        },
        OpView::Equal(a, b) => match (eval_op(*a, scope, q), eval_op(*b, scope, q)) {
            (Ok(l), Ok(r)) => v_eq(l, r),
            (Err(e), _) => Err(e),
            (_, Err(e)) => Err(e),
        },
        OpView::Notequal(a, b) => match (eval_op(*a, scope, q), eval_op(*b, scope, q)) {
            (Ok(l), Ok(r)) => v_ne(l, r),
            (Err(e), _) => Err(e),
            (_, Err(e)) => Err(e),
        },
        OpView::Greaterthan(a, b) => match (eval_op(*a, scope, q), eval_op(*b, scope, q)) {
            (Ok(l), Ok(r)) => v_gt(l, r),
            (Err(e), _) => Err(e),
            (_, Err(e)) => Err(e),
        },
        OpView::Lessthan(a, b) => match (eval_op(*a, scope, q), eval_op(*b, scope, q)) {
            (Ok(l), Ok(r)) => v_lt(l, r),
            (Err(e), _) => Err(e),
            (_, Err(e)) => Err(e),
        },
        OpView::And(a, b) => match (eval_op(*a, scope, q), eval_op(*b, scope, q)) {
            (Ok(l), Ok(r)) => v_and(l, r),
            (Err(e), _) => Err(e),
            (_, Err(e)) => Err(e),
        },
        OpView::Or(a, b) => match (eval_op(*a, scope, q), eval_op(*b, scope, q)) {
            (Ok(l), Ok(r)) => v_or(l, r),
            (Err(e), _) => Err(e),
            (_, Err(e)) => Err(e),
        },
    }
}

/// Evaluates a call's argument expressions left to right.
pub open spec fn eval_args(
    args: Seq<OpView>,
    scope: Map<Seq<char>, Value>,
    q: QueriesStruct,
) -> Result<Seq<Value>, InterpError>
    decreases args,
{
    if args.len() == 0 {
        Ok(Seq::empty())
    } else {
        match eval_op(args[0], scope, q) {
            Ok(v) => match eval_args(args.drop_first(), scope, q) {
                Ok(rest) => Ok(seq![v] + rest),
                Err(e) => Err(e),
            },
            Err(e) => Err(e),
        }
    }
}

/// Splitting an argument evaluation at index `i`: once every earlier
/// argument evaluates, the whole list evaluates exactly when the suffix
/// does.
pub proof fn lemma_eval_args_prefix(
    args: Seq<OpView>,
    scope: Map<Seq<char>, Value>,
    q: QueriesStruct,
    i: int,
)
    requires
        0 <= i <= args.len(),
        forall|k: int| 0 <= k < i ==> eval_op(#[trigger] args[k], scope, q) is Ok,
    ensures
        match eval_args(args.skip(i), scope, q) {
            Ok(rest) => eval_args(args, scope, q) matches Ok(all) && all == Seq::new(
                i as nat,
                |k: int| eval_op(args[k], scope, q)->Ok_0,
            ) + rest,
            Err(e) => eval_args(args, scope, q) == Err::<Seq<Value>, InterpError>(e),
        },
    decreases i,
{
    if i == 0 {
        assert(args.skip(0) =~= args);
        match eval_args(args, scope, q) {
            Ok(all) => {
                assert(Seq::new(0, |k: int| eval_op(args[k], scope, q)->Ok_0) + all =~= all);
            },
            Err(_) => {
            },
        }
    } else {
        lemma_eval_args_prefix(args.drop_first(), scope, q, i - 1);
        assert(args.drop_first().skip(i - 1) =~= args.skip(i));
        match eval_args(args.skip(i), scope, q) {
            Ok(rest) => {
                let tail = Seq::new((i - 1) as nat, |k: int| eval_op(
                    args.drop_first()[k],
                    scope,
                    q,
                )->Ok_0);
                assert(eval_args(args.drop_first(), scope, q) matches Ok(all1) && all1 == tail
                    + rest);
                assert(eval_op(args[0], scope, q) is Ok);
                assert(eval_args(args, scope, q) matches Ok(all) && all == seq![
                    eval_op(args[0], scope, q)->Ok_0,
                ] + (tail + rest));
                assert(seq![eval_op(args[0], scope, q)->Ok_0] + (tail + rest) =~= Seq::new(
                    i as nat,
                    |k: int| eval_op(args[k], scope, q)->Ok_0,
                ) + rest);
            },
            Err(e) => {
                assert(eval_op(args[0], scope, q) is Ok);
                assert(eval_args(args.drop_first(), scope, q) == Err::<Seq<Value>, InterpError>(
                    e,
                ));
            },
        }
    }
}

/// Binds formal parameter names to argument values, in order; with a
/// repeated formal the later binding wins.
pub open spec fn bind_params(params: Seq<Seq<char>>, vals: Seq<Value>) -> Map<Seq<char>, Value>
    decreases params.len(),
{
    if params.len() == 0 || vals.len() == 0 {
        Map::empty()
    } else {
        bind_params(params.drop_last(), vals.drop_last()).insert(params.last(), vals.last())
    }
}

/// The clockwise offset a movement command adds to the heading.
pub open spec fn move_offset(c: CmdView) -> int {
    match c {
        CmdView::Forward(_) => 0,
        CmdView::Back(_) => 180,
        CmdView::Right(_) => 90,
        CmdView::Left(_) => 270,
        _ => 0,
    }
}

/// The whole number a value must be for a heading or a color.
pub open spec fn whole_of(v: Value) -> Result<int, InterpError> {
    match v {
        Value::Number(n) => if n.spec_is_whole() {
            Ok(n.spec_whole())
        } else {
            Err(InterpError::NotWhole)
        },
        Value::Boolean(_) => Err(InterpError::TypeMismatch),
    }
}

/// The nearest whole number a value must round to for a distance or a
/// coordinate, required to stay within the surface's coordinate range.
pub open spec fn rounded_i32_of(v: Value) -> Result<int, InterpError> {
    match v {
        Value::Number(n) => if -(COORD_LIMIT as int) <= round_whole(n.as_int()) <= COORD_LIMIT
            as int {
            Ok(round_whole(n.as_int()))
        } else {
            Err(InterpError::Overflow)
        },
        Value::Boolean(_) => Err(InterpError::TypeMismatch),
    }
}

/// What one movement command does: the absolute direction is the heading
/// reduced modulo 360 plus the command's offset; the surface computes the
/// endpoint, which must stay in the coordinate range; with the pen down
/// the segment is recorded.  An out-of-range endpoint is an error that
/// changes nothing.
pub open spec fn step_move(c: CmdView, dist: Value, st: SState) -> Result<SState, InterpError> {
    match rounded_i32_of(dist) {
        Err(e) => Err(e),
        Ok(len) => {
            let d = (st.q.heading as int) % 360 + move_offset(c);
            let p = end_coords(st.q.xcor as int, st.q.ycor as int, d, len);
            if !(-(COORD_LIMIT as int) <= p.0 <= COORD_LIMIT as int && -(COORD_LIMIT as int)
                <= p.1 <= COORD_LIMIT as int) {
                Err(InterpError::Overflow)
            } else {
                let q2 = QueriesStruct { xcor: p.0 as i32, ycor: p.1 as i32, ..st.q };
                if st.q.is_pen_down {
                    let seg = Segment {
                        x: st.q.xcor,
                        y: st.q.ycor,
                        direction: d as i32,
                        length: len as i32,
                        color: st.q.color,
                    };
                    Ok(SState { q: q2, segments: st.segments.push(seg), ..st })
                } else {
                    Ok(SState { q: q2, ..st })
                }
            }
        },
    }
}

/// What one command does to the state, with `fuel` limiting the depth of
/// nested blocks and the number of loop iterations.
pub open spec fn exec_cmd(
    c: CmdView,
    procs: Map<Seq<char>, ProcView>,
    st: SState,
    fuel: nat,
) -> Result<SState, InterpError>
    decreases fuel, 0nat, 0nat,
{
    if fuel == 0 {
        Err(InterpError::OutOfFuel)
    } else {
        match c {
            CmdView::Penup => Ok(
                SState { q: QueriesStruct { is_pen_down: false, ..st.q }, ..st },
            ),
            CmdView::Pendown => Ok(
                SState { q: QueriesStruct { is_pen_down: true, ..st.q }, ..st },
            ),
            CmdView::Forward(op) => match eval_op(op, active_scope(st), st.q) {
                Ok(v) => step_move(c, v, st),
                Err(e) => Err(e),
            },
            CmdView::Back(op) => match eval_op(op, active_scope(st), st.q) {
                Ok(v) => step_move(c, v, st),
                Err(e) => Err(e),
            },
            CmdView::Left(op) => match eval_op(op, active_scope(st), st.q) {
                Ok(v) => step_move(c, v, st),
                Err(e) => Err(e),
            },
            CmdView::Right(op) => match eval_op(op, active_scope(st), st.q) {
                Ok(v) => step_move(c, v, st),
                Err(e) => Err(e),
            },
            CmdView::Setpencolor(op) => match eval_op(op, active_scope(st), st.q) {
                Ok(v) => match whole_of(v) {
                    Ok(w) => if 0 <= w <= 15 {
                        Ok(SState { q: QueriesStruct { color: w as u32, ..st.q }, ..st })
                    } else {
                        Err(InterpError::BadColor)
                    },
                    Err(e) => Err(e),
                },
                Err(e) => Err(e),
            },
            CmdView::Turn(op) => match eval_op(op, active_scope(st), st.q) {
                Ok(v) => match whole_of(v) {
                    Ok(w) => if i32::MIN <= st.q.heading + w <= i32::MAX {
                        Ok(
                            SState {
                                q: QueriesStruct { heading: (st.q.heading + w) as i32, ..st.q },
                                ..st
                            },
                        )
                    } else {
                        Err(InterpError::Overflow)
                    },
                    Err(e) => Err(e),
                },
                Err(e) => Err(e),
            },
            CmdView::Setheading(op) => match eval_op(op, active_scope(st), st.q) {
                Ok(v) => match whole_of(v) {
                    Ok(w) => if i32::MIN <= w <= i32::MAX {
                        Ok(SState { q: QueriesStruct { heading: w as i32, ..st.q }, ..st })
                    } else {
                        Err(InterpError::Overflow)
                    },
                    Err(e) => Err(e),
                },
                Err(e) => Err(e),
            },
            CmdView::Setx(op) => match eval_op(op, active_scope(st), st.q) {
                Ok(v) => match rounded_i32_of(v) {
                    Ok(w) => Ok(SState { q: QueriesStruct { xcor: w as i32, ..st.q }, ..st }),
                    Err(e) => Err(e),
                },
                Err(e) => Err(e),
            },
            CmdView::Sety(op) => match eval_op(op, active_scope(st), st.q) {
                Ok(v) => match rounded_i32_of(v) {
                    Ok(w) => Ok(SState { q: QueriesStruct { ycor: w as i32, ..st.q }, ..st }),
                    Err(e) => Err(e),
                },
                Err(e) => Err(e),
            },
            CmdView::Make(name, op) => match eval_op(op, active_scope(st), st.q) {
                Ok(v) => if st.in_proc {
                    Ok(SState { locals: st.locals.insert(name, v), ..st })
                } else {
                    Ok(SState { globals: st.globals.insert(name, v), ..st })
                },
                Err(e) => Err(e),
            },
            CmdView::Addassign(name, op) => if !st.globals.contains_key(name) {
                Err(InterpError::VariableNotDefined)
            } else {
                match st.globals[name] {
                    Value::Boolean(_) => Err(InterpError::TypeMismatch),
                    Value::Number(cur) => match eval_op(op, active_scope(st), st.q) {
                        Ok(Value::Number(inc)) => if micro_wf(cur.as_int() + inc.as_int()) {
                            Ok(
                                SState {
                                    globals: st.globals.insert(
                                        name,
                                        Value::Number(
                                            Num { micro: (cur.as_int() + inc.as_int()) as i64 },
                                        ),
                                    ),
                                    ..st
                                },
                            )
                        } else {
                            Err(InterpError::Overflow)
                        },
                        Ok(Value::Boolean(_)) => Err(InterpError::TypeMismatch),
                        Err(e) => Err(e),
                    },
                }
            },
            CmdView::If(cond, body) => match eval_op(cond, active_scope(st), st.q) {
                Ok(Value::Boolean(true)) => exec_block(body, procs, st, (fuel - 1) as nat),
                Ok(Value::Boolean(false)) => Ok(st),
                Ok(Value::Number(_)) => Err(InterpError::TypeMismatch),
                Err(e) => Err(e),
            },
            CmdView::While(cond, body) => match eval_op(cond, active_scope(st), st.q) {
                Ok(Value::Boolean(false)) => Ok(st),
                Ok(Value::Boolean(true)) => match exec_block(
                    body,
                    procs,
                    st,
                    (fuel - 1) as nat,
                ) {
                    Ok(st2) => exec_cmd(c, procs, st2, (fuel - 1) as nat),
                    Err(e) => Err(e),
                },
                Ok(Value::Number(_)) => Err(InterpError::TypeMismatch),
                Err(e) => Err(e),
            },
            CmdView::Procedure(name, args) => if !procs.contains_key(name) {
                Err(InterpError::ProcedureNotFound)
            } else {
                let p = procs[name];
                if p.params.len() != args.len() {
                    Err(InterpError::ParamCountMismatch)
                } else {
                    match eval_args(args, active_scope(st), st.q) {
                        Ok(vals) => {
                            let frame = bind_params(p.params, vals);
                            let entered = SState {
                                locals: frame,
                                in_proc: true,
                                ..st
                            };
                            match exec_block(p.body, procs, entered, (fuel - 1) as nat) {
                                Ok(st2) => Ok(
                                    SState {
                                        locals: st.locals,
                                        in_proc: st.in_proc,
                                        ..st2
                                    },
                                ),
                                Err(e) => Err(e),
                            }
                        },
                        Err(e) => Err(e),
                    }
                }
            },
        }
    }
}

/// What a command sequence does: each command in order, stopping at the
/// first error.
pub open spec fn exec_block(
    cmds: Seq<CmdView>,
    procs: Map<Seq<char>, ProcView>,
    st: SState,
    fuel: nat,
) -> Result<SState, InterpError>
    decreases fuel, 1nat, cmds.len(),
{
    if cmds.len() == 0 {
        Ok(st)
    } else {
        match exec_cmd(cmds[0], procs, st, fuel) {
            Ok(st2) => exec_block(cmds.drop_first(), procs, st2, fuel),
            Err(e) => Err(e),
        }
    }
}

} // verus!
