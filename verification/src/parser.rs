//! Command-line parsing and expression evaluation.
//!
//! `parse_operation` is the expression evaluator: it walks a compiled
//! expression tree against the active scope and the live turtle state.
//! `parse_command` turns one statement line into a leaf command.
use crate::commands::{CmdView, Command};
use crate::num::Num;
use crate::operations::{leaf_of, parse_leaf, OpView, Operation, Query};
use crate::scope::{ProcTable, ProcView, Scope};
use crate::semantics::{eval_op, query_value};
use crate::text::{split_tokens, str_eq, tokenize};
use crate::utils::{compile_rpn, extract_operations, strs_view, QueriesStruct};
use crate::value::{
    value_add, value_and, value_div, value_eq, value_gt, value_lt, value_mul, value_ne, value_or,
    value_sub, InterpError, Value,
};
use vstd::prelude::*;

verus! {

/// The leaves a procedure call's argument tokens denote, left to right;
/// the first bad token wins.
pub open spec fn leaves_from(args: Seq<Seq<char>>, i: int) -> Result<Seq<OpView>, InterpError>
    decreases args.len() - i,
{
    if !(0 <= i < args.len()) {
        Ok(Seq::empty())
    } else {
        match leaf_of(args[i]) {
            Ok(l) => match leaves_from(args, i + 1) {
                Ok(rest) => Ok(seq![l] + rest),
                Err(e) => Err(e),
            },
            Err(e) => Err(e),
        }
    }
}

proof fn lemma_leaves_prefix(args: Seq<Seq<char>>, i: int)
    requires
        0 <= i <= args.len(),
        forall|k: int| 0 <= k < i ==> leaf_of(#[trigger] args[k]) is Ok,
    ensures
        match leaves_from(args, i) {
            Ok(rest) => leaves_from(args, 0) matches Ok(all) && all == Seq::new(
                i as nat,
                |k: int| leaf_of(args[k])->Ok_0,
            ) + rest,
            Err(e) => leaves_from(args, 0) == Err::<Seq<OpView>, InterpError>(e),
        },
    decreases i,
{
    if i > 0 {
        lemma_leaves_prefix_step(args, i - 1);
        lemma_leaves_prefix(args, i - 1);
        match leaves_from(args, i) {
            Ok(rest) => {
                let l = leaf_of(args[i - 1])->Ok_0;
                assert(leaves_from(args, i - 1) == Ok::<Seq<OpView>, InterpError>(
                    seq![l] + rest,
                ));
                let prev = Seq::new((i - 1) as nat, |k: int| leaf_of(args[k])->Ok_0);
                let cur = Seq::new(i as nat, |k: int| leaf_of(args[k])->Ok_0);
                assert(leaves_from(args, 0) matches Ok(all) && all == prev + (seq![l] + rest));
                assert(prev + (seq![l] + rest) =~= cur + rest);
            },
            Err(e) => {
                assert(leaves_from(args, i - 1) == Err::<Seq<OpView>, InterpError>(e));
            },
        }
    } else {
        match leaves_from(args, 0) {
            Ok(rest) => {
                assert(Seq::new(0, |k: int| leaf_of(args[k])->Ok_0) + rest =~= rest);
            },
            Err(_) => {
            },
        }
    }
}

proof fn lemma_leaves_prefix_step(args: Seq<Seq<char>>, i: int)
    requires
        0 <= i < args.len(),
    ensures
        leaves_from(args, i) == (match leaf_of(args[i]) {
            Ok(l) => match leaves_from(args, i + 1) {
                Ok(rest) => Ok::<Seq<OpView>, InterpError>(seq![l] + rest),
                Err(e) => Err(e),
            },
            Err(e) => Err(e),
        }),
{
}

/// What a statement line means, given the procedures known so far:
/// a pen or movement command, an assignment, or a call to a registered
/// procedure with one leaf argument per word.  An assignment's name must
/// be a quoted word: an unquoted name would create a binding no variable
/// reference could ever reach, so it is rejected here instead.
pub open spec fn parse_command_spec(
    tokens: Seq<Seq<char>>,
    procs: Map<Seq<char>, ProcView>,
) -> Result<CmdView, InterpError> {
    if tokens.len() == 0 {
        Err(InterpError::InvalidCommand)
    } else {
        let t0 = tokens[0];
        if (t0 == "PENUP"@ || t0 == "PENDOWN"@) && tokens.len() == 1 {
            if t0 == "PENUP"@ {
                Ok(CmdView::Penup)
            } else {
                Ok(CmdView::Pendown)
            }
        } else if is_unary_keyword(t0) && tokens.len() > 1 {
            match compile_rpn(tokens.drop_first()) {
                Ok(op) => Ok(unary_command(t0, op)),
                Err(e) => Err(e),
            }
        } else if (t0 == "MAKE"@ || t0 == "ADDASSIGN"@) && tokens.len() > 2 {
            let name_tok = tokens[1];
            if !(name_tok.len() > 0 && name_tok[0] == '"') {
                Err(InterpError::InvalidCommand)
            } else {
                match compile_rpn(tokens.subrange(2, tokens.len() as int)) {
                    Ok(op) => if t0 == "MAKE"@ {
                        Ok(CmdView::Make(name_tok.drop_first(), op))
                    } else {
                        Ok(CmdView::Addassign(name_tok.drop_first(), op))
                    },
                    Err(e) => Err(e),
                }
            }
        } else if procs.contains_key(t0) {
            let args = tokens.drop_first();
            if args.len() != procs[t0].params.len() {
                Err(InterpError::ParamCountMismatch)
            } else {
                match leaves_from(args, 0) {
                    Ok(ls) => Ok(CmdView::Procedure(t0, ls)),
                    Err(e) => Err(e),
                }
            }
        } else {
            Err(InterpError::InvalidCommand)
        }
    }
}

/// The movement, pen-color, heading and coordinate keywords, which take
/// one operand expression.
pub open spec fn is_unary_keyword(t: Seq<char>) -> bool {
    t == "FORWARD"@ || t == "BACK"@ || t == "RIGHT"@ || t == "LEFT"@ || t == "SETPENCOLOR"@ || t
        == "TURN"@ || t == "SETHEADING"@ || t == "SETX"@ || t == "SETY"@
}

/// The command a one-operand keyword builds.
pub open spec fn unary_command(t: Seq<char>, op: OpView) -> CmdView {
    if t == "FORWARD"@ {
        CmdView::Forward(op)
    } else if t == "BACK"@ {
        CmdView::Back(op)
    } else if t == "RIGHT"@ {
        CmdView::Right(op)
    } else if t == "LEFT"@ {
        CmdView::Left(op)
    } else if t == "SETPENCOLOR"@ {
        CmdView::Setpencolor(op)
    } else if t == "TURN"@ {
        CmdView::Turn(op)
    } else if t == "SETHEADING"@ {
        CmdView::Setheading(op)
    } else if t == "SETX"@ {
        CmdView::Setx(op)
    } else {
        CmdView::Sety(op)
    }
}

/// Turns one statement line into a command, using the procedures known
/// so far for call recognition and arity checking.
pub fn parse_command(line: &str, dummy_procedures: &ProcTable) -> (r: Result<
    Command,
    InterpError,
>)
    requires
        dummy_procedures.wf(),
    ensures
        match r {
            Ok(c) => parse_command_spec(tokenize(line@), dummy_procedures@) == Ok::<
                CmdView,
                InterpError,
            >(c@),
            Err(e) => parse_command_spec(tokenize(line@), dummy_procedures@) == Err::<
                CmdView,
                InterpError,
            >(e),
        },
{
    let parts = split_tokens(line);
    let ghost toks = tokenize(line@);
    parse_command_parts(&parts, dummy_procedures)
}

/// The token-level body of [`parse_command`].
pub(crate) fn parse_command_parts(parts: &Vec<String>, dummy_procedures: &ProcTable) -> (r: Result<
    Command,
    InterpError,
>)
    requires
        dummy_procedures.wf(),
    ensures
        match r {
            Ok(c) => parse_command_spec(parts.deep_view(), dummy_procedures@) == Ok::<
                CmdView,
                InterpError,
            >(c@),
            Err(e) => parse_command_spec(parts.deep_view(), dummy_procedures@) == Err::<
                CmdView,
                InterpError,
            >(e),
        },
{
    let ghost toks = parts.deep_view();
    let n = parts.len();
    if n == 0 {
        return Err(InterpError::InvalidCommand);
    }
    let t0 = parts[0].as_str();
    proof {
        assert(toks[0] == parts@[0]@);
    }
    let pen_up = str_eq(t0, "PENUP");
    let pen_down = str_eq(t0, "PENDOWN");
    if (pen_up || pen_down) && n == 1 {
        return if pen_up {
            Ok(Command::Penup)
        } else {
            Ok(Command::Pendown)
        };
    }
    if n > 1 && (str_eq(t0, "FORWARD") || str_eq(t0, "BACK") || str_eq(t0, "RIGHT") || str_eq(
        t0,
        "LEFT",
    ) || str_eq(t0, "SETPENCOLOR") || str_eq(t0, "TURN") || str_eq(t0, "SETHEADING") || str_eq(
        t0,
        "SETX",
    ) || str_eq(t0, "SETY")) {
        let rest = tail_refs(parts, 1);
        let expr = match extract_operations(rest.as_slice()) {
            Ok(op) => op,
            Err(e) => {
                proof {
                    assert(strs_view(rest@) =~= toks.drop_first());
                }
                return Err(e);
            },
        };
        proof {
            assert(strs_view(rest@) =~= toks.drop_first());
        }
        return Ok(
            if str_eq(t0, "FORWARD") {
                Command::Forward(expr)
            } else if str_eq(t0, "BACK") {
                Command::Back(expr)
            } else if str_eq(t0, "RIGHT") {
                Command::Right(expr)
            } else if str_eq(t0, "LEFT") {
                Command::Left(expr)
            } else if str_eq(t0, "SETPENCOLOR") {
                Command::Setpencolor(expr)
            } else if str_eq(t0, "TURN") {
                Command::Turn(expr)
            } else if str_eq(t0, "SETHEADING") {
                Command::Setheading(expr)
            } else if str_eq(t0, "SETX") {
                Command::Setx(expr)
            } else {
                Command::Sety(expr)
            },
        );
    }
    let is_make = str_eq(t0, "MAKE");
    let is_addassign = str_eq(t0, "ADDASSIGN");
    if (is_make || is_addassign) && n > 2 {
        let name_tok = parts[1].as_str();
        let m = name_tok.unicode_len();
        proof {
            assert(toks[1] == parts@[1]@);
        }
        if !(m > 0 && name_tok.get_char(0) == '"') {
            return Err(InterpError::InvalidCommand);
        }
        let name = name_tok.substring_char(1, m).to_owned();
        proof {
            assert(name@ =~= toks[1].drop_first());
        }
        let rest = tail_refs(parts, 2);
        let expr = match extract_operations(rest.as_slice()) {
            Ok(op) => op,
            Err(e) => {
                proof {
                    assert(strs_view(rest@) =~= toks.subrange(2, toks.len() as int));
                }
                return Err(e);
            },
        };
        proof {
            assert(strs_view(rest@) =~= toks.subrange(2, toks.len() as int));
        }
        return if is_make {
            Ok(Command::Make(name, expr))
        } else {
            Ok(Command::Addassign(name, expr))
        };
    }
    match dummy_procedures.get(t0) {
        Some(p) => {
            let argc = n - 1;
            if argc != p.args.len() {
                return Err(InterpError::ParamCountMismatch);
            }
            let ghost args_toks = toks.drop_first();
            proof {
                assert(parse_command_spec(toks, dummy_procedures@) == (match leaves_from(
                    args_toks,
                    0,
                ) {
                    Ok(ls) => Ok::<CmdView, InterpError>(CmdView::Procedure(toks[0], ls)),
                    Err(e) => Err::<CmdView, InterpError>(e),
                }));
            }
            let mut args: Vec<Operation> = Vec::new();
            let mut i: usize = 1;
            while i < n
                invariant
                    1 <= i <= n,
                    n == parts@.len(),
                    toks == parts.deep_view(),
                    args_toks == toks.drop_first(),
                    parse_command_spec(toks, dummy_procedures@) == (match leaves_from(
                        args_toks,
                        0,
                    ) {
                        Ok(ls) => Ok::<CmdView, InterpError>(CmdView::Procedure(toks[0], ls)),
                        Err(e) => Err::<CmdView, InterpError>(e),
                    }),
                    args.deep_view() == Seq::new(
                        (i - 1) as nat,
                        |k: int| leaf_of(args_toks[k])->Ok_0,
                    ),
                    forall|k: int| 0 <= k < i - 1 ==> leaf_of(#[trigger] args_toks[k]) is Ok,
                decreases n - i,
            {
                proof {
                    assert(args_toks[i - 1] == toks[i as int]);
                    assert(toks[i as int] == parts@[i as int]@);
                }
                match parse_leaf(parts[i].as_str()) {
                    Ok(l) => {
                        let ghost old_args = args.deep_view();
                        args.push(l);
                        proof {
                            assert(args.deep_view() =~= old_args.push(
                                leaf_of(args_toks[i - 1])->Ok_0,
                            ));
                            assert(args.deep_view() =~= Seq::new(
                                i as nat,
                                |k: int| leaf_of(args_toks[k])->Ok_0,
                            ));
                        }
                    },
                    Err(e) => {
                        proof {
                            lemma_leaves_prefix(args_toks, i as int - 1);
                            assert(leaves_from(args_toks, i as int - 1) == Err::<
                                Seq<OpView>,
                                InterpError,
                            >(e));
                        }
                        return Err(e);
                    },
                }
                i = i + 1;
            }
            proof {
                lemma_leaves_prefix(args_toks, args_toks.len() as int);
                assert(leaves_from(args_toks, args_toks.len() as int) == Ok::<
                    Seq<OpView>,
                    InterpError,
                >(Seq::empty()));
                assert(Seq::new(args_toks.len(), |k: int| leaf_of(args_toks[k])->Ok_0)
                    + Seq::<OpView>::empty() =~= args.deep_view());
            }
            let name = t0.to_owned();
            Ok(Command::Procedure(name, args))
        },
        None => Err(InterpError::InvalidCommand),
    }
}

/// The suffix of `parts` from `from` on, as borrowed slices.
fn tail_refs<'a>(parts: &'a Vec<String>, from: usize) -> (r: Vec<&'a str>)
    requires
        from <= parts@.len(),
    ensures
        strs_view(r@) == parts.deep_view().subrange(from as int, parts.deep_view().len() as int),
{
    let n = parts.len();
    let mut out: Vec<&str> = Vec::new();
    let mut i = from;
    while i < n
        invariant
            from <= i <= n,
            n == parts@.len(),
            out@.len() == i - from,
            forall|k: int| 0 <= k < i - from ==> (#[trigger] out@[k])@ == parts@[from + k]@,
        decreases n - i,
    {
        out.push(parts[i].as_str());
        i = i + 1;
    }
    proof {
        assert(strs_view(out@) =~= parts.deep_view().subrange(
            from as int,
            parts.deep_view().len() as int,
        ));
    }
    out
}

/// What `parse_boolean` reads from a token: `TRUE`, `FALSE`, or an error.
pub open spec fn spec_parse_boolean(t: Seq<char>) -> Result<bool, InterpError> {
    if t == "TRUE"@ {
        Ok(true)
    } else if t == "FALSE"@ {
        Ok(false)
    } else {
        Err(InterpError::TypeMismatch)
    }
}

/// Reads a bare boolean word.
pub fn parse_boolean(value: &str) -> (r: Result<bool, InterpError>)
    ensures
        r == spec_parse_boolean(value@),
{
    if crate::text::str_eq(value, "TRUE") {
        Ok(true)
    } else if crate::text::str_eq(value, "FALSE") {
        Ok(false)
    } else {
        Err(InterpError::TypeMismatch)
    }
}

/// Evaluates an expression tree in the given scope against the live
/// turtle state.  Returns exactly what the functional model returns.
pub fn parse_operation(
    operation: &Operation,
    variable_table: &Scope,
    queries: &QueriesStruct,
) -> (r: Result<Value, InterpError>)
    requires
        variable_table.wf(),
        queries.wf(),
    ensures
        r == eval_op(operation@, variable_table@, *queries),
    decreases *operation,
{
    match operation {
        Operation::Literal(v) => Ok(*v),
        Operation::Variable(name) => match variable_table.get(name.as_str()) {
            Some(v) => Ok(v),
            None => Err(InterpError::UndefinedVariable),
        },
        Operation::Query(k) => {
            let v = match k {
                Query::Xcor => Num::from_int(queries.xcor),
                Query::Ycor => Num::from_int(queries.ycor),
                Query::Heading => Num::from_int(queries.heading),
                Query::Color => Num::from_int(queries.color as i32),
            };
            proof {
                assert(Value::Number(v) == query_value(*k, *queries));
            }
            Ok(Value::Number(v))
        },
        Operation::Add(a, b) => match parse_operation(a, variable_table, queries) {
            Ok(l) => match parse_operation(b, variable_table, queries) {
                Ok(r) => value_add(l, r),
                Err(e) => Err(e),
            },
            Err(e) => Err(e),
        },
        Operation::Subtract(a, b) => match parse_operation(a, variable_table, queries) {
            Ok(l) => match parse_operation(b, variable_table, queries) {
                Ok(r) => value_sub(l, r),
                Err(e) => Err(e),
            },
            Err(e) => Err(e),
        },
        Operation::Multiply(a, b) => match parse_operation(a, variable_table, queries) {
            Ok(l) => match parse_operation(b, variable_table, queries) {
                Ok(r) => value_mul(l, r),
                Err(e) => Err(e),
            },
            Err(e) => Err(e),
        },
        Operation::Divide(a, b) => match parse_operation(a, variable_table, queries) {
            Ok(l) => match parse_operation(b, variable_table, queries) {
                Ok(r) => value_div(l, r),
                Err(e) => Err(e),
            },
            Err(e) => Err(e),
        },
        Operation::Equal(a, b) => match parse_operation(a, variable_table, queries) {
            Ok(l) => match parse_operation(b, variable_table, queries) {
                Ok(r) => value_eq(l, r),
                Err(e) => Err(e),
            },
            Err(e) => Err(e),
        },
        Operation::Notequal(a, b) => match parse_operation(a, variable_table, queries) {
            Ok(l) => match parse_operation(b, variable_table, queries) {
                Ok(r) => value_ne(l, r),
                Err(e) => Err(e),
            },
            Err(e) => Err(e),
        },
        Operation::Greaterthan(a, b) => match parse_operation(a, variable_table, queries) {
            Ok(l) => match parse_operation(b, variable_table, queries) {
                Ok(r) => value_gt(l, r),
                Err(e) => Err(e),
            },
            Err(e) => Err(e),
        },
        Operation::Lessthan(a, b) => match parse_operation(a, variable_table, queries) {
            Ok(l) => match parse_operation(b, variable_table, queries) {
                Ok(r) => value_lt(l, r),
                Err(e) => Err(e),
            },
            Err(e) => Err(e),
        },
        Operation::And(a, b) => match parse_operation(a, variable_table, queries) {
            Ok(l) => match parse_operation(b, variable_table, queries) {
                Ok(r) => value_and(l, r),
                Err(e) => Err(e),
            },
            Err(e) => Err(e),
        },
        Operation::Or(a, b) => match parse_operation(a, variable_table, queries) {
            Ok(l) => match parse_operation(b, variable_table, queries) {
                Ok(r) => value_or(l, r),
                Err(e) => Err(e),
            },
            Err(e) => Err(e),
        },
    }
}

} // verus!
