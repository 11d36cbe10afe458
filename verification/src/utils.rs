//! The turtle state, the program arguments, and the two extraction passes:
//! postfix tokens into an expression tree, and statement lines into a
//! command tree with a procedure table.
use crate::commands::{cmds_view, lemma_cmds_view_len, CmdView, Command};
use crate::operations::{
    bin_node, leaf_of, make_bin, parse_leaf, tag_token, token_tag, OpView, Operation,
};
use crate::parser::{parse_command_parts, parse_command_spec};
use crate::scope::{ProcTable, ProcView, Procedure};
use crate::text::{split_tokens, str_eq, tokenize};
use crate::value::InterpError;
use vstd::prelude::*;

verus! {

/// What ends the block being parsed: nothing (the whole script), a `]`
/// line, or an `END` line.
#[derive(Debug, Clone, Copy, PartialEq, Eq, Structural)]
pub enum Closer {
    TopLevel,
    Bracket,
    End,
}

/// The character sequences of a list of token slices.
pub open spec fn strs_view(s: Seq<&str>) -> Seq<Seq<char>> {
    Seq::new(s.len(), |i: int| s[i]@)
}

/// One step of the postfix scan: an operator pops its two operands — the
/// first popped is the left one — and pushes the node; anything else
/// pushes a leaf.
pub open spec fn rpn_step(stk: Seq<OpView>, t: Seq<char>) -> Result<Seq<OpView>, InterpError> {
    match tag_token(t) {
        Some(tag) => if stk.len() < 2 {
            Err(InterpError::MissingOperand)
        } else {
            Ok(
                stk.drop_last().drop_last().push(
                    bin_node(tag, stk.last(), stk[stk.len() - 2]),
                ),
            )
        },
        None => match leaf_of(t) {
            Ok(leaf) => Ok(stk.push(leaf)),
            Err(e) => Err(e),
        },
    }
}

/// The operand stack after scanning the tokens from index `i` on, right
/// to left.
pub open spec fn rpn_stack_from(tokens: Seq<Seq<char>>, i: int) -> Result<
    Seq<OpView>,
    InterpError,
>
    decreases tokens.len() - i,
{
    if !(0 <= i < tokens.len()) {
        Ok(Seq::empty())
    } else {
        match rpn_stack_from(tokens, i + 1) {
            Ok(stk) => rpn_step(stk, tokens[i]),
            Err(e) => Err(e),
        }
    }
}

/// The expression a postfix token sequence compiles to: the scan must
/// leave exactly one operand.
pub open spec fn compile_rpn(tokens: Seq<Seq<char>>) -> Result<OpView, InterpError> {
    match rpn_stack_from(tokens, 0) {
        Ok(stk) => if stk.len() == 1 {
            Ok(stk[0])
        } else {
            Err(InterpError::LeftoverOperands)
        },
        Err(e) => Err(e),
    }
}

proof fn lemma_rpn_err_propagates(tokens: Seq<Seq<char>>, i: int, j: int)
    requires
        0 <= i <= j,
        rpn_stack_from(tokens, j) is Err,
    ensures
        rpn_stack_from(tokens, i) == rpn_stack_from(tokens, j),
    decreases j - i,
{
    if i < j {
        lemma_rpn_err_propagates(tokens, i + 1, j);
    }
}

/// Compiles a postfix token sequence into an expression tree.
pub fn extract_operations(operations: &[&str]) -> (r: Result<Operation, InterpError>)
    ensures
        match r {
            Ok(op) => compile_rpn(strs_view(operations@)) == Ok::<OpView, InterpError>(op@),
            Err(e) => compile_rpn(strs_view(operations@)) == Err::<OpView, InterpError>(e),
        },
{
    let ghost toks = strs_view(operations@);
    let n = operations.len();
    let mut stack: Vec<Operation> = Vec::new();
    let mut j = n;
    proof {
        assert(stack.deep_view() =~= Seq::<OpView>::empty());
        assert(rpn_stack_from(toks, n as int) == Ok::<Seq<OpView>, InterpError>(Seq::empty()));
    }
    while j > 0
        invariant
            j <= n,
            n == operations@.len(),
            toks == strs_view(operations@),
            rpn_stack_from(toks, j as int) == Ok::<Seq<OpView>, InterpError>(stack.deep_view()),
        decreases j,
    {
        let token = operations[j - 1];
        proof {
            assert(toks[j - 1] == token@);
        }
        let ghost old_stack = stack.deep_view();
        match token_tag(token) {
            Some(tag) => {
                if stack.len() < 2 {
                    proof {
                        lemma_rpn_err_propagates(toks, 0, j as int - 1);
                    }
                    return Err(InterpError::MissingOperand);
                }
                let left = stack.pop().unwrap();
                let right = stack.pop().unwrap();
                let node = make_bin(tag, left, right);
                stack.push(node);
                proof {
                    assert(stack.deep_view() =~= old_stack.drop_last().drop_last().push(
                        bin_node(tag, old_stack.last(), old_stack[old_stack.len() - 2]),
                    ));
                }
            },
            None => {
                match parse_leaf(token) {
                    Ok(leaf) => {
                        stack.push(leaf);
                        proof {
                            assert(stack.deep_view() =~= old_stack.push(leaf@));
                        }
                    },
                    Err(e) => {
                        proof {
                            lemma_rpn_err_propagates(toks, 0, j as int - 1);
                        }
                        return Err(e);
                    },
                }
            },
        }
        j = j - 1;
    }
    if stack.len() == 1 {
        let op = stack.pop().unwrap();
        proof {
            assert(stack@.len() == 0);
        }
        Ok(op)
    } else {
        Err(InterpError::LeftoverOperands)
    }
}

/// The parameter names a `TO` line declares from token `i` on: each token
/// must be a quoted word, and the quote is stripped.  An unquoted formal
/// would be a binding no variable reference could ever reach, so it is
/// rejected here instead.
pub open spec fn param_names_from(toks: Seq<Seq<char>>, i: int) -> Result<
    Seq<Seq<char>>,
    InterpError,
>
    decreases toks.len() - i,
{
    if !(0 <= i < toks.len()) {
        Ok(Seq::empty())
    } else if !(toks[i].len() > 0 && toks[i][0] == '"') {
        Err(InterpError::InvalidCommand)
    } else {
        match param_names_from(toks, i + 1) {
            Ok(rest) => Ok(seq![toks[i].drop_first()] + rest),
            Err(e) => Err(e),
        }
    }
}

proof fn lemma_params_prefix(toks: Seq<Seq<char>>, from: int, i: int)
    requires
        0 <= from <= i <= toks.len(),
        forall|k: int|
            from <= k < i ==> (#[trigger] toks[k]).len() > 0 && toks[k][0] == '"',
    ensures
        match param_names_from(toks, i) {
            Ok(rest) => param_names_from(toks, from) matches Ok(all) && all == Seq::new(
                (i - from) as nat,
                |k: int| toks[from + k].drop_first(),
            ) + rest,
            Err(e) => param_names_from(toks, from) == Err::<Seq<Seq<char>>, InterpError>(e),
        },
    decreases i - from,
{
    if from < i {
        lemma_params_prefix(toks, from + 1, i);
        match param_names_from(toks, i) {
            Ok(rest) => {
                let tail = Seq::new((i - from - 1) as nat, |k: int| toks[from + 1 + k].drop_first());
                assert(param_names_from(toks, from + 1) matches Ok(all1) && all1 == tail + rest);
                assert(param_names_from(toks, from) matches Ok(all) && all == seq![
                    toks[from].drop_first(),
                ] + (tail + rest));
                assert(seq![toks[from].drop_first()] + (tail + rest) =~= Seq::new(
                    (i - from) as nat,
                    |k: int| toks[from + k].drop_first(),
                ) + rest);
            },
            Err(_) => {
            },
        }
    } else {
        match param_names_from(toks, i) {
            Ok(rest) => {
                assert(Seq::new(0, |k: int| toks[from + k].drop_first()) + rest =~= rest);
            },
            Err(_) => {
            },
        }
    }
}

/// Reads the parameter names of a `TO` line from token `from` on.
fn parse_params(parts: &Vec<String>, from: usize) -> (r: Result<Vec<String>, InterpError>)
    requires
        from <= parts@.len(),
    ensures
        match r {
            Ok(ps) => param_names_from(parts.deep_view(), from as int) == Ok::<
                Seq<Seq<char>>,
                InterpError,
            >(ps.deep_view()),
            Err(e) => param_names_from(parts.deep_view(), from as int) == Err::<
                Seq<Seq<char>>,
                InterpError,
            >(e),
        },
{
    let ghost toks = parts.deep_view();
    let n = parts.len();
    let mut out: Vec<String> = Vec::new();
    let mut i = from;
    while i < n
        invariant
            from <= i <= n,
            n == parts@.len(),
            toks == parts.deep_view(),
            out.deep_view() == Seq::new((i - from) as nat, |k: int| toks[from + k].drop_first()),
            forall|k: int|
                from <= k < i ==> (#[trigger] toks[k]).len() > 0 && toks[k][0] == '"',
        decreases n - i,
    {
        let t = parts[i].as_str();
        let m = t.unicode_len();
        proof {
            assert(toks[i as int] == parts@[i as int]@);
        }
        if !(m > 0 && t.get_char(0) == '"') {
            proof {
                lemma_params_prefix(toks, from as int, i as int);
            }
            return Err(InterpError::InvalidCommand);
        }
        let name = t.substring_char(1, m).to_owned();
        let ghost old_out = out.deep_view();
        out.push(name);
        proof {
            assert(name@ =~= toks[i as int].drop_first());
            assert(out.deep_view() =~= old_out.push(toks[i as int].drop_first()));
            assert(out.deep_view() =~= Seq::new(
                (i + 1 - from) as nat,
                |k: int| toks[from + k].drop_first(),
            ));
        }
        i = i + 1;
    }
    proof {
        lemma_params_prefix(toks, from as int, n as int);
        assert(param_names_from(toks, n as int) == Ok::<Seq<Seq<char>>, InterpError>(
            Seq::empty(),
        ));
        assert(Seq::new((n - from) as nat, |k: int| toks[from + k].drop_first())
            + Seq::<Seq<char>>::empty() =~= out.deep_view());
    }
    Ok(out)
}

/// What the block parser produces from the lines at `i` on, up to the
/// expected closer: the commands of the block, the index of the closing
/// line (or the length for the whole script), and the procedure table
/// grown by every `TO` definition seen.
pub open spec fn extract_spec(
    lines: Seq<Seq<char>>,
    i: int,
    closer: Closer,
    procs: Map<Seq<char>, ProcView>,
) -> Result<(Seq<CmdView>, int, Map<Seq<char>, ProcView>), InterpError>
    decreases lines.len() - i,
{
    if i < 0 {
        Err(InterpError::InvalidCommand)
    } else if i >= lines.len() {
        match closer {
            Closer::TopLevel => Ok((Seq::empty(), lines.len() as int, procs)),
            Closer::Bracket => Err(InterpError::MissingClosingBracket),
            Closer::End => Err(InterpError::MissingEnd),
        }
    } else {
        let toks = tokenize(lines[i]);
        if toks.len() > 0 && (toks[0] == "IF"@ || toks[0] == "WHILE"@) {
            let is_if = toks[0] == "IF"@;
            if toks.last() != "["@ {
                Err(
                    if is_if {
                        InterpError::IfBlockStart
                    } else {
                        InterpError::WhileBlockStart
                    },
                )
            } else {
                match extract_spec(lines, i + 1, Closer::Bracket, procs) {
                    Ok((body, j, procs2)) => match compile_rpn(
                        toks.subrange(1, toks.len() - 1),
                    ) {
                        Ok(cond) => if !(i < j && j + 1 <= lines.len()) {
                            Err(InterpError::MissingClosingBracket)
                        } else {
                            match extract_spec(lines, j + 1, closer, procs2) {
                                Ok((rest, k, procs3)) => Ok(
                                    (
                                        seq![
                                            if is_if {
                                                CmdView::If(cond, body)
                                            } else {
                                                CmdView::While(cond, body)
                                            },
                                        ] + rest,
                                        k,
                                        procs3,
                                    ),
                                ),
                                Err(e) => Err(e),
                            }
                        },
                        Err(e) => Err(e),
                    },
                    Err(e) => Err(e),
                }
            }
        } else if toks.len() > 0 && toks[0] == "]"@ {
            match closer {
                Closer::Bracket => Ok((Seq::empty(), i, procs)),
                _ => Err(InterpError::UnexpectedClose),
            }
        } else if toks.len() > 0 && toks[0] == "END"@ {
            match closer {
                Closer::End => Ok((Seq::empty(), i, procs)),
                _ => Err(InterpError::UnexpectedClose),
            }
        } else if toks.len() > 0 && toks[0] == "TO"@ {
            if toks.len() < 2 {
                Err(InterpError::ToArity)
            } else {
                let name = toks[1];
                match param_names_from(toks, 2) {
                    Ok(names) => {
                        let stub = ProcView { params: names, body: Seq::empty() };
                        match extract_spec(lines, i + 1, Closer::End, procs.insert(name, stub)) {
                            Ok((body, j, procs2)) => if !(i < j && j + 1 <= lines.len()) {
                                Err(InterpError::MissingEnd)
                            } else {
                                extract_spec(
                                    lines,
                                    j + 1,
                                    closer,
                                    procs2.insert(name, ProcView { params: names, body }),
                                )
                            },
                            Err(e) => Err(e),
                        }
                    },
                    Err(e) => Err(e),
                }
            }
        } else {
            match parse_command_spec(toks, procs) {
                Ok(cmd) => match extract_spec(lines, i + 1, closer, procs) {
                    Ok((rest, k, procs2)) => Ok((seq![cmd] + rest, k, procs2)),
                    Err(e) => Err(e),
                },
                Err(e) => Err(e),
            }
        }
    }
}

proof fn lemma_cmds_view_insert_front(v2: Vec<Command>, v1: Vec<Command>, c: Command)
    requires
        v2@ == v1@.insert(0, c),
    ensures
        cmds_view(v2) =~= seq![c@] + cmds_view(v1),
{
    lemma_cmds_view_len(v2, 0);
    lemma_cmds_view_len(v1, 0);
    assert(v2@.len() == v1@.len() + 1);
    assert(v2[0] == c);
    assert forall|k: int| 0 <= k < v1@.len() implies v2[k + 1] == v1[k] by {
        assert(v2@[k + 1] == v1@.insert(0, c)[k + 1]);
    }
    assert forall|m: int| 0 <= m < v2@.len() implies cmds_view(v2)[m] == (seq![c@] + cmds_view(
        v1,
    ))[m] by {
        if m == 0 {
            assert(cmds_view(v2)[0] == v2[0]@);
        } else {
            assert(cmds_view(v2)[m] == v2[m]@);
            assert(v2[m] == v1[m - 1]);
            assert(cmds_view(v1)[m - 1] == v1[m - 1]@);
        }
    }
}

/// The slices of `parts` between `from` and `to`.
fn range_refs<'a>(parts: &'a Vec<String>, from: usize, to: usize) -> (r: Vec<&'a str>)
    requires
        from <= to <= parts@.len(),
    ensures
        strs_view(r@) == parts.deep_view().subrange(from as int, to as int),
{
    let mut out: Vec<&str> = Vec::new();
    let mut i = from;
    while i < to
        invariant
            from <= i <= to <= parts@.len(),
            out@.len() == i - from,
            forall|k: int| 0 <= k < i - from ==> (#[trigger] out@[k])@ == parts@[from + k]@,
        decreases to - i,
    {
        out.push(parts[i].as_str());
        i = i + 1;
    }
    proof {
        assert(strs_view(out@) =~= parts.deep_view().subrange(from as int, to as int));
    }
    out
}

/// Parses the block starting at `start` until the expected closer,
/// registering every `TO` definition in the table.
#[verifier::rlimit(100)]
fn extract_block(
    lines: &Vec<&str>,
    start: usize,
    closer: Closer,
    dummy_procedures: &mut ProcTable,
) -> (r: Result<(Vec<Command>, usize), InterpError>)
    requires
        old(dummy_procedures).wf(),
    ensures
        final(dummy_procedures).wf(),
        match r {
            Ok((cmds, end)) => {
                &&& extract_spec(strs_view(lines@), start as int, closer, old(
                    dummy_procedures,
                )@) == Ok::<(Seq<CmdView>, int, Map<Seq<char>, ProcView>), InterpError>(
                    (cmds_view(cmds), end as int, final(dummy_procedures)@),
                )
                &&& (start <= lines@.len() ==> start <= end && end <= lines@.len())
            },
            Err(e) => extract_spec(strs_view(lines@), start as int, closer, old(
                dummy_procedures,
            )@) == Err::<(Seq<CmdView>, int, Map<Seq<char>, ProcView>), InterpError>(e),
        },
    decreases lines@.len() - start,
{
    let ghost lv = strs_view(lines@);
    let n = lines.len();
    if start >= n {
        return match closer {
            Closer::TopLevel => {
                let cmds: Vec<Command> = Vec::new();
                proof {
                    lemma_cmds_view_len(cmds, 0);
                    assert(cmds_view(cmds) =~= Seq::<CmdView>::empty());
                }
                Ok((cmds, n))
            },
            Closer::Bracket => Err(InterpError::MissingClosingBracket),
            Closer::End => Err(InterpError::MissingEnd),
        };
    }
    let parts = split_tokens(lines[start]);
    let ghost toks = tokenize(lv[start as int]);
    proof {
        assert(lv[start as int] == lines@[start as int]@);
        assert(parts.deep_view() == toks);
    }
    let np = parts.len();
    let is_if = np > 0 && str_eq(parts[0].as_str(), "IF");
    let is_while = np > 0 && str_eq(parts[0].as_str(), "WHILE");
    if is_if || is_while {
        proof {
            assert(toks[0] == parts@[0]@);
            assert(toks.last() == parts@[np - 1]@);
        }
        if !str_eq(parts[np - 1].as_str(), "[") {
            return Err(
                if is_if {
                    InterpError::IfBlockStart
                } else {
                    InterpError::WhileBlockStart
                },
            );
        }
        proof {
            reveal_strlit("IF");
            reveal_strlit("WHILE");
            reveal_strlit("[");
            assert(np >= 2);
        }
        let (body, j) = match extract_block(lines, start + 1, Closer::Bracket, dummy_procedures) {
            Ok(p) => p,
            Err(e) => {
                return Err(e);
            },
        };
        let cond_refs = range_refs(&parts, 1, np - 1);
        let cond = match extract_operations(cond_refs.as_slice()) {
            Ok(op) => op,
            Err(e) => {
                proof {
                    assert(strs_view(cond_refs@) =~= toks.subrange(1, toks.len() - 1));
                }
                return Err(e);
            },
        };
        proof {
            assert(strs_view(cond_refs@) =~= toks.subrange(1, toks.len() - 1));
        }
        if j >= n {
            return Err(InterpError::MissingClosingBracket);
        }
        let (rest, k) = match extract_block(lines, j + 1, closer, dummy_procedures) {
            Ok(p) => p,
            Err(e) => {
                return Err(e);
            },
        };
        let cmd = if is_if {
            Command::If(cond, body)
        } else {
            Command::While(cond, body)
        };
        let ghost rest_snapshot = rest;
        let mut cmds = rest;
        cmds.insert(0, cmd);
        proof {
            lemma_cmds_view_insert_front(cmds, rest_snapshot, cmd);
        }
        return Ok((cmds, k));
    }
    if np > 0 && str_eq(parts[0].as_str(), "]") {
        proof {
            assert(toks[0] == parts@[0]@);
        }
        return match closer {
            Closer::Bracket => {
                let cmds: Vec<Command> = Vec::new();
                proof {
                    lemma_cmds_view_len(cmds, 0);
                    assert(cmds_view(cmds) =~= Seq::<CmdView>::empty());
                }
                Ok((cmds, start))
            },
            _ => Err(InterpError::UnexpectedClose),
        };
    }
    if np > 0 && str_eq(parts[0].as_str(), "END") {
        proof {
            assert(toks[0] == parts@[0]@);
        }
        return match closer {
            Closer::End => {
                let cmds: Vec<Command> = Vec::new();
                proof {
                    lemma_cmds_view_len(cmds, 0);
                    assert(cmds_view(cmds) =~= Seq::<CmdView>::empty());
                }
                Ok((cmds, start))
            },
            _ => Err(InterpError::UnexpectedClose),
        };
    }
    if np > 0 && str_eq(parts[0].as_str(), "TO") {
        proof {
            assert(toks[0] == parts@[0]@);
        }
        if np < 2 {
            return Err(InterpError::ToArity);
        }
        proof {
            assert(toks[1] == parts@[1]@);
        }
        let params = match parse_params(&parts, 2) {
            Ok(ps) => ps,
            Err(e) => {
                return Err(e);
            },
        };
        let name = parts[1].as_str();
        let stub = Procedure { args: params, commands: Vec::new() };
        proof {
            lemma_cmds_view_len(stub.commands, 0);
            assert(cmds_view(stub.commands) =~= Seq::<CmdView>::empty());
        }
        dummy_procedures.insert(name, stub);
        let (body, j) = match extract_block(lines, start + 1, Closer::End, dummy_procedures) {
            Ok(p) => p,
            Err(e) => {
                return Err(e);
            },
        };
        if j >= n {
            return Err(InterpError::MissingEnd);
        }
        let params_again = match parse_params(&parts, 2) {
            Ok(ps) => ps,
            Err(_) => {
                // The first pass accepted the same tokens, so this pass
                // cannot fail; the table is left as it stands.
                return Err(InterpError::InvalidCommand);
            },
        };
        let full = Procedure { args: params_again, commands: body };
        dummy_procedures.insert(name, full);
        return extract_block(lines, j + 1, closer, dummy_procedures);
    }
    let cmd = match parse_command_parts(&parts, dummy_procedures) {
        Ok(c) => c,
        Err(e) => {
            return Err(e);
        },
    };
    let (rest, k) = match extract_block(lines, start + 1, closer, dummy_procedures) {
        Ok(p) => p,
        Err(e) => {
            return Err(e);
        },
    };
    let ghost rest_snapshot = rest;
    let mut cmds = rest;
    cmds.insert(0, cmd);
    proof {
        lemma_cmds_view_insert_front(cmds, rest_snapshot, cmd);
    }
    Ok((cmds, k))
}

/// Parses the whole line sequence from `start` on into a command list,
/// registering every procedure definition into the table.  Returns the
/// commands and the index one past the last line consumed.
pub fn extract_commands(
    lines: &Vec<&str>,
    start: usize,
    dummy_procedures: &mut ProcTable,
) -> (r: Result<(Vec<Command>, usize), InterpError>)
    requires
        old(dummy_procedures).wf(),
    ensures
        final(dummy_procedures).wf(),
        match r {
            Ok((cmds, end)) => extract_spec(strs_view(lines@), start as int, Closer::TopLevel, old(
                dummy_procedures,
            )@) == Ok::<(Seq<CmdView>, int, Map<Seq<char>, ProcView>), InterpError>(
                (cmds_view(cmds), end as int, final(dummy_procedures)@),
            ),
            Err(e) => extract_spec(strs_view(lines@), start as int, Closer::TopLevel, old(
                dummy_procedures,
            )@) == Err::<(Seq<CmdView>, int, Map<Seq<char>, ProcView>), InterpError>(e),
        },
{
    extract_block(lines, start, Closer::TopLevel, dummy_procedures)
}

/// The live turtle state that query leaves read.
///
/// `heading` is in degrees, clockwise from straight up, and is never
/// reduced modulo 360.  `color` indexes the sixteen-entry palette.  The
/// coordinates stay within the drawing surface's coordinate range.
#[derive(Debug, Clone, Copy, PartialEq, Eq, Structural)]
pub struct QueriesStruct {
    pub xcor: i32,
    pub ycor: i32,
    pub heading: i32,
    pub color: u32,
    pub is_pen_down: bool,
}

/// The widest canvas whose centre still lies in the surface's
/// coordinate range.
pub const MAX_CANVAS_DIM: u32 = 0x4000_0000;

impl QueriesStruct {
    pub open spec fn wf(self) -> bool {
        &&& self.color < 16
        &&& -crate::canvas::COORD_LIMIT <= self.xcor <= crate::canvas::COORD_LIMIT
        &&& -crate::canvas::COORD_LIMIT <= self.ycor <= crate::canvas::COORD_LIMIT
    }

    /// The initial turtle: centered, facing up, pen up, color seven.
    pub fn new(width: u32, height: u32) -> (r: QueriesStruct)
        requires
            width <= MAX_CANVAS_DIM,
            height <= MAX_CANVAS_DIM,
        ensures
            r.xcor == width / 2,
            r.ycor == height / 2,
            r.heading == 0,
            r.color == 7,
            !r.is_pen_down,
            r.wf(),
    {
        QueriesStruct {
            xcor: (width / 2) as i32,
            ycor: (height / 2) as i32,
            heading: 0,
            color: 7,
            is_pen_down: false,
        }
    }
}

/// The program's run parameters: where the script lives, where the image
/// goes, and the canvas size.
#[derive(Debug)]
pub struct Args {
    pub file_path: String,
    pub image_path: String,
    pub height: u32,
    pub width: u32,
}

} // verus!
