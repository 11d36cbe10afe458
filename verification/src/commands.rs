//! Commands and their mathematical view.
//!
//! A [`Command`] is one statement of a script.  Control commands own their
//! block bodies outright, so a parsed script is a tree.  Contracts speak of
//! commands through [`CmdView`], which carries names as character sequences
//! and bodies as sequences of views.
use crate::operations::{OpView, Operation};
use vstd::prelude::*;

verus! {

broadcast use vstd::std_specs::vec::axiom_vec_index_decreases;

/// One statement: a pen or movement command, an assignment, a control
/// block, or a procedure call.
#[derive(Debug)]
pub enum Command {
    Penup,
    Pendown,
    Forward(Operation),
    Back(Operation),
    Left(Operation),
    Right(Operation),
    Setpencolor(Operation),
    Turn(Operation),
    Setheading(Operation),
    Setx(Operation),
    Sety(Operation),
    Make(String, Operation),
    Addassign(String, Operation),
    If(Operation, Vec<Command>),
    While(Operation, Vec<Command>),
    Procedure(String, Vec<Operation>),
}

/// The ghost mirror of [`Command`].
pub enum CmdView {
    Penup,
    Pendown,
    Forward(OpView),
    Back(OpView),
    Left(OpView),
    Right(OpView),
    Setpencolor(OpView),
    Turn(OpView),
    Setheading(OpView),
    Setx(OpView),
    Sety(OpView),
    Make(Seq<char>, OpView),
    Addassign(Seq<char>, OpView),
    If(OpView, Seq<CmdView>),
    While(OpView, Seq<CmdView>),
    Procedure(Seq<char>, Seq<OpView>),
}

/// The views of the commands of `v` from index `i` on.
pub open spec fn cmds_view_from(v: Vec<Command>, i: int) -> Seq<CmdView>
    decreases v, v.len() - i,
{
    if i < 0 || i >= v.len() {
        Seq::empty()
    } else {
        seq![v[i]@] + cmds_view_from(v, i + 1)
    }
}

/// The views of all commands of `v`.
pub open spec fn cmds_view(v: Vec<Command>) -> Seq<CmdView>
    decreases v, v.len() + 1,
{
    cmds_view_from(v, 0)
}

impl View for Command {
    type V = CmdView;

    open spec fn view(&self) -> CmdView
        decreases self,
    {
        match self {
            Command::Penup => CmdView::Penup,
            Command::Pendown => CmdView::Pendown,
            Command::Forward(o) => CmdView::Forward(o@),
            Command::Back(o) => CmdView::Back(o@),
            Command::Left(o) => CmdView::Left(o@),
            Command::Right(o) => CmdView::Right(o@),
            Command::Setpencolor(o) => CmdView::Setpencolor(o@),
            Command::Turn(o) => CmdView::Turn(o@),
            Command::Setheading(o) => CmdView::Setheading(o@),
            Command::Setx(o) => CmdView::Setx(o@),
            Command::Sety(o) => CmdView::Sety(o@),
            Command::Make(name, o) => CmdView::Make(name@, o@),
            Command::Addassign(name, o) => CmdView::Addassign(name@, o@),
            Command::If(c, body) => CmdView::If(c@, cmds_view(*body)),
            Command::While(c, body) => CmdView::While(c@, cmds_view(*body)),
            Command::Procedure(name, args) => CmdView::Procedure(name@, args.deep_view()),
        }
    }
}

pub proof fn lemma_cmds_view_len(v: Vec<Command>, i: int)
    requires
        0 <= i <= v.len(),
    ensures
        cmds_view_from(v, i).len() == v.len() - i,
        forall|k: int|
            i <= k < v.len() ==> cmds_view_from(v, i)[k - i] == #[trigger] (v[k]@),
    decreases v.len() - i,
{
    if i < v.len() {
        lemma_cmds_view_len(v, i + 1);
        assert(cmds_view_from(v, i) == seq![v[i]@] + cmds_view_from(v, i + 1));
        assert forall|k: int| i <= k < v.len() implies cmds_view_from(v, i)[k - i]
            == #[trigger] (v[k]@) by {
            if k == i {
                assert(cmds_view_from(v, i)[0] == v[i]@);
            } else {
                assert(cmds_view_from(v, i)[k - i] == cmds_view_from(v, i + 1)[k - i - 1]);
            }
        }
    } else {
        assert(cmds_view_from(v, i) == Seq::<CmdView>::empty());
    }
}

} // verus!
