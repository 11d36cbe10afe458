//! Expression trees and their mathematical view.
//!
//! An [`Operation`] is an expression compiled from a postfix token sequence:
//! a leaf (a literal, a variable reference, or a turtle query) or one of ten
//! binary operators.  Contracts speak of expressions through [`OpView`],
//! which carries names as character sequences.
use crate::value::Value;
use vstd::prelude::*;

verus! {

/// A turtle-state query usable as an expression leaf.
#[derive(Debug, Clone, Copy, PartialEq, Eq, Structural)]
pub enum Query {
    Xcor,
    Ycor,
    Heading,
    Color,
}

/// An expression: a leaf or a binary operator over two subexpressions.
#[derive(Debug)]
pub enum Operation {
    Literal(Value),
    Variable(String),
    Query(Query),
    Add(Box<Operation>, Box<Operation>),
    Subtract(Box<Operation>, Box<Operation>),
    Multiply(Box<Operation>, Box<Operation>),
    Divide(Box<Operation>, Box<Operation>),
    Equal(Box<Operation>, Box<Operation>),
    Notequal(Box<Operation>, Box<Operation>),
    Greaterthan(Box<Operation>, Box<Operation>),
    Lessthan(Box<Operation>, Box<Operation>),
    And(Box<Operation>, Box<Operation>),
    Or(Box<Operation>, Box<Operation>),
}

/// The ghost mirror of [`Operation`].
pub enum OpView {
    Literal(Value),
    Variable(Seq<char>),
    Query(Query),
    Add(Box<OpView>, Box<OpView>),
    Subtract(Box<OpView>, Box<OpView>),
    Multiply(Box<OpView>, Box<OpView>),
    Divide(Box<OpView>, Box<OpView>),
    Equal(Box<OpView>, Box<OpView>),
    Notequal(Box<OpView>, Box<OpView>),
    Greaterthan(Box<OpView>, Box<OpView>),
    Lessthan(Box<OpView>, Box<OpView>),
    And(Box<OpView>, Box<OpView>),
    Or(Box<OpView>, Box<OpView>),
}

impl View for Operation {
    type V = OpView;

    open spec fn view(&self) -> OpView
        decreases self,
    {
        match self {
            Operation::Literal(v) => OpView::Literal(*v),
            Operation::Variable(name) => OpView::Variable(name@),
            Operation::Query(q) => OpView::Query(*q),
            Operation::Add(a, b) => OpView::Add(Box::new((**a)@), Box::new((**b)@)),
            Operation::Subtract(a, b) => OpView::Subtract(Box::new((**a)@), Box::new((**b)@)),
            Operation::Multiply(a, b) => OpView::Multiply(Box::new((**a)@), Box::new((**b)@)),
            Operation::Divide(a, b) => OpView::Divide(Box::new((**a)@), Box::new((**b)@)),
            Operation::Equal(a, b) => OpView::Equal(Box::new((**a)@), Box::new((**b)@)),
            Operation::Notequal(a, b) => OpView::Notequal(Box::new((**a)@), Box::new((**b)@)),
            Operation::Greaterthan(a, b) => OpView::Greaterthan(
                Box::new((**a)@),
                Box::new((**b)@),
            ),
            Operation::Lessthan(a, b) => OpView::Lessthan(Box::new((**a)@), Box::new((**b)@)),
            Operation::And(a, b) => OpView::And(Box::new((**a)@), Box::new((**b)@)),
            Operation::Or(a, b) => OpView::Or(Box::new((**a)@), Box::new((**b)@)),
        }
    }
}

impl DeepView for Operation {
    type V = OpView;

    open spec fn deep_view(&self) -> OpView {
        self.view()
    }
}

/// The ten binary operator tokens of the postfix notation.
#[derive(Debug, Clone, Copy, PartialEq, Eq, Structural)]
pub enum BinTag {
    Add,
    Subtract,
    Multiply,
    Divide,
    Equal,
    Notequal,
    Greaterthan,
    Lessthan,
    And,
    Or,
}

/// Which binary operator a token names, if any.
pub open spec fn tag_token(t: Seq<char>) -> Option<BinTag> {
    if t == "+"@ {
        Some(BinTag::Add)
    } else if t == "-"@ {
        Some(BinTag::Subtract)
    } else if t == "*"@ {
        Some(BinTag::Multiply)
    } else if t == "/"@ {
        Some(BinTag::Divide)
    } else if t == "EQ"@ {
        Some(BinTag::Equal)
    } else if t == "NE"@ {
        Some(BinTag::Notequal)
    } else if t == "GT"@ {
        Some(BinTag::Greaterthan)
    } else if t == "LT"@ {
        Some(BinTag::Lessthan)
    } else if t == "AND"@ {
        Some(BinTag::And)
    } else if t == "OR"@ {
        Some(BinTag::Or)
    } else {
        None
    }
}

/// The expression node an operator builds from its two operands.
pub open spec fn bin_node(tag: BinTag, l: OpView, r: OpView) -> OpView {
    match tag {
        BinTag::Add => OpView::Add(Box::new(l), Box::new(r)),
        BinTag::Subtract => OpView::Subtract(Box::new(l), Box::new(r)),
        BinTag::Multiply => OpView::Multiply(Box::new(l), Box::new(r)),
        BinTag::Divide => OpView::Divide(Box::new(l), Box::new(r)),
        BinTag::Equal => OpView::Equal(Box::new(l), Box::new(r)),
        BinTag::Notequal => OpView::Notequal(Box::new(l), Box::new(r)),
        BinTag::Greaterthan => OpView::Greaterthan(Box::new(l), Box::new(r)),
        BinTag::Lessthan => OpView::Lessthan(Box::new(l), Box::new(r)),
        BinTag::And => OpView::And(Box::new(l), Box::new(r)),
        BinTag::Or => OpView::Or(Box::new(l), Box::new(r)),
    }
}

/// Recognizes an operator token.
pub fn token_tag(t: &str) -> (r: Option<BinTag>)
    ensures
        r == tag_token(t@),
{
    if crate::text::str_eq(t, "+") {
        Some(BinTag::Add)
    } else if crate::text::str_eq(t, "-") {
        Some(BinTag::Subtract)
    } else if crate::text::str_eq(t, "*") {
        Some(BinTag::Multiply)
    } else if crate::text::str_eq(t, "/") {
        Some(BinTag::Divide)
    } else if crate::text::str_eq(t, "EQ") {
        Some(BinTag::Equal)
    } else if crate::text::str_eq(t, "NE") {
        Some(BinTag::Notequal)
    } else if crate::text::str_eq(t, "GT") {
        Some(BinTag::Greaterthan)
    } else if crate::text::str_eq(t, "LT") {
        Some(BinTag::Lessthan)
    } else if crate::text::str_eq(t, "AND") {
        Some(BinTag::And)
    } else if crate::text::str_eq(t, "OR") {
        Some(BinTag::Or)
    } else {
        None
    }
}

/// Builds the expression node an operator tag stands for.
pub fn make_bin(tag: BinTag, l: Operation, r: Operation) -> (res: Operation)
    ensures
        res@ == bin_node(tag, l@, r@),
{
    match tag {
        BinTag::Add => Operation::Add(Box::new(l), Box::new(r)),
        BinTag::Subtract => Operation::Subtract(Box::new(l), Box::new(r)),
        BinTag::Multiply => Operation::Multiply(Box::new(l), Box::new(r)),
        BinTag::Divide => Operation::Divide(Box::new(l), Box::new(r)),
        BinTag::Equal => Operation::Equal(Box::new(l), Box::new(r)),
        BinTag::Notequal => Operation::Notequal(Box::new(l), Box::new(r)),
        BinTag::Greaterthan => Operation::Greaterthan(Box::new(l), Box::new(r)),
        BinTag::Lessthan => Operation::Lessthan(Box::new(l), Box::new(r)),
        BinTag::And => Operation::And(Box::new(l), Box::new(r)),
        BinTag::Or => Operation::Or(Box::new(l), Box::new(r)),
    }
}

/// What an expression leaf token denotes: a quoted literal, a variable
/// reference, or a turtle query.
pub open spec fn leaf_of(t: Seq<char>) -> Result<OpView, crate::value::InterpError> {
    if t.len() > 0 && t[0] == '"' {
        if t.drop_first() == "TRUE"@ {
            Ok(OpView::Literal(crate::value::Value::Boolean(true)))
        } else if t.drop_first() == "FALSE"@ {
            Ok(OpView::Literal(crate::value::Value::Boolean(false)))
        } else {
            match crate::text::parse_num_micro(t.drop_first()) {
                Some(m) => Ok(
                    OpView::Literal(
                        crate::value::Value::Number(crate::num::Num { micro: m as i64 }),
                    ),
                ),
                None => Err(crate::value::InterpError::BadLiteral),
            }
        }
    } else if t.len() > 0 && t[0] == ':' {
        Ok(OpView::Variable(t.drop_first()))
    } else if t == "XCOR"@ {
        Ok(OpView::Query(Query::Xcor))
    } else if t == "YCOR"@ {
        Ok(OpView::Query(Query::Ycor))
    } else if t == "HEADING"@ {
        Ok(OpView::Query(Query::Heading))
    } else if t == "COLOR"@ {
        Ok(OpView::Query(Query::Color))
    } else {
        Err(crate::value::InterpError::UnexpectedValue)
    }
}

/// Reads an expression leaf token.
pub fn parse_leaf(t: &str) -> (r: Result<Operation, crate::value::InterpError>)
    ensures
        match r {
            Ok(op) => leaf_of(t@) == Ok::<OpView, crate::value::InterpError>(op@),
            Err(e) => leaf_of(t@) == Err::<OpView, crate::value::InterpError>(e),
        },
{
    let n = t.unicode_len();
    if n > 0 && t.get_char(0) == '"' {
        let rest = t.substring_char(1, n).to_owned();
        proof {
            assert(rest@ =~= t@.drop_first());
        }
        if crate::text::str_eq(rest.as_str(), "TRUE") {
            Ok(Operation::Literal(crate::value::Value::Boolean(true)))
        } else if crate::text::str_eq(rest.as_str(), "FALSE") {
            Ok(Operation::Literal(crate::value::Value::Boolean(false)))
        } else {
            match crate::text::parse_number_token(t, 1) {
                Some(v) => {
                    proof {
                        assert(t@.subrange(1, t@.len() as int) =~= t@.drop_first());
                    }
                    Ok(Operation::Literal(crate::value::Value::Number(v)))
                },
                None => {
                    proof {
                        assert(t@.subrange(1, t@.len() as int) =~= t@.drop_first());
                    }
                    Err(crate::value::InterpError::BadLiteral)
                },
            }
        }
    } else if n > 0 && t.get_char(0) == ':' {
        let name = t.substring_char(1, n).to_owned();
        proof {
            assert(name@ =~= t@.drop_first());
        }
        Ok(Operation::Variable(name))
    } else if crate::text::str_eq(t, "XCOR") {
        Ok(Operation::Query(Query::Xcor))
    } else if crate::text::str_eq(t, "YCOR") {
        Ok(Operation::Query(Query::Ycor))
    } else if crate::text::str_eq(t, "HEADING") {
        Ok(Operation::Query(Query::Heading))
    } else if crate::text::str_eq(t, "COLOR") {
        Ok(Operation::Query(Query::Color))
    } else {
        Err(crate::value::InterpError::UnexpectedValue)
    }
}

/// Every literal and every value an expression view can mention is
/// well-formed.
pub open spec fn op_wf(o: OpView) -> bool
    decreases o,
{
    match o {
        OpView::Literal(v) => v.wf(),
        OpView::Variable(_) => true,
        OpView::Query(_) => true,
        OpView::Add(a, b) => op_wf(*a) && op_wf(*b),
        OpView::Subtract(a, b) => op_wf(*a) && op_wf(*b),
        OpView::Multiply(a, b) => op_wf(*a) && op_wf(*b),
        OpView::Divide(a, b) => op_wf(*a) && op_wf(*b),
        OpView::Equal(a, b) => op_wf(*a) && op_wf(*b),
        OpView::Notequal(a, b) => op_wf(*a) && op_wf(*b),
        OpView::Greaterthan(a, b) => op_wf(*a) && op_wf(*b),
        OpView::Lessthan(a, b) => op_wf(*a) && op_wf(*b),
        OpView::And(a, b) => op_wf(*a) && op_wf(*b),
        OpView::Or(a, b) => op_wf(*a) && op_wf(*b),
    }
}

} // verus!
