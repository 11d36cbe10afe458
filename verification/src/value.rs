//! Runtime values and the error taxonomy.
//!
//! A value is a genuine tagged union of a fixed-point number and a boolean.
//! Every fallible step of parsing or execution reports one of the variants of
//! [`InterpError`]; no error is raised by panicking.
use crate::num::{micro_wf, mul_scaled, div_scaled, Num};
use vstd::prelude::*;

verus! {

/// A runtime value: a number or a boolean.
#[derive(Debug, Clone, Copy, PartialEq, Eq, Structural)]
pub enum Value {
    Number(Num),
    Boolean(bool),
}

impl Value {
    pub open spec fn wf(self) -> bool {
        match self {
            Value::Number(n) => n.wf(),
            Value::Boolean(_) => true,
        }
    }
}

/// Everything that can go wrong while parsing or running a script.
#[derive(Debug, Clone, Copy, PartialEq, Eq, Structural)]
pub enum InterpError {
    /// A command line does not match any command or known procedure,
    /// or carries the wrong number of operands.
    InvalidCommand,
    /// A procedure call names more or fewer arguments than the procedure
    /// has formal parameters.
    ParamCountMismatch,
    /// An `IF` line whose last token is not `[`.
    IfBlockStart,
    /// A `WHILE` line whose last token is not `[`.
    WhileBlockStart,
    /// A `[` block is never closed by a `]` line.
    MissingClosingBracket,
    /// A `TO` block is never closed by an `END` line.
    MissingEnd,
    /// A `]` or `END` line with no block open.
    UnexpectedClose,
    /// A `TO` line without a procedure name.
    ToArity,
    /// A quoted literal that is neither `TRUE`, `FALSE` nor a number.
    BadLiteral,
    /// A bare token that is neither an operator, a literal, a variable
    /// reference nor a query keyword.
    UnexpectedValue,
    /// A binary operator with fewer than two operands on the stack.
    MissingOperand,
    /// More than one operand left once all tokens are consumed.
    LeftoverOperands,
    /// A variable reference to a name absent from the active scope.
    UndefinedVariable,
    /// `ADDASSIGN` on a name absent from the global scope.
    VariableNotDefined,
    /// A call to a procedure absent from the procedure table.
    ProcedureNotFound,
    /// Division by zero.
    DivideByZero,
    /// A boolean where a number was expected, or the other way round.
    TypeMismatch,
    /// A fractional number where a whole one was expected.
    NotWhole,
    /// An arithmetic result or coordinate outside the representable range.
    Overflow,
    /// A pen colour outside the sixteen-entry palette.
    BadColor,
    /// The step budget ran out before the script finished.
    OutOfFuel,
}

impl InterpError {
    /// The report shown to the user for this error.
    pub fn message(&self) -> String {
        match self {
            InterpError::InvalidCommand => "Invalid command or wrong number of arguments"
                .to_owned(),
            InterpError::ParamCountMismatch => "Number of parameters does not match".to_owned(),
            InterpError::IfBlockStart => "IF expression does not start with [".to_owned(),
            InterpError::WhileBlockStart => "WHILE expression does not start with [".to_owned(),
            InterpError::MissingClosingBracket => "Expression Incomplete: lacking ]".to_owned(),
            InterpError::MissingEnd => "Expression Incomplete: lacking END".to_owned(),
            InterpError::UnexpectedClose => "Unexpected block terminator".to_owned(),
            InterpError::ToArity => "TO command has wrong number of arguments".to_owned(),
            InterpError::BadLiteral => "Unexpected value type".to_owned(),
            InterpError::UnexpectedValue => "BASE operation: Unexpected value".to_owned(),
            InterpError::MissingOperand => "Missing operand".to_owned(),
            InterpError::LeftoverOperands => "There are still some values in the stack".to_owned(),
            InterpError::UndefinedVariable => "BASE operation: Key error".to_owned(),
            InterpError::VariableNotDefined => "variable not defined".to_owned(),
            InterpError::ProcedureNotFound => "Procedure not found".to_owned(),
            InterpError::DivideByZero => "divide by 0".to_owned(),
            InterpError::TypeMismatch => "operand has the wrong type".to_owned(),
            InterpError::NotWhole => "expected a whole number".to_owned(),
            InterpError::Overflow => "number out of range".to_owned(),
            InterpError::BadColor => "Invalid color".to_owned(),
            InterpError::OutOfFuel => "step budget exhausted".to_owned(),
        }
    }
}

/// Sum of two values; numbers only.
pub open spec fn v_add(a: Value, b: Value) -> Result<Value, InterpError> {
    match (a, b) {
        (Value::Number(x), Value::Number(y)) => if micro_wf(x.as_int() + y.as_int()) {
            Ok(Value::Number(Num { micro: (x.as_int() + y.as_int()) as i64 }))
        } else {
            Err(InterpError::Overflow)
        },
        _ => Err(InterpError::TypeMismatch),
    }
}

/// Difference of two values; numbers only.
pub open spec fn v_sub(a: Value, b: Value) -> Result<Value, InterpError> {
    match (a, b) {
        (Value::Number(x), Value::Number(y)) => if micro_wf(x.as_int() - y.as_int()) {
            Ok(Value::Number(Num { micro: (x.as_int() - y.as_int()) as i64 }))
        } else {
            Err(InterpError::Overflow)
        },
        _ => Err(InterpError::TypeMismatch),
    }
}

/// Product of two values; numbers only.
pub open spec fn v_mul(a: Value, b: Value) -> Result<Value, InterpError> {
    match (a, b) {
        (Value::Number(x), Value::Number(y)) => if micro_wf(
            mul_scaled(x.as_int(), y.as_int()),
        ) {
            Ok(Value::Number(Num { micro: mul_scaled(x.as_int(), y.as_int()) as i64 }))
        } else {
            Err(InterpError::Overflow)
        },
        _ => Err(InterpError::TypeMismatch),
    }
}

/// Quotient of two values; numbers only, and the divisor must be nonzero.
pub open spec fn v_div(a: Value, b: Value) -> Result<Value, InterpError> {
    match (a, b) {
        (Value::Number(x), Value::Number(y)) => if y.as_int() == 0 {
            Err(InterpError::DivideByZero)
        } else if micro_wf(div_scaled(x.as_int(), y.as_int())) {
            Ok(Value::Number(Num { micro: div_scaled(x.as_int(), y.as_int()) as i64 }))
        } else {
            Err(InterpError::Overflow)
        },
        _ => Err(InterpError::TypeMismatch),
    }
}

/// Equality of two values of the same kind.
pub open spec fn v_eq(a: Value, b: Value) -> Result<Value, InterpError> {
    match (a, b) {
        (Value::Number(x), Value::Number(y)) => Ok(Value::Boolean(x.as_int() == y.as_int())),
        (Value::Boolean(x), Value::Boolean(y)) => Ok(Value::Boolean(x == y)),
        _ => Err(InterpError::TypeMismatch),
    }
}

/// Inequality of two values of the same kind.
pub open spec fn v_ne(a: Value, b: Value) -> Result<Value, InterpError> {
    match (a, b) {
        (Value::Number(x), Value::Number(y)) => Ok(Value::Boolean(x.as_int() != y.as_int())),
        (Value::Boolean(x), Value::Boolean(y)) => Ok(Value::Boolean(x != y)),
        _ => Err(InterpError::TypeMismatch),
    }
}

/// Strict order on numbers.
pub open spec fn v_lt(a: Value, b: Value) -> Result<Value, InterpError> {
    match (a, b) {
        (Value::Number(x), Value::Number(y)) => Ok(Value::Boolean(x.as_int() < y.as_int())),
        _ => Err(InterpError::TypeMismatch),
    }
}

/// Strict order on numbers.
pub open spec fn v_gt(a: Value, b: Value) -> Result<Value, InterpError> {
    match (a, b) {
        (Value::Number(x), Value::Number(y)) => Ok(Value::Boolean(x.as_int() > y.as_int())),
        _ => Err(InterpError::TypeMismatch),
    }
}

/// Conjunction of two booleans; both operands are always evaluated.
pub open spec fn v_and(a: Value, b: Value) -> Result<Value, InterpError> {
    match (a, b) {
        (Value::Boolean(x), Value::Boolean(y)) => Ok(Value::Boolean(x && y)),
        _ => Err(InterpError::TypeMismatch),
    }
}

/// Disjunction of two booleans; both operands are always evaluated.
pub open spec fn v_or(a: Value, b: Value) -> Result<Value, InterpError> {
    match (a, b) {
        (Value::Boolean(x), Value::Boolean(y)) => Ok(Value::Boolean(x || y)),
        _ => Err(InterpError::TypeMismatch),
    }
}

pub fn value_add(a: Value, b: Value) -> (r: Result<Value, InterpError>)
    ensures
        r == v_add(a, b),
        r matches Ok(v) ==> v.wf(),
{
    match (a, b) {
        (Value::Number(x), Value::Number(y)) => match x.checked_add(y) {
            Some(v) => Ok(Value::Number(v)),
            None => Err(InterpError::Overflow),
        },
        _ => Err(InterpError::TypeMismatch),
    }
}

pub fn value_sub(a: Value, b: Value) -> (r: Result<Value, InterpError>)
    ensures
        r == v_sub(a, b),
        r matches Ok(v) ==> v.wf(),
{
    match (a, b) {
        (Value::Number(x), Value::Number(y)) => match x.checked_sub(y) {
            Some(v) => Ok(Value::Number(v)),
            None => Err(InterpError::Overflow),
        },
        _ => Err(InterpError::TypeMismatch),
    }
}

pub fn value_mul(a: Value, b: Value) -> (r: Result<Value, InterpError>)
    ensures
        r == v_mul(a, b),
        r matches Ok(v) ==> v.wf(),
{
    match (a, b) {
        (Value::Number(x), Value::Number(y)) => match x.checked_mul(y) {
            Some(v) => Ok(Value::Number(v)),
            None => Err(InterpError::Overflow),
        },
        _ => Err(InterpError::TypeMismatch),
    }
}

pub fn value_div(a: Value, b: Value) -> (r: Result<Value, InterpError>)
    ensures
        r == v_div(a, b),
        r matches Ok(v) ==> v.wf(),
{
    match (a, b) {
        (Value::Number(x), Value::Number(y)) => if y.micro == 0 {
            Err(InterpError::DivideByZero)
        } else {
            match x.checked_div(y) {
                Some(v) => Ok(Value::Number(v)),
                None => Err(InterpError::Overflow),
            }
        },
        _ => Err(InterpError::TypeMismatch),
    }
}

pub fn value_eq(a: Value, b: Value) -> (r: Result<Value, InterpError>)
    ensures
        r == v_eq(a, b),
{
    match (a, b) {
        (Value::Number(x), Value::Number(y)) => Ok(Value::Boolean(x.micro == y.micro)),
        (Value::Boolean(x), Value::Boolean(y)) => Ok(Value::Boolean(x == y)),
        _ => Err(InterpError::TypeMismatch),
    }
}

pub fn value_ne(a: Value, b: Value) -> (r: Result<Value, InterpError>)
    ensures
        r == v_ne(a, b),
{
    match (a, b) {
        (Value::Number(x), Value::Number(y)) => Ok(Value::Boolean(x.micro != y.micro)),
        (Value::Boolean(x), Value::Boolean(y)) => Ok(Value::Boolean(x != y)),
        _ => Err(InterpError::TypeMismatch),
    }
}

pub fn value_lt(a: Value, b: Value) -> (r: Result<Value, InterpError>)
    ensures
        r == v_lt(a, b),
{
    match (a, b) {
        (Value::Number(x), Value::Number(y)) => Ok(Value::Boolean(x.micro < y.micro)),
        _ => Err(InterpError::TypeMismatch),
    }
}

pub fn value_gt(a: Value, b: Value) -> (r: Result<Value, InterpError>)
    ensures
        r == v_gt(a, b),
{
    match (a, b) {
        (Value::Number(x), Value::Number(y)) => Ok(Value::Boolean(x.micro > y.micro)),
        _ => Err(InterpError::TypeMismatch),
    }
}

pub fn value_and(a: Value, b: Value) -> (r: Result<Value, InterpError>)
    ensures
        r == v_and(a, b),
{
    match (a, b) {
        (Value::Boolean(x), Value::Boolean(y)) => Ok(Value::Boolean(x && y)),
        _ => Err(InterpError::TypeMismatch),
    }
}

pub fn value_or(a: Value, b: Value) -> (r: Result<Value, InterpError>)
    ensures
        r == v_or(a, b),
{
    match (a, b) {
        (Value::Boolean(x), Value::Boolean(y)) => Ok(Value::Boolean(x || y)),
        _ => Err(InterpError::TypeMismatch),
    }
}

} // verus!
