//! A verified interpreter for a line-oriented, Logo-style turtle-graphics
//! language.
//!
//! The library turns a script of movement, drawing, arithmetic, control-flow
//! and procedure-definition statements into turtle state transitions and a
//! sequence of drawn line segments.  Parsing, expression compilation, block
//! matching and execution are verified against a functional model; only the
//! calls into the `unsvg` drawing surface are trusted.
pub mod canvas;
pub mod commands;
pub mod executer;
pub mod laws;
pub mod num;
pub mod operations;
pub mod parser;
pub mod scope;
pub mod semantics;
pub mod text;
pub mod utils;
pub mod value;

pub use canvas::{Canvas, Segment};
pub use commands::Command;
pub use executer::{execute_block, execute_command, run_program};
pub use num::Num;
pub use operations::Operation;
pub use parser::{parse_boolean, parse_operation};
pub use scope::{ProcTable, Procedure, Scope};
pub use utils::{Args, QueriesStruct};
pub use value::{InterpError, Value};
