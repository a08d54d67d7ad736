//! An interactive RPN calculator core in the style of classic Unix `dc`.
//!
//! The crate holds the command interpreter itself: a radix-aware numeric
//! literal lexer, the stack and register data structures, and the
//! character-dispatch state machine that executes arithmetic, stack and
//! register commands.  Values are abstracted behind the [`value::Numeric`]
//! trait, so the data structures and the dispatch logic are verified for any
//! value type; a host program instantiates them with its concrete number type
//! and performs the actual arithmetic and I/O.

pub mod calculator;
pub mod errors;
pub mod interp;
pub mod lexer;
pub mod output;
pub mod registers;
pub mod render;
pub mod stack;
pub mod value;
