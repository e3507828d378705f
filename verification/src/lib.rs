//! A small embeddable scripting runtime: its value model, its call frames and
//! the bytecode evaluator that runs on them.
//!
//! The values are in `number`, `primitive`, `table` and `value`; `convert`
//! and `conversions` turn whole numbers into numbers and back. `semantics`
//! says what each instruction does to a state, as plain mathematics;
//! `bytecode` holds the machine that does it, and `frame` the part of it
//! that works on one call frame. `builtins` and `native` serve the host.

pub mod builtins;
pub mod bytecode;
pub mod context;
pub mod conversions;
pub mod convert;
pub mod data_type;
pub mod frame;
pub mod item;
pub mod native;
pub mod number;
pub mod ops;
pub mod primitive;
pub mod semantics;
pub mod table;
pub mod types;
pub mod value;
pub mod vars;

pub use bytecode::Program;
pub use context::Context;
pub use number::Number;
pub use primitive::Primitive;
pub use table::Table;
pub use types::Type;
pub use types::TypeOf;
pub use value::Value;
