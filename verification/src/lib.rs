//! Verified core of the Neruda compiler front end: operators and their
//! precedence, expression trees built by precedence climbing, numeric
//! constant folding, literal decoding, primitive types, the type store and
//! substitution into it, name resolution and the import stage, and memory
//! layouts.

pub mod operator;
pub mod text;
pub mod span;
pub mod ast;
pub mod number;
pub mod parse;
pub mod reduce;
pub mod primitive;
pub mod layout;
pub mod init_state;
pub mod fib;
pub mod explorer;
pub mod digits;
pub mod literal;
pub mod types;
pub mod ir;
pub mod const_value;
pub mod lexing;
pub mod highlight;
pub mod objects;
pub mod value_eq;
pub mod interning;
pub mod substitute;
pub mod names;
pub mod import_stage;
pub mod report;
pub mod lowering;
pub mod listing;
pub mod explorer_state;
