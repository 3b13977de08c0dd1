//! A minimal language front-end and execution pipeline: a tokenizer, a
//! recursive-descent parser, a tree-to-bytecode generator and a stack-based
//! virtual machine, together with the tagged value cell and the
//! reference-counted heap object that back the machine's values.

pub mod eval;
pub mod generator;
pub mod inst;
pub mod parser;
pub mod tokenizer;
pub mod value;
pub mod vm;

pub use inst::Inst;
pub use value::Object;
pub use value::Value;
pub use vm::VM;
