//! A small expression/statement language and its runtime: a lexer and
//! recursive-descent parser, a compiler that lowers programs into linear
//! bytecode, and a virtual machine that executes that bytecode with
//! cooperative multi-threading and counting semaphores.
//!
//! Persistence of compiled programs (the `.o2` files) and every other piece
//! of I/O live outside the library, in the accompanying command-line
//! driver, which serialises its own copies of the library's types; a value
//! holding a live environment reference deliberately refuses to persist.

pub mod builtin;
pub mod bytecode;
pub mod compiler;
pub mod error;
pub mod environment;
pub mod lexer;
pub mod machine;
pub mod micro_code;
pub mod parser;
pub mod runtime;
pub mod thread;
pub mod value;
