//! Small programs from a Rust course, as a verified library: a toy
//! language front end, a key-value command service, string utilities
//! and the computational cores of a few command-line tools.

pub mod text;
pub mod lang;
pub mod fib;
pub mod strtok;
pub mod kv;
pub mod httpie;
pub mod dialect;
pub mod grep;
