//! Static analysis of `printf`, `sprintf` and `snprintf` calls in C source text.
//!
//! The source is scanned once; every call of a tracked function is split into
//! its arguments, its format string is scanned for specifiers, and specifiers
//! are matched against arguments. The result is either an intermediate
//! representation that covers the whole file, or every diagnostic found.
pub mod error;
pub mod ir;
pub mod lex;
pub mod parse;
