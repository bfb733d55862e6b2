//! A small, statically typed, stack-oriented language: a type checker that
//! walks an instruction tree over an abstract stack of types, and an
//! interpreter that walks the same tree over a stack of runtime values.

pub mod checking;
pub mod execute;
pub mod instructions;
pub mod sink;
pub mod text;
pub mod types;
