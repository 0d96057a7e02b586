//! Conversion of an embedded IDE's per-target dependency trace into a
//! compilation database: trace parsing, argument tokenizing and merging,
//! argument transforms and drive-letter path rewriting.

pub mod command;
pub mod convertor;
pub mod disk;
pub mod text;
pub mod toolchain;
pub mod trace;
