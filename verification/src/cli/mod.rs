//! The command line: modes, options and how arguments are read.

pub mod args;
pub mod commands;
