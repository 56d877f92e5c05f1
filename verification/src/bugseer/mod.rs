//! Bugseer, the interactive debugger: reading addresses and deciding what
//! each command does.

pub mod address_parser;
pub mod commands;
pub mod reports;
