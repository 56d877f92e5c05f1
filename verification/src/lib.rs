//! Asmodeus: the source formatter, command-line rules, debugger command
//! planning, catalogs of examples and templates, binary encoding and the
//! printed panels of the Machine W toolchain.

pub mod text;
pub mod error;
pub mod formatter;
pub mod bugseer;
pub mod cli;
pub mod file_utils;
pub mod modes;
pub mod paths;
pub mod catalog;
pub mod catalog_laws;
pub mod examples_manager;
pub mod template_generator;
pub mod debug;
