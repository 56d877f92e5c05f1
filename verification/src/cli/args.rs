//! The modes and options that the command line selects.

use vstd::prelude::*;

verus! {

/// What the tool is asked to do.
#[derive(Debug, Clone, Copy, PartialEq, Eq, Structural)]
pub enum Mode {
    Assemble,
    Disassemble,
    Run,
    Debug,
    Interactive,
    Examples,
    New,
    Check,
    Format,
    Help,
}

/// The parsed command line.
#[derive(Debug, Clone)]
pub struct Args {
    pub mode: Mode,
    pub input_file: Option<String>,
    pub output_file: Option<String>,
    pub verbose: bool,
    pub debug: bool,
    pub extended: bool,
    pub watch: bool,
}

/// The parsed command line as plain values.
pub ghost struct ArgsModel {
    pub mode: Mode,
    pub input_file: Option<Seq<char>>,
    pub output_file: Option<Seq<char>>,
    pub verbose: bool,
    pub debug: bool,
    pub extended: bool,
    pub watch: bool,
}

/// The view of an optional string.
pub open spec fn opt_view(o: Option<String>) -> Option<Seq<char>> {
    match o {
        Some(s) => Some(s@),
        None => None,
    }
}

impl Args {
    /// This command line as plain values.
    pub open spec fn model(&self) -> ArgsModel {
        ArgsModel {
            mode: self.mode,
            input_file: opt_view(self.input_file),
            output_file: opt_view(self.output_file),
            verbose: self.verbose,
            debug: self.debug,
            extended: self.extended,
            watch: self.watch,
        }
    }
}

} // verus!
