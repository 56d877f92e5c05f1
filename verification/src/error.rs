//! The errors of the Asmodeus toolchain.

use vstd::prelude::*;

verus! {

/// An error of the toolchain. The stages whose errors are carried here
/// (lexer, parser, assembler, machine, disassembler) report them as text.
#[derive(Debug, Clone)]
pub enum AsmodeusError {
    IoError(String),
    LexerError(String),
    ParserError(String),
    AssemblerError(String),
    MachineError(String),
    DisassemblerError(String),
    UsageError(String),
}

/// Whether `e` is a usage error with message `msg`.
pub open spec fn is_usage_error(e: AsmodeusError, msg: Seq<char>) -> bool {
    e matches AsmodeusError::UsageError(s) && s@ == msg
}

/// The text that an error is displayed as.
pub open spec fn error_text(e: AsmodeusError) -> Seq<char> {
    match e {
        AsmodeusError::IoError(s) => "I/O Error: "@ + s@,
        AsmodeusError::LexerError(s) => "Lexer Error: "@ + s@,
        AsmodeusError::ParserError(s) => "Parser Error: "@ + s@,
        AsmodeusError::AssemblerError(s) => "Assembler Error: "@ + s@,
        AsmodeusError::MachineError(s) => "Machine Error: "@ + s@,
        AsmodeusError::DisassemblerError(s) => "Disassembler Error: "@ + s@,
        AsmodeusError::UsageError(s) => "Usage Error: "@ + s@,
    }
}

/// A string made of `prefix` followed by `rest`.
pub fn concat_str(prefix: &str, rest: &str) -> (r: String)
    ensures
        r@ == prefix@ + rest@,
{
    let mut s = prefix.to_owned();
    s.append(rest);
    s
}

/// A usage error whose message is `prefix` followed by `rest`.
pub fn usage_error(prefix: &str, rest: &str) -> (e: AsmodeusError)
    ensures
        is_usage_error(e, prefix@ + rest@),
{
    AsmodeusError::UsageError(concat_str(prefix, rest))
}

/// A usage error with message `msg`.
pub fn usage(msg: &str) -> (e: AsmodeusError)
    ensures
        is_usage_error(e, msg@),
{
    AsmodeusError::UsageError(msg.to_owned())
}

impl AsmodeusError {
    /// The text this error is displayed as, such as `Usage Error: ...`.
    pub fn message(&self) -> (r: String)
        ensures
            r@ == error_text(*self),
    {
        match self {
            AsmodeusError::IoError(s) => concat_str("I/O Error: ", s.as_str()),
            AsmodeusError::LexerError(s) => concat_str("Lexer Error: ", s.as_str()),
            AsmodeusError::ParserError(s) => concat_str("Parser Error: ", s.as_str()),
            AsmodeusError::AssemblerError(s) => concat_str("Assembler Error: ", s.as_str()),
            AsmodeusError::MachineError(s) => concat_str("Machine Error: ", s.as_str()),
            AsmodeusError::DisassemblerError(s) => concat_str("Disassembler Error: ", s.as_str()),
            AsmodeusError::UsageError(s) => concat_str("Usage Error: ", s.as_str()),
        }
    }
}

} // verus!
