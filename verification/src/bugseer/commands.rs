//! The debugger's commands: what a line typed at the prompt asks for.
//! The debugger loop performs the action on the machine and prints.

use vstd::prelude::*;
use crate::text::{chars_of, eq_str, string_of, trim, trim_chars, views, words, words_exec};
use crate::error::AsmodeusError;
use crate::bugseer::address_parser::{address_outcome, address_value, parse_address};

verus! {

/// The last address of Machine W's memory.
pub const LAST_ADDRESS: u16 = 2047;

/// What a debugger command asks for.
#[derive(Debug)]
pub enum DebuggerAction {
    /// An empty line: prompt again.
    Nothing,
    /// Show the command list.
    Help,
    /// Execute one instruction (`s`, `step`, `n`, `next`).
    Step,
    /// Run until the program halts or reaches a breakpoint.
    Continue,
    /// Show the machine state.
    Display,
    /// Leave the debugger.
    Quit,
    /// Set a breakpoint at an address.
    SetBreakpoint(u16),
    /// Remove the breakpoint at an address.
    RemoveBreakpoint(u16),
    /// List the breakpoints.
    ListBreakpoints,
    /// Show memory from the first address to the second, both included.
    DumpMemory(u16, u16),
    /// The command was given the wrong arguments: show this usage line.
    Usage(String),
    /// Not a command: the word that was typed.
    Unknown(String),
}

/// Whether the address `s` read to `r` gives the action `act(value)`.
pub open spec fn address_action(
    s: Seq<char>,
    r: Result<DebuggerAction, AsmodeusError>,
    set: bool,
) -> bool {
    match address_value(s) {
        Some(a) => if set {
            r matches Ok(DebuggerAction::SetBreakpoint(b)) && b == a
        } else {
            r matches Ok(DebuggerAction::RemoveBreakpoint(b)) && b == a
        },
        None => r matches Err(e) && address_outcome(s, Err(e)),
    }
}

/// The default end of a memory dump: sixteen words from `start`, or the
/// end of memory (the sum is taken without bounds, so any start is fine).
pub open spec fn default_dump_end(start: u16) -> u16 {
    if start + 15 <= LAST_ADDRESS {
        (start + 15) as u16
    } else {
        LAST_ADDRESS
    }
}

/// What the memory dump command with arguments `ws[1..]` gives.
pub open spec fn dump_action(ws: Seq<Seq<char>>, r: Result<DebuggerAction, AsmodeusError>) -> bool {
    if ws.len() < 2 {
        r matches Ok(DebuggerAction::Usage(u)) && u@ == "Usage: m <start_addr> [end_addr]"@
    } else {
        match address_value(ws[1]) {
            None => r matches Err(e) && address_outcome(ws[1], Err(e)),
            Some(start) => if ws.len() >= 3 {
                match address_value(ws[2]) {
                    None => r matches Err(e) && address_outcome(ws[2], Err(e)),
                    Some(end) => r matches Ok(DebuggerAction::DumpMemory(a, b)) && a == start
                        && b == end,
                }
            } else {
                r matches Ok(DebuggerAction::DumpMemory(a, b)) && a == start && b
                    == default_dump_end(start)
            },
        }
    }
}

/// What the line `input` typed at the prompt asks for.
pub open spec fn planned(input: Seq<char>, r: Result<DebuggerAction, AsmodeusError>) -> bool {
    let ws = words(trim(input));
    if ws.len() == 0 {
        r matches Ok(DebuggerAction::Nothing)
    } else {
        let c = ws[0];
        if c == "h"@ || c == "help"@ {
            r matches Ok(DebuggerAction::Help)
        } else if c == "s"@ || c == "step"@ || c == "n"@ || c == "next"@ {
            r matches Ok(DebuggerAction::Step)
        } else if c == "c"@ || c == "continue"@ {
            r matches Ok(DebuggerAction::Continue)
        } else if c == "d"@ || c == "display"@ {
            r matches Ok(DebuggerAction::Display)
        } else if c == "q"@ || c == "quit"@ {
            r matches Ok(DebuggerAction::Quit)
        } else if c == "b"@ || c == "breakpoint"@ {
            if ws.len() != 2 {
                r matches Ok(DebuggerAction::Usage(u)) && u@ == "Usage: b <address>"@
            } else {
                address_action(ws[1], r, true)
            }
        } else if c == "rb"@ || c == "remove-breakpoint"@ {
            if ws.len() != 2 {
                r matches Ok(DebuggerAction::Usage(u)) && u@ == "Usage: rb <address>"@
            } else {
                address_action(ws[1], r, false)
            }
        } else if c == "lb"@ || c == "list-breakpoints"@ {
            r matches Ok(DebuggerAction::ListBreakpoints)
        } else if c == "m"@ || c == "memory"@ {
            dump_action(ws, r)
        } else {
            r matches Ok(DebuggerAction::Unknown(w)) && w@ == c
        }
    }
}

/// Reads the address in word `w`.
fn address_of(w: &Vec<char>) -> (r: Result<u16, AsmodeusError>)
    ensures
        address_outcome(w@, r),
{
    let s = string_of(w);
    parse_address(s.as_str())
}

/// Decides what the line `input` typed at the debugger prompt asks for.
/// An invalid address is an error, as it ends the debugger session.
pub fn plan_command(input: &str) -> (r: Result<DebuggerAction, AsmodeusError>)
    ensures
        planned(input@, r),
{
    let t = trim_chars(&chars_of(input));
    let parts = words_exec(&t);
    let ghost ws = words(trim(input@));
    assert(views(parts@) == ws);
    if parts.len() == 0 {
        return Ok(DebuggerAction::Nothing);
    }
    let command = string_of(&parts[0]);
    let c = command.as_str();
    assert(c@ == ws[0]);
    if eq_str(c, "h") || eq_str(c, "help") {
        Ok(DebuggerAction::Help)
    } else if eq_str(c, "s") || eq_str(c, "step") || eq_str(c, "n") || eq_str(c, "next") {
        Ok(DebuggerAction::Step)
    } else if eq_str(c, "c") || eq_str(c, "continue") {
        Ok(DebuggerAction::Continue)
    } else if eq_str(c, "d") || eq_str(c, "display") {
        Ok(DebuggerAction::Display)
    } else if eq_str(c, "q") || eq_str(c, "quit") {
        Ok(DebuggerAction::Quit)
    } else if eq_str(c, "b") || eq_str(c, "breakpoint") {
        if parts.len() != 2 {
            return Ok(DebuggerAction::Usage("Usage: b <address>".to_owned()));
        }
        assert(parts@[1]@ == ws[1]);
        match address_of(&parts[1]) {
            Ok(a) => Ok(DebuggerAction::SetBreakpoint(a)),
            Err(e) => Err(e),
        }
    } else if eq_str(c, "rb") || eq_str(c, "remove-breakpoint") {
        if parts.len() != 2 {
            return Ok(DebuggerAction::Usage("Usage: rb <address>".to_owned()));
        }
        assert(parts@[1]@ == ws[1]);
        match address_of(&parts[1]) {
            Ok(a) => Ok(DebuggerAction::RemoveBreakpoint(a)),
            Err(e) => Err(e),
        }
    } else if eq_str(c, "lb") || eq_str(c, "list-breakpoints") {
        Ok(DebuggerAction::ListBreakpoints)
    } else if eq_str(c, "m") || eq_str(c, "memory") {
        if parts.len() < 2 {
            return Ok(DebuggerAction::Usage("Usage: m <start_addr> [end_addr]".to_owned()));
        }
        assert(parts@[1]@ == ws[1]);
        let start = match address_of(&parts[1]) {
            Ok(a) => a,
            Err(e) => return Err(e),
        };
        let end = if parts.len() >= 3 {
            assert(parts@[2]@ == ws[2]);
            match address_of(&parts[2]) {
                Ok(a) => a,
                Err(e) => return Err(e),
            }
        } else {
            let next = start as u32 + 15;
            if next < LAST_ADDRESS as u32 {
                next as u16
            } else {
                LAST_ADDRESS
            }
        };
        Ok(DebuggerAction::DumpMemory(start, end))
    } else {
        Ok(DebuggerAction::Unknown(command))
    }
}

/// The message shown when the program stops during a debugging session:
/// success when the last opcode was `STP` (0b00111).
pub fn stop_message(kod: u8) -> (r: String)
    ensures
        r@ == if kod == 7 {
            "Program completed successfully."@
        } else {
            "Program halted unexpectedly."@
        },
{
    if kod == 0b00111 {
        "Program completed successfully.".to_owned()
    } else {
        "Program halted unexpectedly.".to_owned()
    }
}


/// Two texts whose first characters differ are different.
proof fn lemma_first_differs(c: Seq<char>, x: Seq<char>)
    requires
        c.len() > 0,
        x.len() > 0,
        c[0] != x[0],
    ensures
        c != x,
{
}

/// `m START` (or `memory START`) dumps sixteen words from `START`, clipped
/// at the last address of memory, whatever `START` is.
pub proof fn law_memory_dump_default(
    input: Seq<char>,
    start: Seq<char>,
    a: u16,
    r: Result<DebuggerAction, AsmodeusError>,
)
    requires
        words(trim(input)) == seq!["m"@, start] || words(trim(input)) == seq!["memory"@, start],
        address_value(start) == Some(a),
        planned(input, r),
    ensures
        r matches Ok(DebuggerAction::DumpMemory(x, y)) && x == a && y == (if a + 15 <= 2047 {
            a + 15
        } else {
            2047
        }),
{
    reveal_strlit("m");
    reveal_strlit("memory");
    let ws = words(trim(input));
    let c = ws[0];
    assert(c.len() > 0 && c[0] == 'm');
    reveal_strlit("h");
    lemma_first_differs(c, "h"@);
    reveal_strlit("help");
    lemma_first_differs(c, "help"@);
    reveal_strlit("s");
    lemma_first_differs(c, "s"@);
    reveal_strlit("step");
    lemma_first_differs(c, "step"@);
    reveal_strlit("n");
    lemma_first_differs(c, "n"@);
    reveal_strlit("next");
    lemma_first_differs(c, "next"@);
    reveal_strlit("c");
    lemma_first_differs(c, "c"@);
    reveal_strlit("continue");
    lemma_first_differs(c, "continue"@);
    reveal_strlit("d");
    lemma_first_differs(c, "d"@);
    reveal_strlit("display");
    lemma_first_differs(c, "display"@);
    reveal_strlit("q");
    lemma_first_differs(c, "q"@);
    reveal_strlit("quit");
    lemma_first_differs(c, "quit"@);
    reveal_strlit("b");
    lemma_first_differs(c, "b"@);
    reveal_strlit("breakpoint");
    lemma_first_differs(c, "breakpoint"@);
    reveal_strlit("rb");
    lemma_first_differs(c, "rb"@);
    reveal_strlit("remove-breakpoint");
    lemma_first_differs(c, "remove-breakpoint"@);
    reveal_strlit("lb");
    lemma_first_differs(c, "lb"@);
    reveal_strlit("list-breakpoints");
    lemma_first_differs(c, "list-breakpoints"@);
    assert(ws.len() == 2 && ws[1] == start);
}

} // verus!

verus! {

/// Whether `long` is the full name of the debugger command whose short
/// name is `short`.
pub open spec fn command_names(long: Seq<char>, short: Seq<char>) -> bool {
    ||| long == "help"@ && short == "h"@
    ||| long == "step"@ && short == "s"@
    ||| long == "next"@ && short == "n"@
    ||| long == "continue"@ && short == "c"@
    ||| long == "display"@ && short == "d"@
    ||| long == "quit"@ && short == "q"@
    ||| long == "breakpoint"@ && short == "b"@
    ||| long == "remove-breakpoint"@ && short == "rb"@
    ||| long == "list-breakpoints"@ && short == "lb"@
    ||| long == "memory"@ && short == "m"@
}

/// A command typed by its full name asks for just what it asks for typed
/// by its short name: for two lines whose words differ only in the first,
/// the full and the short name of one command, every result planned for
/// one is planned for the other.
pub proof fn law_long_and_short_commands_agree(
    long_input: Seq<char>,
    short_input: Seq<char>,
    r: Result<DebuggerAction, AsmodeusError>,
)
    requires
        words(trim(long_input)).len() > 0,
        words(trim(short_input)) == words(trim(long_input)).update(0, words(trim(short_input))[0]),
        command_names(words(trim(long_input))[0], words(trim(short_input))[0]),
    ensures
        planned(long_input, r) == planned(short_input, r),
{
    reveal_strlit("h");
    reveal_strlit("help");
    reveal_strlit("s");
    reveal_strlit("step");
    reveal_strlit("n");
    reveal_strlit("next");
    reveal_strlit("c");
    reveal_strlit("continue");
    reveal_strlit("d");
    reveal_strlit("display");
    reveal_strlit("q");
    reveal_strlit("quit");
    reveal_strlit("b");
    reveal_strlit("breakpoint");
    reveal_strlit("rb");
    reveal_strlit("remove-breakpoint");
    reveal_strlit("lb");
    reveal_strlit("list-breakpoints");
    reveal_strlit("m");
    reveal_strlit("memory");
    let wl = words(trim(long_input));
    let ws = words(trim(short_input));
    assert(ws.len() == wl.len());
    assert(ws.len() >= 2 ==> ws[1] == wl[1]);
    assert(ws.len() >= 3 ==> ws[2] == wl[2]);
    assert(dump_action(wl, r) == dump_action(ws, r));
    let l = wl[0];
    let c = ws[0];
    let names = seq![
        "h"@, "help"@, "s"@, "step"@, "n"@, "next"@, "c"@, "continue"@, "d"@, "display"@,
        "q"@, "quit"@, "b"@, "breakpoint"@, "rb"@, "remove-breakpoint"@, "lb"@,
        "list-breakpoints"@, "m"@, "memory"@,
    ];
    assert forall|i: int, j: int| 0 <= i < names.len() && 0 <= j < names.len() && i != j
        implies #[trigger] names[i] != #[trigger] names[j] by {
        if names[i] == names[j] {
            assert(names[i].len() == names[j].len());
            assert(names[i][0] == names[j][0]);
            assert(names[i].len() > 1 ==> names[i][1] == names[j][1]);
        }
    }
    assert(names[0] == "h"@);
    assert(names[1] == "help"@);
    assert(names[2] == "s"@);
    assert(names[3] == "step"@);
    assert(names[4] == "n"@);
    assert(names[5] == "next"@);
    assert(names[6] == "c"@);
    assert(names[7] == "continue"@);
    assert(names[8] == "d"@);
    assert(names[9] == "display"@);
    assert(names[10] == "q"@);
    assert(names[11] == "quit"@);
    assert(names[12] == "b"@);
    assert(names[13] == "breakpoint"@);
    assert(names[14] == "rb"@);
    assert(names[15] == "remove-breakpoint"@);
    assert(names[16] == "lb"@);
    assert(names[17] == "list-breakpoints"@);
    assert(names[18] == "m"@);
    assert(names[19] == "memory"@);
}

} // verus!
