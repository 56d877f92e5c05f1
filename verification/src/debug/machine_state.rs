//! The `MACHINE STATE` panel: the registers and flags of Machine W.

use vstd::prelude::*;
use crate::text::{
    contains_str, lemma_contains_middle, decimal, hex_padded, spaces, decimal_exec, hex_padded_exec, chars_of, extend_chars,
    spaces_exec, string_of, string_views, lemma_digit_bounds,
};
use super::{
    RESET, border, boxed, center_text, max_nat, border_exec, boxed_exec, centered_exec,
};

verus! {

/// What the panel shows of a machine: its registers and flags.
#[derive(Debug, Clone, Copy, PartialEq, Eq, Structural)]
pub struct MachineState {
    /// The accumulator.
    pub ak: u16,
    /// The instruction counter.
    pub l: u16,
    /// The address part of the current instruction.
    pub ad: u16,
    /// The operation code of the current instruction.
    pub kod: u16,
    /// The stack pointer.
    pub ws: u16,
    /// Whether interrupts are enabled.
    pub interrupts_enabled: bool,
    /// The interrupt mask.
    pub interrupt_mask: u16,
    /// Whether the machine is running.
    pub is_running: bool,
}

/// The colour of the panel's title.
pub const TITLE_COLOR: &'static str = "\x1b[1m\x1b[38;5;214m";

/// The colour of a register's name.
pub const REGISTER_COLOR: &'static str = "\x1b[1m\x1b[38;5;33m";

/// The colour of a hexadecimal value.
pub const HEX_COLOR: &'static str = "\x1b[1m\x1b[37m";

/// The colour of the interrupt labels.
pub const FLAG_COLOR: &'static str = "\x1b[1m\x1b[38;5;208m";

/// The colour of the interrupt flag when it is set, and when it is not.
pub const INTERRUPTS_ON_COLOR: &'static str = "\x1b[1m\x1b[38;5;120m";

pub const INTERRUPTS_OFF_COLOR: &'static str = "\x1b[1m\x1b[38;5;210m";

/// The colour of the `Running:` label.
pub const RUNNING_LABEL_COLOR: &'static str = "\x1b[1m\x1b[38;5;218m";

/// The colour of the running flag when it is set, and when it is not.
pub const RUNNING_ON_COLOR: &'static str = "\x1b[1m\x1b[38;5;28m";

pub const RUNNING_OFF_COLOR: &'static str = "\x1b[1m\x1b[38;5;168m";

/// `true` or `false`, as `{}` prints a `bool`.
pub open spec fn bool_text(b: bool) -> Seq<char> {
    if b {
        "true"@
    } else {
        "false"@
    }
}

/// A register as `NAME: HEX (DECIMAL)`.
pub open spec fn register_text(label: Seq<char>, hex: Seq<char>, v: nat) -> Seq<char> {
    label + seq![' '] + hex + seq![' ', '('] + decimal(v) + seq![')']
}

/// A register as printed: its text in the register colour, so that the
/// text `NAME: HEX (DECIMAL)` stands in the output as it is.
pub open spec fn register_colored(label: Seq<char>, hex: Seq<char>, v: nat) -> Seq<char> {
    REGISTER_COLOR@ + register_text(label, hex, v) + RESET@
}

/// The visible text of the row of `AK`, `L` and `AD`. All texts of the panel
/// are ASCII, so their lengths in characters are their lengths in bytes.
pub open spec fn ak_line(s: MachineState) -> Seq<char> {
    register_text("AK:"@, hex_padded(s.ak as nat, 4), s.ak as nat) + spaces(4) + register_text(
        "L:"@,
        hex_padded(s.l as nat, 4),
        s.l as nat,
    ) + spaces(4) + register_text("AD:"@, hex_padded(s.ad as nat, 4), s.ad as nat)
}

pub open spec fn ak_colored(s: MachineState) -> Seq<char> {
    register_colored("AK:"@, hex_padded(s.ak as nat, 4), s.ak as nat) + spaces(4)
        + register_colored("L:"@, hex_padded(s.l as nat, 4), s.l as nat) + spaces(4)
        + register_colored("AD:"@, hex_padded(s.ad as nat, 4), s.ad as nat)
}

/// The visible text of the row of `KOD` and `WS`.
pub open spec fn kod_ws_line(s: MachineState) -> Seq<char> {
    register_text("KOD:"@, hex_padded(s.kod as nat, 2), s.kod as nat) + spaces(6)
        + register_text("WS:"@, hex_padded(s.ws as nat, 4), s.ws as nat)
}

pub open spec fn kod_ws_colored(s: MachineState) -> Seq<char> {
    register_colored("KOD:"@, hex_padded(s.kod as nat, 2), s.kod as nat) + spaces(6)
        + register_colored("WS:"@, hex_padded(s.ws as nat, 4), s.ws as nat)
}

/// The visible text of the interrupt row.
pub open spec fn interrupts_line(s: MachineState) -> Seq<char> {
    "Interrupts: "@ + bool_text(s.interrupts_enabled) + spaces(4) + "Mask: "@ + hex_padded(
        s.interrupt_mask as nat,
        4,
    )
}

pub open spec fn interrupts_colored(s: MachineState) -> Seq<char> {
    FLAG_COLOR@ + "Interrupts:"@ + RESET@ + seq![' '] + (if s.interrupts_enabled {
        INTERRUPTS_ON_COLOR@
    } else {
        INTERRUPTS_OFF_COLOR@
    }) + bool_text(s.interrupts_enabled) + RESET@ + spaces(4) + FLAG_COLOR@ + "Mask:"@ + RESET@
        + seq![' '] + HEX_COLOR@ + hex_padded(s.interrupt_mask as nat, 4) + RESET@
}

/// The visible text of the running row.
pub open spec fn running_line(s: MachineState) -> Seq<char> {
    "Running: "@ + bool_text(s.is_running)
}

pub open spec fn running_colored(s: MachineState) -> Seq<char> {
    RUNNING_LABEL_COLOR@ + "Running:"@ + RESET@ + seq![' '] + (if s.is_running {
        RUNNING_ON_COLOR@
    } else {
        RUNNING_OFF_COLOR@
    }) + bool_text(s.is_running) + RESET@
}

/// The width of the panel: four more than its longest text, and at least 50.
pub open spec fn state_width(s: MachineState) -> nat {
    let longest = max_nat(
        max_nat(
            max_nat(max_nat("MACHINE STATE"@.len(), ak_line(s).len()), kod_ws_line(s).len()),
            interrupts_line(s).len(),
        ),
        running_line(s).len(),
    );
    max_nat(longest + 4, 50)
}

/// A row that shows `colored` two spaces from the left edge, filled with
/// spaces after the visible `text` up to the right edge.
pub open spec fn state_row(width: nat, text: Seq<char>, colored: Seq<char>) -> Seq<char> {
    let used = 2 + text.len();
    let rem: nat = if used < width - 2 {
        (width - 2 - used) as nat
    } else {
        0
    };
    boxed(2, colored, rem)
}

/// An empty row.
pub open spec fn blank_row(width: nat) -> Seq<char> {
    seq!['│'] + spaces((width - 2) as nat) + seq!['│']
}

/// The lines that show the state `s`: a blank line, then the boxed panel.
pub open spec fn state_panel(s: MachineState) -> Seq<Seq<char>> {
    let w = state_width(s);
    seq![
        Seq::<char>::empty(),
        border('┌', '─', '┐', w),
        center_text(w, "MACHINE STATE"@, TITLE_COLOR@),
        border('├', '─', '┤', w),
        state_row(w, ak_line(s), ak_colored(s)),
        state_row(w, kod_ws_line(s), kod_ws_colored(s)),
        blank_row(w),
        state_row(w, interrupts_line(s), interrupts_colored(s)),
        blank_row(w),
        state_row(w, running_line(s), running_colored(s)),
        border('└', '─', '┘', w),
    ]
}

fn bool_text_exec(b: bool) -> (r: Vec<char>)
    ensures
        r@ == bool_text(b),
        r@.len() <= 5,
{
    proof {
        reveal_strlit("true");
        reveal_strlit("false");
    }
    if b {
        chars_of("true")
    } else {
        chars_of("false")
    }
}

fn register_text_exec(label: &str, v: u16, digits: usize) -> (r: Vec<char>)
    requires
        label@.len() <= 4,
        digits == 2 || digits == 4,
    ensures
        r@ == register_text(label@, hex_padded(v as nat, digits as nat), v as nat),
        r@.len() <= 17,
{
    proof {
        lemma_digit_bounds(v as nat);
    }
    let mut r = chars_of(label);
    r.push(' ');
    let h = hex_padded_exec(v as u64, digits);
    extend_chars(&mut r, &h);
    r.push(' ');
    r.push('(');
    let d = decimal_exec(v as u64);
    extend_chars(&mut r, &d);
    r.push(')');
    assert(r@ =~= register_text(label@, hex_padded(v as nat, digits as nat), v as nat));
    r
}

fn register_colored_exec(label: &str, v: u16, digits: usize) -> (r: Vec<char>)
    requires
        label@.len() <= 4,
        digits == 2 || digits == 4,
    ensures
        r@ == register_colored(label@, hex_padded(v as nat, digits as nat), v as nat),
{
    let mut r = chars_of(REGISTER_COLOR);
    let t = register_text_exec(label, v, digits);
    extend_chars(&mut r, &t);
    let reset = chars_of(RESET);
    extend_chars(&mut r, &reset);
    r
}

fn ak_line_exec(s: &MachineState) -> (r: Vec<char>)
    ensures
        r@ == ak_line(*s),
        r@.len() <= 59,
{
    proof {
        reveal_strlit("AK:");
        reveal_strlit("L:");
        reveal_strlit("AD:");
    }
    let mut r = register_text_exec("AK:", s.ak, 4);
    let gap = spaces_exec(4);
    extend_chars(&mut r, &gap);
    let l = register_text_exec("L:", s.l, 4);
    extend_chars(&mut r, &l);
    extend_chars(&mut r, &gap);
    let ad = register_text_exec("AD:", s.ad, 4);
    extend_chars(&mut r, &ad);
    r
}

fn ak_colored_exec(s: &MachineState) -> (r: Vec<char>)
    ensures
        r@ == ak_colored(*s),
{
    proof {
        reveal_strlit("AK:");
        reveal_strlit("L:");
        reveal_strlit("AD:");
    }
    let mut r = register_colored_exec("AK:", s.ak, 4);
    let gap = spaces_exec(4);
    extend_chars(&mut r, &gap);
    let l = register_colored_exec("L:", s.l, 4);
    extend_chars(&mut r, &l);
    extend_chars(&mut r, &gap);
    let ad = register_colored_exec("AD:", s.ad, 4);
    extend_chars(&mut r, &ad);
    r
}

fn kod_ws_line_exec(s: &MachineState) -> (r: Vec<char>)
    ensures
        r@ == kod_ws_line(*s),
        r@.len() <= 40,
{
    proof {
        reveal_strlit("KOD:");
        reveal_strlit("WS:");
    }
    let mut r = register_text_exec("KOD:", s.kod, 2);
    let gap = spaces_exec(6);
    extend_chars(&mut r, &gap);
    let ws = register_text_exec("WS:", s.ws, 4);
    extend_chars(&mut r, &ws);
    r
}

fn kod_ws_colored_exec(s: &MachineState) -> (r: Vec<char>)
    ensures
        r@ == kod_ws_colored(*s),
{
    proof {
        reveal_strlit("KOD:");
        reveal_strlit("WS:");
    }
    let mut r = register_colored_exec("KOD:", s.kod, 2);
    let gap = spaces_exec(6);
    extend_chars(&mut r, &gap);
    let ws = register_colored_exec("WS:", s.ws, 4);
    extend_chars(&mut r, &ws);
    r
}

fn interrupts_line_exec(s: &MachineState) -> (r: Vec<char>)
    ensures
        r@ == interrupts_line(*s),
        r@.len() <= 31,
{
    proof {
        reveal_strlit("Interrupts: ");
        reveal_strlit("Mask: ");
        lemma_digit_bounds(s.interrupt_mask as nat);
    }
    let mut r = chars_of("Interrupts: ");
    let b = bool_text_exec(s.interrupts_enabled);
    extend_chars(&mut r, &b);
    let gap = spaces_exec(4);
    extend_chars(&mut r, &gap);
    let m = chars_of("Mask: ");
    extend_chars(&mut r, &m);
    let h = hex_padded_exec(s.interrupt_mask as u64, 4);
    extend_chars(&mut r, &h);
    r
}

fn interrupts_colored_exec(s: &MachineState) -> (r: Vec<char>)
    ensures
        r@ == interrupts_colored(*s),
{
    let reset = chars_of(RESET);
    let flag = chars_of(FLAG_COLOR);
    let mut r = flag.clone();
    let l = chars_of("Interrupts:");
    extend_chars(&mut r, &l);
    extend_chars(&mut r, &reset);
    r.push(' ');
    let c = if s.interrupts_enabled {
        chars_of(INTERRUPTS_ON_COLOR)
    } else {
        chars_of(INTERRUPTS_OFF_COLOR)
    };
    extend_chars(&mut r, &c);
    let b = bool_text_exec(s.interrupts_enabled);
    extend_chars(&mut r, &b);
    extend_chars(&mut r, &reset);
    let gap = spaces_exec(4);
    extend_chars(&mut r, &gap);
    extend_chars(&mut r, &flag);
    let m = chars_of("Mask:");
    extend_chars(&mut r, &m);
    extend_chars(&mut r, &reset);
    r.push(' ');
    let hc = chars_of(HEX_COLOR);
    extend_chars(&mut r, &hc);
    let h = hex_padded_exec(s.interrupt_mask as u64, 4);
    extend_chars(&mut r, &h);
    extend_chars(&mut r, &reset);
    assert(r@ =~= interrupts_colored(*s));
    r
}

fn running_line_exec(s: &MachineState) -> (r: Vec<char>)
    ensures
        r@ == running_line(*s),
        r@.len() <= 14,
{
    proof {
        reveal_strlit("Running: ");
    }
    let mut r = chars_of("Running: ");
    let b = bool_text_exec(s.is_running);
    extend_chars(&mut r, &b);
    r
}

fn running_colored_exec(s: &MachineState) -> (r: Vec<char>)
    ensures
        r@ == running_colored(*s),
{
    let reset = chars_of(RESET);
    let mut r = chars_of(RUNNING_LABEL_COLOR);
    let l = chars_of("Running:");
    extend_chars(&mut r, &l);
    extend_chars(&mut r, &reset);
    r.push(' ');
    let c = if s.is_running {
        chars_of(RUNNING_ON_COLOR)
    } else {
        chars_of(RUNNING_OFF_COLOR)
    };
    extend_chars(&mut r, &c);
    let b = bool_text_exec(s.is_running);
    extend_chars(&mut r, &b);
    extend_chars(&mut r, &reset);
    assert(r@ =~= running_colored(*s));
    r
}

fn state_row_exec(width: usize, text_len: usize, colored: &Vec<char>) -> (r: Vec<char>)
    requires
        width >= 2,
    ensures
        forall|text: Seq<char>|
            text.len() == text_len ==> r@ == #[trigger] state_row(width as nat, text, colored@),
{
    let used = 2 + text_len as u128;
    let rem: usize = if used < (width - 2) as u128 {
        width - 2 - 2 - text_len
    } else {
        0
    };
    boxed_exec(2, colored, rem)
}

fn blank_row_exec(width: usize) -> (r: Vec<char>)
    requires
        width >= 2,
    ensures
        r@ == blank_row(width as nat),
{
    let mut r = vec!['│'];
    let sp = spaces_exec(width - 2);
    extend_chars(&mut r, &sp);
    r.push('│');
    assert(r@ =~= blank_row(width as nat));
    r
}

/// The width of the panel and the lengths of its four visible texts.
fn state_measures(state: &MachineState) -> (r: (usize, usize, usize, usize, usize))
    ensures
        r.0 == state_width(*state),
        r.0 >= 50,
        r.1 == ak_line(*state).len(),
        r.2 == kod_ws_line(*state).len(),
        r.3 == interrupts_line(*state).len(),
        r.4 == running_line(*state).len(),
{
    proof {
        reveal_strlit("MACHINE STATE");
    }
    let ak = ak_line_exec(state).len();
    let kod_ws = kod_ws_line_exec(state).len();
    let interrupts = interrupts_line_exec(state).len();
    let running = running_line_exec(state).len();
    let mut longest: usize = 13;
    if ak > longest {
        longest = ak;
    }
    if kod_ws > longest {
        longest = kod_ws;
    }
    if interrupts > longest {
        longest = interrupts;
    }
    if running > longest {
        longest = running;
    }
    let width: usize = if longest + 4 > 50 {
        longest + 4
    } else {
        50
    };
    (width, ak, kod_ws, interrupts, running)
}

/// The lines that show the machine's state, in the order they are printed.
pub fn machine_state_lines(state: &MachineState) -> (r: Vec<String>)
    ensures
        string_views(r@) == state_panel(*state),
{
    let (width, ak, kod_ws, interrupts, running) = state_measures(state);
    let ghost w = width as nat;
    let title = chars_of("MACHINE STATE");
    let mut title_row = chars_of(TITLE_COLOR);
    extend_chars(&mut title_row, &title);
    proof {
        reveal_strlit("MACHINE STATE");
    }
    let r0 = String::new();
    let r1 = string_of(&border_exec('┌', '─', '┐', width));
    let r2 = string_of(&centered_exec(width, title.len(), &title_row));
    let r3 = string_of(&border_exec('├', '─', '┤', width));
    let r4 = string_of(&state_row_exec(width, ak, &ak_colored_exec(state)));
    assert(r4@ == state_row(w, ak_line(*state), ak_colored(*state)));
    let r5 = string_of(&state_row_exec(width, kod_ws, &kod_ws_colored_exec(state)));
    assert(r5@ == state_row(w, kod_ws_line(*state), kod_ws_colored(*state)));
    let r6 = string_of(&blank_row_exec(width));
    let r7 = string_of(&state_row_exec(width, interrupts, &interrupts_colored_exec(state)));
    assert(r7@ == state_row(w, interrupts_line(*state), interrupts_colored(*state)));
    let r8 = string_of(&blank_row_exec(width));
    let r9 = string_of(&state_row_exec(width, running, &running_colored_exec(state)));
    assert(r9@ == state_row(w, running_line(*state), running_colored(*state)));
    let r10 = string_of(&border_exec('└', '─', '┘', width));
    let lines = vec![r0, r1, r2, r3, r4, r5, r6, r7, r8, r9, r10];
    assert(string_views(lines@) =~= state_panel(*state));
    lines
}


/// A row shows what its coloured text holds.
proof fn lemma_row_holds(
    w: nat,
    text: Seq<char>,
    colored: Seq<char>,
    pre: Seq<char>,
    t: Seq<char>,
    post: Seq<char>,
)
    requires
        colored == pre + t + post,
    ensures
        contains_str(state_row(w, text, colored), t),
{
    let row = state_row(w, text, colored);
    let head = seq!['│'] + spaces(2) + pre;
    let tail = row.skip((head.len() + t.len()) as int);
    assert(row =~= head + t + tail);
    lemma_contains_middle(head, t, tail);
}

/// The first register row shows `AK`, `L` and `AD` in plain text.
proof fn lemma_ak_row(s: MachineState, w: nat)
    ensures
        contains_str(
            state_row(w, ak_line(s), ak_colored(s)),
            register_text("AK:"@, hex_padded(s.ak as nat, 4), s.ak as nat),
        ),
        contains_str(
            state_row(w, ak_line(s), ak_colored(s)),
            register_text("L:"@, hex_padded(s.l as nat, 4), s.l as nat),
        ),
        contains_str(
            state_row(w, ak_line(s), ak_colored(s)),
            register_text("AD:"@, hex_padded(s.ad as nat, 4), s.ad as nat),
        ),
{
    let ak = register_text("AK:"@, hex_padded(s.ak as nat, 4), s.ak as nat);
    let l = register_text("L:"@, hex_padded(s.l as nat, 4), s.l as nat);
    let ad = register_text("AD:"@, hex_padded(s.ad as nat, 4), s.ad as nat);
    let g = REGISTER_COLOR@;
    let z = RESET@;
    let c = ak_colored(s);
    let x = g + ak + z;
    let y = g + l + z;
    let v = g + ad + z;
    assert(c == x + spaces(4) + y + spaces(4) + v);
    assert(c =~= g + ak + (z + spaces(4) + y + spaces(4) + v));
    lemma_row_holds(w, ak_line(s), c, g, ak, z + spaces(4) + y + spaces(4) + v);
    assert(c =~= (x + spaces(4) + g) + l + (z + spaces(4) + v));
    lemma_row_holds(w, ak_line(s), c, x + spaces(4) + g, l, z + spaces(4) + v);
    assert(c =~= (x + spaces(4) + y + spaces(4) + g) + ad + z);
    lemma_row_holds(w, ak_line(s), c, x + spaces(4) + y + spaces(4) + g, ad, z);
}

/// The second register row shows `KOD` and `WS` in plain text.
proof fn lemma_kod_row(s: MachineState, w: nat)
    ensures
        contains_str(
            state_row(w, kod_ws_line(s), kod_ws_colored(s)),
            register_text("KOD:"@, hex_padded(s.kod as nat, 2), s.kod as nat),
        ),
        contains_str(
            state_row(w, kod_ws_line(s), kod_ws_colored(s)),
            register_text("WS:"@, hex_padded(s.ws as nat, 4), s.ws as nat),
        ),
{
    let kod = register_text("KOD:"@, hex_padded(s.kod as nat, 2), s.kod as nat);
    let ws = register_text("WS:"@, hex_padded(s.ws as nat, 4), s.ws as nat);
    let g = REGISTER_COLOR@;
    let z = RESET@;
    let c = kod_ws_colored(s);
    let x = g + kod + z;
    assert(c == x + spaces(6) + (g + ws + z));
    assert(c =~= g + kod + (z + spaces(6) + g + ws + z));
    lemma_row_holds(w, kod_ws_line(s), c, g, kod, z + spaces(6) + g + ws + z);
    assert(c =~= (x + spaces(6) + g) + ws + z);
    lemma_row_holds(w, kod_ws_line(s), c, x + spaces(6) + g, ws, z);
}

/// The register rows show each register as `NAME: HEX (DECIMAL)`, in plain
/// text: `AK`, `L` and `AD` on the first, `KOD` and `WS` on the second.
#[verifier::spinoff_prover]
#[verifier::rlimit(40)]
pub proof fn law_state_shows_registers(s: MachineState)
    ensures
        contains_str(state_panel(s)[4], register_text("AK:"@, hex_padded(s.ak as nat, 4), s.ak as nat)),
        contains_str(state_panel(s)[4], register_text("L:"@, hex_padded(s.l as nat, 4), s.l as nat)),
        contains_str(state_panel(s)[4], register_text("AD:"@, hex_padded(s.ad as nat, 4), s.ad as nat)),
        contains_str(
            state_panel(s)[5],
            register_text("KOD:"@, hex_padded(s.kod as nat, 2), s.kod as nat),
        ),
        contains_str(state_panel(s)[5], register_text("WS:"@, hex_padded(s.ws as nat, 4), s.ws as nat)),
{
    let w = state_width(s);
    assert(state_panel(s)[4] == state_row(w, ak_line(s), ak_colored(s)));
    assert(state_panel(s)[5] == state_row(w, kod_ws_line(s), kod_ws_colored(s)));
    lemma_ak_row(s, w);
    lemma_kod_row(s, w);
}

} // verus!
