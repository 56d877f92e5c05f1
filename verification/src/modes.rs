//! The modes of the tool: which input each needs and what it shows. The
//! work itself (assembling, running, disassembling) is done by the program
//! around this library.

use vstd::prelude::*;
use crate::cli::args::{opt_view, Args, Mode};
use crate::error::{is_usage_error, usage, AsmodeusError};
use crate::file_utils::{extension_outcome, path_extension, validate_file_extension};
use crate::text::{decimal, decimal_exec, hex_padded, hex_padded_exec, string_of, string_views};

verus! {

/// What selecting the input file for `mode` gives: the file when it is named
/// and has the right extension, the usage error `missing` when none is named,
/// or the extension's error.
pub open spec fn input_outcome(
    input: Option<Seq<char>>,
    mode: Mode,
    missing: Seq<char>,
    r: Result<String, AsmodeusError>,
) -> bool {
    match input {
        None => r matches Err(e) && is_usage_error(e, missing),
        Some(p) => match r {
            Ok(s) => s@ == p && extension_outcome(path_extension(p), mode, Ok(())),
            Err(e) => extension_outcome(path_extension(p), mode, Err(e)),
        },
    }
}

/// The input file named in `args`, checked for `mode`.
fn checked_input(args: &Args, mode: Mode, missing: &str) -> (r: Result<String, AsmodeusError>)
    ensures
        input_outcome(opt_view(args.input_file), mode, missing@, r),
{
    match &args.input_file {
        None => Err(usage(missing)),
        Some(path) => {
            match validate_file_extension(path.as_str(), mode) {
                Ok(()) => Ok(path.clone()),
                Err(e) => Err(e),
            }
        },
    }
}

/// How the run mode proceeds.
#[derive(Debug)]
pub enum RunPlan {
    /// Assemble and run this file once.
    Once(String),
    /// Watch this file and run it whenever it changes.
    Watch(String),
}

/// The source file for the assemble mode.
pub fn run_mode_assemble(args: &Args) -> (r: Result<String, AsmodeusError>)
    ensures
        input_outcome(opt_view(args.input_file), Mode::Assemble, "No input file specified"@, r),
{
    checked_input(args, Mode::Assemble, "No input file specified")
}

/// The source file for the watch mode.
pub fn run_mode_watch(args: &Args) -> (r: Result<String, AsmodeusError>)
    ensures
        input_outcome(
            opt_view(args.input_file),
            Mode::Run,
            "No input file specified for watch mode"@,
            r,
        ),
{
    checked_input(args, Mode::Run, "No input file specified for watch mode")
}

/// How the run mode proceeds: watching when asked to, else one run.
pub fn run_mode_run(args: &Args) -> (r: Result<RunPlan, AsmodeusError>)
    ensures
        match r {
            Ok(RunPlan::Watch(p)) => args.watch && input_outcome(
                opt_view(args.input_file),
                Mode::Run,
                "No input file specified for watch mode"@,
                Ok(p),
            ),
            Ok(RunPlan::Once(p)) => !args.watch && input_outcome(
                opt_view(args.input_file),
                Mode::Run,
                "No input file specified"@,
                Ok(p),
            ),
            Err(e) => if args.watch {
                input_outcome(
                    opt_view(args.input_file),
                    Mode::Run,
                    "No input file specified for watch mode"@,
                    Err(e),
                )
            } else {
                input_outcome(
                    opt_view(args.input_file),
                    Mode::Run,
                    "No input file specified"@,
                    Err(e),
                )
            },
        },
{
    if args.watch {
        let s = run_mode_watch(args);
        match s {
            Ok(p) => Ok(RunPlan::Watch(p)),
            Err(e) => Err(e),
        }
    } else {
        let s = checked_input(args, Mode::Run, "No input file specified");
        match s {
            Ok(p) => Ok(RunPlan::Once(p)),
            Err(e) => Err(e),
        }
    }
}

/// The binary file for the disassemble mode.
pub fn run_mode_disassemble(args: &Args) -> (r: Result<String, AsmodeusError>)
    ensures
        input_outcome(opt_view(args.input_file), Mode::Disassemble, "No input file specified"@, r),
{
    checked_input(args, Mode::Disassemble, "No input file specified")
}

/// The source file for the debug mode.
pub fn run_mode_debug(args: &Args) -> (r: Result<String, AsmodeusError>)
    ensures
        input_outcome(
            opt_view(args.input_file),
            Mode::Debug,
            "No input file specified for debug mode. Please provide a .asmod file to debug."@,
            r,
        ),
{
    checked_input(
        args,
        Mode::Debug,
        "No input file specified for debug mode. Please provide a .asmod file to debug.",
    )
}

/// The source file for the interactive mode.
pub fn run_mode_interactive(args: &Args) -> (r: Result<String, AsmodeusError>)
    ensures
        input_outcome(
            opt_view(args.input_file),
            Mode::Interactive,
            "No input file specified for interactive mode"@,
            r,
        ),
{
    checked_input(args, Mode::Interactive, "No input file specified for interactive mode")
}

/// One line of a machine-code listing: address and word in four hex digits,
/// then the word in decimal.
pub open spec fn listing_line(i: nat, w: u16) -> Seq<char> {
    "  "@ + hex_padded(i, 4) + ": "@ + hex_padded(w as nat, 4) + " ("@ + decimal(w as nat) + ")"@
}

/// What the assemble mode shows when no output file is named.
pub open spec fn listing(code: Seq<u16>) -> Seq<Seq<char>> {
    seq!["Assembly successful!"@, "Machine code ("@ + decimal(code.len()) + " words):"@]
        + Seq::new(code.len(), |i: int| listing_line(i as nat, code[i]))
}

/// The lines that the assemble mode shows for `machine_code`.
pub fn assembly_listing(machine_code: &[u16]) -> (r: Vec<String>)
    ensures
        string_views(r@) == listing(machine_code@),
{
    let mut lines: Vec<String> = Vec::new();
    lines.push("Assembly successful!".to_owned());
    let mut head = "Machine code (".to_owned();
    let count = string_of(&decimal_exec(machine_code.len() as u64));
    head.append(count.as_str());
    head.append(" words):");
    lines.push(head);
    let mut i: usize = 0;
    while i < machine_code.len()
        invariant
            i <= machine_code@.len(),
            string_views(lines@) == listing(machine_code@).take(i + 2),
        decreases machine_code@.len() - i,
    {
        let w = machine_code[i];
        let mut line = "  ".to_owned();
        line.append(string_of(&hex_padded_exec(i as u64, 4)).as_str());
        line.append(": ");
        line.append(string_of(&hex_padded_exec(w as u64, 4)).as_str());
        line.append(" (");
        line.append(string_of(&decimal_exec(w as u64)).as_str());
        line.append(")");
        let ghost before = string_views(lines@);
        lines.push(line);
        i += 1;
        assert(string_views(lines@) =~= before.push(line@));
        assert(string_views(lines@) =~= listing(machine_code@).take(i + 2));
    }
    assert(listing(machine_code@).take(machine_code@.len() + 2int) =~= listing(machine_code@));
    lines
}


/// One look of the watch loop at the file: `modified` is its modification
/// time now (none when it could not be read), `last_modified` the time of
/// the last run. The result is the time to remember and whether to run the
/// program again: only a strictly later time triggers a run.
pub fn watch_check(last_modified: u128, modified: Option<u128>) -> (r: (u128, bool))
    ensures
        r == (if modified is Some && modified->0 > last_modified {
            (modified->0, true)
        } else {
            (last_modified, false)
        }),
{
    match modified {
        Some(m) => if m > last_modified {
            (m, true)
        } else {
            (last_modified, false)
        },
        None => (last_modified, false),
    }
}

} // verus!

verus! {

/// Whether `c` is a hexadecimal digit written in upper case.
pub open spec fn is_upper_hex_digit(c: char) -> bool {
    ||| '0' as u32 <= c as u32 <= '9' as u32
    ||| 'A' as u32 <= c as u32 <= 'F' as u32
}

/// The value of the upper-case hexadecimal digit `c`.
pub open spec fn hex_digit_value(c: char) -> int {
    if c as u32 <= '9' as u32 {
        c as u32 - '0' as u32
    } else {
        c as u32 - 'A' as u32 + 10
    }
}

/// The number that the hexadecimal digits `s` denote, the most significant
/// first.
pub open spec fn hex_value(s: Seq<char>) -> int
    decreases s.len(),
{
    if s.len() == 0 {
        0
    } else {
        16 * hex_value(s.drop_last()) + hex_digit_value(s.last())
    }
}

/// Whether every character of `s` is an upper-case hexadecimal digit.
pub open spec fn all_upper_hex(s: Seq<char>) -> bool {
    forall|k: int| 0 <= k < s.len() ==> is_upper_hex_digit(#[trigger] s[k])
}

proof fn lemma_digit_char(d: nat)
    requires
        d < 16,
    ensures
        is_upper_hex_digit(crate::text::digit_char(d)),
        hex_digit_value(crate::text::digit_char(d)) == d,
{
    assert(0 <= d < 16);
    assert(d == 0 || d == 1 || d == 2 || d == 3 || d == 4 || d == 5 || d == 6 || d == 7 || d == 8
        || d == 9 || d == 10 || d == 11 || d == 12 || d == 13 || d == 14 || d == 15);
}

proof fn lemma_hex_digits(n: nat)
    ensures
        all_upper_hex(crate::text::hex(n)),
        hex_value(crate::text::hex(n)) == n,
    decreases n,
{
    let h = crate::text::hex(n);
    if n < 16 {
        lemma_digit_char(n);
        assert(h.drop_last() =~= Seq::<char>::empty());
        assert(hex_value(h) == 16 * hex_value(h.drop_last()) + hex_digit_value(h.last()));
    } else {
        lemma_hex_digits(n / 16);
        lemma_digit_char(n % 16);
        let p = crate::text::hex(n / 16);
        assert(h == p.push(crate::text::digit_char(n % 16)));
        assert(h.drop_last() =~= p);
        assert(h.last() == crate::text::digit_char(n % 16));
        assert(hex_value(h) == 16 * hex_value(p) + hex_digit_value(h.last()));
        assert(n == 16 * (n / 16) + n % 16);
        assert forall|k: int| 0 <= k < h.len() implies is_upper_hex_digit(#[trigger] h[k]) by {
            if k < p.len() {
                assert(h[k] == p[k]);
            }
        }
    }
}

/// Leading zeros do not change a hexadecimal value.
proof fn lemma_leading_zeros(z: nat, s: Seq<char>)
    ensures
        hex_value(Seq::new(z, |i: int| '0') + s) == hex_value(s),
    decreases s.len(), z,
{
    let zs = Seq::new(z, |i: int| '0');
    if s.len() == 0 {
        if z > 0 {
            let zd = Seq::new((z - 1) as nat, |i: int| '0');
            assert((zs + s).drop_last() =~= zd + s);
            lemma_leading_zeros((z - 1) as nat, s);
        } else {
            assert(zs + s =~= s);
        }
    } else {
        assert((zs + s).drop_last() =~= zs + s.drop_last());
        lemma_leading_zeros(z, s.drop_last());
    }
}

/// `n` zero-padded to at least four hexadecimal digits.
proof fn lemma_hex_padded(n: nat)
    ensures
        all_upper_hex(hex_padded(n, 4)),
        hex_value(hex_padded(n, 4)) == n,
        hex_padded(n, 4).len() >= 4,
        n < 0x10000 ==> hex_padded(n, 4).len() == 4,
{
    let h = crate::text::hex(n);
    let a = hex_padded(n, 4);
    lemma_hex_digits(n);
    if h.len() < 4 {
        lemma_leading_zeros((4 - h.len()) as nat, h);
        let zs = Seq::new((4 - h.len()) as nat, |j: int| '0');
        assert(a == zs + h);
        assert forall|k: int| 0 <= k < a.len() implies is_upper_hex_digit(#[trigger] a[k]) by {
            if k >= zs.len() {
                assert(a[k] == h[k - zs.len()]);
            }
        }
    }
    if n < 0x10000 {
        crate::text::lemma_digit_bounds(n);
    }
}

/// Whether `c` is a decimal digit.
pub open spec fn is_decimal_digit(c: char) -> bool {
    '0' as u32 <= c as u32 <= '9' as u32
}

/// The number that the decimal digits `s` denote, the most significant
/// first.
pub open spec fn decimal_value(s: Seq<char>) -> int
    decreases s.len(),
{
    if s.len() == 0 {
        0
    } else {
        10 * decimal_value(s.drop_last()) + (s.last() as u32 - '0' as u32)
    }
}

/// Whether `s` is a number written in decimal the usual way: digits only,
/// and no leading zero unless the number is zero.
pub open spec fn plain_decimal(s: Seq<char>) -> bool {
    &&& s.len() > 0
    &&& forall|k: int| 0 <= k < s.len() ==> is_decimal_digit(#[trigger] s[k])
    &&& (s.len() == 1 || s[0] != '0')
}

proof fn lemma_decimal_digits(n: nat)
    ensures
        plain_decimal(decimal(n)),
        decimal_value(decimal(n)) == n,
        n > 0 ==> decimal(n)[0] != '0',
    decreases n,
{
    let d = decimal(n);
    if n < 10 {
        lemma_digit_char(n);
        assert(d.drop_last() =~= Seq::<char>::empty());
        assert(decimal_value(d) == 10 * decimal_value(d.drop_last()) + (d.last() as u32 - '0' as u32));
    } else {
        lemma_decimal_digits(n / 10);
        lemma_digit_char(n % 10);
        let p = decimal(n / 10);
        assert(d == p.push(crate::text::digit_char(n % 10)));
        assert(d.drop_last() =~= p);
        assert(d.last() == crate::text::digit_char(n % 10));
        assert(decimal_value(d) == 10 * decimal_value(p) + (d.last() as u32 - '0' as u32));
        assert(n == 10 * (n / 10) + n % 10);
        assert(d[0] == p[0]);
        assert forall|k: int| 0 <= k < d.len() implies is_decimal_digit(#[trigger] d[k]) by {
            if k < p.len() {
                assert(d[k] == p[k]);
            }
        }
    }
}

/// The machine-code listing writes each word's address in hexadecimal:
/// the line of word `i` is two spaces, then upper-case hexadecimal digits
/// whose value is `i` (four of them for an address below `0x10000`), then
/// `: `.
pub proof fn law_listing_addresses(code: Seq<u16>, i: int)
    requires
        0 <= i < code.len(),
    ensures
        exists|a: Seq<char>, rest: Seq<char>|
            #![trigger hex_value(a), rest.len()]
            listing(code)[i + 2] == "  "@ + a + ": "@ + rest && all_upper_hex(a) && hex_value(a)
                == i && a.len() >= 4 && (i < 0x10000 ==> a.len() == 4),
{
    let a = hex_padded(i as nat, 4);
    lemma_hex_padded(i as nat);
    let w = code[i];
    let rest = hex_padded(w as nat, 4) + " ("@ + decimal(w as nat) + ")"@;
    assert(listing(code)[i + 2] == listing_line(i as nat, w));
    assert(listing_line(i as nat, w) =~= "  "@ + a + ": "@ + rest);
    assert(hex_value(a) == i && rest.len() >= 0);
}

/// The head of the machine-code listing: `Assembly successful!`, then
/// `Machine code (N words):` with `N` the number of words in decimal, then
/// one line per word.
pub proof fn law_listing_head(code: Seq<u16>)
    ensures
        listing(code).len() == code.len() + 2,
        listing(code)[0] == "Assembly successful!"@,
        exists|n: Seq<char>|
            #![trigger decimal_value(n)]
            listing(code)[1] == "Machine code ("@ + n + " words):"@ && plain_decimal(n)
                && decimal_value(n) == code.len(),
{
    lemma_decimal_digits(code.len());
    let n = decimal(code.len());
    assert(decimal_value(n) == code.len());
}

/// The line of word `i` in the machine-code listing: two spaces, the
/// address `i` in upper-case hexadecimal (four digits below `0x10000`),
/// `: `, the word in four upper-case hexadecimal digits, and the word in
/// decimal in parentheses.
pub proof fn law_listing_lines(code: Seq<u16>, i: int)
    requires
        0 <= i < code.len(),
    ensures
        exists|a: Seq<char>, h: Seq<char>, d: Seq<char>|
            #![trigger hex_value(a), hex_value(h), decimal_value(d)]
            listing(code)[i + 2] == "  "@ + a + ": "@ + h + " ("@ + d + ")"@ && all_upper_hex(a)
                && hex_value(a) == i && a.len() >= 4 && (i < 0x10000 ==> a.len() == 4)
                && all_upper_hex(h) && h.len() == 4 && hex_value(h) == code[i] && plain_decimal(d)
                && decimal_value(d) == code[i],
{
    let w = code[i];
    let a = hex_padded(i as nat, 4);
    let h = hex_padded(w as nat, 4);
    let d = decimal(w as nat);
    lemma_hex_padded(i as nat);
    lemma_hex_padded(w as nat);
    lemma_decimal_digits(w as nat);
    assert(listing(code)[i + 2] == listing_line(i as nat, w));
    assert(hex_value(a) == i && hex_value(h) == w && decimal_value(d) == w);
}

} // verus!
